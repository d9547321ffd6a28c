# agent-book-translate

A command-line EPUB translator driven by OpenAI-compatible chat APIs, with
SQLite chunk checkpoints, pause and resume of background jobs, and a QA
scanner for finished books.

The crate is written in Verus. `src/` is the verified library:

- `agent` — reading translations and critique reports out of model replies
  (JSON healing, wrapper unwrapping, usage counts) and the retry decision of
  each request attempt.
- `pipeline::parser` — chunk extraction from HTML, escaping, bilingual and
  in-place rendering of translated chunks.
- `pipeline::engine` — the translation run as a state machine: pause checks,
  checkpoint reuse, model requests and writing the book; a translation that
  still holds a JSON wrapper fragment is never stored as completed.
- `pipeline::progress`, `job` — job states, their metrics and the pause and
  resume transitions.
- `pipeline::qa`, `pipeline::migration`, `db` — leakage scanning and the QA
  summary, checkpoint repair and the map of completed chunks.
- `config` — settings and their precedence: command line, environment,
  configuration file, defaults.

`app/` is the program around it: the command line, files, the network,
SQLite and the archive format.
