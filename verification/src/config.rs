//! Settings of a translation run and the order in which their sources win:
//! built-in defaults, then the configuration file, then environment
//! variables, then command-line flags.

use vstd::prelude::*;

verus! {

/// How hard a reasoning model is asked to think.
#[derive(Debug, Clone, Copy, PartialEq, Eq, Structural)]
pub enum ReasoningIntensity {
    Low,
    Middle,
    High,
    Xhigh,
    Max,
}

/// Whether reasoning is asked for, and how much.
#[derive(Debug, Clone, Copy, PartialEq, Eq, Structural)]
pub struct ReasoningConfig {
    pub enable: bool,
    pub intensity: ReasoningIntensity,
}

impl Default for ReasoningConfig {
    fn default() -> (res: Self)
        ensures
            res == (ReasoningConfig { enable: false, intensity: ReasoningIntensity::Low }),
    {
        ReasoningConfig { enable: false, intensity: ReasoningIntensity::Low }
    }
}

/// The settings of a translation run. The spending cap is a binary64 float
/// that this struct carries as its bit pattern (`f64::to_bits`); nothing here
/// computes with it.
#[derive(Debug, Clone)]
pub struct AppConfig {
    pub base_url: String,
    pub api_key: String,
    pub default_model: String,
    pub concurrency: usize,
    pub bilingual: bool,
    pub max_spend_usd_bits: Option<u64>,
    pub http_proxy: Option<String>,
    pub reasoning: ReasoningConfig,
    pub target_language: String,
}

/// The built-in settings: OpenRouter's endpoint, no key, the
/// `mimo-v2.5-pro` model, five requests at a time, single-language output,
/// no spending cap, no proxy, reasoning off, translation into Chinese.
pub open spec fn is_default_config(c: AppConfig) -> bool {
    &&& c.base_url@ == "https://openrouter.ai/api/v1"@
    &&& c.api_key@.len() == 0
    &&& c.default_model@ == "mimo-v2.5-pro"@
    &&& c.concurrency == 5
    &&& !c.bilingual
    &&& c.max_spend_usd_bits is None
    &&& c.http_proxy is None
    &&& c.reasoning == (ReasoningConfig { enable: false, intensity: ReasoningIntensity::Low })
    &&& c.target_language@ == "Chinese"@
}

impl Default for AppConfig {
    fn default() -> (res: Self)
        ensures
            is_default_config(res),
    {
        AppConfig {
            base_url: String::from_str("https://openrouter.ai/api/v1"),
            api_key: String::new(),
            default_model: String::from_str("mimo-v2.5-pro"),
            concurrency: 5,
            bilingual: false,
            max_spend_usd_bits: None,
            http_proxy: None,
            reasoning: ReasoningConfig::default(),
            target_language: String::from_str("Chinese"),
        }
    }
}

/// The `[reasoning]` table of a configuration file.
#[derive(Debug, Clone)]
pub struct FileReasoningConfig {
    pub enable: Option<bool>,
    pub intensity: Option<ReasoningIntensity>,
}

/// The reasoning settings a `[reasoning]` table gives: missing keys read as
/// off and low.
pub open spec fn reasoning_from_file(value: FileReasoningConfig) -> ReasoningConfig {
    ReasoningConfig {
        enable: given_or(value.enable, false),
        intensity: given_or(value.intensity, ReasoningIntensity::Low),
    }
}

impl From<FileReasoningConfig> for ReasoningConfig {
    fn from(value: FileReasoningConfig) -> (res: Self) {
        ReasoningConfig {
            enable: match value.enable {
                Some(b) => b,
                None => false,
            },
            intensity: match value.intensity {
                Some(i) => i,
                None => ReasoningIntensity::Low,
            },
        }
    }
}

impl vstd::std_specs::convert::FromSpecImpl<FileReasoningConfig> for ReasoningConfig {
    open spec fn obeys_from_spec() -> bool {
        true
    }

    open spec fn from_spec(value: FileReasoningConfig) -> Self {
        reasoning_from_file(value)
    }
}

/// The settings a configuration file gives; absent keys are `None`. The
/// spending cap is carried as the bit pattern of its binary64 value.
#[derive(Debug, Clone)]
pub struct FileConfig {
    pub base_url: Option<String>,
    pub api_key: Option<String>,
    pub default_model: Option<String>,
    pub concurrency: Option<usize>,
    pub bilingual: Option<bool>,
    pub max_spend_usd_bits: Option<u64>,
    pub http_proxy: Option<String>,
    pub reasoning: Option<FileReasoningConfig>,
    pub target_language: Option<String>,
}

/// `value` where it is given, else `current`.
pub open spec fn given_or<T>(value: Option<T>, current: T) -> T {
    match value {
        Some(v) => v,
        None => current,
    }
}

/// Settings with a configuration file laid over them: each key the file
/// gives replaces the setting; a `[reasoning]` table replaces the reasoning
/// settings whole, its missing keys read as off and low.
pub open spec fn merged(c: AppConfig, f: FileConfig) -> AppConfig {
    AppConfig {
        base_url: given_or(f.base_url, c.base_url),
        api_key: given_or(f.api_key, c.api_key),
        default_model: given_or(f.default_model, c.default_model),
        concurrency: given_or(f.concurrency, c.concurrency),
        bilingual: given_or(f.bilingual, c.bilingual),
        max_spend_usd_bits: match f.max_spend_usd_bits {
            Some(v) => Some(v),
            None => c.max_spend_usd_bits,
        },
        http_proxy: match f.http_proxy {
            Some(v) => Some(v),
            None => c.http_proxy,
        },
        reasoning: match f.reasoning {
            Some(r) => reasoning_from_file(r),
            None => c.reasoning,
        },
        target_language: given_or(f.target_language, c.target_language),
    }
}

fn take_given<T>(value: Option<T>, current: T) -> (res: T)
    ensures
        res == given_or(value, current),
{
    match value {
        Some(v) => v,
        None => current,
    }
}

impl AppConfig {
    /// Lays a configuration file over these settings (see `merged`).
    pub fn merge(self, file_cfg: FileConfig) -> (res: Self)
        ensures
            res == merged(self, file_cfg),
    {
        let reasoning = match file_cfg.reasoning {
            Some(r) => ReasoningConfig::from(r),
            None => self.reasoning,
        };
        AppConfig {
            base_url: take_given(file_cfg.base_url, self.base_url),
            api_key: take_given(file_cfg.api_key, self.api_key),
            default_model: take_given(file_cfg.default_model, self.default_model),
            concurrency: take_given(file_cfg.concurrency, self.concurrency),
            bilingual: take_given(file_cfg.bilingual, self.bilingual),
            max_spend_usd_bits: match file_cfg.max_spend_usd_bits {
                Some(v) => Some(v),
                None => self.max_spend_usd_bits,
            },
            http_proxy: match file_cfg.http_proxy {
                Some(v) => Some(v),
                None => self.http_proxy,
            },
            reasoning,
            target_language: take_given(file_cfg.target_language, self.target_language),
        }
    }
}

/// The environment variables that settings are read from; `None` where a
/// variable is unset or not valid Unicode.
#[derive(Debug, Clone)]
pub struct EnvSnapshot {
    pub llm_api_key: Option<String>,
    pub openai_api_key: Option<String>,
    pub llm_base_url: Option<String>,
    pub openai_base_url: Option<String>,
    pub llm_model: Option<String>,
    pub openai_model: Option<String>,
    pub http_proxy: Option<String>,
    pub https_proxy: Option<String>,
}

/// The value an environment override takes: the first variable when it is
/// set, else the second; and only when that value is not empty. (A first
/// variable set to the empty string hides the second.)
pub open spec fn env_choice(first: Option<String>, second: Option<String>) -> Option<String> {
    let v = match first {
        Some(x) => Some(x),
        None => second,
    };
    match v {
        Some(x) => if x@.len() > 0 {
            Some(x)
        } else {
            None
        },
        None => None,
    }
}

/// Settings with the environment laid over them: the API key from
/// `LLM_API_KEY` or `OPENAI_API_KEY`, the endpoint from `LLM_BASE_URL` or
/// `OPENAI_BASE_URL`, the model from `LLM_MODEL` or `OPENAI_MODEL`, the proxy
/// from `HTTP_PROXY` or `HTTPS_PROXY` (see `env_choice`).
pub open spec fn with_env(c: AppConfig, env: EnvSnapshot) -> AppConfig {
    AppConfig {
        api_key: given_or(env_choice(env.llm_api_key, env.openai_api_key), c.api_key),
        base_url: given_or(env_choice(env.llm_base_url, env.openai_base_url), c.base_url),
        default_model: given_or(env_choice(env.llm_model, env.openai_model), c.default_model),
        http_proxy: match env_choice(env.http_proxy, env.https_proxy) {
            Some(v) => Some(v),
            None => c.http_proxy,
        },
        ..c
    }
}

/// Each environment override follows its pair of variables: the first
/// variable's value when it is set and not empty; the second's when the
/// first is unset and the second is set and not empty; otherwise the setting
/// stays (a first variable set to the empty string hides the second). The
/// proxy comes from `HTTP_PROXY`, else `HTTPS_PROXY`.
pub proof fn law_environment_overrides_follow_their_variables(c: AppConfig, env: EnvSnapshot)
    ensures
        with_env(c, env).http_proxy == match env.http_proxy {
            Some(h) => if h@.len() > 0 {
                Some(h)
            } else {
                c.http_proxy
            },
            None => match env.https_proxy {
                Some(s) => if s@.len() > 0 {
                    Some(s)
                } else {
                    c.http_proxy
                },
                None => c.http_proxy,
            },
        },
        with_env(c, env).api_key == match env.llm_api_key {
            Some(k) => if k@.len() > 0 {
                k
            } else {
                c.api_key
            },
            None => match env.openai_api_key {
                Some(k) => if k@.len() > 0 {
                    k
                } else {
                    c.api_key
                },
                None => c.api_key,
            },
        },
        with_env(c, env).base_url == match env.llm_base_url {
            Some(u) => if u@.len() > 0 {
                u
            } else {
                c.base_url
            },
            None => match env.openai_base_url {
                Some(u) => if u@.len() > 0 {
                    u
                } else {
                    c.base_url
                },
                None => c.base_url,
            },
        },
        with_env(c, env).default_model == match env.llm_model {
            Some(m) => if m@.len() > 0 {
                m
            } else {
                c.default_model
            },
            None => match env.openai_model {
                Some(m) => if m@.len() > 0 {
                    m
                } else {
                    c.default_model
                },
                None => c.default_model,
            },
        },
        with_env(c, env).target_language == c.target_language,
        with_env(c, env).concurrency == c.concurrency,
{
}

/// The value of an environment override (see `env_choice`).
fn choose_env(first: &Option<String>, second: &Option<String>) -> (res: Option<String>)
    ensures
        res == env_choice(*first, *second),
{
    let v = match first {
        Some(x) => Some(x.clone()),
        None => match second {
            Some(y) => Some(y.clone()),
            None => None,
        },
    };
    match v {
        Some(x) => if x.as_str().unicode_len() > 0 {
            Some(x)
        } else {
            None
        },
        None => None,
    }
}

/// The settings given on the command line.
#[derive(Debug, Clone)]
pub struct CliOverrides {
    pub api_key: Option<String>,
    pub base_url: Option<String>,
    pub model: Option<String>,
    pub concurrency: Option<usize>,
    pub bilingual: bool,
    pub max_spend_usd_bits: Option<u64>,
    pub language: Option<String>,
}

/// Settings with the command line laid over them: each flag given replaces
/// its setting (`--language` the target language); `--bilingual` turns
/// bilingual output on and its absence leaves it as it was.
pub open spec fn with_cli(c: AppConfig, cli: CliOverrides) -> AppConfig {
    AppConfig {
        api_key: given_or(cli.api_key, c.api_key),
        base_url: given_or(cli.base_url, c.base_url),
        default_model: given_or(cli.model, c.default_model),
        concurrency: given_or(cli.concurrency, c.concurrency),
        bilingual: cli.bilingual || c.bilingual,
        max_spend_usd_bits: match cli.max_spend_usd_bits {
            Some(v) => Some(v),
            None => c.max_spend_usd_bits,
        },
        target_language: given_or(cli.language, c.target_language),
        ..c
    }
}

impl AppConfig {
    /// Lays the environment over these settings (see `with_env`).
    pub fn apply_environment_overrides(&mut self, env: &EnvSnapshot)
        ensures
            *final(self) == with_env(*old(self), *env),
    {
        if let Some(value) = choose_env(&env.llm_api_key, &env.openai_api_key) {
            self.api_key = value;
        }
        if let Some(value) = choose_env(&env.llm_base_url, &env.openai_base_url) {
            self.base_url = value;
        }
        if let Some(value) = choose_env(&env.llm_model, &env.openai_model) {
            self.default_model = value;
        }
        if let Some(value) = choose_env(&env.http_proxy, &env.https_proxy) {
            self.http_proxy = Some(value);
        }
    }

    /// Lays the command line over these settings (see `with_cli`).
    pub fn apply_cli_overrides(&mut self, cli: &CliOverrides)
        ensures
            *final(self) == with_cli(*old(self), *cli),
    {
        if let Some(value) = &cli.api_key {
            self.api_key = value.clone();
        }
        if let Some(value) = &cli.base_url {
            self.base_url = value.clone();
        }
        if let Some(value) = &cli.model {
            self.default_model = value.clone();
        }
        if let Some(value) = cli.concurrency {
            self.concurrency = value;
        }
        if cli.bilingual {
            self.bilingual = true;
        }
        if let Some(value) = cli.max_spend_usd_bits {
            self.max_spend_usd_bits = Some(value);
        }
        if let Some(value) = &cli.language {
            self.target_language = value.clone();
        }
    }

    /// The settings of a run without command-line flags: the defaults, the
    /// configuration file laid over them where there is one, then the
    /// environment.
    pub fn resolve(file_cfg: Option<FileConfig>, env: &EnvSnapshot) -> (res: Self)
        ensures
            exists|d: AppConfig| #[trigger] is_default_config(d) && res == with_env(
                match file_cfg {
                    Some(f) => merged(d, f),
                    None => d,
                },
                *env,
            ),
    {
        let d = AppConfig::default();
        let ghost dv = d;
        let mut config = match file_cfg {
            Some(f) => d.merge(f),
            None => d,
        };
        config.apply_environment_overrides(env);
        assert(is_default_config(dv));
        config
    }
}

/// A setting given on the command line wins over the environment, the
/// environment over the configuration file, and the file over the default
/// (the target language comes from `--language`, else the file or the
/// default); bilingual output is on when the flag, the file or the default turns it on.
pub proof fn law_setting_precedence(
    d: AppConfig,
    file_cfg: Option<FileConfig>,
    env: EnvSnapshot,
    cli: CliOverrides,
)
    ensures
        ({
            let from_file = match file_cfg {
                Some(f) => merged(d, f),
                None => d,
            };
            let r = with_cli(with_env(from_file, env), cli);
            &&& r.api_key == given_or(
                cli.api_key,
                given_or(env_choice(env.llm_api_key, env.openai_api_key), from_file.api_key),
            )
            &&& r.base_url == given_or(
                cli.base_url,
                given_or(env_choice(env.llm_base_url, env.openai_base_url), from_file.base_url),
            )
            &&& r.default_model == given_or(
                cli.model,
                given_or(env_choice(env.llm_model, env.openai_model), from_file.default_model),
            )
            &&& r.concurrency == given_or(cli.concurrency, from_file.concurrency)
            &&& r.bilingual == (cli.bilingual || from_file.bilingual)
            &&& r.target_language == given_or(cli.language, from_file.target_language)
            &&& r.reasoning == from_file.reasoning
            &&& from_file.api_key == match file_cfg {
                Some(f) => given_or(f.api_key, d.api_key),
                None => d.api_key,
            }
            &&& from_file.concurrency == match file_cfg {
                Some(f) => given_or(f.concurrency, d.concurrency),
                None => d.concurrency,
            }
        }),
{
}

/// A character that may begin a variable name: an ASCII letter or `_`.
pub open spec fn is_name_start(c: char) -> bool {
    c == '_' || ('a' <= c && c <= 'z') || ('A' <= c && c <= 'Z')
}

/// A character that may continue a variable name: a name start or an ASCII
/// digit.
pub open spec fn is_name_char(c: char) -> bool {
    is_name_start(c) || ('0' <= c && c <= '9')
}

/// The end of the run of name characters that starts at `i`.
pub open spec fn name_end(s: Seq<char>, i: int) -> int
    decreases s.len() - i,
{
    if i < 0 || i >= s.len() || !is_name_char(s[i]) {
        i
    } else {
        name_end(s, i + 1)
    }
}

/// The variable reference at position `i`, as its end and the variable's
/// name: `${NAME}` where it is complete, else `$NAME`, NAME being a name
/// start followed by as many name characters as follow.
pub open spec fn reference_at(s: Seq<char>, i: int) -> Option<(int, Seq<char>)> {
    if 0 <= i && i + 1 < s.len() && s[i] == '$' {
        if s[i + 1] == '{' && i + 2 < s.len() && is_name_start(s[i + 2]) && name_end(s, i + 3)
            < s.len() && s[name_end(s, i + 3)] == '}' {
            Some((name_end(s, i + 3) + 1, s.subrange(i + 2, name_end(s, i + 3))))
        } else if is_name_start(s[i + 1]) {
            Some((name_end(s, i + 2), s.subrange(i + 1, name_end(s, i + 2))))
        } else {
            None
        }
    } else {
        None
    }
}

/// The value of the first variable named `name`.
pub open spec fn env_lookup(vars: Seq<(String, String)>, name: Seq<char>) -> Option<Seq<char>>
    decreases vars.len(),
{
    if vars.len() == 0 {
        None
    } else if vars[0].0@ == name {
        Some(vars[0].1@)
    } else {
        env_lookup(vars.drop_first(), name)
    }
}

/// `s` from position `i` on with every variable reference replaced by the
/// variable's value, scanning left to right; a reference to a variable not
/// in `vars` stays as written.
pub open spec fn expand_from(s: Seq<char>, i: int, vars: Seq<(String, String)>) -> Seq<char>
    decreases s.len() - i,
{
    if i < 0 || i >= s.len() {
        seq![]
    } else {
        match reference_at(s, i) {
            Some((end, name)) => {
                proof {
                    lemma_name_end(s, i + 2);
                    lemma_name_end(s, i + 3);
                }
                let replaced = match env_lookup(vars, name) {
                    Some(v) => v,
                    None => s.subrange(i, end),
                };
                replaced + expand_from(s, end, vars)
            },
            None => seq![s[i]] + expand_from(s, i + 1, vars),
        }
    }
}

/// Where a run of name characters ends.
pub proof fn lemma_name_end(s: Seq<char>, i: int)
    requires
        0 <= i,
    ensures
        i <= name_end(s, i),
        name_end(s, i) <= s.len() || name_end(s, i) == i,
        forall|j: int| i <= j < name_end(s, i) ==> is_name_char(#[trigger] s[j]),
        name_end(s, i) < s.len() ==> !is_name_char(s[name_end(s, i)]),
    decreases s.len() - i,
{
    if i < s.len() && is_name_char(s[i]) {
        lemma_name_end(s, i + 1);
    }
}

/// The value of the first variable named `name` in `vars`.
fn lookup_var<'a>(vars: &'a Vec<(String, String)>, name: &str) -> (res: Option<&'a String>)
    ensures
        match res {
            Some(v) => env_lookup(vars@, name@) == Some(v@),
            None => env_lookup(vars@, name@) is None,
        },
{
    let mut i: usize = 0;
    assert(vars@.skip(0) =~= vars@);
    while i < vars.len()
        invariant
            i <= vars@.len(),
            env_lookup(vars@, name@) == env_lookup(vars@.skip(i as int), name@),
        decreases vars.len() - i,
    {
        assert(vars@.skip(i as int).drop_first() =~= vars@.skip(i + 1));
        if crate::json::str_eq(vars[i].0.as_str(), name) {
            return Some(&vars[i].1);
        }
        i += 1;
    }
    None
}

/// The regular expression of a variable reference: `${NAME}` or `$NAME`.
pub open spec fn reference_pattern() -> Seq<char> {
    "\\$\\{([A-Za-z_][A-Za-z0-9_]*)\\}|\\$([A-Za-z_][A-Za-z0-9_]*)"@
}

/// What a reference to `name`, written as `whole`, is replaced by: the
/// variable's value, or the reference as written where `vars` has no such
/// variable.
pub fn replacement_for(vars: &Vec<(String, String)>, name: &str, whole: &str) -> (res: String)
    ensures
        res@ == match env_lookup(vars@, name@) {
            Some(v) => v,
            None => whole@,
        },
{
    match lookup_var(vars, name) {
        Some(v) => v.clone(),
        None => String::from_str(whole),
    }
}

/// Compiles `pattern` (the reference pattern) with `regex::Regex::new` and
/// replaces every match in `input` with `Regex::replace_all`, each by what
/// `replacement_for` gives for the captured name and the whole match.
/// Trusted: `replace_all` takes the leftmost matches, left to right and
/// without overlap, and the first alternative that matches at a position
/// (a complete `${NAME}`, else `$NAME` with the longest name), so the
/// result is `expand_from` of the input.
#[verifier::external_body]
fn replace_references(pattern: &str, input: &str, vars: &Vec<(String, String)>) -> (res: String)
    requires
        pattern@ == reference_pattern(),
    ensures
        res@ == expand_from(input@, 0, vars@),
{
    match regex::Regex::new(pattern) {
        Ok(re) => re.replace_all(input, |caps: &regex::Captures| {
            replacement_for(vars, caps.get(1).or(caps.get(2)).map_or("", |m| m.as_str()), &caps[0])
        }).into_owned(),
        Err(_) => input.to_string(),
    }
}

/// Replaces `$NAME` and `${NAME}` references with the values of the
/// variables `vars` (name, value) holds, leaving references to other names
/// as written (see `expand_from`).
pub fn expand_env_vars(input: &str, vars: &Vec<(String, String)>) -> (res: String)
    ensures
        res@ == expand_from(input@, 0, vars@),
{
    replace_references("\\$\\{([A-Za-z_][A-Za-z0-9_]*)\\}|\\$([A-Za-z_][A-Za-z0-9_]*)", input, vars)
}

} // verus!
