//! EPUB text chunks and the HTML scanning that puts translations back.

use vstd::prelude::*;

use crate::text::{
    all_whitespace, chars_of, ends_with_str, find_byte_from, find_bytes_from, find_elem_from, find_from,
    is_blank, occurs_at, rfind_char, rfind_elem, string_from_chars, trim,
};

verus! {

/// One translatable block of text in a document.
#[derive(Debug, Clone, PartialEq, Eq)]
pub struct TextChunk {
    pub source_path: String,
    pub node_id: Option<String>,
    pub text: String,
}

impl TextChunk {
    /// The same chunk, attributed to `source_path`.
    pub fn with_source_path(self, source_path: String) -> (res: Self)
        ensures
            res == (TextChunk { source_path: source_path, ..self }),
    {
        let mut chunk = self;
        chunk.source_path = source_path;
        chunk
    }
}

/// A chunk's original and translated text, by file and position.
#[derive(Debug, Clone, PartialEq, Eq)]
pub struct RenderedChunk {
    pub file_name: String,
    pub chunk_index: usize,
    pub original: String,
    pub translated: String,
}

/// One file of an EPUB archive.
#[derive(Debug, Clone, PartialEq, Eq)]
pub struct EpubEntry {
    pub name: String,
    pub data: Vec<u8>,
    pub is_text: bool,
}

/// An entry of a book to write: its name, its bytes, and whether it is
/// stored uncompressed.
#[derive(Debug, Clone)]
pub struct BookEntry {
    pub name: String,
    pub data: Vec<u8>,
    pub stored: bool,
}

/// The rendered HTML given for an entry name: the last one given.
pub open spec fn rendered_for(rendered: Seq<(String, String)>, name: Seq<char>) -> Option<Seq<char>>
    decreases rendered.len(),
{
    if rendered.len() == 0 {
        None
    } else if rendered.last().0@ == name {
        Some(rendered.last().1@)
    } else {
        rendered_for(rendered.drop_last(), name)
    }
}

/// What a book entry holds: name, bytes, stored uncompressed.
pub open spec fn book_entry_view(e: BookEntry) -> (Seq<char>, Seq<u8>, bool) {
    (e.name@, e.data@, e.stored)
}

/// The entries of a written book: first `mimetype`, stored, holding
/// `application/epub+zip`; then every source entry but `mimetype`, in
/// order, compressed, holding its rendered HTML (UTF-8) where one was given
/// and its own bytes otherwise.
pub open spec fn book_entries_of(files: Seq<EpubEntry>, rendered: Seq<(String, String)>) -> Seq<
    (Seq<char>, Seq<u8>, bool),
>
    decreases files.len(),
{
    if files.len() == 0 {
        seq![("mimetype"@, vstd::utf8::encode_utf8("application/epub+zip"@), true)]
    } else {
        let rest = book_entries_of(files.drop_last(), rendered);
        let f = files.last();
        if f.name@ == "mimetype"@ {
            rest
        } else {
            rest.push(
                (
                    f.name@,
                    match rendered_for(rendered, f.name@) {
                        Some(h) => vstd::utf8::encode_utf8(h),
                        None => f.data@,
                    },
                    false,
                ),
            )
        }
    }
}

/// The rendered HTML given for `name` (see `rendered_for`).
fn find_rendered<'a>(rendered: &'a Vec<(String, String)>, name: &str) -> (res: Option<&'a String>)
    ensures
        match res {
            Some(h) => rendered_for(rendered@, name@) == Some(h@),
            None => rendered_for(rendered@, name@) is None,
        },
{
    let mut i = rendered.len();
    assert(rendered@.take(i as int) =~= rendered@);
    while i > 0
        invariant
            i <= rendered@.len(),
            rendered_for(rendered@, name@) == rendered_for(rendered@.take(i as int), name@),
        decreases i,
    {
        assert(rendered@.take(i as int).drop_last() =~= rendered@.take(i - 1));
        assert(rendered@.take(i as int).last() == rendered@[i - 1]);
        if crate::json::str_eq(rendered[i - 1].0.as_str(), name) {
            return Some(&rendered[i - 1].1);
        }
        i -= 1;
    }
    None
}

/// The entries of the book to write (see `book_entries_of`).
pub fn book_entries(files: &Vec<EpubEntry>, rendered: &Vec<(String, String)>) -> (res: Vec<
    BookEntry,
>)
    ensures
        res@.map_values(|e: BookEntry| book_entry_view(e)) == book_entries_of(files@, rendered@),
{
    let mut out: Vec<BookEntry> = Vec::new();
    out.push(
        BookEntry {
            name: String::from_str("mimetype"),
            data: crate::text::bytes_to_vec("application/epub+zip".as_bytes()),
            stored: true,
        },
    );
    assert(out@.map_values(|e: BookEntry| book_entry_view(e)) =~= book_entries_of(
        files@.take(0),
        rendered@,
    ));
    let mut i: usize = 0;
    while i < files.len()
        invariant
            i <= files@.len(),
            out@.map_values(|e: BookEntry| book_entry_view(e)) == book_entries_of(
                files@.take(i as int),
                rendered@,
            ),
        decreases files.len() - i,
    {
        let ghost prev = out@.map_values(|e: BookEntry| book_entry_view(e));
        assert(files@.take(i + 1).drop_last() =~= files@.take(i as int));
        assert(files@.take(i + 1).last() == files@[i as int]);
        let f = &files[i];
        if !crate::json::str_eq(f.name.as_str(), "mimetype") {
            let data = match find_rendered(rendered, f.name.as_str()) {
                Some(h) => crate::text::bytes_to_vec(h.as_str().as_bytes()),
                None => crate::text::bytes_to_vec(f.data.as_slice()),
            };
            let e = BookEntry { name: f.name.clone(), data, stored: false };
            out.push(e);
            assert(out@.map_values(|e: BookEntry| book_entry_view(e)) =~= prev.push(
                book_entry_view(e),
            ));
        }
        i += 1;
    }
    assert(files@.take(files@.len() as int) =~= files@);
    out
}

/// An archive entry name marks an (X)HTML document.
pub open spec fn is_text_name(name: Seq<char>) -> bool {
    crate::text::ends_with(name, ".xhtml"@) || crate::text::ends_with(name, ".html"@)
        || crate::text::ends_with(name, ".htm"@)
}

/// Whether an archive entry name marks an (X)HTML document.
pub fn is_epub_text_name(name: &str) -> (res: bool)
    ensures
        res == is_text_name(name@),
{
    let n = chars_of(name);
    ends_with_str(&n, ".xhtml") || ends_with_str(&n, ".html") || ends_with_str(&n, ".htm")
}

/// The HTML escape of one character.
pub open spec fn escape_char(c: char) -> Seq<char> {
    if c == '&' {
        seq!['&', 'a', 'm', 'p', ';']
    } else if c == '<' {
        seq!['&', 'l', 't', ';']
    } else if c == '>' {
        seq!['&', 'g', 't', ';']
    } else {
        seq![c]
    }
}

/// `&`, `<` and `>` replaced by their entities.
pub open spec fn escape(s: Seq<char>) -> Seq<char>
    decreases s.len(),
{
    if s.len() == 0 {
        Seq::empty()
    } else {
        escape(s.drop_last()) + escape_char(s.last())
    }
}

/// Escaping leaves no markup behind: the escaped text holds no `<` or `>`,
/// text without `&`, `<` and `>` comes out unchanged, and escaping works
/// piece by piece (`escape(a + b) == escape(a) + escape(b)`).
pub proof fn law_escape_leaves_no_markup(a: Seq<char>, b: Seq<char>)
    ensures
        forall|i: int| 0 <= i < escape(a).len() ==> #[trigger] escape(a)[i] != '<' && escape(a)[i] != '>',
        (forall|i: int| 0 <= i < a.len() ==> #[trigger] a[i] != '&' && a[i] != '<' && a[i] != '>')
            ==> escape(a) == a,
        escape(a + b) == escape(a) + escape(b),
    decreases a.len() + b.len(),
{
    if b.len() > 0 {
        law_escape_leaves_no_markup(a, b.drop_last());
        assert((a + b).drop_last() =~= a + b.drop_last());
        assert((a + b).last() == b.last());
    } else {
        assert(a + b =~= a);
        assert(escape(b) =~= Seq::<char>::empty());
    }
    if a.len() > 0 {
        law_escape_leaves_no_markup(a.drop_last(), Seq::<char>::empty());
        let e0 = escape(a.drop_last());
        let ec = escape_char(a.last());
        assert(escape(a) == e0 + ec);
        assert forall|i: int| 0 <= i < escape(a).len() implies #[trigger] escape(a)[i] != '<'
            && escape(a)[i] != '>' by {
            if i < e0.len() {
                assert(escape(a)[i] == e0[i]);
            } else {
                assert(escape(a)[i] == ec[i - e0.len()]);
            }
        }
        if forall|i: int| 0 <= i < a.len() ==> #[trigger] a[i] != '&' && a[i] != '<' && a[i] != '>' {
            assert forall|i: int| 0 <= i < a.drop_last().len() implies #[trigger] a.drop_last()[i]
                != '&' && a.drop_last()[i] != '<' && a.drop_last()[i] != '>' by {
                assert(a.drop_last()[i] == a[i]);
            }
            assert(a[a.len() - 1] == a.last());
            assert(escape(a) =~= a);
        }
    }
}

/// Escapes text for an HTML text node.
pub fn escape_chars(s: &Vec<char>) -> (res: Vec<char>)
    ensures
        res@ == escape(s@),
{
    let mut out: Vec<char> = Vec::new();
    let mut i: usize = 0;
    while i < s.len()
        invariant
            i <= s.len(),
            out@ == escape(s@.take(i as int)),
        decreases s.len() - i,
    {
        assert(s@.take(i + 1).drop_last() =~= s@.take(i as int));
        let c = s[i];
        let ghost before = out@;
        if c == '&' {
            out.push('&');
            out.push('a');
            out.push('m');
            out.push('p');
            out.push(';');
        } else if c == '<' {
            out.push('&');
            out.push('l');
            out.push('t');
            out.push(';');
        } else if c == '>' {
            out.push('&');
            out.push('g');
            out.push('t');
            out.push(';');
        } else {
            out.push(c);
        }
        assert(out@ =~= before + escape_char(c));
        i += 1;
    }
    assert(s@.take(s.len() as int) =~= s@);
    out
}

/// Escaped text holds no `<` or `>`: a translation put into a block cannot
/// open or close a tag.
pub proof fn law_escaped_text_has_no_tags(s: Seq<char>)
    ensures
        forall|i: int| 0 <= i < escape(s).len() ==> #[trigger] escape(s)[i] != '<' && escape(s)[i]
            != '>',
    decreases s.len(),
{
    if s.len() > 0 {
        law_escaped_text_has_no_tags(s.drop_last());
        let a = escape(s.drop_last());
        let b = escape_char(s.last());
        assert forall|i: int| 0 <= i < escape(s).len() implies #[trigger] escape(s)[i] != '<'
            && escape(s)[i] != '>' by {
            if i < a.len() {
                assert(escape(s)[i] == a[i]);
            } else {
                assert(escape(s)[i] == b[i - a.len()]);
            }
        }
    }
}

/// Escapes text for an HTML text node.
pub fn escape_text(text: &str) -> (res: String)
    ensures
        res@ == escape(text@),
{
    let e = escape_chars(&chars_of(text));
    string_from_chars(e.as_slice())
}

/// The paragraph that bilingual output adds under an original block.
pub open spec fn bilingual_node(original: Seq<char>, translated: Seq<char>) -> Seq<char> {
    if all_whitespace(translated) {
        original
    } else {
        original + "<p class=\"translation\">"@ + translated + "</p>"@
    }
}

/// Bilingual output keeps the original block whole, at its start, and adds
/// exactly one paragraph after it when the translation is not blank.
pub proof fn law_bilingual_keeps_original(original: Seq<char>, translated: Seq<char>)
    ensures
        bilingual_node(original, translated).subrange(0, original.len() as int) == original,
        all_whitespace(translated) ==> bilingual_node(original, translated) == original,
        !all_whitespace(translated) ==> bilingual_node(original, translated).subrange(
            original.len() as int,
            bilingual_node(original, translated).len() as int,
        ) == "<p class=\"translation\">"@ + translated + "</p>"@,
{
    let out = bilingual_node(original, translated);
    assert(out.subrange(0, original.len() as int) =~= original);
    if !all_whitespace(translated) {
        assert(out.subrange(original.len() as int, out.len() as int) =~= "<p class=\"translation\">"@
            + translated + "</p>"@);
    }
}

/// The original block followed by a `translation` paragraph holding the
/// translated text (left out when that text is blank).
pub fn render_bilingual_node(original_html: &str, translated: &str) -> (res: String)
    ensures
        res@ == bilingual_node(original_html@, translated@),
{
    let mut output = String::from_str(original_html);
    if !is_blank(&chars_of(translated)) {
        output.append("<p class=\"translation\">");
        output.append(translated);
        output.append("</p>");
    }
    output
}

/// A block with its content replaced: what precedes the first `>` and
/// follows the last `<` is kept around the escaped translation; without a
/// `>` the escaped translation alone; blank translations give nothing.
pub open spec fn translation_node(original: Seq<char>, translated: Seq<char>) -> Seq<char> {
    if all_whitespace(translated) {
        Seq::empty()
    } else {
        match find_elem_from(original, '>', 0) {
            Some(i) => {
                let end = match rfind_elem(original, '<') {
                    Some(j) => j,
                    None => original.len() as int,
                };
                original.take(i + 1) + escape(translated) + original.skip(end)
            },
            None => escape(translated),
        }
    }
}

/// Replaces the content of one block element with the escaped translation.
pub fn render_translation_node(original_html: &str, translated: &str) -> (res: String)
    ensures
        res@ == translation_node(original_html@, translated@),
{
    let t = chars_of(translated);
    let escaped = escape_chars(&t);
    if is_blank(&t) {
        return String::new();
    }
    let h = chars_of(original_html);
    match crate::text::find_char_from(&h, '>', 0) {
        Some(i) => {
            let end = match rfind_char(&h, '<') {
                Some(j) => j,
                None => h.len(),
            };
            proof {
                crate::text::lemma_find_elem_from(h@, '>', 0);
            }
            let mut out = crate::text::slice_chars(&h, 0, i + 1);
            let ghost o = out@;
            let mut k: usize = 0;
            while k < escaped.len()
                invariant
                    k <= escaped.len(),
                    out@ == o + escaped@.take(k as int),
                decreases escaped.len() - k,
            {
                out.push(escaped[k]);
                k += 1;
                assert(out@ =~= o + escaped@.take(k as int));
            }
            let ghost o2 = out@;
            proof {
                lemma_rfind_in_bounds(h@, '<');
                assert(h@.subrange(end as int, end as int) =~= Seq::<char>::empty());
                assert(o2 + Seq::<char>::empty() =~= o2);
            }
            let mut m = end;
            while m < h.len()
                invariant
                    end <= m <= h.len(),
                    out@ == o2 + h@.subrange(end as int, m as int),
                decreases h.len() - m,
            {
                out.push(h[m]);
                m += 1;
                assert(out@ =~= o2 + h@.subrange(end as int, m as int));
            }
            assert(escaped@.take(escaped.len() as int) =~= escaped@);
            assert(h@.subrange(end as int, h.len() as int) =~= h@.skip(end as int));
            assert(h@.take(i + 1) =~= o);
            string_from_chars(out.as_slice())
        },
        None => string_from_chars(escaped.as_slice()),
    }
}

/// `rfind_elem` returns a position inside the sequence.
pub proof fn lemma_rfind_in_bounds<A>(s: Seq<A>, c: A)
    ensures
        rfind_elem(s, c) matches Some(j) ==> 0 <= j < s.len() && s[j] == c,
    decreases s.len(),
{
    if s.len() > 0 && s.last() != c {
        lemma_rfind_in_bounds(s.drop_last(), c);
    }
}

/// An ASCII letter.
pub open spec fn is_alpha_byte(b: u8) -> bool {
    (0x41 <= b && b <= 0x5A) || (0x61 <= b && b <= 0x7A)
}

/// A byte that continues a tag name: an ASCII letter or digit, `-` or `:`.
pub open spec fn is_name_byte(b: u8) -> bool {
    is_alpha_byte(b) || (0x30 <= b && b <= 0x39) || b == 0x2D || b == 0x3A
}

/// ASCII lower case of a byte.
pub open spec fn lower_byte(b: u8) -> u8 {
    if 0x41 <= b && b <= 0x5A {
        (b + 32) as u8
    } else {
        b
    }
}

/// ASCII lower case of a byte string.
pub open spec fn lower_bytes(s: Seq<u8>) -> Seq<u8> {
    Seq::new(s.len(), |i: int| lower_byte(s[i]))
}

/// The first position at or after `i` that does not continue a tag name;
/// `None` when the name runs to the end.
pub open spec fn name_end(h: Seq<u8>, i: int) -> Option<int>
    decreases h.len() - i,
{
    if i < 0 || i >= h.len() {
        None
    } else if !is_name_byte(h[i]) {
        Some(i)
    } else {
        name_end(h, i + 1)
    }
}

/// The first `>` at or after `i` that is outside a quoted attribute value,
/// given the quote open at `i` (if any).
pub open spec fn tag_end_from(h: Seq<u8>, i: int, quote: Option<u8>) -> Option<int>
    decreases h.len() - i,
{
    if i < 0 || i >= h.len() {
        None
    } else {
        let c = h[i];
        match quote {
            Some(q) => if q == c {
                tag_end_from(h, i + 1, None)
            } else {
                tag_end_from(h, i + 1, quote)
            },
            None => if c == 0x22 || c == 0x27 {
                tag_end_from(h, i + 1, Some(c))
            } else if c == 0x3E {
                Some(i)
            } else {
                tag_end_from(h, i + 1, None)
            },
        }
    }
}

/// The start tag at `tag_start` (a `<`): its lower-cased name, the position
/// just past its closing `>`, and whether it ends in `/>`.
pub open spec fn start_tag(h: Seq<u8>, tag_start: int) -> Option<(Seq<u8>, int, bool)> {
    let after_open = tag_start + 1;
    if after_open < 0 || after_open >= h.len() || !is_alpha_byte(h[after_open]) {
        None
    } else {
        match name_end(h, after_open) {
            None => None,
            Some(ne) => match tag_end_from(h, ne, None) {
                None => None,
                Some(e) => Some(
                    (lower_bytes(h.subrange(after_open, ne)), e + 1, e + 1 >= 2 && h[e - 1] == 0x2F),
                ),
            },
        }
    }
}

/// `a` and `b` are equal ignoring ASCII case.
pub open spec fn eq_ignore_ascii_case(a: Seq<u8>, b: Seq<u8>) -> bool {
    a.len() == b.len() && lower_bytes(a) == lower_bytes(b)
}

/// A closing tag `</name` starts at `tag_start` (what follows the name is
/// not looked at).
pub open spec fn is_close_tag_at(h: Seq<u8>, tag_start: int, name: Seq<u8>) -> bool {
    &&& 0 <= tag_start
    &&& tag_start + 2 <= h.len()
    &&& h[tag_start] == 0x3C
    &&& h[tag_start + 1] == 0x2F
    &&& tag_start + 2 + name.len() <= h.len()
    &&& eq_ignore_ascii_case(h.subrange(tag_start + 2, tag_start + 2 + name.len()), name)
}

/// Bounds of `name_end`.
pub proof fn lemma_name_end(h: Seq<u8>, i: int)
    ensures
        name_end(h, i) matches Some(j) ==> 0 <= i <= j < h.len() && !is_name_byte(h[j]) && forall|
            k: int,
        | i <= k < j ==> is_name_byte(h[k]),
    decreases h.len() - i,
{
    if 0 <= i < h.len() && is_name_byte(h[i]) {
        lemma_name_end(h, i + 1);
    }
}

/// Bounds of `tag_end_from`.
pub proof fn lemma_tag_end(h: Seq<u8>, i: int, quote: Option<u8>)
    ensures
        tag_end_from(h, i, quote) matches Some(e) ==> 0 <= i <= e < h.len() && h[e] == 0x3E,
    decreases h.len() - i,
{
    if 0 <= i < h.len() {
        let c = h[i];
        match quote {
            Some(q) => if q == c {
                lemma_tag_end(h, i + 1, None);
            } else {
                lemma_tag_end(h, i + 1, quote);
            },
            None => if c == 0x22 || c == 0x27 {
                lemma_tag_end(h, i + 1, Some(c));
            } else if c != 0x3E {
                lemma_tag_end(h, i + 1, None);
            },
        }
    }
}

/// Bounds of `start_tag`.
pub proof fn lemma_start_tag(h: Seq<u8>, tag_start: int)
    ensures
        start_tag(h, tag_start) matches Some((nm, te, sc)) ==> tag_start + 3 <= te <= h.len(),
{
    let after_open = tag_start + 1;
    if 0 <= after_open < h.len() && is_alpha_byte(h[after_open]) {
        lemma_name_end(h, after_open);
        if let Some(ne) = name_end(h, after_open) {
            lemma_tag_end(h, ne, None);
        }
    }
}

/// The closing tag that ends an element named `name`, scanning from
/// `cursor` with `depth` elements of that name still open: its start and the
/// position past its `>`.
pub open spec fn matching_close(h: Seq<u8>, cursor: int, name: Seq<u8>, depth: nat) -> Option<
    (int, int),
>
    decreases h.len() + 1 - cursor,
{
    if cursor < 0 || cursor > h.len() {
        None
    } else {
        match find_elem_from(h, 0x3Cu8, cursor) {
            None => None,
            Some(ts) => {
                proof {
                    crate::text::lemma_find_elem_from(h, 0x3Cu8, cursor);
                }
                if is_close_tag_at(h, ts, name) {
                    match tag_end_from(h, ts, None) {
                        None => None,
                        Some(e) => {
                            proof {
                                lemma_tag_end(h, ts, None);
                            }
                            if depth <= 1 {
                                Some((ts, e + 1))
                            } else {
                                matching_close(h, e + 1, name, (depth - 1) as nat)
                            }
                        },
                    }
                } else {
                    match start_tag(h, ts) {
                        Some((nm, te, sc)) => {
                            proof {
                                lemma_start_tag(h, ts);
                            }
                            matching_close(
                                h,
                                te,
                                name,
                                if nm == name && !sc {
                                    depth + 1
                                } else {
                                    depth
                                },
                            )
                        },
                        None => matching_close(h, ts + 1, name, depth),
                    }
                }
            },
        }
    }
}

/// The tag names whose content is translated.
pub open spec fn is_translatable_name(name: Seq<u8>) -> bool {
    name == seq![0x70u8] || name == seq![0x68u8, 0x31u8] || name == seq![0x68u8, 0x32u8]
        || name == seq![0x68u8, 0x33u8] || name == seq![0x6Cu8, 0x69u8]
}

/// The text of a byte string, one character per byte.
pub open spec fn ascii_text(b: Seq<u8>) -> Seq<char> {
    b.map_values(|x: u8| x as char)
}

/// `name` is one of the entries of a selector list written as entries
/// separated by ", ": it stands in `sel` after the start or a space and
/// before a comma or the end, and holds neither a comma nor a space.
pub open spec fn lists_entry(sel: Seq<char>, name: Seq<char>) -> bool {
    exists|i: int|
        #![trigger sel.subrange(i, i + name.len())]
        0 <= i && name.len() > 0 && i + name.len() <= sel.len() && sel.subrange(i, i + name.len())
            == name && (i == 0 || sel[i - 1] == ' ') && (i + name.len() == sel.len() || sel[i
            + name.len()] == ',') && forall|k: int|
            0 <= k < name.len() ==> #[trigger] name[k] != ',' && name[k] != ' '
}

/// The blocks whose content rendering replaces are exactly the elements that
/// chunk extraction selects: a tag name is a translatable block exactly when
/// the chunk selector (`p, h1, h2, h3, li`) lists it, so the chunk at
/// position `k` fills the `k`-th of those elements.
pub proof fn law_rendered_blocks_are_the_extracted_blocks(name: Seq<u8>)
    ensures
        is_translatable_name(name) <==> lists_entry(chunk_selector(), ascii_text(name)),
{
    reveal_strlit("p, h1, h2, h3, li");
    let sel = chunk_selector();
    let n = ascii_text(name);
    assert(sel =~= seq!['p', ',', ' ', 'h', '1', ',', ' ', 'h', '2', ',', ' ', 'h', '3', ',', ' ', 'l', 'i']);
    if is_translatable_name(name) {
        let i: int = if name == seq![0x70u8] {
            0
        } else if name == seq![0x68u8, 0x31u8] {
            3
        } else if name == seq![0x68u8, 0x32u8] {
            7
        } else if name == seq![0x68u8, 0x33u8] {
            11
        } else {
            15
        };
        assert(sel.subrange(i, i + n.len()) =~= n);
        assert(forall|k: int| 0 <= k < n.len() ==> #[trigger] n[k] != ',' && n[k] != ' ');
    }
    if lists_entry(sel, n) {
        let i = choose|i: int|
            #![trigger sel.subrange(i, i + n.len())]
            0 <= i && n.len() > 0 && i + n.len() <= sel.len() && sel.subrange(i, i + n.len()) == n
                && (i == 0 || sel[i - 1] == ' ') && (i + n.len() == sel.len() || sel[i + n.len()]
                == ',') && forall|k: int| 0 <= k < n.len() ==> #[trigger] n[k] != ',' && n[k] != ' ';
        assert(forall|k: int| 0 <= k < n.len() ==> n[k] == sel[i + k]);
        assert(i == 0 || i == 3 || i == 7 || i == 11 || i == 15);
        if n.len() > 2 {
            assert(n[2] != ',' && n[2] != ' ');
        }
        if n.len() > 1 {
            assert(n[1] != ',' && n[1] != ' ');
        }
        assert(n[0] != ',' && n[0] != ' ');
        if i == 0 {
            assert(n.len() == 1);
            assert(name =~= seq![0x70u8]);
        } else if i == 3 {
            assert(n.len() == 2);
            assert(name =~= seq![0x68u8, 0x31u8]);
        } else if i == 7 {
            assert(n.len() == 2);
            assert(name =~= seq![0x68u8, 0x32u8]);
        } else if i == 11 {
            assert(n.len() == 2);
            assert(name =~= seq![0x68u8, 0x33u8]);
        } else {
            assert(n.len() == 2);
            assert(name =~= seq![0x6Cu8, 0x69u8]);
        }
    }
}

/// The content spans (from past the start tag to the closing tag) of the
/// translatable blocks starting at or after `cursor`, in document order;
/// nested blocks are listed too.
pub open spec fn block_spans_from(h: Seq<u8>, cursor: int) -> Seq<(int, int)>
    decreases h.len() + 1 - cursor,
{
    if cursor < 0 || cursor > h.len() {
        Seq::empty()
    } else {
        match find_elem_from(h, 0x3Cu8, cursor) {
            None => Seq::empty(),
            Some(ts) => {
                proof {
                    crate::text::lemma_find_elem_from(h, 0x3Cu8, cursor);
                }
                match start_tag(h, ts) {
                    None => block_spans_from(h, ts + 1),
                    Some((nm, te, sc)) => {
                        proof {
                            lemma_start_tag(h, ts);
                        }
                        if !is_translatable_name(nm) || sc {
                            block_spans_from(h, te)
                        } else {
                            match matching_close(h, te, nm, 1) {
                                Some((cs, _ce)) => seq![(te, cs)] + block_spans_from(h, te),
                                None => block_spans_from(h, te),
                            }
                        }
                    },
                }
            },
        }
    }
}

/// The first unquoted `>` at or after `from`.
pub fn find_tag_end(h: &[u8], from: usize) -> (res: Option<usize>)
    ensures
        match res {
            Some(e) => tag_end_from(h@, from as int, None) == Some(e as int),
            None => tag_end_from(h@, from as int, None) is None,
        },
{
    let mut quote: Option<u8> = None;
    let mut i = from;
    while i < h.len()
        invariant
            from <= i,
            tag_end_from(h@, from as int, None) == tag_end_from(h@, i as int, quote),
        decreases h.len() - i,
    {
        let c = h[i];
        match quote {
            Some(q) => {
                if q == c {
                    quote = None;
                }
            },
            None => {
                if c == 0x22 || c == 0x27 {
                    quote = Some(c);
                } else if c == 0x3E {
                    return Some(i);
                }
            },
        }
        i += 1;
    }
    None
}

/// Parses the start tag at `tag_start` (see `start_tag`).
pub fn parse_start_tag(h: &[u8], tag_start: usize) -> (res: Option<(Vec<u8>, usize, bool)>)
    ensures
        match res {
            Some((nm, te, sc)) => start_tag(h@, tag_start as int) == Some((nm@, te as int, sc)),
            None => start_tag(h@, tag_start as int) is None,
        },
{
    if tag_start >= h.len() {
        return None;
    }
    let after_open = tag_start + 1;
    if after_open >= h.len() {
        return None;
    }
    let first = h[after_open];
    if !((0x41 <= first && first <= 0x5A) || (0x61 <= first && first <= 0x7A)) {
        return None;
    }
    let mut j = after_open;
    while j < h.len() && ((0x41 <= h[j] && h[j] <= 0x5A) || (0x61 <= h[j] && h[j] <= 0x7A) || (0x30
        <= h[j] && h[j] <= 0x39) || h[j] == 0x2D || h[j] == 0x3A)
        invariant
            after_open <= j <= h.len(),
            name_end(h@, after_open as int) == name_end(h@, j as int),
        decreases h.len() - j,
    {
        j += 1;
    }
    if j >= h.len() {
        return None;
    }
    let name_end_at = j;
    let e = match find_tag_end(h, name_end_at) {
        Some(e) => e,
        None => return None,
    };
    proof {
        lemma_tag_end(h@, name_end_at as int, None);
    }
    let mut name: Vec<u8> = Vec::new();
    let mut k = after_open;
    while k < name_end_at
        invariant
            after_open <= k <= name_end_at < h.len(),
            name@ == lower_bytes(h@.subrange(after_open as int, k as int)),
        decreases name_end_at - k,
    {
        let b = h[k];
        let lb = if 0x41 <= b && b <= 0x5A {
            b + 32
        } else {
            b
        };
        name.push(lb);
        k += 1;
        assert(name@ =~= lower_bytes(h@.subrange(after_open as int, k as int)));
    }
    let te = e + 1;
    let self_closing = te >= 2 && h[e - 1] == 0x2F;
    Some((name, te, self_closing))
}

/// Whether a closing tag for `name` starts at `tag_start`.
pub fn is_close_tag(h: &[u8], tag_start: usize, name: &[u8]) -> (res: bool)
    ensures
        res == is_close_tag_at(h@, tag_start as int, name@),
{
    if tag_start >= h.len() || h.len() - tag_start < 2 {
        return false;
    }
    if h[tag_start] != 0x3C || h[tag_start + 1] != 0x2F {
        return false;
    }
    let start = tag_start + 2;
    if name.len() > h.len() - start {
        return false;
    }
    let mut k: usize = 0;
    while k < name.len()
        invariant
            start == tag_start + 2,
            h@[tag_start as int] == 0x3C,
            h@[tag_start + 1] == 0x2F,
            start + name.len() <= h.len(),
            k <= name.len(),
            forall|m: int| 0 <= m < k ==> lower_byte(h@[start + m]) == lower_byte(name@[m]),
        decreases name.len() - k,
    {
        let a = h[start + k];
        let b = name[k];
        let la = if 0x41 <= a && a <= 0x5A {
            a + 32
        } else {
            a
        };
        let lb = if 0x41 <= b && b <= 0x5A {
            b + 32
        } else {
            b
        };
        assert(la == lower_byte(a));
        assert(lb == lower_byte(b));
        if la != lb {
            let ghost sub = h@.subrange(start as int, start + name.len());
            assert(sub[k as int] == a);
            assert(lower_bytes(sub)[k as int] != lower_bytes(name@)[k as int]);
            assert(lower_bytes(sub) != lower_bytes(name@));
            return false;
        }
        k += 1;
    }
    assert(lower_bytes(h@.subrange(start as int, start + name.len())) =~= lower_bytes(name@));
    true
}

/// Finds the closing tag of an element named `name` whose content starts at
/// `from` (see `matching_close`).
pub fn find_matching_close_tag(h: &[u8], from: usize, name: &[u8]) -> (res: Option<(usize, usize)>)
    ensures
        match res {
            Some((a, b)) => matching_close(h@, from as int, name@, 1) == Some((a as int, b as int)),
            None => matching_close(h@, from as int, name@, 1) is None,
        },
{
    if from > h.len() {
        return None;
    }
    let mut cursor = from;
    let mut depth: usize = 1;
    loop
        invariant
            cursor <= h.len(),
            1 <= depth <= cursor + 1,
            matching_close(h@, from as int, name@, 1) == matching_close(
                h@,
                cursor as int,
                name@,
                depth as nat,
            ),
        decreases h.len() + 1 - cursor,
    {
        let ts = match find_byte_from(h, 0x3C, cursor) {
            Some(ts) => ts,
            None => return None,
        };
        proof {
            crate::text::lemma_find_elem_from(h@, 0x3Cu8, cursor as int);
        }
        if is_close_tag(h, ts, name) {
            let e = match find_tag_end(h, ts) {
                Some(e) => e,
                None => return None,
            };
            proof {
                lemma_tag_end(h@, ts as int, None);
            }
            if depth <= 1 {
                return Some((ts, e + 1));
            }
            depth = depth - 1;
            cursor = e + 1;
        } else {
            match parse_start_tag(h, ts) {
                Some((nm, te, sc)) => {
                    proof {
                        lemma_start_tag(h@, ts as int);
                    }
                    if bytes_equal(&nm, name) && !sc {
                        depth = depth + 1;
                    }
                    cursor = te;
                },
                None => {
                    cursor = ts + 1;
                },
            }
        }
    }
}

/// Two byte strings are equal.
pub fn bytes_equal(a: &[u8], b: &[u8]) -> (res: bool)
    ensures
        res == (a@ == b@),
{
    if a.len() != b.len() {
        return false;
    }
    let r = crate::text::bytes_occur_at(a, 0, b);
    proof {
        if r {
            assert(a@.subrange(0, b@.len() as int) =~= a@);
        } else {
            assert(a@.subrange(0, b@.len() as int) =~= a@);
        }
    }
    r
}

/// Whether a (lower-cased) tag name is one whose content is translated.
pub fn is_translatable_block(name: &[u8]) -> (res: bool)
    ensures
        res == is_translatable_name(name@),
{
    let r = (name.len() == 1 && name[0] == 0x70) || (name.len() == 2 && name[0] == 0x68 && (name[1]
        == 0x31 || name[1] == 0x32 || name[1] == 0x33)) || (name.len() == 2 && name[0] == 0x6C
        && name[1] == 0x69);
    proof {
        if name.len() == 1 {
            assert(r == (name@ =~= seq![0x70u8]));
        } else if name.len() == 2 {
            assert(r == (name@ =~= seq![0x68u8, 0x31u8] || name@ =~= seq![0x68u8, 0x32u8] || name@
                =~= seq![0x68u8, 0x33u8] || name@ =~= seq![0x6Cu8, 0x69u8]));
        }
    }
    r
}

/// The content span of one translatable block, in bytes of the document.
#[derive(Debug, Clone, Copy, PartialEq, Eq, Structural)]
pub struct BlockSpan {
    pub inner_start: usize,
    pub inner_end: usize,
}

/// Spans as pairs of positions.
pub open spec fn span_pairs(spans: Seq<BlockSpan>) -> Seq<(int, int)> {
    spans.map_values(|b: BlockSpan| (b.inner_start as int, b.inner_end as int))
}

/// Finds the content spans of all translatable blocks (see
/// `block_spans_from`).
pub fn find_translatable_block_spans(h: &[u8]) -> (res: Vec<BlockSpan>)
    ensures
        span_pairs(res@) == block_spans_from(h@, 0),
{
    let mut spans: Vec<BlockSpan> = Vec::new();
    let mut cursor: usize = 0;
    loop
        invariant
            cursor <= h.len(),
            block_spans_from(h@, 0) == span_pairs(spans@) + block_spans_from(h@, cursor as int),
        decreases h.len() + 1 - cursor,
    {
        let ts = match find_byte_from(h, 0x3C, cursor) {
            Some(ts) => ts,
            None => {
                assert(span_pairs(spans@) + Seq::<(int, int)>::empty() =~= span_pairs(spans@));
                return spans;
            },
        };
        proof {
            crate::text::lemma_find_elem_from(h@, 0x3Cu8, cursor as int);
        }
        match parse_start_tag(h, ts) {
            None => {
                cursor = ts + 1;
            },
            Some((nm, te, sc)) => {
                proof {
                    lemma_start_tag(h@, ts as int);
                }
                if !is_translatable_block(&nm) || sc {
                    cursor = te;
                } else {
                    match find_matching_close_tag(h, te, &nm) {
                        Some((cs, _ce)) => {
                            let ghost before = spans@;
                            spans.push(BlockSpan { inner_start: te, inner_end: cs });
                            assert(span_pairs(spans@) =~= span_pairs(before) + seq![
                                (te as int, cs as int),
                            ]);
                            assert(span_pairs(spans@) + block_spans_from(h@, te as int) =~= span_pairs(
                                before,
                            ) + (seq![(te as int, cs as int)] + block_spans_from(h@, te as int)));
                        },
                        None => {},
                    }
                    cursor = te;
                }
            },
        }
    }
}

/// The position of the `k`-th (from 0) of the successive, non-overlapping
/// occurrences of `n` in `h` at or after `from`.
pub open spec fn nth_occurrence<A>(h: Seq<A>, n: Seq<A>, k: nat, from: int) -> Option<int>
    decreases k,
{
    match find_from(h, n, from) {
        None => None,
        Some(i) => if k == 0 {
            Some(i)
        } else {
            nth_occurrence(h, n, (k - 1) as nat, i + n.len())
        },
    }
}

/// `h` with its `k`-th occurrence of a non-empty `n` replaced by `r`.
pub open spec fn replace_nth<A>(h: Seq<A>, n: Seq<A>, r: Seq<A>, k: nat) -> Option<Seq<A>> {
    if n.len() == 0 {
        None
    } else {
        match nth_occurrence(h, n, k, 0) {
            Some(i) => Some(h.take(i) + r + h.skip(i + n.len())),
            None => None,
        }
    }
}

/// Positions found by `nth_occurrence` hold an occurrence.
pub proof fn lemma_nth_occurrence<A>(h: Seq<A>, n: Seq<A>, k: nat, from: int)
    requires
        0 <= from,
    ensures
        nth_occurrence(h, n, k, from) matches Some(i) ==> from <= i && occurs_at(h, i, n),
    decreases k,
{
    crate::text::lemma_find_from(h, n, from);
    if let Some(i) = find_from(h, n, from) {
        if k > 0 {
            lemma_nth_occurrence(h, n, (k - 1) as nat, i + n.len());
        }
    }
}

/// `h` followed by `r` from `a` up to `b`.
fn extend_bytes(out: &mut Vec<u8>, r: &[u8], a: usize, b: usize)
    requires
        a <= b <= r.len(),
    ensures
        final(out)@ == old(out)@ + r@.subrange(a as int, b as int),
{
    let mut m = a;
    let ghost o = old(out)@;
    while m < b
        invariant
            a <= m <= b <= r.len(),
            out@ == o + r@.subrange(a as int, m as int),
        decreases b - m,
    {
        out.push(r[m]);
        m += 1;
        assert(out@ =~= o + r@.subrange(a as int, m as int));
    }
}

/// `h` with `h[s..e]` replaced by `rep`.
fn splice_bytes(h: &Vec<u8>, s: usize, e: usize, rep: &[u8]) -> (res: Vec<u8>)
    requires
        s <= e <= h.len(),
    ensures
        res@ == h@.take(s as int) + rep@ + h@.skip(e as int),
{
    let mut out: Vec<u8> = Vec::new();
    extend_bytes(&mut out, h.as_slice(), 0, s);
    extend_bytes(&mut out, rep, 0, rep.len());
    extend_bytes(&mut out, h.as_slice(), e, h.len());
    assert(out@ =~= h@.take(s as int) + rep@ + h@.skip(e as int));
    out
}

/// Replaces the `nth` occurrence of `needle` in `h` (see `replace_nth`).
pub fn replace_nth_occurrence(h: &Vec<u8>, needle: &[u8], replacement: &[u8], nth: usize) -> (res:
    Option<Vec<u8>>)
    ensures
        match res {
            Some(v) => replace_nth(h@, needle@, replacement@, nth as nat) == Some(v@),
            None => replace_nth(h@, needle@, replacement@, nth as nat) is None,
        },
{
    if needle.len() == 0 {
        return None;
    }
    let mut start_at: usize = 0;
    let mut occurrence: usize = 0;
    loop
        invariant
            occurrence <= nth,
            start_at <= h.len(),
            needle.len() > 0,
            nth_occurrence(h@, needle@, nth as nat, 0) == nth_occurrence(
                h@,
                needle@,
                (nth - occurrence) as nat,
                start_at as int,
            ),
        decreases nth - occurrence,
    {
        let m = match find_bytes_from(h.as_slice(), needle, start_at) {
            Some(m) => m,
            None => return None,
        };
        proof {
            crate::text::lemma_find_from(h@, needle@, start_at as int);
        }
        if occurrence == nth {
            return Some(splice_bytes(h, m, m + needle.len(), replacement));
        }
        occurrence += 1;
        start_at = m + needle.len();
    }
}

/// Where a chunk goes in the processing order: before the first chunk of a
/// lower index, after all of a higher or equal one.
pub open spec fn desc_insert_pos(keys: Seq<usize>, order: Seq<int>, key: usize, p: int) -> int
    decreases order.len() - p,
{
    if p < 0 || p >= order.len() {
        order.len() as int
    } else if keys[order[p]] < key {
        p
    } else {
        desc_insert_pos(keys, order, key, p + 1)
    }
}

/// The processing order of the first `n` chunks: by index from highest to
/// lowest, chunks of equal index in their given order (a stable sort).
pub open spec fn desc_order(keys: Seq<usize>, n: int) -> Seq<int>
    decreases n,
{
    if n <= 0 {
        Seq::empty()
    } else {
        let o = desc_order(keys, n - 1);
        o.insert(desc_insert_pos(keys, o, keys[n - 1], 0), n - 1)
    }
}

/// The chunk indices of a sequence of chunks.
pub open spec fn chunk_keys(chunks: Seq<RenderedChunk>) -> Seq<usize> {
    chunks.map_values(|c: RenderedChunk| c.chunk_index)
}

/// One step of rendering: a blank translation changes nothing; a chunk whose
/// index names a block span replaces that byte range (failing where the range
/// is out of bounds or not on character boundaries); any other chunk replaces
/// the occurrence of its original text with that number, if there is one.
pub open spec fn chunk_step(r: Option<Seq<u8>>, spans: Seq<(int, int)>, c: RenderedChunk) -> Option<
    Seq<u8>,
> {
    match r {
        None => None,
        Some(r) => if all_whitespace(c.translated@) {
            Some(r)
        } else {
            let rep = vstd::utf8::encode_utf8(escape(c.translated@));
            if c.chunk_index < spans.len() {
                let s = spans[c.chunk_index as int].0;
                let e = spans[c.chunk_index as int].1;
                if s <= e && e <= r.len() && vstd::utf8::is_char_boundary(r, s)
                    && vstd::utf8::is_char_boundary(r, e) {
                    Some(r.take(s) + rep + r.skip(e))
                } else {
                    None
                }
            } else {
                match replace_nth(
                    r,
                    vstd::utf8::encode_utf8(c.original@),
                    rep,
                    c.chunk_index as nat,
                ) {
                    Some(u) => Some(u),
                    None => Some(r),
                }
            }
        },
    }
}

/// The first `k` steps of rendering, in processing order.
pub open spec fn render_fold(
    start: Seq<u8>,
    spans: Seq<(int, int)>,
    chunks: Seq<RenderedChunk>,
    order: Seq<int>,
    k: int,
) -> Option<Seq<u8>>
    decreases k,
{
    if k <= 0 {
        Some(start)
    } else {
        chunk_step(render_fold(start, spans, chunks, order, k - 1), spans, chunks[order[k - 1]])
    }
}

/// The UTF-8 bytes of a document with its chunks' translations put in, or
/// `None` where a span replacement would fall outside the text or inside a
/// character.
pub open spec fn rendered_file(original: Seq<char>, chunks: Seq<RenderedChunk>) -> Option<Seq<u8>> {
    let h = vstd::utf8::encode_utf8(original);
    render_fold(
        h,
        block_spans_from(h, 0),
        chunks,
        desc_order(chunk_keys(chunks), chunks.len() as int),
        chunks.len() as int,
    )
}

/// The processing order of chunks.
fn chunk_order(chunks: &[RenderedChunk]) -> (order: Vec<usize>)
    ensures
        order@.map_values(|i: usize| i as int) == desc_order(chunk_keys(chunks@), chunks.len() as int),
        forall|k: int| 0 <= k < order.len() ==> order@[k] < chunks.len(),
{
    let ghost keys = chunk_keys(chunks@);
    let mut order: Vec<usize> = Vec::new();
    let mut j: usize = 0;
    while j < chunks.len()
        invariant
            j <= chunks.len(),
            keys == chunk_keys(chunks@),
            order@.map_values(|i: usize| i as int) == desc_order(keys, j as int),
            forall|k: int| 0 <= k < order.len() ==> order@[k] < j,
        decreases chunks.len() - j,
    {
        let key = chunks[j].chunk_index;
        let ghost o = order@.map_values(|i: usize| i as int);
        let mut p: usize = 0;
        while p < order.len() && chunks[order[p]].chunk_index >= key
            invariant
                p <= order.len(),
                j < chunks.len(),
                keys == chunk_keys(chunks@),
                o == order@.map_values(|i: usize| i as int),
                forall|k: int| 0 <= k < order.len() ==> order@[k] < j,
                desc_insert_pos(keys, o, key, 0) == desc_insert_pos(keys, o, key, p as int),
            decreases order.len() - p,
        {
            assert(keys[o[p as int]] == chunks@[order@[p as int] as int].chunk_index);
            p += 1;
        }
        proof {
            if p < order.len() {
                assert(keys[o[p as int]] == chunks@[order@[p as int] as int].chunk_index);
            }
            assert(keys[j as int] == key);
        }
        order.insert(p, j);
        assert(order@.map_values(|i: usize| i as int) =~= o.insert(p as int, j as int));
        j += 1;
        assert forall|k: int| 0 <= k < order.len() implies order@[k] < j by {}
    }
    order
}

/// Renders a document from its chunks (see `rendered_file`), or `None`
/// where a span replacement would fall outside the text or inside a character.
pub fn render_file_checked(original_html: &str, chunks: &[RenderedChunk]) -> (res: Option<String>)
    ensures
        match res {
            Some(s) => rendered_file(original_html@, chunks@) matches Some(b) && s@
                == vstd::utf8::decode_utf8(b),
            None => rendered_file(original_html@, chunks@) is None,
        },
{
    let orig = original_html.as_bytes();
    let mut rendered = crate::text::bytes_to_vec(orig);
    let spans = find_translatable_block_spans(orig);
    let order = chunk_order(chunks);
    let ghost h = orig@;
    let ghost sp = block_spans_from(h, 0);
    let ghost ord = desc_order(chunk_keys(chunks@), chunks.len() as int);
    proof {
        vstd::utf8::encode_utf8_valid_utf8(original_html@);
        assert(ord.len() == chunks.len()) by {
            assert(order@.map_values(|i: usize| i as int).len() == order@.len());
            lemma_desc_order_len(chunk_keys(chunks@), chunks.len() as int);
        }
    }
    let mut k: usize = 0;
    while k < order.len()
        invariant
            k <= order.len() == chunks.len(),
            h == vstd::utf8::encode_utf8(original_html@),
            sp == block_spans_from(h, 0),
            ord == desc_order(chunk_keys(chunks@), chunks.len() as int),
            order@.map_values(|i: usize| i as int) == ord,
            forall|m: int| 0 <= m < order.len() ==> order@[m] < chunks.len(),
            span_pairs(spans@) == sp,
            vstd::utf8::valid_utf8(rendered@),
            render_fold(h, sp, chunks@, ord, k as int) == Some(rendered@),
        decreases order.len() - k,
    {
        let c = &chunks[order[k]];
        assert(ord[k as int] == order@[k as int] as int);
        let tchars = chars_of(c.translated.as_str());
        if !is_blank(&tchars) {
            let escaped = escape_text(c.translated.as_str());
            let rep = escaped.as_str().as_bytes();
            proof {
                vstd::utf8::encode_utf8_valid_utf8(escaped@);
            }
            if c.chunk_index < spans.len() {
                let span = spans[c.chunk_index];
                assert(sp[c.chunk_index as int] == (span.inner_start as int, span.inner_end as int));
                let s = span.inner_start;
                let e = span.inner_end;
                if s <= e && e <= rendered.len() && crate::text::is_boundary(&rendered, s)
                    && crate::text::is_boundary(&rendered, e) {
                    let ghost r = rendered@;
                    let next = splice_bytes(&rendered, s, e, rep);
                    proof {
                        vstd::utf8::valid_utf8_split(r, s as int);
                        vstd::utf8::valid_utf8_split(r, e as int);
                        assert(r.take(s as int) =~= r.subrange(0, s as int));
                        assert(r.skip(e as int) =~= r.subrange(e as int, r.len() as int));
                        vstd::utf8::valid_utf8_concat(r.take(s as int), rep@);
                        vstd::utf8::valid_utf8_concat(r.take(s as int) + rep@, r.skip(e as int));
                    }
                    rendered = next;
                } else {
                    proof {
                        assert(render_fold(h, sp, chunks@, ord, k + 1) is None);
                        lemma_fold_stays_failed(h, sp, chunks@, ord, k + 1, chunks.len() as int);
                    }
                    return None;
                }
            } else {
                let needle = c.original.as_str().as_bytes();
                let ghost r = rendered@;
                match replace_nth_occurrence(&rendered, needle, rep, c.chunk_index) {
                    Some(next) => {
                        proof {
                            lemma_replacement_valid(r, needle@, rep@, c.chunk_index as nat, c.original@);
                        }
                        rendered = next;
                    },
                    None => {},
                }
            }
        }
        k += 1;
    }
    proof {
        vstd::utf8::decode_utf8_encode_utf8(rendered@);
    }
    Some(crate::text::string_from_utf8(rendered))
}

/// Once a rendering step fails, the whole rendering fails.
pub proof fn lemma_fold_stays_failed(
    start: Seq<u8>,
    spans: Seq<(int, int)>,
    chunks: Seq<RenderedChunk>,
    order: Seq<int>,
    k: int,
    n: int,
)
    requires
        0 <= k <= n,
        render_fold(start, spans, chunks, order, k) is None,
    ensures
        render_fold(start, spans, chunks, order, n) is None,
    decreases n - k,
{
    if k < n {
        lemma_fold_stays_failed(start, spans, chunks, order, k + 1, n);
    }
}

/// The processing order has one entry per chunk.
pub proof fn lemma_desc_order_len(keys: Seq<usize>, n: int)
    requires
        0 <= n,
    ensures
        desc_order(keys, n).len() == n,
        forall|k: int| 0 <= k < n ==> 0 <= #[trigger] desc_order(keys, n)[k] < n,
    decreases n,
{
    if n > 0 {
        lemma_desc_order_len(keys, n - 1);
        let o = desc_order(keys, n - 1);
        let p = desc_insert_pos(keys, o, keys[n - 1], 0);
        lemma_desc_insert_pos(keys, o, keys[n - 1], 0);
        assert forall|k: int| 0 <= k < n implies 0 <= #[trigger] desc_order(keys, n)[k] < n by {
            if k < p {
                assert(desc_order(keys, n)[k] == o[k]);
            } else if k > p {
                assert(desc_order(keys, n)[k] == o[k - 1]);
            }
        }
    }
}

/// Bounds of `desc_insert_pos`.
pub proof fn lemma_desc_insert_pos(keys: Seq<usize>, order: Seq<int>, key: usize, p: int)
    requires
        0 <= p,
    ensures
        p <= desc_insert_pos(keys, order, key, p) <= order.len() || (p > order.len()
            && desc_insert_pos(keys, order, key, p) == order.len()),
    decreases order.len() - p,
{
    if p < order.len() && keys[order[p]] >= key {
        lemma_desc_insert_pos(keys, order, key, p + 1);
    }
}

/// Replacing an occurrence of valid UTF-8 text by valid UTF-8 text in valid
/// UTF-8 text gives valid UTF-8 text.
pub proof fn lemma_replacement_valid(r: Seq<u8>, needle: Seq<u8>, rep: Seq<u8>, k: nat, original: Seq<char>)
    requires
        vstd::utf8::valid_utf8(r),
        vstd::utf8::valid_utf8(rep),
        needle == vstd::utf8::encode_utf8(original),
        replace_nth(r, needle, rep, k) is Some,
    ensures
        vstd::utf8::valid_utf8(replace_nth(r, needle, rep, k)->0),
{
    vstd::utf8::encode_utf8_valid_utf8(original);
    lemma_nth_occurrence(r, needle, k, 0);
    let i = nth_occurrence(r, needle, k, 0)->0;
    let n = needle.len() as int;
    assert(r.subrange(i, i + n) == needle);
    assert(r[i] == needle[0]);
    crate::text::lemma_valid_utf8_first_byte(needle);
    vstd::utf8::is_char_boundary_iff_not_is_continuation_byte(r, i);
    vstd::utf8::valid_utf8_split(r, i);
    assert(r.take(i) =~= r.subrange(0, i));
    vstd::utf8::valid_utf8_concat(r.take(i), needle);
    assert(r.take(i + n) =~= r.take(i) + needle);
    crate::text::lemma_valid_prefix_boundary(r, i + n);
    vstd::utf8::valid_utf8_split(r, i + n);
    assert(r.skip(i + n) =~= r.subrange(i + n, r.len() as int));
    vstd::utf8::valid_utf8_concat(r.take(i), rep);
    vstd::utf8::valid_utf8_concat(r.take(i) + rep, r.skip(i + n));
}

/// Renders a document from its chunks (see `rendered_file`). Chunks are
/// applied from the highest index down; a chunk whose index names a
/// translatable block has that block's content replaced by its escaped
/// translation, any other chunk replaces that occurrence of its original text.
pub fn render_file_from_chunks(original_html: &str, chunks: &[RenderedChunk]) -> (res: String)
    requires
        rendered_file(original_html@, chunks@) is Some,
    ensures
        res@ == vstd::utf8::decode_utf8(rendered_file(original_html@, chunks@)->0),
{
    match render_file_checked(original_html, chunks) {
        Some(s) => s,
        None => String::new(),
    }
}

/// A node of a parsed HTML document, as far as text extraction reads it.
#[derive(Debug)]
pub enum HtmlNode {
    Text(String),
    Element(HtmlElement),
    Other,
}

/// An element of a parsed HTML document: its local name and its children.
#[derive(Debug)]
pub struct HtmlElement {
    pub name: String,
    pub children: Vec<HtmlNode>,
}

/// `scraper::ElementRef`, made known to the verifier as an opaque type.
#[verifier::external_type_specification]
#[verifier::external_body]
pub struct ExElementRef<'a>(scraper::ElementRef<'a>);

/// The elements that `scraper` selects with the CSS selector list `selector`
/// in the document it parses from `raw` (`Html::parse_document`, then
/// `Html::select`), in the order `select` yields them; `None` where the
/// selector list does not parse.
pub uninterp spec fn spec_select_html(raw: Seq<char>, selector: Seq<char>) -> Option<
    Seq<HtmlElement>,
>;

/// Parses `raw_html` as a document with `scraper` and returns the elements
/// that `selector` matches, each converted node for node. Trusted: the result
/// is the named selection; nothing more is claimed of it.
#[verifier::external_body]
fn select_html(raw_html: &str, selector: &str) -> (res: Option<Vec<HtmlElement>>)
    ensures
        match res {
            Some(v) => spec_select_html(raw_html@, selector@) == Some(v@),
            None => spec_select_html(raw_html@, selector@) is None,
        },
{
    let selector = scraper::Selector::parse(selector).ok()?;
    let document = scraper::Html::parse_document(raw_html);
    Some(document.select(&selector).map(element_from_scraper).collect())
}

/// Converts a `scraper` element and its subtree (used by `select_html`):
/// text nodes keep their text, elements their name and children, and any
/// other node becomes `HtmlNode::Other`.
#[verifier::external_body]
fn element_from_scraper(element: scraper::ElementRef<'_>) -> HtmlElement {
    HtmlElement {
        name: element.value().name().to_string(),
        children: element.children().map(|child| match child.value().as_text() {
            Some(text) => HtmlNode::Text(String::from(&**text)),
            None => match scraper::ElementRef::wrap(child) {
                Some(el) => HtmlNode::Element(element_from_scraper(el)),
                None => HtmlNode::Other,
            },
        }).collect(),
    }
}

/// Inline elements whose text stays out of a chunk: ruby annotations,
/// images, vector graphics, figures and videos.
pub open spec fn is_skipped_inline(name: Seq<char>) -> bool {
    name == "rt"@ || name == "img"@ || name == "svg"@ || name == "figure"@ || name == "video"@
}

/// The text of a node with its inline markup dropped.
pub open spec fn flatten_node(n: HtmlNode) -> Seq<char>
    decreases n, 0int,
{
    match n {
        HtmlNode::Text(t) => t@,
        HtmlNode::Element(e) => if is_skipped_inline(e.name@) {
            seq![]
        } else {
            flatten_nodes(e.children@)
        },
        HtmlNode::Other => seq![],
    }
}

/// The texts of a sequence of nodes, one after another.
pub open spec fn flatten_nodes(nodes: Seq<HtmlNode>) -> Seq<char>
    decreases nodes, 0int,
{
    if nodes.len() == 0 {
        seq![]
    } else {
        flatten_nodes(nodes.drop_last()) + flatten_node(nodes.last())
    }
}

/// A block's text keeps the text of every inline element except ruby
/// annotations (`rt`), images, vector graphics, figures and videos: a block
/// made of text `a`, an inline element `e` holding text `b`, and text `c`
/// reads `a + b + c`, or `a + c` where `e` is one of those five.
pub proof fn law_inline_text_is_kept(a: String, e: HtmlElement, b: String, c: String)
    requires
        e.children@ == seq![HtmlNode::Text(b)],
    ensures
        flatten_nodes(seq![HtmlNode::Text(a), HtmlNode::Element(e), HtmlNode::Text(c)]) == if e.name@
            == "rt"@ || e.name@ == "img"@ || e.name@ == "svg"@ || e.name@ == "figure"@ || e.name@
            == "video"@ {
            a@ + c@
        } else {
            a@ + b@ + c@
        },
{
    let nodes = seq![HtmlNode::Text(a), HtmlNode::Element(e), HtmlNode::Text(c)];
    let two = seq![HtmlNode::Text(a), HtmlNode::Element(e)];
    let one = seq![HtmlNode::Text(a)];
    let kids = e.children@;
    assert(nodes.drop_last() =~= two);
    assert(two.drop_last() =~= one);
    assert(one.drop_last() =~= Seq::<HtmlNode>::empty());
    assert(kids.drop_last() =~= Seq::<HtmlNode>::empty());
    assert(flatten_nodes(Seq::<HtmlNode>::empty()) == Seq::<char>::empty());
    assert(flatten_node(HtmlNode::Text(a)) == a@);
    assert(flatten_node(HtmlNode::Text(b)) == b@);
    assert(flatten_node(HtmlNode::Text(c)) == c@);
    assert(flatten_nodes(one) == flatten_nodes(one.drop_last()) + flatten_node(one.last()));
    assert(flatten_nodes(one) =~= a@);
    assert(flatten_nodes(kids) == flatten_nodes(kids.drop_last()) + flatten_node(kids.last()));
    assert(flatten_nodes(kids) =~= b@);
    assert(flatten_nodes(two) == flatten_nodes(one) + flatten_node(HtmlNode::Element(e)));
    assert(flatten_nodes(nodes) == flatten_nodes(two) + flatten_node(HtmlNode::Text(c)));
}

/// A block's text is its nodes' texts one after another: the text of
/// `xs + ys` is the text of `xs` followed by the text of `ys`, a text node
/// reads as its text, and comments and other nodes read as nothing.
pub proof fn law_block_text_follows_node_order(xs: Seq<HtmlNode>, ys: Seq<HtmlNode>, t: String)
    ensures
        flatten_nodes(xs + ys) == flatten_nodes(xs) + flatten_nodes(ys),
        flatten_nodes(seq![HtmlNode::Text(t)]) == t@,
        flatten_nodes(seq![HtmlNode::Other]) == Seq::<char>::empty(),
    decreases ys.len(),
{
    if ys.len() > 0 {
        law_block_text_follows_node_order(xs, ys.drop_last(), t);
        assert((xs + ys).drop_last() =~= xs + ys.drop_last());
        assert((xs + ys).last() == ys.last());
        assert(flatten_nodes(xs + ys) == flatten_nodes((xs + ys).drop_last()) + flatten_node(
            (xs + ys).last(),
        ));
        assert(flatten_nodes(ys) == flatten_nodes(ys.drop_last()) + flatten_node(ys.last()));
    } else {
        assert(xs + ys =~= xs);
        assert(flatten_nodes(ys) == Seq::<char>::empty());
    }
    let one = seq![HtmlNode::Text(t)];
    assert(one.drop_last() =~= Seq::<HtmlNode>::empty());
    assert(flatten_nodes(one) == flatten_nodes(one.drop_last()) + flatten_node(one.last()));
    assert(flatten_nodes(Seq::<HtmlNode>::empty()) == Seq::<char>::empty());
    assert(flatten_nodes(one) =~= t@);
    let other = seq![HtmlNode::Other];
    assert(other.drop_last() =~= Seq::<HtmlNode>::empty());
    assert(flatten_nodes(other) == flatten_nodes(other.drop_last()) + flatten_node(other.last()));
    assert(flatten_nodes(other) =~= Seq::<char>::empty());
}

/// Whether an element name is one whose text is left out.
fn skipped_inline(name: &str) -> (res: bool)
    ensures
        res == is_skipped_inline(name@),
{
    crate::json::str_eq(name, "rt") || crate::json::str_eq(name, "img")
        || crate::json::str_eq(name, "svg") || crate::json::str_eq(name, "figure")
        || crate::json::str_eq(name, "video")
}

/// Appends the flattened text of `nodes` to `out`.
fn flatten_into(nodes: &Vec<HtmlNode>, out: &mut String)
    ensures
        final(out)@ == old(out)@ + flatten_nodes(nodes@),
    decreases nodes, 0int,
{
    let mut i: usize = 0;
    while i < nodes.len()
        invariant
            i <= nodes@.len(),
            out@ == old(out)@ + flatten_nodes(nodes@.take(i as int)),
        decreases nodes.len() - i,
    {
        assert(nodes@.take(i + 1).drop_last() =~= nodes@.take(i as int));
        assert(nodes@.take(i + 1).last() == nodes@[i as int]);
        let ghost before = out@;
        match &nodes[i] {
            HtmlNode::Text(t) => {
                out.append(t.as_str());
                assert(out@ =~= before + flatten_node(nodes@[i as int]));
            },
            HtmlNode::Element(e) => {
                if !skipped_inline(e.name.as_str()) {
                    assert(decreases_to!(*nodes => nodes@));
                    assert(decreases_to!(nodes@ => nodes@[i as int]));
                    assert(decreases_to!(nodes@[i as int] => e.children));
                    flatten_into(&e.children, out);
                }
                assert(out@ =~= before + flatten_node(nodes@[i as int]));
            },
            HtmlNode::Other => {
                assert(out@ =~= before + flatten_node(nodes@[i as int]));
            },
        }
        assert(out@ =~= old(out)@ + flatten_nodes(nodes@.take(i + 1)));
        i += 1;
    }
    assert(nodes@.take(nodes@.len() as int) =~= nodes@);
}

/// The text of an element with its inline markup dropped (see `flatten_nodes`).
pub fn flatten_inline_text(element: &HtmlElement) -> (res: String)
    ensures
        res@ == flatten_nodes(element.children@),
{
    let mut text = String::new();
    flatten_into(&element.children, &mut text);
    text
}

/// What a chunk holds: source path, node id and text.
pub open spec fn chunk_view(c: TextChunk) -> (Seq<char>, Option<Seq<char>>, Seq<char>) {
    (
        c.source_path@,
        match c.node_id {
            Some(n) => Some(n@),
            None => None,
        },
        c.text@,
    )
}

/// The chunks of the selected blocks, in order: one for each block whose
/// flattened text is not blank, with no source path yet, the node id
/// `<name>-<position among all selected blocks>`, and that text.
pub open spec fn block_chunks(blocks: Seq<HtmlElement>) -> Seq<
    (Seq<char>, Option<Seq<char>>, Seq<char>),
>
    decreases blocks.len(),
{
    if blocks.len() == 0 {
        seq![]
    } else {
        let rest = block_chunks(blocks.drop_last());
        let e = blocks.last();
        let text = flatten_nodes(e.children@);
        if trim(text).len() == 0 {
            rest
        } else {
            rest.push(
                (seq![], Some(e.name@ + "-"@ + crate::text::decimal((blocks.len() - 1) as nat)), text),
            )
        }
    }
}

/// The CSS selector list of the blocks that become chunks.
pub open spec fn chunk_selector() -> Seq<char> {
    "p, h1, h2, h3, li"@
}

/// The chunks of already selected blocks (see `block_chunks`).
pub fn text_chunks_from_blocks(blocks: &Vec<HtmlElement>) -> (res: Vec<TextChunk>)
    ensures
        res@.map_values(|c: TextChunk| chunk_view(c)) == block_chunks(blocks@),
{
    let mut chunks: Vec<TextChunk> = Vec::new();
    let mut index: usize = 0;
    while index < blocks.len()
        invariant
            index <= blocks@.len(),
            chunks@.map_values(|c: TextChunk| chunk_view(c)) == block_chunks(
                blocks@.take(index as int),
            ),
        decreases blocks.len() - index,
    {
        let element = &blocks[index];
        let ghost prev = chunks@.map_values(|c: TextChunk| chunk_view(c));
        assert(blocks@.take(index + 1).drop_last() =~= blocks@.take(index as int));
        assert(blocks@.take(index + 1).last() == blocks@[index as int]);
        let text = flatten_inline_text(element);
        let text_chars = chars_of(text.as_str());
        if !is_blank(&text_chars) {
            let mut id = chars_of(element.name.as_str());
            id.push('-');
            crate::text::push_decimal(index, &mut id);
            let node_id = string_from_chars(id.as_slice());
            assert(node_id@ =~= element.name@ + "-"@ + crate::text::decimal(index as nat)) by {
                reveal_strlit("-");
            }
            let chunk = TextChunk { source_path: String::new(), node_id: Some(node_id), text };
            chunks.push(chunk);
            assert(chunks@.map_values(|c: TextChunk| chunk_view(c)) =~= prev.push(chunk_view(chunk)));
            assert(chunk_view(chunk).0 =~= Seq::<char>::empty());
        }
        index += 1;
    }
    assert(blocks@.take(blocks@.len() as int) =~= blocks@);
    chunks
}

/// The translatable chunks of an HTML document: the blocks that `scraper`
/// selects with `p, h1, h2, h3, li`, turned into chunks by
/// `text_chunks_from_blocks`. No chunk comes out where the selector list is
/// refused.
pub fn extract_text_chunks(raw_html: &str) -> (res: Vec<TextChunk>)
    ensures
        match spec_select_html(raw_html@, chunk_selector()) {
            Some(blocks) => res@.map_values(|c: TextChunk| chunk_view(c)) == block_chunks(blocks),
            None => res@.len() == 0,
        },
{
    match select_html(raw_html, "p, h1, h2, h3, li") {
        Some(blocks) => text_chunks_from_blocks(&blocks),
        None => Vec::new(),
    }
}

/// The texts of a sequence of chunks, one after another.
pub open spec fn joined_texts(chunks: Seq<(Seq<char>, Option<Seq<char>>, Seq<char>)>) -> Seq<char>
    decreases chunks.len(),
{
    if chunks.len() == 0 {
        seq![]
    } else {
        joined_texts(chunks.drop_last()) + chunks.last().2
    }
}

/// All the chunk texts of an HTML document (see `extract_text_chunks`),
/// joined without separator.
pub fn extract_and_flatten_text(raw_html: &str) -> (res: String)
    ensures
        match spec_select_html(raw_html@, chunk_selector()) {
            Some(blocks) => res@ == joined_texts(block_chunks(blocks)),
            None => res@.len() == 0,
        },
{
    let chunks = extract_text_chunks(raw_html);
    let ghost cv = chunks@.map_values(|c: TextChunk| chunk_view(c));
    let mut out = String::new();
    let mut i: usize = 0;
    while i < chunks.len()
        invariant
            i <= chunks@.len(),
            cv == chunks@.map_values(|c: TextChunk| chunk_view(c)),
            out@ == joined_texts(cv.take(i as int)),
        decreases chunks.len() - i,
    {
        assert(cv.take(i + 1).drop_last() =~= cv.take(i as int));
        out.append(chunks[i].text.as_str());
        assert(out@ =~= joined_texts(cv.take(i + 1)));
        i += 1;
    }
    assert(cv.take(chunks@.len() as int) =~= cv);
    out
}

} // verus!
