//! Character-level helpers shared by the parsers and renderers.

use vstd::prelude::*;

verus! {

/// Unicode `White_Space` property, as `char::is_whitespace` defines it.
pub open spec fn spec_is_whitespace(c: char) -> bool {
    let u = c as u32;
    ||| (0x09 <= u && u <= 0x0D)
    ||| u == 0x20
    ||| u == 0x85
    ||| u == 0xA0
    ||| u == 0x1680
    ||| (0x2000 <= u && u <= 0x200A)
    ||| u == 0x2028
    ||| u == 0x2029
    ||| u == 0x202F
    ||| u == 0x205F
    ||| u == 0x3000
}

/// Executable `White_Space` test.
pub fn is_whitespace(c: char) -> (res: bool)
    ensures
        res == spec_is_whitespace(c),
{
    let u = c as u32;
    (0x09 <= u && u <= 0x0D) || u == 0x20 || u == 0x85 || u == 0xA0 || u == 0x1680 || (0x2000
        <= u && u <= 0x200A) || u == 0x2028 || u == 0x2029 || u == 0x202F || u == 0x205F || u
        == 0x3000
}

/// Every character of `s` is whitespace (so `s.trim()` is empty).
pub open spec fn all_whitespace(s: Seq<char>) -> bool {
    forall|i: int| 0 <= i < s.len() ==> spec_is_whitespace(#[trigger] s[i])
}

/// `s` with leading whitespace removed.
pub open spec fn trim_start(s: Seq<char>) -> Seq<char>
    decreases s.len(),
{
    if s.len() > 0 && spec_is_whitespace(s[0]) {
        trim_start(s.drop_first())
    } else {
        s
    }
}

/// `s` with trailing whitespace removed.
pub open spec fn trim_end(s: Seq<char>) -> Seq<char>
    decreases s.len(),
{
    if s.len() > 0 && spec_is_whitespace(s.last()) {
        trim_end(s.drop_last())
    } else {
        s
    }
}

/// `s` with whitespace removed at both ends, as `str::trim` does.
pub open spec fn trim(s: Seq<char>) -> Seq<char> {
    trim_end(trim_start(s))
}

/// `p` occurs in `s` at position `i`.
pub open spec fn occurs_at<A>(s: Seq<A>, i: int, p: Seq<A>) -> bool {
    0 <= i && i + p.len() <= s.len() && s.subrange(i, i + p.len()) == p
}

/// `s` begins with `p`.
pub open spec fn starts_with<A>(s: Seq<A>, p: Seq<A>) -> bool {
    occurs_at(s, 0, p)
}

/// `s` ends with `p`.
pub open spec fn ends_with<A>(s: Seq<A>, p: Seq<A>) -> bool {
    p.len() <= s.len() && occurs_at(s, s.len() - p.len(), p)
}

/// `p` occurs somewhere in `s`.
pub open spec fn contains_seq<A>(s: Seq<A>, p: Seq<A>) -> bool {
    exists|i: int| occurs_at(s, i, p)
}

/// The first position at or after `from` where `p` occurs in `s`.
pub open spec fn find_from<A>(s: Seq<A>, p: Seq<A>, from: int) -> Option<int>
    decreases s.len() + 1 - from,
{
    if from < 0 || from + p.len() > s.len() {
        None
    } else if occurs_at(s, from, p) {
        Some(from)
    } else {
        find_from(s, p, from + 1)
    }
}

/// The first position at or after `from` holding `c`.
pub open spec fn find_elem_from<A>(s: Seq<A>, c: A, from: int) -> Option<int>
    decreases s.len() - from,
{
    if from < 0 || from >= s.len() {
        None
    } else if s[from] == c {
        Some(from)
    } else {
        find_elem_from(s, c, from + 1)
    }
}

/// What `find_from` says about its result.
pub proof fn lemma_find_from<A>(s: Seq<A>, p: Seq<A>, from: int)
    requires
        0 <= from,
    ensures
        match find_from(s, p, from) {
            Some(i) => from <= i && occurs_at(s, i, p) && forall|j: int|
                from <= j < i ==> !occurs_at(s, j, p),
            None => forall|j: int| from <= j ==> !occurs_at(s, j, p),
        },
    decreases s.len() + 1 - from,
{
    if from + p.len() > s.len() {
    } else if occurs_at(s, from, p) {
    } else {
        lemma_find_from(s, p, from + 1);
    }
}

/// What `find_elem_from` says about its result.
pub proof fn lemma_find_elem_from<A>(s: Seq<A>, c: A, from: int)
    requires
        0 <= from,
    ensures
        match find_elem_from(s, c, from) {
            Some(i) => from <= i < s.len() && s[i] == c && forall|j: int|
                from <= j < i ==> s[j] != c,
            None => forall|j: int| from <= j < s.len() ==> s[j] != c,
        },
    decreases s.len() - from,
{
    if from >= s.len() {
    } else if s[from] == c {
    } else {
        lemma_find_elem_from(s, c, from + 1);
    }
}

/// Executable `occurs_at` on characters.
pub fn chars_occur_at(s: &Vec<char>, i: usize, p: &Vec<char>) -> (res: bool)
    ensures
        res == occurs_at(s@, i as int, p@),
{
    if i > s.len() || p.len() > s.len() - i {
        return false;
    }
    let mut k: usize = 0;
    while k < p.len()
        invariant
            i + p.len() <= s.len(),
            k <= p.len(),
            forall|j: int| 0 <= j < k ==> s@[i + j] == p@[j],
        decreases p.len() - k,
    {
        if s[i + k] != p[k] {
            assert(s@.subrange(i as int, i + p.len())[k as int] != p@[k as int]);
            return false;
        }
        k += 1;
    }
    assert(s@.subrange(i as int, i + p.len()) =~= p@);
    true
}

/// Executable `find_from` on characters.
pub fn find_chars_from(s: &Vec<char>, p: &Vec<char>, from: usize) -> (res: Option<usize>)
    ensures
        match res {
            Some(i) => find_from(s@, p@, from as int) == Some(i as int),
            None => find_from(s@, p@, from as int) is None,
        },
{
    if p.len() == 0 {
        if from <= s.len() {
            assert(s@.subrange(from as int, from as int) =~= p@);
            return Some(from);
        }
        return None;
    }
    let mut i = from;
    while i < s.len() && p.len() <= s.len() - i
        invariant
            from <= i,
            p.len() > 0,
            find_from(s@, p@, from as int) == find_from(s@, p@, i as int),
        decreases s.len() - i,
    {
        if chars_occur_at(s, i, p) {
            return Some(i);
        }
        i += 1;
    }
    None
}

/// Executable `find_elem_from` on characters.
pub fn find_char_from(s: &Vec<char>, c: char, from: usize) -> (res: Option<usize>)
    ensures
        match res {
            Some(i) => find_elem_from(s@, c, from as int) == Some(i as int),
            None => find_elem_from(s@, c, from as int) is None,
        },
{
    let mut i = from;
    while i < s.len()
        invariant
            from <= i,
            find_elem_from(s@, c, from as int) == find_elem_from(s@, c, i as int),
        decreases s.len() - i,
    {
        if s[i] == c {
            return Some(i);
        }
        i += 1;
    }
    None
}

/// The bounds of `v` with whitespace removed at both ends.
pub fn trim_bounds(v: &Vec<char>) -> (r: (usize, usize))
    ensures
        r.0 <= r.1 <= v.len(),
        v@.subrange(r.0 as int, r.1 as int) == trim(v@),
        trim_start(v@) == v@.subrange(r.0 as int, v.len() as int),
{
    let n = v.len();
    let mut i: usize = 0;
    assert(v@.subrange(0, n as int) =~= v@);
    while i < n && is_whitespace(v[i])
        invariant
            i <= n == v.len(),
            trim_start(v@) == trim_start(v@.subrange(i as int, n as int)),
        decreases n - i,
    {
        assert(v@.subrange(i as int, n as int).drop_first() =~= v@.subrange(i + 1, n as int));
        i += 1;
    }
    let mut j: usize = n;
    while j > i && is_whitespace(v[j - 1])
        invariant
            i <= j <= n == v.len(),
            trim_start(v@) == v@.subrange(i as int, n as int),
            trim_end(v@.subrange(i as int, n as int)) == trim_end(v@.subrange(i as int, j as int)),
        decreases j - i,
    {
        assert(v@.subrange(i as int, j as int).drop_last() =~= v@.subrange(i as int, j - 1));
        j -= 1;
    }
    (i, j)
}

/// `v` with whitespace removed at both ends.
pub fn trim_chars(v: &Vec<char>) -> (res: Vec<char>)
    ensures
        res@ == trim(v@),
{
    let (a, b) = trim_bounds(v);
    slice_chars(v, a, b)
}

/// The characters of `v` from `a` up to `b`.
pub fn slice_chars(v: &Vec<char>, a: usize, b: usize) -> (res: Vec<char>)
    requires
        a <= b <= v.len(),
    ensures
        res@ == v@.subrange(a as int, b as int),
{
    let mut res: Vec<char> = Vec::new();
    let mut k = a;
    while k < b
        invariant
            a <= k <= b <= v.len(),
            res@ == v@.subrange(a as int, k as int),
        decreases b - k,
    {
        res.push(v[k]);
        k += 1;
        assert(res@ =~= v@.subrange(a as int, k as int));
    }
    res
}

/// Every character of `v` is whitespace.
pub fn is_blank(v: &Vec<char>) -> (res: bool)
    ensures
        res == all_whitespace(v@),
        res == (trim(v@).len() == 0),
{
    let (a, b) = trim_bounds(v);
    proof {
        lemma_trim_empty_iff_blank(v@);
    }
    a == b
}

/// A sequence trims to nothing exactly when it is all whitespace.
pub proof fn lemma_trim_empty_iff_blank(s: Seq<char>)
    ensures
        (trim(s).len() == 0) == all_whitespace(s),
        (trim_start(s).len() == 0) == all_whitespace(s),
    decreases s.len(),
{
    if s.len() > 0 && spec_is_whitespace(s[0]) {
        lemma_trim_empty_iff_blank(s.drop_first());
        assert forall|i: int| 0 <= i < s.len() - 1 implies #[trigger] s.drop_first()[i] == s[i + 1] by {}
        if all_whitespace(s.drop_first()) {
            assert forall|i: int| 0 <= i < s.len() implies spec_is_whitespace(#[trigger] s[i]) by {
                if i > 0 {
                    assert(s.drop_first()[i - 1] == s[i]);
                }
            }
        }
    }
    lemma_trim_end_empty(trim_start(s));
}

/// `trim_end` empties exactly the all-whitespace sequences.
pub proof fn lemma_trim_end_empty(s: Seq<char>)
    ensures
        (trim_end(s).len() == 0) == all_whitespace(s),
    decreases s.len(),
{
    if s.len() > 0 && spec_is_whitespace(s.last()) {
        lemma_trim_end_empty(s.drop_last());
        assert forall|i: int| 0 <= i < s.len() - 1 implies #[trigger] s.drop_last()[i] == s[i] by {}
        if all_whitespace(s.drop_last()) {
            assert forall|i: int| 0 <= i < s.len() implies spec_is_whitespace(#[trigger] s[i]) by {
                if i < s.len() - 1 {
                    assert(s.drop_last()[i] == s[i]);
                }
            }
        }
    } else if s.len() > 0 {
        assert(!spec_is_whitespace(s[s.len() - 1]));
    }
}

/// The characters of a string slice, collected from `str::chars`. Trusted:
/// they are the characters of the slice's view, in order.
#[verifier::external_body]
pub(crate) fn chars_of(s: &str) -> (res: Vec<char>)
    ensures
        res@ == s@,
{
    s.chars().collect()
}

/// A string made of the given characters, collected into a `String` from
/// `slice::iter`. Trusted: its view is those characters, in order.
#[verifier::external_body]
pub(crate) fn string_from_chars(v: &[char]) -> (res: String)
    ensures
        res@ == v@,
{
    v.iter().collect()
}

} // verus!

verus! {

/// `s` without the suffix `suf` when it ends with it, else `s` itself.
pub open spec fn strip_suffix_or_self<A>(s: Seq<A>, suf: Seq<A>) -> Seq<A> {
    if ends_with(s, suf) {
        s.take(s.len() - suf.len())
    } else {
        s
    }
}

/// Removes a Markdown code fence: after trimming, a leading "```json" or
/// "```" and a trailing "```" are dropped and the rest trimmed again.
pub open spec fn strip_code_fence(raw: Seq<char>) -> Seq<char> {
    let t = trim(raw);
    if starts_with(t, "```json"@) {
        trim(strip_suffix_or_self(t.skip("```json"@.len() as int), "```"@))
    } else if starts_with(t, "```"@) {
        trim(strip_suffix_or_self(t.skip("```"@.len() as int), "```"@))
    } else {
        t
    }
}

/// Leading whitespace of `x` goes first: trimming the start of `x + y`
/// trims `x` alone when `x` is not all whitespace, else goes on into `y`.
proof fn lemma_trim_start_concat(x: Seq<char>, y: Seq<char>)
    ensures
        !all_whitespace(x) ==> trim_start(x + y) == trim_start(x) + y,
        all_whitespace(x) ==> trim_start(x + y) == trim_start(y),
    decreases x.len(),
{
    if x.len() > 0 {
        assert((x + y)[0] == x[0]);
        if spec_is_whitespace(x[0]) {
            assert((x + y).drop_first() =~= x.drop_first() + y);
            lemma_trim_start_concat(x.drop_first(), y);
            if !all_whitespace(x) {
                let k = choose|k: int| 0 <= k < x.len() && !spec_is_whitespace(#[trigger] x[k]);
                assert(x.drop_first()[k - 1] == x[k]);
            } else {
                assert forall|k: int| 0 <= k < x.drop_first().len() implies spec_is_whitespace(
                    #[trigger] x.drop_first()[k],
                ) by {
                    assert(x.drop_first()[k] == x[k + 1]);
                }
            }
        }
    } else {
        assert(x + y =~= y);
    }
}

/// Trailing whitespace of `y` goes first: trimming the end of `x + y`
/// trims `y` alone when `y` is not all whitespace, else goes on into `x`.
proof fn lemma_trim_end_concat(x: Seq<char>, y: Seq<char>)
    ensures
        !all_whitespace(y) ==> trim_end(x + y) == x + trim_end(y),
        all_whitespace(y) ==> trim_end(x + y) == trim_end(x),
    decreases y.len(),
{
    if y.len() > 0 {
        assert((x + y).last() == y.last());
        if spec_is_whitespace(y.last()) {
            assert((x + y).drop_last() =~= x + y.drop_last());
            lemma_trim_end_concat(x, y.drop_last());
            if !all_whitespace(y) {
                let k = choose|k: int| 0 <= k < y.len() && !spec_is_whitespace(#[trigger] y[k]);
                assert(y.drop_last()[k] == y[k]);
            } else {
                assert forall|k: int| 0 <= k < y.drop_last().len() implies spec_is_whitespace(
                    #[trigger] y.drop_last()[k],
                ) by {
                    assert(y.drop_last()[k] == y[k]);
                }
            }
        }
    } else {
        assert(x + y =~= x);
    }
}

/// Surrounding a text with line breaks leaves its trimmed form alone.
pub proof fn lemma_trim_between_newlines(j: Seq<char>)
    ensures
        trim(seq!['\n'] + j + seq!['\n']) == trim(j),
{
    let nl = seq!['\n'];
    assert(all_whitespace(nl)) by {
        assert forall|k: int| 0 <= k < nl.len() implies spec_is_whitespace(#[trigger] nl[k]) by {
            assert(nl[k] == '\n');
        }
    }
    assert(nl + j + nl =~= nl + (j + nl));
    lemma_trim_start_concat(nl, j + nl);
    lemma_trim_start_concat(j, nl);
    lemma_trim_start_concat(j, Seq::<char>::empty());
    assert(j + Seq::<char>::empty() =~= j);
    lemma_trim_start_concat(nl, Seq::<char>::empty());
    assert(nl + Seq::<char>::empty() =~= nl);
    assert(trim_start(Seq::<char>::empty()) == Seq::<char>::empty());
    if !all_whitespace(j) {
        lemma_trim_end_concat(trim_start(j), nl);
    } else {
        assert(trim_start(nl) == trim_start(nl.drop_first()));
        assert(nl.drop_first() =~= Seq::<char>::empty());
    }
}

/// A text that begins and ends with non-whitespace is its own trimmed form.
pub proof fn lemma_trim_of_solid_ends(x: Seq<char>)
    requires
        x.len() > 0,
        !spec_is_whitespace(x[0]),
        !spec_is_whitespace(x.last()),
    ensures
        trim(x) == x,
{
}

/// The fence-free rest of a fenced reply, `"\n" + j + "\n```"`, loses its
/// closing fence and reads as `j` trimmed.
proof fn lemma_fence_rest(j: Seq<char>)
    ensures
        trim(strip_suffix_or_self(seq!['\n'] + j + "\n```"@, "```"@)) == trim(j),
{
    reveal_strlit("\n```");
    reveal_strlit("```");
    let g = seq!['\n'] + j + "\n```"@;
    assert(g.subrange(g.len() - 3, g.len() as int) =~= "```"@);
    assert(ends_with(g, "```"@));
    assert(g.take(g.len() - 3) =~= seq!['\n'] + j + seq!['\n']);
    lemma_trim_between_newlines(j);
}

/// A reply wrapped in a Markdown code fence, plain (```) or marked as JSON
/// (```json), reads like the reply without it: for a text `j` whose trimmed
/// form does not itself begin with a fence, removing the fence of
/// "```\n" + j + "\n```" or of "```json\n" + j + "\n```" gives what
/// removing a fence from `j` gives, which is `j` trimmed.
pub proof fn law_code_fence_is_removed(j: Seq<char>)
    requires
        !starts_with(trim(j), "```"@),
    ensures
        strip_code_fence(j) == trim(j),
        strip_code_fence("```\n"@ + j + "\n```"@) == trim(j),
        strip_code_fence("```json\n"@ + j + "\n```"@) == trim(j),
{
    reveal_strlit("```\n");
    reveal_strlit("```json\n");
    reveal_strlit("\n```");
    reveal_strlit("```json");
    reveal_strlit("```");
    let t = trim(j);
    if starts_with(t, "```json"@) {
        assert(t.subrange(0, 3) =~= "```json"@.subrange(0, 3));
        assert("```json"@.subrange(0, 3) =~= "```"@);
        assert(starts_with(t, "```"@));
    }
    let plain = "```\n"@ + j + "\n```"@;
    lemma_trim_of_solid_ends(plain);
    assert(!starts_with(plain, "```json"@)) by {
        if starts_with(plain, "```json"@) {
            assert(plain.subrange(0, 7)[3] == plain[3]);
        }
    }
    assert(plain.subrange(0, 3) =~= "```"@);
    assert(plain.skip(3) =~= seq!['\n'] + j + "\n```"@);
    lemma_fence_rest(j);
    let marked = "```json\n"@ + j + "\n```"@;
    lemma_trim_of_solid_ends(marked);
    assert(marked.subrange(0, 7) =~= "```json"@);
    assert(marked.skip(7) =~= seq!['\n'] + j + "\n```"@);
}

/// Executable `strip_suffix_or_self` on characters.
pub fn strip_suffix_chars(s: &Vec<char>, suf: &Vec<char>) -> (res: Vec<char>)
    ensures
        res@ == strip_suffix_or_self(s@, suf@),
{
    if suf.len() <= s.len() && chars_occur_at(s, s.len() - suf.len(), suf) {
        let r = slice_chars(s, 0, s.len() - suf.len());
        assert(r@ =~= s@.take(s.len() - suf.len()));
        r
    } else {
        slice_chars(s, 0, s.len())
    }
}

/// Removes a surrounding Markdown code fence from a reply.
pub fn strip_markdown_fence(raw: &str) -> (res: Vec<char>)
    ensures
        res@ == strip_code_fence(raw@),
{
    let v = chars_of(raw);
    let t = trim_chars(&v);
    let json_fence = chars_of("```json");
    let fence = chars_of("```");
    if chars_occur_at(&t, 0, &json_fence) {
        let w = slice_chars(&t, json_fence.len(), t.len());
        assert(w@ =~= t@.skip(json_fence.len() as int));
        trim_chars(&strip_suffix_chars(&w, &fence))
    } else if chars_occur_at(&t, 0, &fence) {
        let w = slice_chars(&t, fence.len(), t.len());
        assert(w@ =~= t@.skip(fence.len() as int));
        trim_chars(&strip_suffix_chars(&w, &fence))
    } else {
        t
    }
}

/// Number of occurrences of `c` in `s`.
pub open spec fn count_of<A>(s: Seq<A>, c: A) -> nat
    decreases s.len(),
{
    if s.len() == 0 {
        0
    } else {
        count_of(s.drop_last(), c) + if s.last() == c {
            1nat
        } else {
            0nat
        }
    }
}

/// Executable `count_of` on characters.
pub fn count_char(s: &Vec<char>, c: char) -> (res: usize)
    ensures
        res == count_of(s@, c),
{
    let mut n: usize = 0;
    let mut i: usize = 0;
    while i < s.len()
        invariant
            i <= s.len(),
            n == count_of(s@.take(i as int), c),
            n <= i,
        decreases s.len() - i,
    {
        assert(s@.take(i + 1).drop_last() =~= s@.take(i as int));
        if s[i] == c {
            n += 1;
        }
        i += 1;
    }
    assert(s@.take(s.len() as int) =~= s@);
    n
}

} // verus!

verus! {

/// Executable `occurs_at` on bytes.
pub fn bytes_occur_at(s: &[u8], i: usize, p: &[u8]) -> (res: bool)
    ensures
        res == occurs_at(s@, i as int, p@),
{
    if i > s.len() || p.len() > s.len() - i {
        return false;
    }
    let mut k: usize = 0;
    while k < p.len()
        invariant
            i + p.len() <= s.len(),
            k <= p.len(),
            forall|j: int| 0 <= j < k ==> s@[i + j] == p@[j],
        decreases p.len() - k,
    {
        if s[i + k] != p[k] {
            assert(s@.subrange(i as int, i + p.len())[k as int] != p@[k as int]);
            return false;
        }
        k += 1;
    }
    assert(s@.subrange(i as int, i + p.len()) =~= p@);
    true
}

/// Executable `find_from` on bytes.
pub fn find_bytes_from(s: &[u8], p: &[u8], from: usize) -> (res: Option<usize>)
    ensures
        match res {
            Some(i) => find_from(s@, p@, from as int) == Some(i as int),
            None => find_from(s@, p@, from as int) is None,
        },
{
    if p.len() == 0 {
        if from <= s.len() {
            assert(s@.subrange(from as int, from as int) =~= p@);
            return Some(from);
        }
        return None;
    }
    let mut i = from;
    while i < s.len() && p.len() <= s.len() - i
        invariant
            from <= i,
            p.len() > 0,
            find_from(s@, p@, from as int) == find_from(s@, p@, i as int),
        decreases s.len() - i,
    {
        if bytes_occur_at(s, i, p) {
            return Some(i);
        }
        i += 1;
    }
    None
}

/// Executable `find_elem_from` on bytes.
pub fn find_byte_from(s: &[u8], c: u8, from: usize) -> (res: Option<usize>)
    ensures
        match res {
            Some(i) => find_elem_from(s@, c, from as int) == Some(i as int),
            None => find_elem_from(s@, c, from as int) is None,
        },
{
    let mut i = from;
    while i < s.len()
        invariant
            from <= i,
            find_elem_from(s@, c, from as int) == find_elem_from(s@, c, i as int),
        decreases s.len() - i,
    {
        if s[i] == c {
            return Some(i);
        }
        i += 1;
    }
    None
}

/// The last position holding `c`.
pub open spec fn rfind_elem<A>(s: Seq<A>, c: A) -> Option<int>
    decreases s.len(),
{
    if s.len() == 0 {
        None
    } else if s.last() == c {
        Some(s.len() - 1)
    } else {
        rfind_elem(s.drop_last(), c)
    }
}

/// Executable `rfind_elem` on characters.
pub fn rfind_char(s: &Vec<char>, c: char) -> (res: Option<usize>)
    ensures
        match res {
            Some(i) => rfind_elem(s@, c) == Some(i as int),
            None => rfind_elem(s@, c) is None,
        },
{
    let mut j = s.len();
    assert(s@.take(j as int) =~= s@);
    while j > 0
        invariant
            j <= s.len(),
            rfind_elem(s@, c) == rfind_elem(s@.take(j as int), c),
        decreases j,
    {
        assert(s@.take(j as int).drop_last() =~= s@.take(j - 1));
        if s[j - 1] == c {
            return Some(j - 1);
        }
        j -= 1;
    }
    None
}

/// Copies a byte slice into a vector.
pub fn bytes_to_vec(s: &[u8]) -> (res: Vec<u8>)
    ensures
        res@ == s@,
{
    let mut out: Vec<u8> = Vec::new();
    let mut i: usize = 0;
    while i < s.len()
        invariant
            i <= s.len(),
            out@ == s@.take(i as int),
        decreases s.len() - i,
    {
        out.push(s[i]);
        i += 1;
        assert(out@ =~= s@.take(i as int));
    }
    assert(s@.take(s.len() as int) =~= s@);
    out
}

/// The text that valid UTF-8 bytes encode, by `String::from_utf8`. Trusted:
/// on valid UTF-8 it succeeds and its view is the decoding of the bytes.
#[verifier::external_body]
pub(crate) fn string_from_utf8(bytes: Vec<u8>) -> (res: String)
    requires
        vstd::utf8::valid_utf8(bytes@),
    ensures
        res@ == vstd::utf8::decode_utf8(bytes@),
{
    String::from_utf8(bytes).unwrap()
}

} // verus!

verus! {

/// A valid UTF-8 sequence does not start with a continuation byte.
pub proof fn lemma_valid_utf8_first_byte(x: Seq<u8>)
    requires
        vstd::utf8::valid_utf8(x),
        x.len() > 0,
    ensures
        !vstd::utf8::is_continuation_byte(x[0]),
{
}

/// A position that ends a valid UTF-8 prefix of a valid UTF-8 sequence is a
/// character boundary of it.
pub proof fn lemma_valid_prefix_boundary(x: Seq<u8>, k: int)
    requires
        vstd::utf8::valid_utf8(x),
        0 <= k <= x.len(),
        vstd::utf8::valid_utf8(x.take(k)),
    ensures
        vstd::utf8::is_char_boundary(x, k),
    decreases k,
{
    if k > 0 {
        let t = x.take(k);
        assert(t[0] == x[0]);
        let l = vstd::utf8::length_of_first_scalar(t);
        assert(l == vstd::utf8::length_of_first_scalar(x));
        assert(1 <= l <= k);
        let px = vstd::utf8::pop_first_scalar(x);
        let pt = vstd::utf8::pop_first_scalar(t);
        assert(pt =~= px.take(k - l));
        lemma_valid_prefix_boundary(px, k - l);
    }
}

/// Whether `i` is a character boundary of valid UTF-8 bytes.
pub fn is_boundary(r: &Vec<u8>, i: usize) -> (res: bool)
    requires
        vstd::utf8::valid_utf8(r@),
    ensures
        res == vstd::utf8::is_char_boundary(r@, i as int),
{
    proof {
        vstd::utf8::is_char_boundary_start_end_of_seq(r@);
    }
    if i == 0 {
        true
    } else if i > r.len() {
        false
    } else if i == r.len() {
        true
    } else {
        proof {
            vstd::utf8::is_char_boundary_iff_not_is_continuation_byte(r@, i as int);
        }
        !(0x80 <= r[i] && r[i] <= 0xBF)
    }
}

/// The decimal digit character for `d < 10`.
pub open spec fn digit_char(d: nat) -> char {
    if d == 0 {
        '0'
    } else if d == 1 {
        '1'
    } else if d == 2 {
        '2'
    } else if d == 3 {
        '3'
    } else if d == 4 {
        '4'
    } else if d == 5 {
        '5'
    } else if d == 6 {
        '6'
    } else if d == 7 {
        '7'
    } else if d == 8 {
        '8'
    } else {
        '9'
    }
}

/// The decimal notation of `n`, without leading zeros.
pub open spec fn decimal(n: nat) -> Seq<char>
    decreases n,
{
    if n < 10 {
        seq![digit_char(n)]
    } else {
        decimal(n / 10).push(digit_char(n % 10))
    }
}

fn digit(d: usize) -> (res: char)
    requires
        d < 10,
    ensures
        res == digit_char(d as nat),
{
    if d == 0 {
        '0'
    } else if d == 1 {
        '1'
    } else if d == 2 {
        '2'
    } else if d == 3 {
        '3'
    } else if d == 4 {
        '4'
    } else if d == 5 {
        '5'
    } else if d == 6 {
        '6'
    } else if d == 7 {
        '7'
    } else if d == 8 {
        '8'
    } else {
        '9'
    }
}

/// Appends the decimal notation of `n` to `out`.
pub fn push_decimal(n: usize, out: &mut Vec<char>)
    ensures
        final(out)@ == old(out)@ + decimal(n as nat),
    decreases n,
{
    if n >= 10 {
        push_decimal(n / 10, out);
    }
    out.push(digit(n % 10));
    assert(out@ =~= old(out)@ + decimal(n as nat));
}

/// `s` ends with the characters of `suffix`.
pub fn ends_with_str(s: &Vec<char>, suffix: &str) -> (res: bool)
    ensures
        res == ends_with(s@, suffix@),
{
    let p = chars_of(suffix);
    p.len() <= s.len() && chars_occur_at(s, s.len() - p.len(), &p)
}

} // verus!
