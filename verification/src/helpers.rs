//! Small verified text utilities: version comparison, shell-style
//! unescaping of recorded commands, and literal redaction.
use vstd::prelude::*;

use crate::model::{CaptureModel, CaptureV2_4};
use crate::trusted;
use vstd::string::*;
use vstd::utf8::encode_utf8;
use vstd::slice::slice_to_vec;

verus! {

/// Index of the first `.` in `s`, or -1 if there is none.
pub open spec fn first_dot(s: Seq<char>) -> int
    decreases s.len(),
{
    if s.len() == 0 {
        -1
    } else if s[0] == '.' {
        0
    } else {
        let r = first_dot(s.drop_first());
        if r == -1 {
            -1
        } else {
            r + 1
        }
    }
}

/// The component before the first `.`.
pub open spec fn major_part(s: Seq<char>) -> Seq<char> {
    s.take(first_dot(s))
}

/// The component between the first `.` and the second `.` (or the end).
pub open spec fn minor_part(s: Seq<char>) -> Seq<char> {
    let rest = s.skip(first_dot(s) + 1);
    if first_dot(rest) == -1 {
        rest
    } else {
        rest.take(first_dot(rest))
    }
}

/// Two version strings agree when both have at least two `.`-separated
/// components and the first two components match exactly.
pub open spec fn same_major_minor(a: Seq<char>, b: Seq<char>) -> bool {
    &&& first_dot(a) != -1
    &&& first_dot(b) != -1
    &&& major_part(a) == major_part(b)
    &&& minor_part(a) == minor_part(b)
}

proof fn lemma_first_dot_bounds(s: Seq<char>)
    ensures
        first_dot(s) == -1 ==> forall|j: int| 0 <= j < s.len() ==> s[j] != '.',
        first_dot(s) != -1 ==> 0 <= first_dot(s) < s.len() && s[first_dot(s)] == '.' && forall|
            j: int,
        | 0 <= j < first_dot(s) ==> s[j] != '.',
    decreases s.len(),
{
    if s.len() > 0 && s[0] != '.' {
        lemma_first_dot_bounds(s.drop_first());
        assert forall|j: int| 0 <= j < s.len() && first_dot(s) == -1 implies s[j] != '.' by {
            if j > 0 {
                assert(s.drop_first()[j - 1] == s[j]);
            }
        }
        if first_dot(s) != -1 {
            assert(s.drop_first()[first_dot(s) - 1] == s[first_dot(s)]);
            assert forall|j: int| 0 <= j < first_dot(s) implies s[j] != '.' by {
                if j > 0 {
                    assert(s.drop_first()[j - 1] == s[j]);
                }
            }
        }
    }
}

proof fn lemma_first_dot_at(s: Seq<char>, i: int)
    requires
        0 <= i < s.len(),
        s[i] == '.',
        forall|j: int| 0 <= j < i ==> s[j] != '.',
    ensures
        first_dot(s) == i,
    decreases s.len(),
{
    if i > 0 {
        assert forall|j: int| 0 <= j < i - 1 implies s.drop_first()[j] != '.' by {
            assert(s.drop_first()[j] == s[j + 1]);
        }
        assert(s.drop_first()[i - 1] == s[i]);
        lemma_first_dot_at(s.drop_first(), i - 1);
    }
}

proof fn lemma_first_dot_none(s: Seq<char>)
    requires
        forall|j: int| 0 <= j < s.len() ==> s[j] != '.',
    ensures
        first_dot(s) == -1,
    decreases s.len(),
{
    if s.len() > 0 {
        assert forall|j: int| 0 <= j < s.drop_first().len() implies s.drop_first()[j] != '.' by {
            assert(s.drop_first()[j] == s[j + 1]);
        }
        lemma_first_dot_none(s.drop_first());
    }
}

/// Scan for the first `.` at or after `from`; returns its index, or the
/// length of the string if there is none before the end.
fn scan_dot(s: &str, from: usize) -> (r: usize)
    requires
        from <= s@.len(),
    ensures
        from <= r <= s@.len(),
        r < s@.len() ==> s@[r as int] == '.',
        forall|j: int| from <= j < r ==> s@[j] != '.',
{
    let n = s.unicode_len();
    let mut i = from;
    while i < n
        invariant
            from <= i <= n,
            n == s@.len(),
            forall|j: int| from <= j < i ==> s@[j] != '.',
        decreases n - i,
    {
        if s.get_char(i) == '.' {
            return i;
        }
        i += 1;
    }
    i
}

/// True when the character ranges `a[af..at)` and `b[bf..bt)` hold the
/// same characters.
fn range_eq(a: &str, af: usize, at: usize, b: &str, bf: usize, bt: usize) -> (r: bool)
    requires
        af <= at <= a@.len(),
        bf <= bt <= b@.len(),
    ensures
        r == (a@.subrange(af as int, at as int) == b@.subrange(bf as int, bt as int)),
{
    if at - af != bt - bf {
        assert(a@.subrange(af as int, at as int).len() != b@.subrange(bf as int, bt as int).len());
        return false;
    }
    let len = at - af;
    let mut i: usize = 0;
    while i < len
        invariant
            0 <= i <= len,
            af + len == at <= a@.len(),
            bf + len == bt <= b@.len(),
            forall|j: int| 0 <= j < i ==> #[trigger] a@[af + j] == b@[bf + j],
        decreases len - i,
    {
        if a.get_char(af + i) != b.get_char(bf + i) {
            assert(a@.subrange(af as int, at as int)[i as int] != b@.subrange(
                bf as int,
                bt as int,
            )[i as int]);
            return false;
        }
        i += 1;
    }
    assert forall|j: int| 0 <= j < len implies a@.subrange(af as int, at as int)[j] == b@.subrange(
        bf as int,
        bt as int,
    )[j] by {
        assert(a@[af + j] == b@[bf + j]);
    }
    assert(a@.subrange(af as int, at as int) =~= b@.subrange(bf as int, bt as int));
    true
}

/// The base64 decoding of a string, or its raw bytes where it is not
/// well-formed base64 (the wire format never produces that).
pub fn base64_decode(data: &str) -> (r: Vec<u8>)
    ensures
        r@ == crate::protocol::arg_bytes(data.spec_bytes()),
{
    match trusted::base64_decode_bytes(data.as_bytes()) {
        Some(v) => v,
        None => data.as_bytes_vec(),
    }
}

/// The base64 decoding of a string read as text (lossily, so it cannot
/// fail), or the original string where it is not well-formed base64.
pub fn base64_decode_string(data: &str) -> (r: String)
    ensures
        r@ == trusted::utf8_lossy_of(crate::protocol::arg_bytes(data.spec_bytes())),
{
    let b = base64_decode(data);
    trusted::utf8_lossy(b.as_slice())
}

/// The standard padded base64 encoding of a byte sequence; decoding the
/// result yields the bytes back.
pub fn base64_encode(data: &[u8]) -> (r: String)
    ensures
        r@ == trusted::b64_encode_of(data@),
        crate::protocol::arg_bytes(encode_utf8(r@)) == data@,
{
    trusted::base64_encode_bytes(data)
}

/// The line diff of an edit capture's original and edited contents, read
/// lossily as text.  Concatenating the lines not tagged as inserted
/// restores the original text, and the lines not tagged as deleted
/// restore the edited text.
pub fn entry_content_diff(entry: &CaptureV2_4) -> (r: Vec<trusted::DiffChange>)
    ensures
        trusted::diff_old_side(r@) == trusted::utf8_lossy_of(entry.original_content@),
        trusted::diff_new_side(r@) == trusted::utf8_lossy_of(entry.edited_content@),
{
    let orig = trusted::utf8_lossy(entry.original_content.as_slice());
    let edited = trusted::utf8_lossy(entry.edited_content.as_slice());
    trusted::diff_lines(orig.as_str(), edited.as_str())
}

/// Append a byte slice to a vector.
pub(crate) fn append_bytes(dst: &mut Vec<u8>, src: &[u8])
    ensures
        final(dst)@ =~= old(dst)@ + src@,
{
    let ghost pre = dst@;
    dst.extend_from_slice(src);
    proof {
        assert forall|i: int| 0 <= i < dst@.len() implies dst@[i] == (pre + src@)[i] by {
            if i >= pre.len() {
                assert(cloned::<u8>(src@[i - pre.len()], dst@[i]));
            }
        }
    }
}

/// True when two strings hold the same characters.
pub(crate) fn str_eq(a: &str, b: &str) -> (r: bool)
    ensures
        r == (a@ == b@),
{
    let n1 = a.unicode_len();
    let n2 = b.unicode_len();
    if n1 != n2 {
        return false;
    }
    let e = range_eq(a, 0, n1, b, 0, n2);
    proof {
        assert(a@.subrange(0, n1 as int) =~= a@);
        assert(b@.subrange(0, n2 as int) =~= b@);
    }
    e
}

/// True when the two version strings have the same first two
/// `.`-separated components (and each has at least two).
pub fn compare_major_minor_versions(version1: &str, version2: &str) -> (r: bool)
    ensures
        r == same_major_minor(version1@, version2@),
{
    let n1 = version1.unicode_len();
    let n2 = version2.unicode_len();
    let d1 = scan_dot(version1, 0);
    let d2 = scan_dot(version2, 0);
    proof {
        if d1 < n1 {
            lemma_first_dot_at(version1@, d1 as int);
        } else {
            lemma_first_dot_none(version1@);
        }
        if d2 < n2 {
            lemma_first_dot_at(version2@, d2 as int);
        } else {
            lemma_first_dot_none(version2@);
        }
    }
    if d1 == n1 || d2 == n2 {
        return false;
    }
    // end of the minor component of each string
    let e1 = scan_dot(version1, d1 + 1);
    let e2 = scan_dot(version2, d2 + 1);
    proof {
        lemma_minor_is_subrange(version1@, d1 as int, e1 as int);
        lemma_minor_is_subrange(version2@, d2 as int, e2 as int);
    }
    let majors = range_eq(version1, 0, d1, version2, 0, d2);
    let minors = range_eq(version1, d1 + 1, e1, version2, d2 + 1, e2);
    proof {
        assert(major_part(version1@) =~= version1@.subrange(0, d1 as int));
        assert(major_part(version2@) =~= version2@.subrange(0, d2 as int));
    }
    majors && minors
}

proof fn lemma_minor_is_subrange(s: Seq<char>, d: int, e: int)
    requires
        first_dot(s) == d,
        0 <= d < s.len(),
        d < e <= s.len(),
        e < s.len() ==> s[e] == '.',
        forall|j: int| d + 1 <= j < e ==> s[j] != '.',
    ensures
        minor_part(s) =~= s.subrange(d + 1, e),
{
    let rest = s.skip(d + 1);
    assert forall|j: int| 0 <= j < e - (d + 1) implies rest[j] != '.' by {
        assert(rest[j] == s[d + 1 + j]);
    }
    if e < s.len() {
        assert(rest[e - (d + 1)] == s[e]);
        lemma_first_dot_at(rest, e - (d + 1));
    } else {
        lemma_first_dot_none(rest);
    }
}

/// A character that shell quoting must protect.
pub open spec fn shell_special(c: char) -> bool {
    c == '$' || c == ' ' || c == '\t' || c == '\n' || c == '!' || c == '*' || c == '?' || c == '['
        || c == ']' || c == '{' || c == '}' || c == '(' || c == ')' || c == ';' || c == '&' || c
        == '|' || c == '<' || c == '>' || c == '`' || c == '~' || c == '#' || c == '\'' || c == '"'
        || c == '\\'
}

/// An element stripped of one pair of matching outer quotes, if it has one.
pub open spec fn unquote_spec(e: Seq<char>) -> Seq<char> {
    if e.len() > 1 && ((e[0] == '"' && e.last() == '"') || (e[0] == '\'' && e.last() == '\'')) {
        e.subrange(1, e.len() - 1)
    } else {
        e
    }
}

/// An element unquoted when its unquoted form holds no character that the
/// shell would reinterpret, and kept verbatim otherwise.
pub open spec fn clean_spec(e: Seq<char>) -> Seq<char> {
    let u = unquote_spec(e);
    if exists|i: int| 0 <= i < u.len() && shell_special(#[trigger] u[i]) {
        e
    } else {
        u
    }
}

/// The backslash-unescaped, space-separated elements of a raw command.
/// A space ends an element (an unescaped backslash escapes the next
/// character); a trailing element is kept only when non-empty.
pub open spec fn split_elements(s: Seq<char>, cur: Seq<char>, escaped: bool) -> Seq<Seq<char>>
    decreases s.len(),
{
    if s.len() == 0 {
        if cur.len() > 0 {
            seq![cur]
        } else {
            Seq::empty()
        }
    } else if escaped {
        split_elements(s.drop_first(), cur.push(s[0]), false)
    } else if s[0] == '\\' {
        split_elements(s.drop_first(), cur, true)
    } else if s[0] == ' ' {
        seq![cur] + split_elements(s.drop_first(), Seq::empty(), false)
    } else {
        split_elements(s.drop_first(), cur.push(s[0]), false)
    }
}

/// Elements joined with single spaces.
pub open spec fn join_spaces(es: Seq<Seq<char>>) -> Seq<char>
    decreases es.len(),
{
    if es.len() == 0 {
        Seq::empty()
    } else if es.len() == 1 {
        es[0]
    } else {
        es[0] + seq![' '] + join_spaces(es.drop_first())
    }
}

/// What unescaping and unquoting makes of a raw command string.
pub open spec fn unescape_spec(s: Seq<char>) -> Seq<char> {
    join_spaces(split_elements(s, Seq::empty(), false).map_values(|e: Seq<char>| clean_spec(e)))
}

proof fn lemma_join_spaces_push(es: Seq<Seq<char>>, e: Seq<char>)
    ensures
        es.len() == 0 ==> join_spaces(es.push(e)) =~= e,
        es.len() > 0 ==> join_spaces(es.push(e)) =~= join_spaces(es) + seq![' '] + e,
    decreases es.len(),
{
    if es.len() == 0 {
        assert(es.push(e)[0] == e);
    } else {
        assert(es.push(e)[0] == es[0]);
        assert(es.push(e).drop_first() =~= es.drop_first().push(e));
        lemma_join_spaces_push(es.drop_first(), e);
        if es.len() == 1 {
            assert(join_spaces(es.push(e)) =~= es[0] + seq![' '] + join_spaces(
                es.drop_first().push(e),
            ));
        }
    }
}

fn is_special_char(c: char) -> (r: bool)
    ensures
        r == shell_special(c),
{
    c == '$' || c == ' ' || c == '\t' || c == '\n' || c == '!' || c == '*' || c == '?' || c == '['
        || c == ']' || c == '{' || c == '}' || c == '(' || c == ')' || c == ';' || c == '&' || c
        == '|' || c == '<' || c == '>' || c == '`' || c == '~' || c == '#' || c == '\'' || c == '"'
        || c == '\\'
}

/// Strip one pair of matching outer quotes, if any.
fn unquote_element(element: &str) -> (r: String)
    ensures
        r@ == unquote_spec(element@),
{
    let n = element.unicode_len();
    if n > 1 {
        let f = element.get_char(0);
        let l = element.get_char(n - 1);
        if (f == '"' && l == '"') || (f == '\'' && l == '\'') {
            return element.substring_char(1, n - 1).to_owned();
        }
    }
    element.to_owned()
}

fn has_special(u: &str) -> (r: bool)
    ensures
        r == exists|i: int| 0 <= i < u@.len() && shell_special(#[trigger] u@[i]),
{
    let n = u.unicode_len();
    let mut i: usize = 0;
    while i < n
        invariant
            0 <= i <= n,
            n == u@.len(),
            forall|j: int| 0 <= j < i ==> !shell_special(#[trigger] u@[j]),
        decreases n - i,
    {
        if is_special_char(u.get_char(i)) {
            return true;
        }
        i += 1;
    }
    false
}

/// Unquote an element unless its unquoted form still needs quoting.
fn clean_element(element: &str) -> (r: String)
    ensures
        r@ == clean_spec(element@),
{
    let u = unquote_element(element);
    if has_special(u.as_str()) {
        element.to_owned()
    } else {
        u
    }
}

/// Undo the quoting and escaping the recording shell applies to a command:
/// backslash escapes are removed, space separates elements, and an element
/// wrapped in matching quotes is unquoted when safe; elements are rejoined
/// with single spaces.
pub fn unescape_and_unquote_cmd(raw_cmd: &str) -> (r: String)
    ensures
        r@ == unescape_spec(raw_cmd@),
{
    let n = raw_cmd.unicode_len();
    let mut out = String::new();
    let mut cur = String::new();
    let mut escaped = false;
    let mut first = true;
    let ghost mut done: Seq<Seq<char>> = Seq::empty();
    let mut i: usize = 0;
    proof {
        assert(raw_cmd@.skip(0) =~= raw_cmd@);
    }
    while i < n
        invariant
            0 <= i <= n,
            n == raw_cmd@.len(),
            split_elements(raw_cmd@, Seq::empty(), false) =~= done + split_elements(
                raw_cmd@.skip(i as int),
                cur@,
                escaped,
            ),
            out@ =~= join_spaces(done.map_values(|e: Seq<char>| clean_spec(e))),
            first <==> done.len() == 0,
        decreases n - i,
    {
        let c = raw_cmd.get_char(i);
        proof {
            assert(raw_cmd@.skip(i as int)[0] == raw_cmd@[i as int]);
            assert(raw_cmd@.skip(i as int).drop_first() =~= raw_cmd@.skip(i + 1));
        }
        if escaped {
            trusted::string_push_char(&mut cur, c);
            escaped = false;
        } else if c == '\\' {
            escaped = true;
        } else if c == ' ' {
            let cleaned = clean_element(cur.as_str());
            proof {
                lemma_join_spaces_push(done.map_values(|e: Seq<char>| clean_spec(e)), cleaned@);
                assert(done.push(cur@).map_values(|e: Seq<char>| clean_spec(e)) =~= done.map_values(
                    |e: Seq<char>| clean_spec(e),
                ).push(clean_spec(cur@)));
                reveal_strlit(" ");
                assert(" "@ =~= seq![' ']);
            }
            if first {
                out.append(cleaned.as_str());
                first = false;
            } else {
                out.append(" ");
                out.append(cleaned.as_str());
            }
            proof {
                done = done.push(cur@);
            }
            cur = String::new();
        } else {
            trusted::string_push_char(&mut cur, c);
            escaped = false;
        }
        i += 1;
    }
    proof {
        assert(raw_cmd@.skip(n as int) =~= Seq::<char>::empty());
        if cur@.len() > 0 {
            assert(split_elements(raw_cmd@.skip(n as int), cur@, escaped) =~= seq![cur@]);
            assert(split_elements(raw_cmd@, Seq::empty(), false) =~= done.push(cur@));
        } else {
            assert(split_elements(raw_cmd@.skip(n as int), cur@, escaped) =~= Seq::<
                Seq<char>,
            >::empty());
            assert(split_elements(raw_cmd@, Seq::empty(), false) =~= done);
        }
    }
    if !cur.as_str().is_empty() {
        let cleaned = clean_element(cur.as_str());
        proof {
            lemma_join_spaces_push(done.map_values(|e: Seq<char>| clean_spec(e)), cleaned@);
            assert(done.push(cur@).map_values(|e: Seq<char>| clean_spec(e)) =~= done.map_values(
                |e: Seq<char>| clean_spec(e),
            ).push(clean_spec(cur@)));
            reveal_strlit(" ");
            assert(" "@ =~= seq![' ']);
        }
        if first {
            out.append(cleaned.as_str());
        } else {
            out.append(" ");
            out.append(cleaned.as_str());
        }
    }
    out
}

/// Every occurrence of `needle` in `hay` replaced by `repl`, scanning left
/// to right without overlap; an empty needle replaces nothing.
pub open spec fn replace_all<A>(hay: Seq<A>, needle: Seq<A>, repl: Seq<A>) -> Seq<A>
    decreases hay.len(),
{
    if needle.len() == 0 || hay.len() < needle.len() {
        hay
    } else if hay.take(needle.len() as int) == needle {
        repl + replace_all(hay.skip(needle.len() as int), needle, repl)
    } else {
        seq![hay[0]] + replace_all(hay.drop_first(), needle, repl)
    }
}

/// Whether `needle` occurs in `hay`.
pub open spec fn contains_sub<A>(hay: Seq<A>, needle: Seq<A>) -> bool {
    exists|i: int|
        0 <= i && i + needle.len() <= hay.len() && #[trigger] hay.subrange(
            i,
            i + needle.len() as int,
        ) == needle
}

/// The text a redacted occurrence is replaced with.
pub open spec fn redacted_mark() -> Seq<char> {
    "[REDACTED]"@
}

/// A text field after redacting each password in turn.
pub open spec fn redact_text(s: Seq<char>, ps: Seq<Seq<char>>) -> Seq<char>
    decreases ps.len(),
{
    if ps.len() == 0 {
        s
    } else {
        redact_text(replace_all(s, ps[0], redacted_mark()), ps.drop_first())
    }
}

/// Whether redacting the passwords in turn finds any of them in the text.
pub open spec fn text_hit(s: Seq<char>, ps: Seq<Seq<char>>) -> bool
    decreases ps.len(),
{
    if ps.len() == 0 {
        false
    } else {
        (ps[0].len() > 0 && contains_sub(s, ps[0])) || text_hit(
            replace_all(s, ps[0], redacted_mark()),
            ps.drop_first(),
        )
    }
}

/// A byte field after redacting the UTF-8 encoding of each password.
pub open spec fn redact_blob(b: Seq<u8>, ps: Seq<Seq<char>>) -> Seq<u8>
    decreases ps.len(),
{
    if ps.len() == 0 {
        b
    } else {
        redact_blob(
            replace_all(b, encode_utf8(ps[0]), "[REDACTED]".spec_bytes()),
            ps.drop_first(),
        )
    }
}

/// Whether redacting the passwords in turn finds any of them in the bytes.
pub open spec fn blob_hit(b: Seq<u8>, ps: Seq<Seq<char>>) -> bool
    decreases ps.len(),
{
    if ps.len() == 0 {
        false
    } else {
        (encode_utf8(ps[0]).len() > 0 && contains_sub(b, encode_utf8(ps[0]))) || blob_hit(
            replace_all(b, encode_utf8(ps[0]), "[REDACTED]".spec_bytes()),
            ps.drop_first(),
        )
    }
}

/// The views of a list of passwords.
pub open spec fn pw_views(ps: Seq<String>) -> Seq<Seq<char>> {
    ps.map_values(|p: String| p@)
}

fn match_bytes_at(hay: &[u8], needle: &[u8], at: usize) -> (r: bool)
    requires
        at + needle@.len() <= hay@.len(),
    ensures
        r == (hay@.subrange(at as int, at + needle@.len()) == needle@),
{
    let m = needle.len();
    let hn = hay.len();
    let mut j: usize = 0;
    while j < m
        invariant
            0 <= j <= m,
            m == needle@.len(),
            hn == hay@.len(),
            at + m <= hn,
            forall|k: int| 0 <= k < j ==> #[trigger] hay@[at + k] == needle@[k],
        decreases m - j,
    {
        if hay[at + j] != needle[j] {
            assert(hay@.subrange(at as int, at + needle@.len())[j as int] != needle@[j as int]);
            return false;
        }
        j += 1;
    }
    assert forall|k: int| 0 <= k < m implies hay@.subrange(at as int, at + needle@.len())[k]
        == needle@[k] by {
        assert(hay@[at + k] == needle@[k]);
    }
    assert(hay@.subrange(at as int, at + needle@.len()) =~= needle@);
    true
}

pub(crate) fn contains_bytes(hay: &[u8], needle: &[u8]) -> (r: bool)
    ensures
        r == contains_sub(hay@, needle@),
{
    let n = hay.len();
    let m = needle.len();
    if m > n {
        return false;
    }
    if m == 0 {
        assert(hay@.subrange(0, 0 + needle@.len() as int) =~= needle@);
        assert(contains_sub(hay@, needle@));
        return true;
    }
    let mut i: usize = 0;
    while i <= n - m
        invariant
            0 <= i <= n - m + 1,
            0 < m <= n,
            n == hay@.len(),
            m == needle@.len(),
            forall|j: int| 0 <= j < i ==> #[trigger] hay@.subrange(j, j + needle@.len())
                != needle@,
        decreases n - m + 1 - i,
    {
        if match_bytes_at(hay, needle, i) {
            assert(hay@.subrange(i as int, i as int + needle@.len() as int) == needle@);
            assert(contains_sub(hay@, needle@));
            return true;
        }
        i += 1;
    }
    assert forall|j: int| 0 <= j && j + needle@.len() <= hay@.len() implies #[trigger] hay@
        .subrange(j, j + needle@.len() as int) != needle@ by {
        assert(hay@.subrange(j, j + needle@.len()) != needle@);
    }
    false
}

/// Every occurrence of `needle` replaced by `repl`, left to right.
fn replace_bytes(hay: &[u8], needle: &[u8], repl: &[u8]) -> (r: Vec<u8>)
    requires
        needle@.len() > 0,
    ensures
        r@ =~= replace_all(hay@, needle@, repl@),
{
    let n = hay.len();
    let m = needle.len();
    let mut out: Vec<u8> = Vec::new();
    let mut i: usize = 0;
    proof {
        assert(hay@.skip(0) =~= hay@);
    }
    while i < n
        invariant
            0 <= i <= n,
            n == hay@.len(),
            m == needle@.len(),
            m > 0,
            replace_all(hay@, needle@, repl@) =~= out@ + replace_all(
                hay@.skip(i as int),
                needle@,
                repl@,
            ),
        decreases n - i,
    {
        let ghost suffix = hay@.skip(i as int);
        if m <= n - i && match_bytes_at(hay, needle, i) {
            proof {
                assert(suffix.take(m as int) =~= hay@.subrange(i as int, i + m));
                assert(suffix.skip(m as int) =~= hay@.skip(i + m));
                assert(replace_all(suffix, needle@, repl@) =~= repl@ + replace_all(
                    hay@.skip(i + m),
                    needle@,
                    repl@,
                ));
            }
            out.extend_from_slice(repl);
            i += m;
        } else {
            proof {
                assert(suffix[0] == hay@[i as int]);
                assert(suffix.drop_first() =~= hay@.skip(i + 1));
                if m <= n - i {
                    assert(suffix.take(m as int) =~= hay@.subrange(i as int, i + m));
                    assert(replace_all(suffix, needle@, repl@) =~= seq![hay@[i as int]]
                        + replace_all(hay@.skip(i + 1), needle@, repl@));
                } else {
                    assert(suffix.len() < m);
                    assert(replace_all(suffix, needle@, repl@) =~= suffix);
                    assert(hay@.skip(i + 1).len() < m);
                    assert(replace_all(hay@.skip(i + 1), needle@, repl@) =~= hay@.skip(i + 1));
                    assert(suffix =~= seq![hay@[i as int]] + hay@.skip(i + 1));
                }
            }
            out.push(hay[i]);
            i += 1;
        }
    }
    proof {
        assert(hay@.skip(n as int) =~= Seq::<u8>::empty());
        assert(replace_all(hay@.skip(n as int), needle@, repl@) =~= Seq::<u8>::empty());
    }
    out
}

fn match_chars_at(hay: &str, needle: &str, at: usize) -> (r: bool)
    requires
        at + needle@.len() <= hay@.len(),
    ensures
        r == (hay@.subrange(at as int, at + needle@.len()) == needle@),
{
    let m = needle.unicode_len();
    let hn = hay.unicode_len();
    let mut j: usize = 0;
    while j < m
        invariant
            0 <= j <= m,
            m == needle@.len(),
            hn == hay@.len(),
            at + m <= hn,
            forall|k: int| 0 <= k < j ==> #[trigger] hay@[at + k] == needle@[k],
        decreases m - j,
    {
        if hay.get_char(at + j) != needle.get_char(j) {
            assert(hay@.subrange(at as int, at + needle@.len())[j as int] != needle@[j as int]);
            return false;
        }
        j += 1;
    }
    assert forall|k: int| 0 <= k < m implies hay@.subrange(at as int, at + needle@.len())[k]
        == needle@[k] by {
        assert(hay@[at + k] == needle@[k]);
    }
    assert(hay@.subrange(at as int, at + needle@.len()) =~= needle@);
    true
}

pub(crate) fn contains_chars(hay: &str, needle: &str) -> (r: bool)
    ensures
        r == contains_sub(hay@, needle@),
{
    let n = hay.unicode_len();
    let m = needle.unicode_len();
    if m > n {
        return false;
    }
    if m == 0 {
        assert(hay@.subrange(0, 0 + needle@.len() as int) =~= needle@);
        assert(contains_sub(hay@, needle@));
        return true;
    }
    let mut i: usize = 0;
    while i <= n - m
        invariant
            0 <= i <= n - m + 1,
            0 < m <= n,
            n == hay@.len(),
            m == needle@.len(),
            forall|j: int| 0 <= j < i ==> #[trigger] hay@.subrange(j, j + needle@.len())
                != needle@,
        decreases n - m + 1 - i,
    {
        if match_chars_at(hay, needle, i) {
            assert(hay@.subrange(i as int, i as int + needle@.len() as int) == needle@);
            assert(contains_sub(hay@, needle@));
            return true;
        }
        i += 1;
    }
    assert forall|j: int| 0 <= j && j + needle@.len() <= hay@.len() implies #[trigger] hay@
        .subrange(j, j + needle@.len() as int) != needle@ by {
        assert(hay@.subrange(j, j + needle@.len()) != needle@);
    }
    false
}

/// Every occurrence of `needle` replaced by `repl`, left to right.
fn replace_chars(hay: &str, needle: &str, repl: &str) -> (r: String)
    requires
        needle@.len() > 0,
    ensures
        r@ =~= replace_all(hay@, needle@, repl@),
{
    let n = hay.unicode_len();
    let m = needle.unicode_len();
    let mut out = String::new();
    let mut i: usize = 0;
    let mut seg: usize = 0;
    proof {
        assert(hay@.skip(0) =~= hay@);
        assert(hay@.subrange(0, 0) =~= Seq::<char>::empty());
    }
    while i < n
        invariant
            0 <= seg <= i <= n,
            n == hay@.len(),
            m == needle@.len(),
            m > 0,
            replace_all(hay@, needle@, repl@) =~= out@ + hay@.subrange(seg as int, i as int)
                + replace_all(hay@.skip(i as int), needle@, repl@),
        decreases n - i,
    {
        let ghost suffix = hay@.skip(i as int);
        if m <= n - i && match_chars_at(hay, needle, i) {
            proof {
                assert(suffix.take(m as int) =~= hay@.subrange(i as int, i + m));
                assert(suffix.skip(m as int) =~= hay@.skip(i + m));
                assert(replace_all(suffix, needle@, repl@) =~= repl@ + replace_all(
                    hay@.skip(i + m),
                    needle@,
                    repl@,
                ));
                assert(hay@.subrange(i + m, i + m) =~= Seq::<char>::empty());
            }
            out.append(hay.substring_char(seg, i));
            out.append(repl);
            i += m;
            seg = i;
        } else {
            proof {
                assert(suffix[0] == hay@[i as int]);
                assert(suffix.drop_first() =~= hay@.skip(i + 1));
                assert(hay@.subrange(seg as int, i + 1) =~= hay@.subrange(seg as int, i as int)
                    + seq![hay@[i as int]]);
                if m <= n - i {
                    assert(suffix.take(m as int) =~= hay@.subrange(i as int, i + m));
                    assert(replace_all(suffix, needle@, repl@) =~= seq![hay@[i as int]]
                        + replace_all(hay@.skip(i + 1), needle@, repl@));
                } else {
                    assert(suffix.len() < m);
                    assert(replace_all(suffix, needle@, repl@) =~= suffix);
                    assert(hay@.skip(i + 1).len() < m);
                    assert(replace_all(hay@.skip(i + 1), needle@, repl@) =~= hay@.skip(i + 1));
                    assert(suffix =~= seq![hay@[i as int]] + hay@.skip(i + 1));
                }
            }
            i += 1;
        }
    }
    proof {
        assert(hay@.skip(n as int) =~= Seq::<char>::empty());
        assert(replace_all(hay@.skip(n as int), needle@, repl@) =~= Seq::<char>::empty());
    }
    out.append(hay.substring_char(seg, n));
    out
}

/// A text field with every given password replaced, and whether any was
/// found.
fn redact_string_field(s: &str, passwords: &[String]) -> (r: (String, bool))
    ensures
        r.0@ =~= redact_text(s@, pw_views(passwords@)),
        r.1 == text_hit(s@, pw_views(passwords@)),
{
    let ghost ps = pw_views(passwords@);
    let mut cur: String = s.to_owned();
    let mut hit = false;
    let mut k: usize = 0;
    let n = passwords.len();
    proof {
        assert(ps.skip(0) =~= ps);
    }
    while k < n
        invariant
            0 <= k <= n,
            n == passwords@.len(),
            ps == pw_views(passwords@),
            redact_text(s@, ps) =~= redact_text(cur@, ps.skip(k as int)),
            text_hit(s@, ps) == (hit || text_hit(cur@, ps.skip(k as int))),
        decreases n - k,
    {
        let p = &passwords[k];
        proof {
            assert(ps.skip(k as int)[0] == ps[k as int]);
            assert(ps[k as int] == passwords@[k as int]@);
            assert(ps.skip(k as int).drop_first() =~= ps.skip(k + 1));
        }
        if !p.as_str().is_empty() {
            if contains_chars(cur.as_str(), p.as_str()) {
                hit = true;
            }
            let replaced = replace_chars(cur.as_str(), p.as_str(), "[REDACTED]");
            cur = replaced;
        } else {
            proof {
                assert(replace_all(cur@, ps[k as int], redacted_mark()) =~= cur@);
            }
        }
        k += 1;
    }
    proof {
        assert(ps.skip(n as int) =~= Seq::<Seq<char>>::empty());
    }
    (cur, hit)
}

/// A byte field with every given password's UTF-8 bytes replaced, and
/// whether any was found.
fn redact_blob_field(b: &[u8], passwords: &[String]) -> (r: (Vec<u8>, bool))
    ensures
        r.0@ =~= redact_blob(b@, pw_views(passwords@)),
        r.1 == blob_hit(b@, pw_views(passwords@)),
{
    let ghost ps = pw_views(passwords@);
    let mut cur: Vec<u8> = slice_to_vec(b);
    let mut hit = false;
    let mut k: usize = 0;
    let n = passwords.len();
    proof {
        assert(ps.skip(0) =~= ps);
    }
    while k < n
        invariant
            0 <= k <= n,
            n == passwords@.len(),
            ps == pw_views(passwords@),
            redact_blob(b@, ps) =~= redact_blob(cur@, ps.skip(k as int)),
            blob_hit(b@, ps) == (hit || blob_hit(cur@, ps.skip(k as int))),
        decreases n - k,
    {
        let p = &passwords[k];
        let pb = p.as_str().as_bytes();
        proof {
            assert(ps.skip(k as int)[0] == ps[k as int]);
            assert(ps[k as int] == passwords@[k as int]@);
            assert(ps.skip(k as int).drop_first() =~= ps.skip(k + 1));
            assert(pb@ == encode_utf8(ps[k as int]));
        }
        if pb.len() > 0 {
            if contains_bytes(cur.as_slice(), pb) {
                hit = true;
            }
            let replaced = replace_bytes(cur.as_slice(), pb, "[REDACTED]".as_bytes());
            cur = replaced;
        } else {
            proof {
                assert(replace_all(cur@, encode_utf8(ps[k as int]), "[REDACTED]".spec_bytes())
                    =~= cur@);
            }
        }
        k += 1;
    }
    proof {
        assert(ps.skip(n as int) =~= Seq::<Seq<char>>::empty());
    }
    (cur, hit)
}

/// Replace every given password, wherever it occurs, in every text field
/// and every content blob of one entry; only the uuid, the numeric fields
/// and the flags are kept as they are.  Returns whether anything was
/// found to redact.
pub fn redact_passwords_from_entry(entry: &mut CaptureV2_4, passwords: &[String]) -> (r: bool)
    ensures
        final(entry)@.host == redact_text(old(entry)@.host, pw_views(passwords@)),
        final(entry)@.cwd == redact_text(old(entry)@.cwd, pw_views(passwords@)),
        final(entry)@.cmd == redact_text(old(entry)@.cmd, pw_views(passwords@)),
        final(entry)@.message == redact_text(old(entry)@.message, pw_views(passwords@)),
        final(entry)@.filename == redact_text(old(entry)@.filename, pw_views(passwords@)),
        final(entry)@.local_user == redact_text(old(entry)@.local_user, pw_views(passwords@)),
        final(entry)@.remote_user == redact_text(old(entry)@.remote_user, pw_views(passwords@)),
        final(entry)@.captured_output == redact_blob(
            old(entry)@.captured_output,
            pw_views(passwords@),
        ),
        final(entry)@.original_content == redact_blob(
            old(entry)@.original_content,
            pw_views(passwords@),
        ),
        final(entry)@.edited_content == redact_blob(
            old(entry)@.edited_content,
            pw_views(passwords@),
        ),
        final(entry)@ == (CaptureModel {
            host: final(entry)@.host,
            cwd: final(entry)@.cwd,
            cmd: final(entry)@.cmd,
            message: final(entry)@.message,
            filename: final(entry)@.filename,
            local_user: final(entry)@.local_user,
            remote_user: final(entry)@.remote_user,
            captured_output: final(entry)@.captured_output,
            original_content: final(entry)@.original_content,
            edited_content: final(entry)@.edited_content,
            ..old(entry)@
        }),
        r == (text_hit(old(entry)@.host, pw_views(passwords@)) || text_hit(
            old(entry)@.cwd,
            pw_views(passwords@),
        ) || text_hit(old(entry)@.cmd, pw_views(passwords@)) || text_hit(
            old(entry)@.message,
            pw_views(passwords@),
        ) || text_hit(old(entry)@.filename, pw_views(passwords@)) || text_hit(
            old(entry)@.local_user,
            pw_views(passwords@),
        ) || text_hit(old(entry)@.remote_user, pw_views(passwords@)) || blob_hit(
            old(entry)@.captured_output,
            pw_views(passwords@),
        ) || blob_hit(old(entry)@.original_content, pw_views(passwords@)) || blob_hit(
            old(entry)@.edited_content,
            pw_views(passwords@),
        )),
{
    let (host2, h1) = redact_string_field(entry.host.as_str(), passwords);
    entry.host = host2;
    let (cwd2, h2) = redact_string_field(entry.cwd.as_str(), passwords);
    entry.cwd = cwd2;
    let (cmd2, h3) = redact_string_field(entry.cmd.as_str(), passwords);
    entry.cmd = cmd2;
    let (message2, h4) = redact_string_field(entry.message.as_str(), passwords);
    entry.message = message2;
    let (filename2, h5) = redact_string_field(entry.filename.as_str(), passwords);
    entry.filename = filename2;
    let (local2, h6) = redact_string_field(entry.local_user.as_str(), passwords);
    entry.local_user = local2;
    let (remote2, h7) = redact_string_field(entry.remote_user.as_str(), passwords);
    entry.remote_user = remote2;
    let (out2, h8) = redact_blob_field(entry.captured_output.as_slice(), passwords);
    entry.captured_output = out2;
    let (orig2, h9) = redact_blob_field(entry.original_content.as_slice(), passwords);
    entry.original_content = orig2;
    let (edit2, h10) = redact_blob_field(entry.edited_content.as_slice(), passwords);
    entry.edited_content = edit2;
    h1 || h2 || h3 || h4 || h5 || h6 || h7 || h8 || h9 || h10
}
} // verus!
