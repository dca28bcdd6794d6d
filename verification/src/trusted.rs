//! The library's trusted boundary: thin wrappers around outside crates.
//! Each wrapper's contract states only what the outside function's source
//! or documentation shows; everything built on top of them is verified.
use vstd::prelude::*;
use vstd::utf8::{decode_utf8, valid_utf8};
use base64::Engine;
use similar::{ChangeTag, TextDiff};

verus! {

/// What standard base64 decoding yields for a byte string, when it is
/// well-formed base64; the result depends on the input alone.
pub uninterp spec fn b64_decode_of(s: Seq<u8>) -> Option<Seq<u8>>;

/// What standard base64 encoding yields for a byte sequence; the result
/// depends on the input alone.
pub uninterp spec fn b64_encode_of(b: Seq<u8>) -> Seq<char>;

/// Relies on base64's `general_purpose::STANDARD.encode`: standard padded
/// base64 encoding, a pure function of its input, and the exact inverse
/// of `STANDARD.decode` (decoding the encoding of any bytes yields those
/// bytes back).
#[verifier::external_body]
pub(crate) fn base64_encode_bytes(data: &[u8]) -> (r: String)
    ensures
        r@ == b64_encode_of(data@),
        b64_decode_of(vstd::utf8::encode_utf8(r@)) == Some(data@),
{
    base64::engine::general_purpose::STANDARD.encode(data)
}

/// Relies on base64's `general_purpose::STANDARD.decode`: standard base64
/// decoding, a pure function of its input.
#[verifier::external_body]
pub(crate) fn base64_decode_bytes(data: &[u8]) -> (r: Option<Vec<u8>>)
    ensures
        r is Some <==> b64_decode_of(data@) is Some,
        r is Some ==> r.unwrap()@ == b64_decode_of(data@).unwrap(),
{
    match base64::engine::general_purpose::STANDARD.decode(data) {
        Ok(v) => Some(v),
        Err(_) => None,
    }
}

/// What lossy UTF-8 decoding yields for a byte string; the result depends
/// on the bytes alone.
pub uninterp spec fn utf8_lossy_of(b: Seq<u8>) -> Seq<char>;

/// Relies on `String::from_utf8_lossy`: lossy UTF-8 decoding, a pure
/// function of its input; valid UTF-8 comes back unchanged (so its
/// characters are exactly the UTF-8 decoding of the bytes), and in
/// particular ASCII bytes decode to themselves.
#[verifier::external_body]
pub(crate) fn utf8_lossy(b: &[u8]) -> (r: String)
    ensures
        r@ == utf8_lossy_of(b@),
        valid_utf8(b@) ==> r@ == decode_utf8(b@),
        (forall|i: int| 0 <= i < b@.len() ==> b@[i] < 128) ==> r@ == b@.map_values(
            |x: u8| x as char,
        ),
{
    String::from_utf8_lossy(b).into_owned()
}

/// Relies on `uuid::Uuid::new_v4` and its `Display` impl: a random
/// version-4 UUID rendered in the hyphenated form, which is 36 characters.
/// Nothing can be promised about which UUID comes back.
#[verifier::external_body]
pub(crate) fn fresh_uuid_string() -> (r: String)
    ensures
        r@.len() == 36,
{
    uuid::Uuid::new_v4().to_string()
}

/// Relies on `chrono::Utc::now` and `DateTime::timestamp_millis`: the wall
/// clock as milliseconds since the Unix epoch.  Nothing holds of the value.
#[verifier::external_body]
pub(crate) fn now_millis() -> (r: i64)
{
    chrono::Utc::now().timestamp_millis()
}

/// Relies on `whoami::username`: the login name of the calling user, or an
/// empty string where the system cannot say.  Nothing holds of the value.
#[verifier::external_body]
pub(crate) fn local_username() -> (r: String)
{
    match whoami::username() {
        Ok(u) => u,
        Err(_) => String::new(),
    }
}

/// Relies on `termion::terminal_size`: the controlling terminal's size as
/// `(columns, rows)`, or nothing when there is no terminal to ask.
#[verifier::external_body]
pub(crate) fn terminal_size_now() -> (r: Option<(u16, u16)>)
{
    match termion::terminal_size() {
        Ok(cr) => Some(cr),
        Err(_) => None,
    }
}

/// Relies on `String::push`: appends one character to the string.
#[verifier::external_body]
pub(crate) fn string_push_char(s: &mut String, c: char)
    ensures
        final(s)@ == old(s)@.push(c),
{
    s.push(c)
}

/// How one line of a diff relates the two sides.
#[derive(Clone, Copy, PartialEq, Eq, Structural, Debug)]
pub enum DiffTag {
    Equal,
    Delete,
    Insert,
}

/// One line of a line diff.
pub struct DiffChange {
    pub tag: DiffTag,
    pub text: String,
}

/// The old side of a diff: the lines tagged `Equal` or `Delete`, in order.
pub open spec fn diff_old_side(cs: Seq<DiffChange>) -> Seq<char>
    decreases cs.len(),
{
    if cs.len() == 0 {
        Seq::empty()
    } else {
        (if cs[0].tag is Insert {
            Seq::empty()
        } else {
            cs[0].text@
        }) + diff_old_side(cs.drop_first())
    }
}

/// The new side of a diff: the lines tagged `Equal` or `Insert`, in order.
pub open spec fn diff_new_side(cs: Seq<DiffChange>) -> Seq<char>
    decreases cs.len(),
{
    if cs.len() == 0 {
        Seq::empty()
    } else {
        (if cs[0].tag is Delete {
            Seq::empty()
        } else {
            cs[0].text@
        }) + diff_new_side(cs.drop_first())
    }
}

/// Relies on similar's `TextDiff::from_lines` and `iter_all_changes`: the
/// line tokens partition each input and the diff operations cover both
/// sides completely, so concatenating the non-inserted lines restores the
/// old text and concatenating the non-deleted lines restores the new text.
#[verifier::external_body]
pub(crate) fn diff_lines(orig: &str, edited: &str) -> (r: Vec<DiffChange>)
    ensures
        diff_old_side(r@) == orig@,
        diff_new_side(r@) == edited@,
{
    let diff = TextDiff::from_lines(orig, edited);
    let changes = diff.iter_all_changes().map(|change| DiffChange {
        tag: match change.tag() {
            ChangeTag::Equal => DiffTag::Equal,
            ChangeTag::Delete => DiffTag::Delete,
            ChangeTag::Insert => DiffTag::Insert,
        },
        text: change.value().to_string(),
    }).collect();
    changes
}

} // verus!
