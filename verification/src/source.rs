//! The text of a document, kept in a rope.
//!
//! Positions in a document come in three units: bytes, characters and
//! lines. The rope converts between them and applies edits; what it
//! returns is stated here over the characters it holds.

use ropey::Rope;
use vstd::prelude::*;
use vstd::utf8::{decode_utf8, encode_utf8, is_char_boundary};

verus! {

#[verifier::external_type_specification]
#[verifier::external_body]
pub struct ExRope(Rope);

/// The characters that a rope holds.
pub uninterp spec fn rope_text(rope: Rope) -> Seq<char>;

/// The index of the first character of line `line` of a text; the length
/// of the text for the line behind its last. `None` for a later line.
pub uninterp spec fn line_start(text: Seq<char>, line: usize) -> Option<usize>;

/// The index of the first byte of line `line` of a text; the length of
/// the text in bytes for the line behind its last. `None` for a later
/// line.
pub uninterp spec fn line_start_byte(text: Seq<char>, line: usize) -> Option<usize>;

/// The line that holds the character with index `index`; the last line
/// for the index behind the last character. `None` for a later index.
pub uninterp spec fn line_of(text: Seq<char>, index: usize) -> Option<usize>;

/// The number of bytes that the first `index` characters of a text take
/// in UTF-8.
pub open spec fn bytes_before(text: Seq<char>, index: int) -> int {
    encode_utf8(text.subrange(0, index)).len() as int
}

/// The characters of a text from byte `start` up to byte `end` of its
/// UTF-8 form. `None` where the bytes are no range of the text or cut a
/// character in two.
pub open spec fn slice_between(text: Seq<char>, start: usize, end: usize) -> Option<Seq<char>> {
    let bytes = encode_utf8(text);
    if start <= end && end <= bytes.len() && is_char_boundary(bytes, start as int)
        && is_char_boundary(bytes, end as int) {
        Some(decode_utf8(bytes.subrange(start as int, end as int)))
    } else {
        None
    }
}

/// A text with the characters from `start` up to `end` taken out.
pub open spec fn without(text: Seq<char>, start: int, end: int) -> Seq<char> {
    text.subrange(0, start) + text.subrange(end, text.len() as int)
}

/// A text with `more` put in front of the character with index `at`.
pub open spec fn with_inserted(text: Seq<char>, at: int, more: Seq<char>) -> Seq<char> {
    text.subrange(0, at) + more + text.subrange(at, text.len() as int)
}

/// A second handle on the same text, from the `Clone` impl of `Rope`.
#[verifier::external_body]
pub(crate) fn rope_clone(rope: &Rope) -> (copy: Rope)
    ensures
        rope_text(copy) == rope_text(*rope),
{
    rope.clone()
}

/// The bytes of the text in UTF-8, collected from `Rope::bytes`.
#[verifier::external_body]
pub(crate) fn rope_bytes(rope: &Rope) -> (bytes: Vec<u8>)
    ensures
        bytes@ == encode_utf8(rope_text(*rope)),
{
    rope.bytes().collect()
}

/// The character index at which a line starts, from
/// `Rope::try_line_to_char`, with `None` for its error.
#[verifier::external_body]
pub(crate) fn rope_line_to_char(rope: &Rope, line: usize) -> (index: Option<usize>)
    ensures
        index == line_start(rope_text(*rope), line),
{
    rope.try_line_to_char(line).ok()
}

/// The byte index at which a line starts, from `Rope::try_line_to_byte`,
/// with `None` for its error.
#[verifier::external_body]
pub(crate) fn rope_line_to_byte(rope: &Rope, line: usize) -> (index: Option<usize>)
    ensures
        index == line_start_byte(rope_text(*rope), line),
{
    rope.try_line_to_byte(line).ok()
}

/// The byte index of a character, from `Rope::try_char_to_byte`, with
/// `None` for its error: the method fails for an index beyond the length
/// of the text, and else counts the bytes of the characters before it.
#[verifier::external_body]
pub(crate) fn rope_char_to_byte(rope: &Rope, index: usize) -> (byte: Option<usize>)
    ensures
        byte.is_some() == (index <= rope_text(*rope).len()),
        byte matches Some(b) ==> b == bytes_before(rope_text(*rope), index as int),
{
    rope.try_char_to_byte(index).ok()
}

/// The line of a character, from `Rope::try_char_to_line`, with `None`
/// for its error.
#[verifier::external_body]
pub(crate) fn rope_char_to_line(rope: &Rope, index: usize) -> (line: Option<usize>)
    ensures
        line == line_of(rope_text(*rope), index),
{
    rope.try_char_to_line(index).ok()
}

/// Takes the characters from `start` up to `end` out of the text with
/// `Rope::try_remove`, and says whether that was done: the method fails,
/// and leaves the text as it is, unless `start <= end` and `end` is no
/// more than the length of the text.
#[verifier::external_body]
pub(crate) fn rope_remove(rope: &mut Rope, start: usize, end: usize) -> (done: bool)
    ensures
        done == (start <= end && end <= rope_text(*old(rope)).len()),
        done ==> rope_text(*final(rope)) == without(rope_text(*old(rope)), start as int, end as int),
        !done ==> rope_text(*final(rope)) == rope_text(*old(rope)),
{
    rope.try_remove(start..end).is_ok()
}

/// Puts `text` in front of the character with index `at` with
/// `Rope::try_insert`, and says whether that was done: the method fails,
/// and leaves the text as it is, where `at` is beyond the length of the
/// text.
#[verifier::external_body]
pub(crate) fn rope_insert(rope: &mut Rope, at: usize, text: &str) -> (done: bool)
    ensures
        done == (at <= rope_text(*old(rope)).len()),
        done ==> rope_text(*final(rope)) == with_inserted(rope_text(*old(rope)), at as int, text@),
        !done ==> rope_text(*final(rope)) == rope_text(*old(rope)),
{
    rope.try_insert(at, text).is_ok()
}

/// The text between two byte indices, from `Rope::get_byte_slice`, which
/// returns nothing unless the indices are a range of the text that cuts no
/// character in two: `start` is no more than `end`, `end` is no more than
/// the length of the text in bytes, and a character starts, or the text
/// ends, at either. The slice it returns is copied into a string.
#[verifier::external_body]
pub(crate) fn rope_slice(rope: &Rope, start: usize, end: usize) -> (text: Option<String>)
    ensures
        text.is_some() == slice_between(rope_text(*rope), start, end).is_some(),
        text.is_some() ==> text.unwrap()@ == slice_between(rope_text(*rope), start, end).unwrap(),
{
    rope.get_byte_slice(start..end).map(|slice| String::from(slice))
}

} // verus!
