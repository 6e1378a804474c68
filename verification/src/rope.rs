//! The rope that stores the buffer's characters, and what the editor relies on
//! of each of its operations.
//!
//! Nothing in this file is proved: each contract restates what the rope's
//! documentation promises, over the text model of [`crate::text`]. The rope is
//! built to recognise the line feed as its only line break. A rope reports its
//! numbers of characters and of lines as `usize`; the contracts of the
//! operations that make or change a rope say so as `text_fits`.

use crate::text::{breaks_before, line_count, line_len, line_start, text_fits};
use ropey::Rope;
use vstd::prelude::*;

verus! {

#[verifier::external_type_specification]
#[verifier::external_body]
pub struct ExRope(ropey::Rope);

/// The characters that a rope holds, in order.
pub uninterp spec fn rope_text(rope: Rope) -> Seq<char>;

/// `Rope::from_str`: the new rope holds exactly the characters of `text`.
#[verifier::external_body]
pub(crate) fn rope_from_str(text: &str) -> (rope: Rope)
    ensures
        rope_text(rope) == text@,
        text_fits(rope_text(rope)),
{
    Rope::from_str(text)
}

/// `Rope::len_chars`: the number of characters held.
pub assume_specification[ Rope::len_chars ](rope: &Rope) -> (n: usize)
    ensures
        n == rope_text(*rope).len(),
;

/// `Rope::len_lines`: the number of line breaks held, plus one.
pub assume_specification[ Rope::len_lines ](rope: &Rope) -> (n: usize)
    ensures
        n == line_count(rope_text(*rope)),
;

/// `Rope::line_to_char`: the offset at which a line starts; for the index one
/// past the last line, the length of the text. It panics on larger indices.
pub assume_specification[ Rope::line_to_char ](rope: &Rope, line_idx: usize) -> (p: usize)
    requires
        line_idx <= line_count(rope_text(*rope)),
    ensures
        p == line_start(rope_text(*rope), line_idx as int),
;

/// `Rope::char_to_line`: the number of line breaks in front of an offset. The
/// offset may be the length of the text; beyond that it panics.
pub assume_specification[ Rope::char_to_line ](rope: &Rope, char_idx: usize) -> (line: usize)
    requires
        char_idx <= rope_text(*rope).len(),
    ensures
        line == breaks_before(rope_text(*rope), char_idx as int),
;

/// `Rope::char`: the character at an offset inside the text.
pub assume_specification[ Rope::char ](rope: &Rope, char_idx: usize) -> (c: char)
    requires
        char_idx < rope_text(*rope).len(),
    ensures
        c == rope_text(*rope)[char_idx as int],
;

/// `Rope::insert_char`: the character is put in front of the one at
/// `char_idx`, or at the end; nothing else changes.
pub assume_specification[ Rope::insert_char ](rope: &mut Rope, char_idx: usize, ch: char)
    requires
        char_idx <= rope_text(*old(rope)).len(),
    ensures
        rope_text(*final(rope)) == rope_text(*old(rope)).insert(char_idx as int, ch),
        text_fits(rope_text(*final(rope))),
;

/// `Rope::line` followed by `RopeSlice::len_chars`: the number of characters
/// of an existing line, its line break included.
#[verifier::external_body]
pub(crate) fn rope_line_len(rope: &Rope, line_idx: usize) -> (n: usize)
    requires
        line_idx < line_count(rope_text(*rope)),
    ensures
        n == line_len(rope_text(*rope), line_idx as int),
{
    rope.line(line_idx).len_chars()
}

/// `Rope::remove` on the range `start..end`: those characters leave, the rest
/// keep their order.
#[verifier::external_body]
pub(crate) fn rope_remove(rope: &mut Rope, start: usize, end: usize)
    requires
        start <= end <= rope_text(*old(rope)).len(),
    ensures
        rope_text(*final(rope)) == rope_text(*old(rope)).subrange(0, start as int) + rope_text(
            *old(rope),
        ).subrange(end as int, rope_text(*old(rope)).len() as int),
        text_fits(rope_text(*final(rope))),
{
    rope.remove(start..end)
}

/// `String::from(&Rope)`: the characters of the rope as a string.
#[verifier::external_body]
pub(crate) fn rope_to_string(rope: &Rope) -> (s: String)
    ensures
        s@ == rope_text(*rope),
{
    String::from(rope)
}

} // verus!
