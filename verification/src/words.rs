//! Word-wise motion over a text. A word is a maximal run of characters that
//! are not white space.

use vstd::prelude::*;

verus! {

/// Whether a character is white space, as `char::is_whitespace` tells it (the
/// Unicode property `White_Space`).
pub uninterp spec fn is_space(c: char) -> bool;

/// `char::is_whitespace`. Not proved: the answer is given a name.
pub assume_specification[ char::is_whitespace ](c: char) -> (b: bool)
    ensures
        b == is_space(c),
;

/// From `p` backwards over white space: the nearest offset at or before `p`
/// that holds a character of a word, or 0.
pub open spec fn back_over_space(s: Seq<char>, p: int) -> int
    decreases p,
{
    if p > 0 && is_space(s[p]) {
        back_over_space(s, p - 1)
    } else {
        p
    }
}

/// From `p` backwards to the start of the word around it: the nearest offset
/// at or before `p` that follows white space, or 0.
pub open spec fn back_to_word_start(s: Seq<char>, p: int) -> int
    decreases p,
{
    if p > 0 && !is_space(s[p - 1]) {
        back_to_word_start(s, p - 1)
    } else {
        p
    }
}

/// From `p` forwards over white space: the nearest offset at or after `p` that
/// holds a character of a word, or the end of the text.
pub open spec fn forward_over_space(s: Seq<char>, p: int) -> int
    decreases s.len() - p,
{
    if p < s.len() && is_space(s[p]) {
        forward_over_space(s, p + 1)
    } else {
        p
    }
}

/// From `p` forwards to the end of the word around it: the nearest offset at
/// or after `p` that holds white space, or the end of the text.
pub open spec fn forward_over_word(s: Seq<char>, p: int) -> int
    decreases s.len() - p,
{
    if p < s.len() && !is_space(s[p]) {
        forward_over_word(s, p + 1)
    } else {
        p
    }
}

/// Where a word step to the left leads from offset `pos`: one position back,
/// then back over white space, then to the start of the word reached. From
/// offset 0 there is nowhere to go.
pub open spec fn word_left(s: Seq<char>, pos: int) -> int {
    if pos <= 0 {
        0
    } else {
        back_to_word_start(s, back_over_space(s, pos - 1))
    }
}

/// Where a word step to the right leads from offset `pos`: from inside a word
/// to its end and over the white space behind it; from white space to the
/// start of the next word. From the end of the text there is nowhere to go.
pub open spec fn word_right(s: Seq<char>, pos: int) -> int {
    if pos >= s.len() {
        pos
    } else if is_space(s[pos]) {
        forward_over_space(s, pos)
    } else {
        forward_over_space(s, forward_over_word(s, pos))
    }
}

pub proof fn lemma_back_bounds(s: Seq<char>, p: int)
    requires
        0 <= p,
    ensures
        0 <= back_over_space(s, p) <= p,
        0 <= back_to_word_start(s, p) <= p,
    decreases p,
{
    if p > 0 {
        lemma_back_bounds(s, p - 1);
    }
}

pub proof fn lemma_forward_bounds(s: Seq<char>, p: int)
    requires
        0 <= p <= s.len(),
    ensures
        p <= forward_over_space(s, p) <= s.len(),
        p <= forward_over_word(s, p) <= s.len(),
    decreases s.len() - p,
{
    if p < s.len() {
        lemma_forward_bounds(s, p + 1);
    }
}

/// A word step stays inside the text, and goes the way its name says.
pub proof fn lemma_word_step_bounds(s: Seq<char>, pos: int)
    requires
        0 <= pos <= s.len(),
    ensures
        0 <= word_left(s, pos) <= pos,
        pos <= word_right(s, pos) <= s.len(),
{
    if pos > 0 {
        lemma_back_bounds(s, pos - 1);
        lemma_back_bounds(s, back_over_space(s, pos - 1));
    }
    lemma_forward_bounds(s, pos);
    lemma_forward_bounds(s, forward_over_word(s, pos));
}

} // verus!
