//! The mathematical model of a text buffer: a sequence of characters in which
//! every `'\n'` ends a line, and how character offsets and (line, column)
//! positions correspond.

use vstd::prelude::*;

verus! {

/// Number of line breaks among the first `pos` characters of `s`.
pub open spec fn breaks_before(s: Seq<char>, pos: int) -> int
    decreases pos,
{
    if pos <= 0 {
        0
    } else {
        breaks_before(s, pos - 1) + if s[pos - 1] == '\n' {
            1int
        } else {
            0int
        }
    }
}

/// Number of lines of `s`: one more than the number of line breaks, so the
/// empty text has one (empty) line and a text ending in a break has a final
/// empty line.
pub open spec fn line_count(s: Seq<char>) -> int {
    breaks_before(s, s.len() as int) + 1
}

/// The text is small enough for its offsets and line numbers to be machine
/// integers.
pub open spec fn text_fits(s: Seq<char>) -> bool {
    s.len() <= usize::MAX && line_count(s) <= usize::MAX
}

/// Walks forward from offset `from` until `lines` line breaks have been
/// passed, or the text ends.
pub open spec fn skip_lines(s: Seq<char>, from: int, lines: int) -> int
    decreases s.len() - from,
{
    if from >= s.len() {
        s.len() as int
    } else if lines <= 0 {
        from
    } else if s[from] == '\n' {
        skip_lines(s, from + 1, lines - 1)
    } else {
        skip_lines(s, from + 1, lines)
    }
}

/// Offset of the first character of line `line`. Line 0 starts at offset 0,
/// every other line right behind a line break. For `line >= line_count(s)`
/// the result is the length of the text.
pub open spec fn line_start(s: Seq<char>, line: int) -> int {
    skip_lines(s, 0, line)
}

/// Number of characters of line `line`, its trailing line break included.
pub open spec fn line_len(s: Seq<char>, line: int) -> int {
    line_start(s, line + 1) - line_start(s, line)
}

/// Number of characters of line `line` without its trailing line break.
pub open spec fn visible_len(s: Seq<char>, line: int) -> int {
    let n = line_len(s, line);
    if n > 0 && s[line_start(s, line) + n - 1] == '\n' {
        n - 1
    } else {
        n
    }
}

/// The line that holds offset `pos`: the number of line breaks in front of it.
pub open spec fn line_of(s: Seq<char>, pos: int) -> int {
    breaks_before(s, pos)
}

/// `p` is where line `line` starts: `line` breaks lie in front of `p`, and `p`
/// is the start of the text or directly follows a break.
pub open spec fn is_line_start(s: Seq<char>, line: int, p: int) -> bool {
    &&& 0 <= p <= s.len()
    &&& breaks_before(s, p) == line
    &&& (p == 0 || s[p - 1] == '\n')
}

pub proof fn lemma_breaks_before_bounds(s: Seq<char>, pos: int)
    requires
        0 <= pos,
    ensures
        0 <= breaks_before(s, pos) <= pos,
    decreases pos,
{
    if pos > 0 {
        lemma_breaks_before_bounds(s, pos - 1);
    }
}

pub proof fn lemma_breaks_before_monotonic(s: Seq<char>, a: int, b: int)
    requires
        0 <= a <= b,
    ensures
        breaks_before(s, a) <= breaks_before(s, b),
    decreases b - a,
{
    if a < b {
        lemma_breaks_before_monotonic(s, a, b - 1);
    }
}

/// Where the count of breaks stays the same between two offsets, no break
/// lies between them.
pub proof fn lemma_no_break_between(s: Seq<char>, a: int, b: int, i: int)
    requires
        0 <= a <= i < b,
        breaks_before(s, a) == breaks_before(s, b),
    ensures
        s[i] != '\n',
{
    lemma_breaks_before_monotonic(s, a, i);
    lemma_breaks_before_monotonic(s, i + 1, b);
}

/// What `skip_lines` finds: the offset behind the `lines`-th break at or
/// after `from`, or the end of the text if there are fewer breaks.
pub proof fn lemma_skip_lines(s: Seq<char>, from: int, lines: int)
    requires
        0 <= from <= s.len(),
        0 <= lines,
    ensures
        from <= skip_lines(s, from, lines) <= s.len(),
        breaks_before(s, s.len() as int) - breaks_before(s, from) < lines ==> skip_lines(
            s,
            from,
            lines,
        ) == s.len(),
        breaks_before(s, s.len() as int) - breaks_before(s, from) >= lines ==> {
            let r = skip_lines(s, from, lines);
            &&& breaks_before(s, r) - breaks_before(s, from) == lines
            &&& (lines == 0 ==> r == from)
            &&& (lines > 0 ==> s[r - 1] == '\n')
        },
    decreases s.len() - from,
{
    lemma_breaks_before_monotonic(s, from, s.len() as int);
    if from >= s.len() {
    } else if lines <= 0 {
    } else {
        if s[from] == '\n' {
            lemma_skip_lines(s, from + 1, lines - 1);
        } else {
            lemma_skip_lines(s, from + 1, lines);
        }
    }
}

/// The start of an existing line is an offset of the text with exactly `line`
/// breaks in front of it, at the start of the text or right behind a break.
pub proof fn lemma_line_start_is_start(s: Seq<char>, line: int)
    requires
        0 <= line < line_count(s),
    ensures
        is_line_start(s, line, line_start(s, line)),
{
    lemma_skip_lines(s, 0, line);
}

/// Past the last line, `line_start` is the length of the text.
pub proof fn lemma_line_start_past_end(s: Seq<char>, line: int)
    requires
        line_count(s) <= line,
    ensures
        line_start(s, line) == s.len(),
{
    lemma_breaks_before_bounds(s, s.len() as int);
    lemma_skip_lines(s, 0, line);
}

/// A line has one start only.
pub proof fn lemma_line_start_unique(s: Seq<char>, line: int, p: int, q: int)
    requires
        is_line_start(s, line, p),
        is_line_start(s, line, q),
    ensures
        p == q,
{
    if p < q {
        lemma_breaks_before_monotonic(s, p, q - 1);
    } else if q < p {
        lemma_breaks_before_monotonic(s, q, p - 1);
    }
}

/// Any offset that looks like the start of `line` is `line_start(s, line)`.
pub proof fn lemma_line_start_from_witness(s: Seq<char>, line: int, p: int)
    requires
        is_line_start(s, line, p),
    ensures
        0 <= line < line_count(s),
        line_start(s, line) == p,
{
    lemma_breaks_before_bounds(s, p);
    lemma_breaks_before_monotonic(s, p, s.len() as int);
    lemma_line_start_is_start(s, line);
    lemma_line_start_unique(s, line, p, line_start(s, line));
}

/// Line starts never go backwards, and stay inside the text.
pub proof fn lemma_line_start_ordered(s: Seq<char>, a: int, b: int)
    requires
        0 <= a <= b,
    ensures
        0 <= line_start(s, a) <= line_start(s, b) <= s.len(),
{
    lemma_skip_lines(s, 0, a);
    lemma_skip_lines(s, 0, b);
    lemma_breaks_before_bounds(s, s.len() as int);
    if b < line_count(s) {
        let p = line_start(s, a);
        let q = line_start(s, b);
        if q < p {
            lemma_breaks_before_monotonic(s, q, p);
        }
    }
}

/// Every line but the last ends in a break, which is its last character; the
/// last line holds no break at all.
pub proof fn lemma_line_shape(s: Seq<char>, line: int)
    requires
        0 <= line < line_count(s),
    ensures
        0 <= line_start(s, line) <= line_start(s, line + 1) <= s.len(),
        line + 1 < line_count(s) ==> {
            &&& line_len(s, line) >= 1
            &&& s[line_start(s, line + 1) - 1] == '\n'
            &&& visible_len(s, line) == line_len(s, line) - 1
        },
        line + 1 == line_count(s) ==> {
            &&& line_start(s, line + 1) == s.len()
            &&& visible_len(s, line) == line_len(s, line)
        },
        0 <= visible_len(s, line) <= line_len(s, line),
        forall|i: int|
            line_start(s, line) <= i < line_start(s, line) + visible_len(s, line) ==> s[i] != '\n',
        forall|i: int|
            line_start(s, line) <= i <= line_start(s, line) + visible_len(s, line)
                ==> breaks_before(s, i) == line,
{
    let p = line_start(s, line);
    let q = line_start(s, line + 1);
    lemma_line_start_ordered(s, line, line + 1);
    lemma_line_start_is_start(s, line);
    if line + 1 < line_count(s) {
        lemma_line_start_is_start(s, line + 1);
        assert(p < q) by {
            if q <= p {
                lemma_breaks_before_monotonic(s, q, p);
            }
        }
        assert(breaks_before(s, q - 1) == line);
        assert forall|i: int| p <= i <= q - 1 implies breaks_before(s, i) == line by {
            lemma_breaks_before_monotonic(s, p, i);
            lemma_breaks_before_monotonic(s, i, q - 1);
        }
        assert forall|i: int| p <= i < q - 1 implies s[i] != '\n' by {
            lemma_no_break_between(s, p, q - 1, i);
        }
    } else {
        lemma_line_start_past_end(s, line + 1);
        assert forall|i: int| p <= i <= q implies breaks_before(s, i) == line by {
            lemma_breaks_before_monotonic(s, p, i);
            lemma_breaks_before_monotonic(s, i, q);
        }
        assert forall|i: int| p <= i < q implies s[i] != '\n' by {
            lemma_no_break_between(s, p, q, i);
        }
    }
}

/// An offset lies on the line that `line_of` names: between that line's start
/// and the next line's start.
pub proof fn lemma_line_of(s: Seq<char>, pos: int)
    requires
        0 <= pos <= s.len(),
    ensures
        0 <= line_of(s, pos) < line_count(s),
        line_start(s, line_of(s, pos)) <= pos,
        pos - line_start(s, line_of(s, pos)) <= line_len(s, line_of(s, pos)),
{
    let line = line_of(s, pos);
    lemma_breaks_before_bounds(s, pos);
    lemma_breaks_before_monotonic(s, pos, s.len() as int);
    lemma_line_start_is_start(s, line);
    lemma_line_shape(s, line);
    let p = line_start(s, line);
    if pos < p {
        lemma_breaks_before_monotonic(s, pos, p - 1);
    }
    let q = line_start(s, line + 1);
    if line + 1 < line_count(s) {
        if pos > q {
            lemma_line_start_is_start(s, line + 1);
            lemma_breaks_before_monotonic(s, q, pos);
        }
    }
}

} // verus!
