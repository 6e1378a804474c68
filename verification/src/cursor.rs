//! Cursor positions, and the rules that move and clamp them, as mathematics
//! over the text model.

use crate::text::{line_count, line_of, line_start, text_fits, visible_len};
use vstd::prelude::*;

verus! {

/// A caret in a text buffer: zero-based line, and column inside that line.
#[derive(Clone, Copy, Debug, PartialEq, Eq, Structural)]
pub struct Cursor {
    pub line: usize,
    pub col: usize,
}

impl Cursor {
    pub fn new(line: usize, col: usize) -> (c: Cursor)
        ensures
            c == (Cursor { line, col }),
    {
        Cursor { line, col }
    }
}

/// The ways a cursor can be asked to move.
#[derive(Clone, Copy, Debug, PartialEq, Eq, Structural)]
pub enum CursorDirection {
    Left,
    Right,
    Up,
    Down,
    WordRight,
    WordLeft,
}

/// The cursor names an existing line and a column on it, the position behind
/// the line's last visible character included.
pub open spec fn cursor_ok(s: Seq<char>, c: Cursor) -> bool {
    c.line < line_count(s) && c.col <= visible_len(s, c.line as int)
}

/// The nearest valid position to `(line, col)`: the line is brought down to the
/// last line, then the column down to that line's visible length.
pub open spec fn clamped(s: Seq<char>, line: int, col: int) -> Cursor {
    let l = if line >= line_count(s) {
        line_count(s) - 1
    } else {
        line
    };
    let v = visible_len(s, l);
    Cursor { line: l as usize, col: (if col > v { v } else { col }) as usize }
}

/// The position behind the last visible character of `line`, or of the last
/// line where `line` lies beyond it.
pub open spec fn end_of_line(s: Seq<char>, line: int) -> Cursor {
    let l = if line >= line_count(s) {
        line_count(s) - 1
    } else {
        line
    };
    Cursor { line: l as usize, col: visible_len(s, l) as usize }
}

/// `clamped` of a cursor's own coordinates.
pub open spec fn clamp(s: Seq<char>, c: Cursor) -> Cursor {
    clamped(s, c.line as int, c.col as int)
}

/// The character offset that a cursor points at.
pub open spec fn offset_of(s: Seq<char>, c: Cursor) -> int {
    line_start(s, c.line as int) + c.col
}

/// The (line, column) position of a character offset, clamped.
pub open spec fn cursor_at(s: Seq<char>, pos: int) -> Cursor {
    clamped(s, line_of(s, pos), pos - line_start(s, line_of(s, pos)))
}

/// One column to the left; from column 0, the end of the line above.
pub open spec fn step_left(s: Seq<char>, c: Cursor) -> Cursor {
    if c.col > 0 {
        clamped(s, c.line as int, c.col - 1)
    } else if c.line > 0 {
        end_of_line(s, c.line - 1)
    } else {
        clamp(s, c)
    }
}

/// One column to the right; from the end of a line, the start of the line
/// below.
pub open spec fn step_right(s: Seq<char>, c: Cursor) -> Cursor {
    if c.col < visible_len(s, c.line as int) {
        clamped(s, c.line as int, c.col + 1)
    } else if c.line + 1 < line_count(s) {
        clamped(s, c.line + 1, 0)
    } else {
        clamp(s, c)
    }
}

/// One line up, the column cut to the new line's visible length.
pub open spec fn step_up(s: Seq<char>, c: Cursor) -> Cursor {
    if c.line > 0 {
        clamped(s, c.line - 1, c.col as int)
    } else {
        clamp(s, c)
    }
}

/// One line down, the column cut to the new line's visible length.
pub open spec fn step_down(s: Seq<char>, c: Cursor) -> Cursor {
    if c.line + 1 < line_count(s) {
        clamped(s, c.line + 1, c.col as int)
    } else {
        clamp(s, c)
    }
}

/// Where a cursor goes for `direction`, for the four directions that move
/// every cursor. A word step moves the primary cursor only and is no step of
/// this kind.
pub open spec fn step(s: Seq<char>, c: Cursor, direction: CursorDirection) -> Cursor {
    match direction {
        CursorDirection::Left => step_left(s, c),
        CursorDirection::Right => step_right(s, c),
        CursorDirection::Up => step_up(s, c),
        CursorDirection::Down => step_down(s, c),
        CursorDirection::WordRight => c,
        CursorDirection::WordLeft => c,
    }
}

/// `cursors` without every cursor that stands where an earlier one stands.
pub open spec fn dedup_first(cursors: Seq<Cursor>) -> Seq<Cursor>
    decreases cursors.len(),
{
    if cursors.len() == 0 {
        cursors
    } else {
        let kept = dedup_first(cursors.drop_last());
        if kept.contains(cursors.last()) {
            kept
        } else {
            kept.push(cursors.last())
        }
    }
}

/// What `dedup_first` keeps: the first cursor first, no position twice, and
/// exactly the positions that were there.
pub proof fn lemma_dedup_first(cursors: Seq<Cursor>)
    ensures
        dedup_first(cursors).no_duplicates(),
        dedup_first(cursors).len() <= cursors.len(),
        cursors.len() > 0 ==> dedup_first(cursors).len() > 0 && dedup_first(cursors)[0]
            == cursors[0],
        forall|c: Cursor| dedup_first(cursors).contains(c) <==> cursors.contains(c),
    decreases cursors.len(),
{
    if cursors.len() > 0 {
        let init = cursors.drop_last();
        let kept = dedup_first(init);
        lemma_dedup_first(init);
        let out = dedup_first(cursors);
        assert forall|c: Cursor| out.contains(c) <==> cursors.contains(c) by {
            if out.contains(c) {
                let i = choose|i: int| 0 <= i < out.len() && out[i] == c;
                if i < kept.len() {
                    assert(kept[i] == c);
                    assert(kept.contains(c));
                    assert(init.contains(c));
                    let j = choose|j: int| 0 <= j < init.len() && init[j] == c;
                    assert(cursors[j] == c);
                } else {
                    assert(cursors[cursors.len() - 1] == c);
                }
            }
            if cursors.contains(c) {
                let j = choose|j: int| 0 <= j < cursors.len() && cursors[j] == c;
                if j < init.len() {
                    assert(init[j] == c);
                    assert(init.contains(c));
                    assert(kept.contains(c));
                    let i = choose|i: int| 0 <= i < kept.len() && kept[i] == c;
                    assert(out[i] == c);
                } else {
                    if !kept.contains(c) {
                        assert(out[kept.len() as int] == c);
                    } else {
                        let i = choose|i: int| 0 <= i < kept.len() && kept[i] == c;
                        assert(out[i] == c);
                    }
                }
            }
        }
        if init.len() > 0 {
            assert(init[0] == cursors[0]);
        }
    }
}

/// Every step leads to a valid position.
pub proof fn lemma_step_ok(s: Seq<char>, c: Cursor, direction: CursorDirection)
    requires
        text_fits(s),
        cursor_ok(s, c),
    ensures
        cursor_ok(s, step(s, c, direction)),
{
    lemma_clamped_ok(s, c.line as int, c.col as int);
    lemma_clamped_ok(s, c.line as int, c.col + 1);
    lemma_clamped_ok(s, c.line + 1, 0);
    lemma_clamped_ok(s, c.line + 1, c.col as int);
    if c.col > 0 {
        lemma_clamped_ok(s, c.line as int, c.col - 1);
    }
    if c.line > 0 {
        lemma_end_of_line_ok(s, c.line - 1);
        lemma_clamped_ok(s, c.line - 1, c.col as int);
    }
}

/// The position of an offset of the text is a valid one, and it is the
/// cursor's own position where the offset is that of a valid cursor.
pub proof fn lemma_cursor_at(s: Seq<char>, pos: int)
    requires
        text_fits(s),
        0 <= pos <= s.len(),
    ensures
        cursor_ok(s, cursor_at(s, pos)),
        forall|c: Cursor| cursor_ok(s, c) && offset_of(s, c) == pos ==> cursor_at(s, pos) == c,
{
    crate::text::lemma_line_of(s, pos);
    lemma_clamped_ok(s, line_of(s, pos), pos - line_start(s, line_of(s, pos)));
    assert forall|c: Cursor| cursor_ok(s, c) && offset_of(s, c) == pos implies cursor_at(s, pos)
        == c by {
        lemma_offset_in_text(s, c);
    }
}

/// A clamped position is a valid one.
pub proof fn lemma_clamped_ok(s: Seq<char>, line: int, col: int)
    requires
        text_fits(s),
        0 <= line,
        0 <= col,
    ensures
        cursor_ok(s, clamped(s, line, col)),
        clamped(s, line, col).line == (if line >= line_count(s) {
            line_count(s) - 1
        } else {
            line
        }),
        clamped(s, line, col).col <= col,
{
    crate::text::lemma_breaks_before_bounds(s, s.len() as int);
    let l = if line >= line_count(s) {
        line_count(s) - 1
    } else {
        line
    };
    crate::text::lemma_line_shape(s, l);
}

/// The end of a line is a valid position.
pub proof fn lemma_end_of_line_ok(s: Seq<char>, line: int)
    requires
        text_fits(s),
        0 <= line,
    ensures
        cursor_ok(s, end_of_line(s, line)),
        end_of_line(s, line).line == (if line >= line_count(s) {
            line_count(s) - 1
        } else {
            line
        }),
        end_of_line(s, line).col == visible_len(s, end_of_line(s, line).line as int),
{
    crate::text::lemma_breaks_before_bounds(s, s.len() as int);
    let l = if line >= line_count(s) {
        line_count(s) - 1
    } else {
        line
    };
    crate::text::lemma_line_shape(s, l);
}

/// Clamping leaves a valid cursor as it is.
pub proof fn lemma_clamp_valid_is_noop(s: Seq<char>, c: Cursor)
    requires
        cursor_ok(s, c),
    ensures
        clamp(s, c) == c,
{
}

/// Clamping twice is clamping once.
pub proof fn lemma_clamp_idempotent(s: Seq<char>, c: Cursor)
    requires
        text_fits(s),
    ensures
        clamp(s, clamp(s, c)) == clamp(s, c),
{
    lemma_clamped_ok(s, c.line as int, c.col as int);
    lemma_clamp_valid_is_noop(s, clamp(s, c));
}

/// A valid cursor points into the text, at most at its end, and at its own
/// line.
pub proof fn lemma_offset_in_text(s: Seq<char>, c: Cursor)
    requires
        cursor_ok(s, c),
    ensures
        0 <= line_start(s, c.line as int) <= offset_of(s, c) <= s.len(),
        offset_of(s, c) <= line_start(s, c.line as int + 1),
        line_of(s, offset_of(s, c)) == c.line,
        c.col < visible_len(s, c.line as int) ==> offset_of(s, c) < s.len() && s[offset_of(s, c)]
            != '\n',
{
    crate::text::lemma_line_shape(s, c.line as int);
}

} // verus!
