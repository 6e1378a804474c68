//! The editing surface: a rope of characters, the cursors that edit it and the
//! window of lines that is on screen.

use crate::cursor::{
    clamp, clamped, cursor_at, cursor_ok, dedup_first, end_of_line, lemma_clamped_ok,
    lemma_cursor_at, lemma_dedup_first, lemma_end_of_line_ok, lemma_offset_in_text,
    lemma_step_ok, offset_of, step, Cursor, CursorDirection,
};
use crate::edits::{
    ascending, delete_desc, insert_desc, lemma_ascending_members, lemma_offsets_in_text,
    lemma_sorted_is_ascending, leq, offsets, sort_ascending,
};
use crate::rope::{rope_from_str, rope_line_len, rope_text, rope_to_string};
use crate::text::{lemma_line_shape, line_count, line_start, text_fits, visible_len};
use crate::words::{
    back_over_space, back_to_word_start, forward_over_space, forward_over_word,
    lemma_word_step_bounds, word_left, word_right,
};
use ropey::Rope;
use vstd::prelude::*;
use vstd::relations::sorted_by;

verus! {

/// What an [`Editor`] holds, as mathematics.
pub struct EditorView {
    pub text: Seq<char>,
    pub cursors: Seq<Cursor>,
    pub file_path: Option<Seq<char>>,
    pub top_line: usize,
    pub height: usize,
    pub show_gutter: bool,
}

/// The first visible line after the window has followed a cursor on `line`:
/// the window moves up to a line above it, and down just far enough to show a
/// line at or below its end.
pub open spec fn sync_top(top: usize, height: usize, line: usize) -> usize {
    if line < top {
        line
    } else if line >= top + height {
        (line - height + 1) as usize
    } else {
        top
    }
}

/// A window of at least one line that has followed a cursor shows the
/// cursor's line.
pub proof fn lemma_window_shows_line(top: usize, height: usize, line: usize)
    requires
        height > 0,
        line < usize::MAX,
    ensures
        sync_top(top, height, line) <= line < sync_top(top, height, line) + height,
{
}

/// The last line that a window of `height` lines starting at `top` shows; for
/// a window without lines, the line before `top`, and line 0 before line 0.
pub open spec fn last_visible_line(top: usize, height: usize) -> int {
    if top + height >= 1 {
        top + height - 1
    } else {
        0
    }
}

/// `ext` stands in `path` right behind a dot and holds no dot itself.
pub open spec fn is_extension_in(path: Seq<char>, ext: Seq<char>) -> bool {
    &&& !ext.contains('.')
    &&& exists|i: int|
        0 <= i && i + 1 + ext.len() <= path.len() && #[trigger] path[i] == '.' && path.subrange(
            i + 1,
            i + 1 + ext.len(),
        ) == ext
}

/// `Path::extension` of `Path::new(path)`, as a string: the part of the file
/// name behind its last dot. Not proved. What the file name of a path is
/// depends on the platform, so the contract says only where an extension
/// stands, not when there is one.
#[verifier::external_body]
fn path_extension(path: &str) -> (ext: Option<String>)
    ensures
        ext matches Some(e) ==> is_extension_in(path@, e@),
{
    match std::path::Path::new(path).extension() {
        Some(ext) => Some(ext.to_string_lossy().to_string()),
        None => None,
    }
}

impl EditorView {
    /// There is a primary cursor, every cursor is on the text, and the text
    /// fits the machine.
    pub open spec fn wf(self) -> bool {
        &&& text_fits(self.text)
        &&& self.cursors.len() >= 1
        &&& forall|i: int|
            0 <= i < self.cursors.len() ==> cursor_ok(self.text, #[trigger] self.cursors[i])
    }

    /// The text after `ch` has been inserted at every cursor.
    pub open spec fn text_after_insert(self, ch: char) -> Seq<char> {
        insert_desc(self.text, ascending(offsets(self.text, self.cursors)), ch)
    }

    /// Where a cursor stands after `ch` has been typed at it: at the start of
    /// the next line for a line break, else one column on; then clamped to the
    /// new text.
    pub open spec fn cursor_after_insert(self, c: Cursor, ch: char) -> Cursor {
        if ch == '\n' {
            clamped(self.text_after_insert(ch), c.line + 1, 0)
        } else {
            clamped(self.text_after_insert(ch), c.line as int, c.col + 1)
        }
    }

    /// The text after the character in front of every cursor has been
    /// deleted. Cursors at one offset delete one character between them.
    pub open spec fn text_after_backspace(self) -> Seq<char> {
        delete_desc(self.text, ascending(offsets(self.text, self.cursors)))
    }

    /// Where a cursor stands after a backspace: one column to the left; from
    /// column 0, at the end of the line above as it is after the deletions;
    /// from the very start, where it was. Always clamped to the new text.
    pub open spec fn cursor_after_backspace(self, c: Cursor) -> Cursor {
        let t = self.text_after_backspace();
        if c.col > 0 {
            clamped(t, c.line as int, c.col - 1)
        } else if c.line > 0 {
            end_of_line(t, c.line - 1)
        } else {
            clamp(t, c)
        }
    }

    /// The state after a backspace at every cursor. The window follows the
    /// primary cursor.
    pub open spec fn backspace(self) -> EditorView {
        let cursors = Seq::new(
            self.cursors.len(),
            |i: int| self.cursor_after_backspace(self.cursors[i]),
        );
        EditorView {
            text: self.text_after_backspace(),
            cursors,
            top_line: sync_top(self.top_line, self.height, cursors[0].line),
            ..self
        }
    }

    /// The cursors after a motion and before those that have come to stand on
    /// an earlier one are removed. A word step moves the primary cursor only;
    /// every other step moves every cursor.
    pub open spec fn cursors_moved(self, direction: CursorDirection) -> Seq<Cursor> {
        match direction {
            CursorDirection::WordLeft => self.cursors.update(
                0,
                cursor_at(self.text, word_left(self.text, offset_of(self.text, self.cursors[0]))),
            ),
            CursorDirection::WordRight => self.cursors.update(
                0,
                cursor_at(self.text, word_right(self.text, offset_of(self.text, self.cursors[0]))),
            ),
            _ => Seq::new(
                self.cursors.len(),
                |i: int| step(self.text, self.cursors[i], direction),
            ),
        }
    }

    /// The state after a motion: the cursors move, of those that now share a
    /// position the first stays, and the window follows the primary cursor.
    pub open spec fn move_cursor(self, direction: CursorDirection) -> EditorView {
        let cursors = dedup_first(self.cursors_moved(direction));
        EditorView {
            cursors,
            top_line: sync_top(self.top_line, self.height, cursors[0].line),
            ..self
        }
    }

    /// The state after the window has moved up by one line. At the top it
    /// stays. A primary cursor left below the window is pulled up to its last
    /// line and clamped.
    pub open spec fn scroll_up(self) -> EditorView {
        if self.top_line > 0 {
            let top = (self.top_line - 1) as usize;
            let bottom = last_visible_line(top, self.height);
            let primary = self.cursors[0];
            EditorView {
                top_line: top,
                cursors: if primary.line > bottom {
                    self.cursors.update(0, clamped(self.text, bottom, primary.col as int))
                } else {
                    self.cursors
                },
                ..self
            }
        } else {
            self
        }
    }

    /// The state after the window has moved down by one line. On the last
    /// line of the text it stays. A primary cursor left above the window is
    /// pulled down to its first line and clamped.
    pub open spec fn scroll_down(self) -> EditorView {
        if self.top_line + 1 < line_count(self.text) {
            let top = (self.top_line + 1) as usize;
            let primary = self.cursors[0];
            EditorView {
                top_line: top,
                cursors: if primary.line < top {
                    self.cursors.update(0, clamped(self.text, top as int, primary.col as int))
                } else {
                    self.cursors
                },
                ..self
            }
        } else {
            self
        }
    }

    /// The state after a cursor has been asked for at `(line, col)`: it is
    /// clamped, and added behind the others unless one stands there already.
    pub open spec fn add_cursor(self, line: usize, col: usize) -> EditorView {
        let c = clamped(self.text, line as int, col as int);
        if self.cursors.contains(c) {
            self
        } else {
            EditorView { cursors: self.cursors.push(c), ..self }
        }
    }

    /// The state after each character of `chars` has been typed, in order.
    pub open spec fn insert_str(self, chars: Seq<char>) -> EditorView
        decreases chars.len(),
    {
        if chars.len() == 0 {
            self
        } else {
            self.insert_str(chars.drop_last()).insert(chars.last())
        }
    }

    /// The state after four blanks have been typed.
    pub open spec fn tab(self) -> EditorView {
        self.insert(' ').insert(' ').insert(' ').insert(' ')
    }

    /// The state after `ch` has been typed at every cursor.
    pub open spec fn insert(self, ch: char) -> EditorView {
        let cursors = Seq::new(
            self.cursors.len(),
            |i: int| self.cursor_after_insert(self.cursors[i], ch),
        );
        EditorView {
            text: self.text_after_insert(ch),
            cursors,
            top_line: sync_top(self.top_line, self.height, cursors[0].line),
            ..self
        }
    }
}

#[derive(Debug)]
pub struct Editor {
    pub(crate) rope: Rope,
    pub(crate) cursors: Vec<Cursor>,
    pub(crate) file_path: Option<String>,
    pub(crate) top_line: usize,
    pub(crate) height: usize,
    pub(crate) show_gutter: bool,
}

impl View for Editor {
    type V = EditorView;

    closed spec fn view(&self) -> EditorView {
        EditorView {
            text: rope_text(self.rope),
            cursors: self.cursors@,
            file_path: match self.file_path {
                Some(p) => Some(p@),
                None => None,
            },
            top_line: self.top_line,
            height: self.height,
            show_gutter: self.show_gutter,
        }
    }
}

impl Editor {
    /// The invariant that every operation keeps.
    pub open spec fn wf(&self) -> bool {
        self@.wf()
    }

    /// What the view shows of the fields.
    pub(crate) proof fn lemma_view(&self)
        ensures
            self@.text == rope_text(self.rope),
            self@.cursors == self.cursors@,
            self@.top_line == self.top_line,
            self@.height == self.height,
            self@.show_gutter == self.show_gutter,
    {
    }

    /// An editor on `initial` (or on the empty text), with one cursor at the
    /// start, the window at the top and of height 0 until a height is set.
    pub fn new(initial: Option<&str>, file_path: Option<String>) -> (e: Editor)
        ensures
            e.wf(),
            e@ == (EditorView {
                text: match initial {
                    Some(t) => t@,
                    None => Seq::empty(),
                },
                cursors: seq![Cursor { line: 0, col: 0 }],
                file_path: match file_path {
                    Some(p) => Some(p@),
                    None => None,
                },
                top_line: 0,
                height: 0,
                show_gutter: true,
            }),
    {
        let rope = match initial {
            Some(t) => rope_from_str(t),
            None => {
                proof {
                    reveal_strlit("");
                    assert(""@ =~= Seq::<char>::empty());
                }
                rope_from_str("")
            },
        };
        let mut cursors: Vec<Cursor> = Vec::new();
        cursors.push(Cursor::new(0, 0));
        proof {
            lemma_clamped_ok(rope_text(rope), 0, 0);
            assert(cursors@ =~= seq![Cursor { line: 0, col: 0 }]);
        }
        Editor { rope, cursors, file_path, show_gutter: true, top_line: 0, height: 0 }
    }

    /// Number of characters of an existing line, not counting its line break.
    pub(crate) fn line_visible_len(rope: &Rope, line: usize) -> (n: usize)
        requires
            text_fits(rope_text(*rope)),
            line < line_count(rope_text(*rope)),
        ensures
            n == visible_len(rope_text(*rope), line as int),
    {
        let len = rope_line_len(rope, line);
        if len == 0 {
            return 0;
        }
        let start = rope.line_to_char(line);
        proof {
            lemma_line_shape(rope_text(*rope), line as int);
        }
        let last = rope.char(start + len - 1);
        if last == '\n' {
            len - 1
        } else {
            len
        }
    }

    /// The character offset that a valid cursor points at.
    pub(crate) fn cursor_abs_pos(rope: &Rope, cur: &Cursor) -> (pos: usize)
        requires
            text_fits(rope_text(*rope)),
            cursor_ok(rope_text(*rope), *cur),
        ensures
            pos == offset_of(rope_text(*rope), *cur),
            pos <= rope_text(*rope).len(),
    {
        proof {
            lemma_offset_in_text(rope_text(*rope), *cur);
        }
        rope.line_to_char(cur.line) + cur.col
    }

    /// Brings a cursor onto the text: its line down to the last line, then its
    /// column down to the end of that line.
    fn clamp_cursor(rope: &Rope, c: Cursor) -> (r: Cursor)
        requires
            text_fits(rope_text(*rope)),
        ensures
            r == clamp(rope_text(*rope), c),
            cursor_ok(rope_text(*rope), r),
            cursor_ok(rope_text(*rope), c) ==> r == c,
    {
        let mut c = c;
        let line_count = rope.len_lines();
        proof {
            crate::text::lemma_breaks_before_bounds(
                rope_text(*rope),
                rope_text(*rope).len() as int,
            );
            lemma_clamped_ok(rope_text(*rope), c.line as int, c.col as int);
        }
        if c.line >= line_count {
            c.line = line_count - 1;
        }
        let line_len = Self::line_visible_len(rope, c.line);
        if c.col > line_len {
            c.col = line_len;
        }
        c
    }

    /// Types `ch` at every cursor. The insertions are made from the last
    /// offset to the first; then every cursor steps behind its character and
    /// is clamped, and the window follows the primary cursor.
    pub fn input(&mut self, ch: char)
        requires
            old(self).wf(),
        ensures
            final(self).wf(),
            final(self)@ == old(self)@.insert(ch),
    {
        let ghost before = self@;
        let n = self.cursors.len();
        let positions = self.sorted_offsets();
        let ghost sorted = positions@;
        assert(sorted.take(n as int) =~= sorted);
        let mut k: usize = n;
        while k > 0
            invariant
                k <= n,
                n == positions.len(),
                n >= 1,
                positions@ == sorted,
                sorted == ascending(offsets(before.text, before.cursors)),
                forall|j: int| 0 <= j < n ==> (#[trigger] sorted[j]) <= before.text.len(),
                rope_text(self.rope).len() == before.text.len() + (n - k),
                text_fits(rope_text(self.rope)),
                insert_desc(rope_text(self.rope), sorted.take(k as int), ch) == insert_desc(
                    before.text,
                    sorted,
                    ch,
                ),
                self@ == (EditorView { text: rope_text(self.rope), ..before }),
            decreases k,
        {
            k -= 1;
            assert(sorted.take(k + 1).last() == sorted[k as int]);
            assert(sorted.take(k + 1).drop_last() =~= sorted.take(k as int));
            self.rope.insert_char(positions[k], ch);
        }
        assert(sorted.take(0).len() == 0);
        let ghost text = rope_text(self.rope);
        assert(text == before.text_after_insert(ch));
        let mut i: usize = 0;
        while i < n
            invariant
                i <= n,
                n == self.cursors.len(),
                n == before.cursors.len(),
                before.wf(),
                text == rope_text(self.rope),
                text == before.text_after_insert(ch),
                text.len() == before.text.len() + n,
                text_fits(text),
                forall|j: int|
                    0 <= j < i ==> (#[trigger] self.cursors@[j]) == before.cursor_after_insert(
                        before.cursors[j],
                        ch,
                    ) && cursor_ok(text, self.cursors@[j]),
                forall|j: int| i <= j < n ==> (#[trigger] self.cursors@[j]) == before.cursors[j],
                self@ == (EditorView { text, cursors: self.cursors@, ..before }),
            decreases n - i,
        {
            let c = self.cursors[i];
            proof {
                lemma_line_shape(before.text, c.line as int);
            }
            let moved = if ch == '\n' {
                Cursor { line: c.line + 1, col: 0 }
            } else {
                Cursor { line: c.line, col: c.col + 1 }
            };
            let r = Self::clamp_cursor(&self.rope, moved);
            self.cursors[i] = r;
            i += 1;
        }
        self.update_scroll(0);
        proof {
            assert(self@.cursors =~= before.insert(ch).cursors);
        }
    }

    /// The end of `line`, or of the last line where there is no such line.
    fn line_end(rope: &Rope, line: usize) -> (r: Cursor)
        requires
            text_fits(rope_text(*rope)),
        ensures
            r == end_of_line(rope_text(*rope), line as int),
            cursor_ok(rope_text(*rope), r),
    {
        let count = rope.len_lines();
        proof {
            crate::text::lemma_breaks_before_bounds(
                rope_text(*rope),
                rope_text(*rope).len() as int,
            );
            lemma_end_of_line_ok(rope_text(*rope), line as int);
        }
        let l = if line >= count {
            count - 1
        } else {
            line
        };
        Cursor { line: l, col: Self::line_visible_len(rope, l) }
    }

    /// The offset of every cursor, in ascending order.
    fn sorted_offsets(&self) -> (positions: Vec<usize>)
        requires
            self.wf(),
        ensures
            positions@ == ascending(offsets(self@.text, self@.cursors)),
            positions@.len() == self@.cursors.len(),
            sorted_by(positions@, leq()),
            forall|j: int|
                0 <= j < positions@.len() ==> (#[trigger] positions@[j]) <= self@.text.len(),
    {
        let n = self.cursors.len();
        let mut positions: Vec<usize> = Vec::new();
        let mut i: usize = 0;
        proof {
            lemma_offsets_in_text(self@.text, self@.cursors);
            lemma_ascending_members(offsets(self@.text, self@.cursors));
        }
        while i < n
            invariant
                i <= n,
                n == self.cursors.len(),
                self.wf(),
                positions@ =~= offsets(self@.text, self@.cursors).take(i as int),
            decreases n - i,
        {
            let pos = Self::cursor_abs_pos(&self.rope, &self.cursors[i]);
            positions.push(pos);
            i += 1;
        }
        assert(positions@ =~= offsets(self@.text, self@.cursors));
        sort_ascending(&mut positions);
        proof {
            lemma_sorted_is_ascending(positions@, offsets(self@.text, self@.cursors));
        }
        positions
    }

    /// Deletes the character in front of every cursor, from the last offset to
    /// the first and once for each offset. Then every cursor steps left, or
    /// from column 0 to the end of the line above, and is clamped; the window
    /// follows the primary cursor.
    pub fn backspace(&mut self)
        requires
            old(self).wf(),
        ensures
            final(self).wf(),
            final(self)@ == old(self)@.backspace(),
    {
        let ghost before = self@;
        let n = self.cursors.len();
        let positions = self.sorted_offsets();
        let ghost sorted = positions@;
        assert(sorted.take(n as int) =~= sorted);
        let mut k: usize = n;
        while k > 0
            invariant
                k <= n,
                n == positions.len(),
                positions@ == sorted,
                sorted_by(sorted, leq()),
                forall|j: int| 0 <= j < k ==> (#[trigger] sorted[j]) <= rope_text(self.rope).len(),
                text_fits(rope_text(self.rope)),
                delete_desc(rope_text(self.rope), sorted.take(k as int)) == delete_desc(
                    before.text,
                    sorted,
                ),
                self@ == (EditorView { text: rope_text(self.rope), ..before }),
            decreases k,
        {
            k -= 1;
            let pos = positions[k];
            let repeated = k > 0 && positions[k - 1] == pos;
            proof {
                assert(sorted.take(k + 1).last() == sorted[k as int]);
                assert(sorted.take(k + 1).drop_last() =~= sorted.take(k as int));
                if k > 0 {
                    assert(sorted.take(k as int).last() == sorted[k - 1]);
                }
                assert forall|j: int| 0 <= j < k && !repeated implies (#[trigger] sorted[j])
                    < pos by {
                    assert(leq()(sorted[k - 1], sorted[k as int]));
                    if j < k - 1 {
                        assert(leq()(sorted[j], sorted[k - 1]));
                    }
                }
            }
            if pos > 0 && !repeated {
                let ghost t = rope_text(self.rope);
                crate::rope::rope_remove(&mut self.rope, pos - 1, pos);
                assert(rope_text(self.rope) =~= t.remove(pos - 1));
            }
        }
        assert(sorted.take(0).len() == 0);
        let ghost text = rope_text(self.rope);
        assert(text == before.text_after_backspace());
        let ghost wanted = before.backspace().cursors;
        let mut idx: usize = 0;
        while idx < n
            invariant
                idx <= n,
                n == self.cursors.len(),
                n == before.cursors.len(),
                wanted == before.backspace().cursors,
                wanted.len() == n,
                text == rope_text(self.rope),
                text == before.text_after_backspace(),
                text_fits(text),
                forall|j: int|
                    0 <= j < idx ==> (#[trigger] self.cursors@[j]) == wanted[j] && cursor_ok(
                        text,
                        self.cursors@[j],
                    ),
                forall|j: int| idx <= j < n ==> (#[trigger] self.cursors@[j]) == before.cursors[j],
                self@ == (EditorView { text, cursors: self.cursors@, ..before }),
            decreases n - idx,
        {
            let c = self.cursors[idx];
            let r = if c.col > 0 {
                Self::clamp_cursor(&self.rope, Cursor { line: c.line, col: c.col - 1 })
            } else if c.line > 0 {
                Self::line_end(&self.rope, c.line - 1)
            } else {
                Self::clamp_cursor(&self.rope, c)
            };
            self.cursors[idx] = r;
            idx += 1;
        }
        self.update_scroll(0);
        proof {
            assert(self@.cursors =~= wanted);
        }
    }

    /// One step of a cursor in one of the four plain directions.
    fn step_cursor(rope: &Rope, c: Cursor, direction: CursorDirection) -> (r: Cursor)
        requires
            text_fits(rope_text(*rope)),
            cursor_ok(rope_text(*rope), c),
        ensures
            r == step(rope_text(*rope), c, direction),
            cursor_ok(rope_text(*rope), r),
    {
        proof {
            lemma_step_ok(rope_text(*rope), c, direction);
            lemma_line_shape(rope_text(*rope), c.line as int);
        }
        match direction {
            CursorDirection::Left => {
                if c.col > 0 {
                    Self::clamp_cursor(rope, Cursor { line: c.line, col: c.col - 1 })
                } else if c.line > 0 {
                    Self::line_end(rope, c.line - 1)
                } else {
                    Self::clamp_cursor(rope, c)
                }
            },
            CursorDirection::Right => {
                let line_len = Self::line_visible_len(rope, c.line);
                if c.col < line_len {
                    Self::clamp_cursor(rope, Cursor { line: c.line, col: c.col + 1 })
                } else if c.line + 1 < rope.len_lines() {
                    Self::clamp_cursor(rope, Cursor { line: c.line + 1, col: 0 })
                } else {
                    Self::clamp_cursor(rope, c)
                }
            },
            CursorDirection::Up => {
                if c.line > 0 {
                    Self::clamp_cursor(rope, Cursor { line: c.line - 1, col: c.col })
                } else {
                    Self::clamp_cursor(rope, c)
                }
            },
            CursorDirection::Down => {
                if c.line + 1 < rope.len_lines() {
                    Self::clamp_cursor(rope, Cursor { line: c.line + 1, col: c.col })
                } else {
                    Self::clamp_cursor(rope, c)
                }
            },
            CursorDirection::WordRight => c,
            CursorDirection::WordLeft => c,
        }
    }

    /// The cursor at a character offset of the text.
    fn cursor_at_offset(rope: &Rope, pos: usize) -> (r: Cursor)
        requires
            text_fits(rope_text(*rope)),
            pos <= rope_text(*rope).len(),
        ensures
            r == cursor_at(rope_text(*rope), pos as int),
            cursor_ok(rope_text(*rope), r),
    {
        proof {
            crate::text::lemma_line_of(rope_text(*rope), pos as int);
            lemma_cursor_at(rope_text(*rope), pos as int);
        }
        let line = rope.char_to_line(pos);
        let col = pos - rope.line_to_char(line);
        Self::clamp_cursor(rope, Cursor { line, col })
    }

    /// Where a word step to the left takes a cursor.
    fn word_left_of(rope: &Rope, c: Cursor) -> (r: Cursor)
        requires
            text_fits(rope_text(*rope)),
            cursor_ok(rope_text(*rope), c),
        ensures
            r == cursor_at(
                rope_text(*rope),
                word_left(rope_text(*rope), offset_of(rope_text(*rope), c)),
            ),
            cursor_ok(rope_text(*rope), r),
    {
        let ghost s = rope_text(*rope);
        let start = Self::cursor_abs_pos(rope, &c);
        proof {
            lemma_cursor_at(s, 0);
            lemma_word_step_bounds(s, start as int);
        }
        if start == 0 {
            return Self::clamp_cursor(rope, c);
        }
        let mut pos = start - 1;
        while pos > 0 && rope.char(pos).is_whitespace()
            invariant
                s == rope_text(*rope),
                0 <= pos < s.len(),
                back_over_space(s, pos as int) == back_over_space(s, start - 1),
            decreases pos,
        {
            pos -= 1;
        }
        let ghost mid = pos;
        while pos > 0 && !rope.char(pos - 1).is_whitespace()
            invariant
                s == rope_text(*rope),
                0 <= pos < s.len(),
                back_to_word_start(s, pos as int) == back_to_word_start(s, mid as int),
            decreases pos,
        {
            pos -= 1;
        }
        Self::cursor_at_offset(rope, pos)
    }

    /// Where a word step to the right takes a cursor.
    fn word_right_of(rope: &Rope, c: Cursor) -> (r: Cursor)
        requires
            text_fits(rope_text(*rope)),
            cursor_ok(rope_text(*rope), c),
        ensures
            r == cursor_at(
                rope_text(*rope),
                word_right(rope_text(*rope), offset_of(rope_text(*rope), c)),
            ),
            cursor_ok(rope_text(*rope), r),
    {
        let ghost s = rope_text(*rope);
        let total = rope.len_chars();
        let start = Self::cursor_abs_pos(rope, &c);
        proof {
            lemma_cursor_at(s, start as int);
            lemma_word_step_bounds(s, start as int);
        }
        if start >= total {
            return Self::clamp_cursor(rope, c);
        }
        let mut pos = start;
        if !rope.char(pos).is_whitespace() {
            while pos < total && !rope.char(pos).is_whitespace()
                invariant
                    s == rope_text(*rope),
                    total == s.len(),
                    pos <= total,
                    forward_over_word(s, pos as int) == forward_over_word(s, start as int),
                decreases total - pos,
            {
                pos += 1;
            }
        }
        let ghost mid = pos;
        while pos < total && rope.char(pos).is_whitespace()
            invariant
                s == rope_text(*rope),
                total == s.len(),
                pos <= total,
                forward_over_space(s, pos as int) == forward_over_space(s, mid as int),
            decreases total - pos,
        {
            pos += 1;
        }
        Self::cursor_at_offset(rope, pos)
    }

    /// Removes every cursor that stands where an earlier one stands.
    fn clamp_cursors(&mut self)
        requires
            old(self).wf(),
        ensures
            final(self).wf(),
            final(self)@ == (EditorView { cursors: dedup_first(old(self)@.cursors), ..old(self)@ }),
    {
        let ghost before = self@;
        let n = self.cursors.len();
        let mut kept: Vec<Cursor> = Vec::new();
        let mut i: usize = 0;
        while i < n
            invariant
                i <= n,
                n == self.cursors.len(),
                self@ == before,
                kept@ == dedup_first(before.cursors.take(i as int)),
            decreases n - i,
        {
            let c = self.cursors[i];
            let mut seen = false;
            let mut j: usize = 0;
            while j < kept.len()
                invariant
                    j <= kept.len(),
                    seen <==> exists|k: int| 0 <= k < j && kept@[k] == c,
                decreases kept.len() - j,
            {
                if kept[j] == c {
                    seen = true;
                }
                j += 1;
            }
            proof {
                assert(before.cursors.take(i + 1).drop_last() =~= before.cursors.take(i as int));
                assert(before.cursors.take(i + 1).last() == c);
            }
            if !seen {
                kept.push(c);
            }
            i += 1;
        }
        proof {
            assert(before.cursors.take(n as int) =~= before.cursors);
            lemma_dedup_first(before.cursors);
            assert forall|k: int| 0 <= k < kept@.len() implies cursor_ok(
                before.text,
                #[trigger] kept@[k],
            ) by {
                assert(kept@.contains(kept@[k]));
                assert(before.cursors.contains(kept@[k]));
                let m = choose|m: int| 0 <= m < before.cursors.len() && before.cursors[m] == kept@[k];
                assert(cursor_ok(before.text, before.cursors[m]));
            }
        }
        self.cursors = kept;
    }

    /// Moves the cursors. `Left`, `Right`, `Up` and `Down` move every cursor;
    /// `WordLeft` and `WordRight` move the primary cursor only. Of cursors that
    /// then share a position the first stays, and the window follows the
    /// primary cursor.
    pub fn move_cursor(&mut self, direction: CursorDirection)
        requires
            old(self).wf(),
        ensures
            final(self).wf(),
            final(self)@ == old(self)@.move_cursor(direction),
            final(self)@.cursors.no_duplicates(),
    {
        let ghost before = self@;
        let ghost wanted = before.cursors_moved(direction);
        match direction {
            CursorDirection::WordLeft => {
                let r = Self::word_left_of(&self.rope, self.cursors[0]);
                self.cursors[0] = r;
                assert(self.cursors@ =~= wanted);
            },
            CursorDirection::WordRight => {
                let r = Self::word_right_of(&self.rope, self.cursors[0]);
                self.cursors[0] = r;
                assert(self.cursors@ =~= wanted);
            },
            _ => {
                let n = self.cursors.len();
                let mut idx: usize = 0;
                while idx < n
                    invariant
                        idx <= n,
                        n == self.cursors.len(),
                        n == before.cursors.len(),
                        before.wf(),
                        wanted == before.cursors_moved(direction),
                        direction != CursorDirection::WordLeft,
                        direction != CursorDirection::WordRight,
                        self@ == (EditorView { cursors: self.cursors@, ..before }),
                        forall|j: int|
                            0 <= j < idx ==> (#[trigger] self.cursors@[j]) == wanted[j]
                                && cursor_ok(before.text, self.cursors@[j]),
                        forall|j: int|
                            idx <= j < n ==> (#[trigger] self.cursors@[j]) == before.cursors[j],
                    decreases n - idx,
                {
                    let r = Self::step_cursor(&self.rope, self.cursors[idx], direction);
                    self.cursors[idx] = r;
                    idx += 1;
                }
                assert(self.cursors@ =~= wanted);
            },
        }
        proof {
            lemma_dedup_first(wanted);
        }
        self.clamp_cursors();
        self.update_scroll(0);
    }

    /// Moves the window up by one line, and keeps the primary cursor in it.
    pub fn scroll_up(&mut self)
        requires
            old(self).wf(),
        ensures
            final(self).wf(),
            final(self)@ == old(self)@.scroll_up(),
    {
        if self.top_line > 0 {
            self.top_line -= 1;
            let bottom = self.height.saturating_add(self.top_line).saturating_sub(1);
            let primary = self.cursors[0];
            if primary.line > bottom {
                let r = Self::clamp_cursor(&self.rope, Cursor { line: bottom, col: primary.col });
                self.cursors[0] = r;
            }
        }
    }

    /// Moves the window down by one line, and keeps the primary cursor in it.
    pub fn scroll_down(&mut self)
        requires
            old(self).wf(),
        ensures
            final(self).wf(),
            final(self)@ == old(self)@.scroll_down(),
    {
        if self.top_line < self.rope.len_lines() - 1 {
            self.top_line += 1;
            let primary = self.cursors[0];
            if primary.line < self.top_line {
                let r = Self::clamp_cursor(
                    &self.rope,
                    Cursor { line: self.top_line, col: primary.col },
                );
                self.cursors[0] = r;
            }
        }
    }

    /// Adds a cursor at the clamped position unless one stands there.
    fn add_cursor_at(&mut self, line: usize, col: usize)
        requires
            old(self).wf(),
        ensures
            final(self).wf(),
            final(self)@ == old(self)@.add_cursor(line, col),
    {
        let cur = Self::clamp_cursor(&self.rope, Cursor { line, col });
        let mut present = false;
        let mut j: usize = 0;
        while j < self.cursors.len()
            invariant
                j <= self.cursors.len(),
                self@ == old(self)@,
                present <==> exists|k: int| 0 <= k < j && self.cursors@[k] == cur,
            decreases self.cursors.len() - j,
        {
            if self.cursors[j] == cur {
                present = true;
            }
            j += 1;
        }
        if !present {
            self.cursors.push(cur);
        }
    }

    /// Adds a cursor at `(line, col)`, clamped to the text. Where a cursor
    /// stands there already, nothing changes.
    pub fn add_cursor(&mut self, line: usize, col: usize)
        requires
            old(self).wf(),
        ensures
            final(self).wf(),
            final(self)@ == old(self)@.add_cursor(line, col),
    {
        self.add_cursor_at(line, col);
    }

    /// Takes `content` as the text of the file at `file_path`: the buffer is
    /// replaced, one cursor stands at the start and the window is at the top.
    pub fn open_file(&mut self, file_path: &str, content: &str)
        requires
            old(self).wf(),
        ensures
            final(self).wf(),
            final(self)@ == (EditorView {
                text: content@,
                cursors: seq![Cursor { line: 0, col: 0 }],
                file_path: Some(file_path@),
                top_line: 0,
                ..old(self)@
            }),
    {
        self.rope = rope_from_str(content);
        self.file_path = Some(file_path.to_owned());
        let mut cursors: Vec<Cursor> = Vec::new();
        cursors.push(Cursor::new(0, 0));
        proof {
            lemma_clamped_ok(rope_text(self.rope), 0, 0);
            assert(cursors@ =~= seq![Cursor { line: 0, col: 0 }]);
        }
        self.cursors = cursors;
        self.top_line = 0;
    }

    /// The character under a cursor, if the cursor stands on one.
    pub fn char_under_cursor(&self, cur: &Cursor) -> (c: Option<char>)
        requires
            self.wf(),
            cursor_ok(self@.text, *cur),
        ensures
            c == (if cur.col < visible_len(self@.text, cur.line as int) {
                Some(self@.text[offset_of(self@.text, *cur)])
            } else {
                None
            }),
    {
        let vis_len = Self::line_visible_len(&self.rope, cur.line);
        if cur.col < vis_len {
            proof {
                lemma_offset_in_text(self@.text, *cur);
            }
            let pos = Self::cursor_abs_pos(&self.rope, cur);
            Some(self.rope.char(pos))
        } else {
            None
        }
    }

    /// The extension of the buffer's file name, if the buffer has a file and
    /// its name has an extension.
    pub fn get_file_extension(&self) -> (ext: Option<String>)
        ensures
            self@.file_path is None ==> ext is None,
            ext matches Some(e) ==> self@.file_path matches Some(path) && is_extension_in(path, e@),
    {
        match &self.file_path {
            Some(path) => path_extension(path.as_str()),
            None => None,
        }
    }

    /// Names the file that the buffer belongs to.
    pub fn set_file_path(&mut self, path: String)
        ensures
            final(self)@ == (EditorView { file_path: Some(path@), ..old(self)@ }),
    {
        self.file_path = Some(path);
    }

    /// Sets the number of lines that the window shows.
    pub fn set_height(&mut self, height: usize)
        ensures
            final(self)@ == (EditorView { height, ..old(self)@ }),
    {
        self.height = height;
    }

    /// Shows the gutter if it is hidden, and hides it if it is shown.
    pub fn toggle_gutter(&mut self)
        ensures
            final(self)@ == (EditorView { show_gutter: !old(self)@.show_gutter, ..old(self)@ }),
    {
        self.show_gutter = !self.show_gutter;
    }

    /// The nearest position to `c` that lies on the text.
    pub fn clamp(&self, c: Cursor) -> (r: Cursor)
        requires
            self.wf(),
        ensures
            r == clamp(self@.text, c),
            cursor_ok(self@.text, r),
            cursor_ok(self@.text, c) ==> r == c,
    {
        Self::clamp_cursor(&self.rope, c)
    }

    /// The visible characters of a line: the line without its line break.
    pub fn line_text(&self, line: usize) -> (out: String)
        requires
            self.wf(),
            line < line_count(self@.text),
        ensures
            out@ == self@.text.subrange(
                line_start(self@.text, line as int),
                line_start(self@.text, line as int) + visible_len(self@.text, line as int),
            ),
    {
        let ghost s = self@.text;
        proof {
            lemma_line_shape(s, line as int);
        }
        let start = self.rope.line_to_char(line);
        let n = Self::line_visible_len(&self.rope, line);
        let mut out = String::new();
        let mut i: usize = 0;
        while i < n
            invariant
                i <= n,
                s == rope_text(self.rope),
                text_fits(s),
                start + n <= s.len(),
                out@ == s.subrange(start as int, start + i),
            decreases n - i,
        {
            crate::strings::string_push(&mut out, self.rope.char(start + i));
            proof {
                assert(out@ =~= s.subrange(start as int, start + i + 1));
            }
            i += 1;
        }
        out
    }

    /// The cursors, the primary one first.
    pub fn cursors(&self) -> (cursors: Vec<Cursor>)
        ensures
            cursors@ == self@.cursors,
    {
        self.cursors.clone()
    }

    /// The text of the buffer.
    pub fn text(&self) -> (text: String)
        ensures
            text@ == self@.text,
    {
        rope_to_string(&self.rope)
    }

    /// The number of lines of the buffer.
    pub fn len_lines(&self) -> (n: usize)
        ensures
            n == line_count(self@.text),
    {
        self.rope.len_lines()
    }

    /// The first line that the window shows.
    pub fn top_line(&self) -> (top: usize)
        ensures
            top == self@.top_line,
    {
        self.top_line
    }

    /// The number of lines that the window shows.
    pub fn height(&self) -> (height: usize)
        ensures
            height == self@.height,
    {
        self.height
    }

    /// Whether the gutter is shown.
    pub fn show_gutter(&self) -> (shown: bool)
        ensures
            shown == self@.show_gutter,
    {
        self.show_gutter
    }

    /// The path of the file that the buffer belongs to, if it has one.
    pub fn file_path(&self) -> (path: Option<String>)
        ensures
            path.is_some() == self@.file_path.is_some(),
            path matches Some(p) ==> self@.file_path == Some(p@),
    {
        match &self.file_path {
            Some(p) => Some(p.clone()),
            None => None,
        }
    }

    /// Types the characters of `input` one after the other.
    pub fn input_str(&mut self, input: String)
        requires
            old(self).wf(),
        ensures
            final(self).wf(),
            final(self)@ == old(self)@.insert_str(input@),
    {
        let ghost before = self@;
        for c in it: input.as_str().chars()
            invariant
                self.wf(),
                it.seq() == input@,
                self@ == before.insert_str(input@.take(it.index() as int)),
        {
            assert(input@.take(it.index() + 1).drop_last() =~= input@.take(it.index() as int));
            self.input(c);
        }
        assert(input@.take(input@.len() as int) =~= input@);
    }

    /// Types four spaces.
    pub fn tab(&mut self)
        requires
            old(self).wf(),
        ensures
            final(self).wf(),
            final(self)@ == old(self)@.tab(),
    {
        self.input(' ');
        self.input(' ');
        self.input(' ');
        self.input(' ');
    }

    /// Moves the window so that the line of cursor `idx` is on screen.
    fn update_scroll(&mut self, idx: usize)
        requires
            idx < old(self).cursors.len(),
            old(self).cursors[idx as int].line < usize::MAX,
        ensures
            final(self).rope == old(self).rope,
            final(self).cursors == old(self).cursors,
            final(self).file_path == old(self).file_path,
            final(self).height == old(self).height,
            final(self).show_gutter == old(self).show_gutter,
            final(self).top_line == sync_top(
                old(self).top_line,
                old(self).height,
                old(self).cursors[idx as int].line,
            ),
    {
        let line = self.cursors[idx].line;
        if line < self.top_line {
            self.top_line = line;
        } else if line - self.top_line >= self.height {
            self.top_line = line.saturating_sub(self.height).saturating_add(1);
        }
    }
}

} // verus!
