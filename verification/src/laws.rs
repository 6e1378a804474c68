//! What holds of every state of the editing surface after an edit or a
//! motion, stated over the mathematical model alone.

use crate::cursor::{
    cursor_ok, lemma_clamped_ok, lemma_cursor_at, lemma_dedup_first, lemma_end_of_line_ok,
    lemma_offset_in_text, lemma_step_ok, CursorDirection,
};
use crate::editor::{lemma_window_shows_line, EditorView};
use crate::text::text_fits;
use crate::words::lemma_word_step_bounds;
use vstd::prelude::*;

verus! {

impl EditorView {
    /// Every cursor is on the text.
    pub open spec fn cursors_on_text(self) -> bool {
        forall|i: int|
            0 <= i < self.cursors.len() ==> cursor_ok(self.text, #[trigger] self.cursors[i])
    }

    /// The window shows the line of the primary cursor.
    pub open spec fn shows_primary(self) -> bool {
        self.top_line <= self.cursors[0].line < self.top_line + self.height
    }

    /// After a character has been typed, every cursor is on the text: its
    /// line exists and its column is at most the visible length of the line.
    pub proof fn lemma_insert_keeps_cursors_on_text(self, ch: char)
        requires
            self.wf(),
            text_fits(self.text_after_insert(ch)),
        ensures
            self.insert(ch).wf(),
            self.insert(ch).cursors_on_text(),
    {
        let t = self.text_after_insert(ch);
        assert forall|i: int| 0 <= i < self.cursors.len() implies cursor_ok(
            t,
            #[trigger] self.insert(ch).cursors[i],
        ) by {
            let c = self.cursors[i];
            lemma_clamped_ok(t, c.line + 1, 0);
            lemma_clamped_ok(t, c.line as int, c.col + 1);
        }
    }

    /// After a backspace, every cursor is on the text.
    pub proof fn lemma_backspace_keeps_cursors_on_text(self)
        requires
            self.wf(),
            text_fits(self.text_after_backspace()),
        ensures
            self.backspace().wf(),
            self.backspace().cursors_on_text(),
    {
        let t = self.text_after_backspace();
        assert forall|i: int| 0 <= i < self.cursors.len() implies cursor_ok(
            t,
            #[trigger] self.backspace().cursors[i],
        ) by {
            let c = self.cursors[i];
            lemma_clamped_ok(t, c.line as int, c.col as int);
            if c.col > 0 {
                lemma_clamped_ok(t, c.line as int, c.col - 1);
            }
            if c.line > 0 {
                lemma_end_of_line_ok(t, c.line - 1);
            }
        }
    }

    /// After a motion, every cursor is on the text and no two cursors share a
    /// position.
    pub proof fn lemma_move_keeps_cursors_apart_and_on_text(self, direction: CursorDirection)
        requires
            self.wf(),
        ensures
            self.move_cursor(direction).wf(),
            self.move_cursor(direction).cursors_on_text(),
            self.move_cursor(direction).cursors.no_duplicates(),
    {
        let s = self.text;
        let moved = self.cursors_moved(direction);
        let primary = self.cursors[0];
        lemma_offset_in_text(s, primary);
        lemma_word_step_bounds(s, crate::cursor::offset_of(s, primary));
        lemma_cursor_at(s, crate::words::word_left(s, crate::cursor::offset_of(s, primary)));
        lemma_cursor_at(s, crate::words::word_right(s, crate::cursor::offset_of(s, primary)));
        assert forall|i: int| 0 <= i < moved.len() implies cursor_ok(s, #[trigger] moved[i]) by {
            lemma_step_ok(s, self.cursors[i], direction);
        }
        lemma_dedup_first(moved);
        let kept = self.move_cursor(direction).cursors;
        assert forall|i: int| 0 <= i < kept.len() implies cursor_ok(s, #[trigger] kept[i]) by {
            assert(kept.contains(kept[i]));
            assert(moved.contains(kept[i]));
            let j = choose|j: int| 0 <= j < moved.len() && moved[j] == kept[i];
            assert(cursor_ok(s, moved[j]));
        }
    }

    /// After typing, a window of at least one line shows the line of the
    /// primary cursor.
    pub proof fn lemma_window_follows_typing(self, ch: char)
        requires
            self.wf(),
            text_fits(self.text_after_insert(ch)),
            self.height > 0,
        ensures
            self.insert(ch).shows_primary(),
    {
        self.lemma_insert_keeps_cursors_on_text(ch);
        let after = self.insert(ch);
        assert(cursor_ok(after.text, after.cursors[0]));
        lemma_window_shows_line(self.top_line, self.height, after.cursors[0].line);
    }

    /// After a backspace, a window of at least one line shows the line of the
    /// primary cursor.
    pub proof fn lemma_window_follows_backspace(self)
        requires
            self.wf(),
            text_fits(self.text_after_backspace()),
            self.height > 0,
        ensures
            self.backspace().shows_primary(),
    {
        self.lemma_backspace_keeps_cursors_on_text();
        let after = self.backspace();
        assert(cursor_ok(after.text, after.cursors[0]));
        lemma_window_shows_line(self.top_line, self.height, after.cursors[0].line);
    }

    /// After a motion, a window of at least one line shows the line of the
    /// primary cursor.
    pub proof fn lemma_window_follows_motion(self, direction: CursorDirection)
        requires
            self.wf(),
            self.height > 0,
        ensures
            self.move_cursor(direction).shows_primary(),
    {
        self.lemma_move_keeps_cursors_apart_and_on_text(direction);
        let after = self.move_cursor(direction);
        lemma_dedup_first(self.cursors_moved(direction));
        assert(cursor_ok(after.text, after.cursors[0]));
        lemma_window_shows_line(self.top_line, self.height, after.cursors[0].line);
    }
}

} // verus!
