//! Editing steps that look at the white space in front of a line: a new line
//! that keeps the indentation, and the ways to take indentation back.

use crate::cursor::{cursor_ok, lemma_offset_in_text, offset_of, Cursor};
use crate::editor::{Editor, EditorView};
use crate::rope::rope_text;
use crate::strings::string_push;
use crate::text::{lemma_line_shape, line_count, line_start, text_fits, visible_len};
use crate::words::is_space;
use ropey::Rope;
use vstd::prelude::*;

verus! {

/// How many characters in a row, from `from` on and before `to`, are white
/// space.
pub open spec fn space_run(s: Seq<char>, from: int, to: int) -> int
    decreases to - from,
{
    if from < to && is_space(s[from]) {
        1 + space_run(s, from + 1, to)
    } else {
        0
    }
}

/// How many characters in a row, from `from` on and before `to`, are blanks.
pub open spec fn blank_run(s: Seq<char>, from: int, to: int) -> int
    decreases to - from,
{
    if from < to && s[from] == ' ' {
        1 + blank_run(s, from + 1, to)
    } else {
        0
    }
}

/// `n` blanks.
pub open spec fn blanks(n: int) -> Seq<char> {
    Seq::new(n as nat, |i: int| ' ')
}

/// A run that has been followed for `k` characters goes on as the run from
/// there.
pub proof fn lemma_run_step(s: Seq<char>, from: int, to: int, k: int)
    requires
        0 <= k,
        from + k <= to,
        forall|i: int| from <= i < from + k ==> is_space(#[trigger] s[i]),
    ensures
        space_run(s, from, to) == k + space_run(s, from + k, to),
    decreases k,
{
    if k > 0 {
        lemma_run_step(s, from + 1, to, k - 1);
    }
}

pub proof fn lemma_blank_run_step(s: Seq<char>, from: int, to: int, k: int)
    requires
        0 <= k,
        from + k <= to,
        forall|i: int| from <= i < from + k ==> (#[trigger] s[i]) == ' ',
    ensures
        blank_run(s, from, to) == k + blank_run(s, from + k, to),
    decreases k,
{
    if k > 0 {
        lemma_blank_run_step(s, from + 1, to, k - 1);
    }
}

impl EditorView {
    /// The primary cursor.
    pub open spec fn primary(self) -> Cursor {
        self.cursors[0]
    }

    /// The white space that `line` starts with, its line break included
    /// where the whole line is white space.
    pub open spec fn leading_whitespace(self, line: int) -> Seq<char> {
        let start = line_start(self.text, line);
        self.text.subrange(start, start + space_run(self.text, start, line_start(self.text, line + 1)))
    }

    /// The number of white space characters that the visible part of `line`
    /// starts with.
    pub open spec fn leading_indent(self, line: int) -> int {
        let start = line_start(self.text, line);
        space_run(self.text, start, start + visible_len(self.text, line))
    }

    /// The number of blanks that the visible part of `line` starts with.
    pub open spec fn leading_blanks(self, line: int) -> int {
        let start = line_start(self.text, line);
        blank_run(self.text, start, start + visible_len(self.text, line))
    }

    /// The state after a line break and then the white space that the primary
    /// cursor's line starts with have been typed.
    pub open spec fn newline(self) -> EditorView {
        self.insert('\n').insert_str(self.leading_whitespace(self.primary().line as int))
    }

    /// The state after `n` backspaces.
    pub open spec fn backspaces(self, n: int) -> EditorView
        decreases n,
    {
        if n <= 0 {
            self
        } else {
            self.backspace().backspaces(n - 1)
        }
    }

    /// The state after as many backspaces as the primary cursor's line has
    /// leading white space, but `tab_size` at most.
    pub open spec fn reverse_tab(self, tab_size: usize) -> EditorView {
        let have = self.leading_whitespace(self.primary().line as int).len();
        self.backspaces(if have < tab_size { have as int } else { tab_size as int })
    }

    /// The state after up to `n` backspaces, which stop as soon as the primary
    /// cursor is at the start of its line or has no blank in front of it.
    pub open spec fn unindent(self, n: int) -> EditorView
        decreases n,
    {
        if n <= 0 || self.primary().col == 0 || self.text[offset_of(self.text, self.primary()) - 1]
            != ' ' {
            self
        } else {
            self.backspace().unindent(n - 1)
        }
    }

    /// The state after a back tab: up to four of the blanks in front of the
    /// primary cursor are taken back, but no more than its line starts with.
    pub open spec fn back_tab(self) -> EditorView {
        let have = self.leading_blanks(self.primary().line as int);
        self.unindent(if have < 4 { have } else { 4 })
    }

    /// The state after a line break and then as many blanks as the line above
    /// the primary cursor starts with white space.
    pub open spec fn enter(self) -> EditorView {
        let broken = self.insert('\n');
        let row = if broken.primary().line > 0 {
            broken.primary().line - 1
        } else {
            0
        };
        broken.insert_str(blanks(broken.leading_indent(row)))
    }
}

impl Editor {
    /// The primary cursor.
    pub fn primary(&self) -> (c: Cursor)
        requires
            self.wf(),
        ensures
            c == self@.primary(),
            cursor_ok(self@.text, c),
    {
        proof {
            self.lemma_view();
        }
        self.cursors[0]
    }

    /// Counts the white space at the start of `line`, up to `limit`
    /// characters from the start of the line.
    fn count_leading_space(rope: &Rope, start: usize, limit: usize) -> (n: usize)
        requires
            text_fits(rope_text(*rope)),
            start + limit <= rope_text(*rope).len(),
        ensures
            n == space_run(rope_text(*rope), start as int, start + limit),
            n <= limit,
    {
        let ghost s = rope_text(*rope);
        let mut n: usize = 0;
        while n < limit && rope.char(start + n).is_whitespace()
            invariant
                s == rope_text(*rope),
                text_fits(s),
                n <= limit,
                start + limit <= s.len(),
                forall|i: int| start <= i < start + n ==> is_space(#[trigger] s[i]),
            decreases limit - n,
        {
            n += 1;
        }
        proof {
            lemma_run_step(s, start as int, start + limit, n as int);
        }
        n
    }

    /// The white space that `line` starts with, its line break included where
    /// the whole line is white space.
    pub fn leading_whitespace(&self, line: usize) -> (out: String)
        requires
            self.wf(),
            line < line_count(self@.text),
        ensures
            out@ == self@.leading_whitespace(line as int),
    {
        let ghost s = self@.text;
        proof {
            self.lemma_view();
            lemma_line_shape(s, line as int);
        }
        let start = self.rope.line_to_char(line);
        let len = crate::rope::rope_line_len(&self.rope, line);
        let n = Self::count_leading_space(&self.rope, start, len);
        let mut out = String::new();
        let mut i: usize = 0;
        while i < n
            invariant
                i <= n,
                s == rope_text(self.rope),
                text_fits(s),
                start + n <= s.len(),
                out@ == s.subrange(start as int, start + i),
            decreases n - i,
        {
            string_push(&mut out, self.rope.char(start + i));
            proof {
                assert(out@ =~= s.subrange(start as int, start + i + 1));
            }
            i += 1;
        }
        out
    }

    /// The number of white space characters that the visible part of `line`
    /// starts with.
    pub fn leading_indent(&self, line: usize) -> (n: usize)
        requires
            self.wf(),
            line < line_count(self@.text),
        ensures
            n == self@.leading_indent(line as int),
    {
        proof {
            self.lemma_view();
            lemma_line_shape(self@.text, line as int);
        }
        let start = self.rope.line_to_char(line);
        let len = Self::line_visible_len(&self.rope, line);
        Self::count_leading_space(&self.rope, start, len)
    }

    /// The number of blanks that the visible part of `line` starts with.
    pub fn leading_blanks(&self, line: usize) -> (n: usize)
        requires
            self.wf(),
            line < line_count(self@.text),
        ensures
            n == self@.leading_blanks(line as int),
    {
        let ghost s = self@.text;
        proof {
            self.lemma_view();
            lemma_line_shape(s, line as int);
        }
        let start = self.rope.line_to_char(line);
        let limit = Self::line_visible_len(&self.rope, line);
        let mut n: usize = 0;
        while n < limit && self.rope.char(start + n) == ' '
            invariant
                s == rope_text(self.rope),
                text_fits(s),
                n <= limit,
                start + limit <= s.len(),
                forall|i: int| start <= i < start + n ==> (#[trigger] s[i]) == ' ',
            decreases limit - n,
        {
            n += 1;
        }
        proof {
            lemma_blank_run_step(s, start as int, start + limit, n as int);
        }
        n
    }

    /// Breaks the line at every cursor and types the white space that the
    /// primary cursor's line started with.
    pub fn newline(&mut self)
        requires
            old(self).wf(),
        ensures
            final(self).wf(),
            final(self)@ == old(self)@.newline(),
    {
        let row = self.primary().line;
        let indent = self.leading_whitespace(row);
        self.input('\n');
        self.input_str(indent);
    }

    /// Takes back the indentation of the primary cursor's line with
    /// backspaces at every cursor, `tab_size` of them at most.
    pub fn reverse_tab(&mut self, tab_size: usize)
        requires
            old(self).wf(),
        ensures
            final(self).wf(),
            final(self)@ == old(self)@.reverse_tab(tab_size),
    {
        let ghost before = self@;
        let row = self.primary().line;
        let indent = self.leading_whitespace(row);
        let have = indent.as_str().unicode_len();
        let to_remove = if have < tab_size {
            have
        } else {
            tab_size
        };
        let mut left = to_remove;
        while left > 0
            invariant
                self.wf(),
                self@.backspaces(left as int) == before.backspaces(to_remove as int),
            decreases left,
        {
            self.backspace();
            left -= 1;
        }
    }

    /// Takes back up to four blanks in front of the primary cursor, with
    /// backspaces at every cursor.
    pub fn back_tab(&mut self)
        requires
            old(self).wf(),
        ensures
            final(self).wf(),
            final(self)@ == old(self)@.back_tab(),
    {
        let ghost before = self@;
        let row = self.primary().line;
        let have = self.leading_blanks(row);
        let to_remove = if have < 4 {
            have
        } else {
            4
        };
        let mut left = to_remove;
        let mut stop = false;
        while left > 0 && !stop
            invariant
                self.wf(),
                stop ==> self@.unindent(left as int) == self@,
                self@.unindent(left as int) == before.unindent(to_remove as int),
            decreases left + if stop { 0int } else { 1int },
        {
            let c = self.primary();
            if c.col == 0 {
                stop = true;
            } else {
                proof {
                    self.lemma_view();
                    lemma_offset_in_text(self@.text, c);
                }
                let pos = Self::cursor_abs_pos(&self.rope, &c);
                if self.rope.char(pos - 1) != ' ' {
                    stop = true;
                } else {
                    self.backspace();
                    left -= 1;
                }
            }
        }
    }

    /// Breaks the line at every cursor and types as many blanks as the line
    /// above the primary cursor starts with white space.
    pub fn enter(&mut self)
        requires
            old(self).wf(),
        ensures
            final(self).wf(),
            final(self)@ == old(self)@.enter(),
    {
        self.input('\n');
        let ghost broken = self@;
        let row = self.primary().line.saturating_sub(1);
        let count = self.leading_indent(row);
        let mut i: usize = 0;
        while i < count
            invariant
                i <= count,
                self.wf(),
                self@ == broken.insert_str(blanks(i as int)),
            decreases count - i,
        {
            proof {
                assert(blanks(i + 1).drop_last() =~= blanks(i as int));
            }
            self.input(' ');
            i += 1;
        }
    }
}

} // verus!
