//! The editing steps that a key can ask for, and how they reach the current
//! editor.

use crate::cursor::CursorDirection;
use crate::editor::{Editor, EditorView};
use crate::state::{Mosaic, MosaicView};
use vstd::prelude::*;

verus! {

/// An editing step.
#[derive(Debug, Clone, Copy, PartialEq, Eq, Structural)]
pub enum EditOp {
    Input(char),
    Backspace,
    Tab,
    BackTab,
    Enter,
    Newline,
    ReverseTab(usize),
    Move(CursorDirection),
    ScrollUp,
    ScrollDown,
}

impl EditorView {
    /// The state after an editing step.
    pub open spec fn apply(self, op: EditOp) -> EditorView {
        match op {
            EditOp::Input(c) => self.insert(c),
            EditOp::Backspace => self.backspace(),
            EditOp::Tab => self.tab(),
            EditOp::BackTab => self.back_tab(),
            EditOp::Enter => self.enter(),
            EditOp::Newline => self.newline(),
            EditOp::ReverseTab(n) => self.reverse_tab(n),
            EditOp::Move(direction) => self.move_cursor(direction),
            EditOp::ScrollUp => self.scroll_up(),
            EditOp::ScrollDown => self.scroll_down(),
        }
    }
}

impl Editor {
    /// Makes an editing step.
    pub fn apply(&mut self, op: EditOp)
        requires
            old(self).wf(),
        ensures
            final(self).wf(),
            final(self)@ == old(self)@.apply(op),
    {
        match op {
            EditOp::Input(c) => self.input(c),
            EditOp::Backspace => self.backspace(),
            EditOp::Tab => self.tab(),
            EditOp::BackTab => self.back_tab(),
            EditOp::Enter => self.enter(),
            EditOp::Newline => self.newline(),
            EditOp::ReverseTab(n) => self.reverse_tab(n),
            EditOp::Move(direction) => self.move_cursor(direction),
            EditOp::ScrollUp => self.scroll_up(),
            EditOp::ScrollDown => self.scroll_down(),
        }
    }
}

impl MosaicView {
    /// The state after the current editor, if there is one, has made an
    /// editing step.
    pub open spec fn edit(self, op: EditOp) -> MosaicView {
        if self.has_editor() {
            self.with_editor(self.editor().apply(op))
        } else {
            self
        }
    }
}

impl Mosaic {
    /// Has the current editor, if there is one, make an editing step.
    pub fn edit(&mut self, op: EditOp)
        requires
            old(self).wf(),
        ensures
            final(self).wf(),
            final(self)@ == old(self)@.edit(op),
    {
        let ghost before = self@;
        proof {
            self.lemma_view();
        }
        if self.current_editor < self.editors.len() {
            self.editors[self.current_editor].apply(op);
            proof {
                self.lemma_view();
                assert(self@.editors =~= before.editors.update(
                    before.current_editor as int,
                    before.editor().apply(op),
                ));
            }
        }
    }
}

} // verus!
