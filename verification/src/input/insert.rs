//! Keys in insert mode.

use crate::actions::EditOp;
use crate::cursor::CursorDirection;
use crate::event::{Key, KeyPress, Modifiers};
use crate::input::handle_non_modifier;
use crate::state::{Mosaic, MosaicView};
use vstd::prelude::*;

verus! {

impl MosaicView {
    /// The state after a key press in insert mode. With the control key
    /// alone, left and right move the primary cursor by a word and up and
    /// down move the window; every other key press is handled without regard
    /// to what is held down with it.
    pub open spec fn insert_key(self, key: KeyPress) -> MosaicView {
        if key.modifiers == Modifiers::Control && key.code == Key::Left {
            self.edit(EditOp::Move(CursorDirection::WordLeft))
        } else if key.modifiers == Modifiers::Control && key.code == Key::Up {
            self.edit(EditOp::ScrollUp)
        } else if key.modifiers == Modifiers::Control && key.code == Key::Down {
            self.edit(EditOp::ScrollDown)
        } else if key.modifiers == Modifiers::Control && key.code == Key::Right {
            self.edit(EditOp::Move(CursorDirection::WordRight))
        } else {
            self.plain_key(key.code)
        }
    }
}

/// Handles a key press in insert mode.
pub fn handle_mode(mosaic: &mut Mosaic, key_event: KeyPress)
    requires
        old(mosaic).wf(),
        old(mosaic)@.has_editor(),
    ensures
        final(mosaic).wf(),
        final(mosaic)@.has_editor(),
        final(mosaic)@ == old(mosaic)@.insert_key(key_event),
{
    if key_event.modifiers == Modifiers::Control {
        match key_event.code {
            Key::Left => {
                mosaic.edit(EditOp::Move(CursorDirection::WordLeft));
                return ;
            },
            Key::Up => {
                mosaic.edit(EditOp::ScrollUp);
                return ;
            },
            Key::Down => {
                mosaic.edit(EditOp::ScrollDown);
                return ;
            },
            Key::Right => {
                mosaic.edit(EditOp::Move(CursorDirection::WordRight));
                return ;
            },
            _ => {},
        }
    }
    handle_non_modifier(mosaic, key_event.code);
}

} // verus!
