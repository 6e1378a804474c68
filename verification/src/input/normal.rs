//! Keys in normal mode.

use crate::actions::EditOp;
use crate::cursor::CursorDirection;
use crate::event::{Key, KeyPress, Modifiers};
use crate::state::{Mode, Mosaic, MosaicView};
use vstd::prelude::*;

verus! {

/// The direction that a key of normal mode moves the cursors in, if it is a
/// motion key: the arrows, and `j`, `k`, `l` and `ø`.
pub open spec fn motion_of(key: Key) -> Option<CursorDirection> {
    match key {
        Key::Left => Some(CursorDirection::Left),
        Key::Up => Some(CursorDirection::Up),
        Key::Down => Some(CursorDirection::Down),
        Key::Right => Some(CursorDirection::Right),
        Key::Char(c) => if c == 'j' {
            Some(CursorDirection::Left)
        } else if c == 'k' {
            Some(CursorDirection::Up)
        } else if c == 'l' {
            Some(CursorDirection::Down)
        } else if c == 'ø' {
            Some(CursorDirection::Right)
        } else {
            None
        },
        _ => None,
    }
}

impl MosaicView {
    /// The state after a key press in normal mode. Without anything held
    /// down, Esc forgets what the last command said, `i` leads to insert
    /// mode, `q` to command mode, and a motion key moves the cursors. With
    /// the control key, a motion key moves the cursors all the same. Nothing
    /// else does anything.
    pub open spec fn normal_key(self, key: KeyPress) -> MosaicView {
        match key.modifiers {
            Modifiers::Plain => match key.code {
                Key::Esc => self.with_result(None),
                Key::Char(c) => if c == 'i' {
                    self.set_mode(Mode::Insert)
                } else if c == 'q' {
                    self.with_result(None).set_mode(Mode::Command)
                } else {
                    match motion_of(key.code) {
                        Some(direction) => self.edit(EditOp::Move(direction)),
                        None => self,
                    }
                },
                _ => match motion_of(key.code) {
                    Some(direction) => self.edit(EditOp::Move(direction)),
                    None => self,
                },
            },
            Modifiers::Control => match motion_of(key.code) {
                Some(direction) => self.edit(EditOp::Move(direction)),
                None => self,
            },
            Modifiers::Other => self,
        }
    }
}

/// The direction of a motion key.
fn motion(key: Key) -> (r: Option<CursorDirection>)
    ensures
        r == motion_of(key),
{
    match key {
        Key::Left => Some(CursorDirection::Left),
        Key::Up => Some(CursorDirection::Up),
        Key::Down => Some(CursorDirection::Down),
        Key::Right => Some(CursorDirection::Right),
        Key::Char(c) => if c == 'j' {
            Some(CursorDirection::Left)
        } else if c == 'k' {
            Some(CursorDirection::Up)
        } else if c == 'l' {
            Some(CursorDirection::Down)
        } else if c == 'ø' {
            Some(CursorDirection::Right)
        } else {
            None
        },
        _ => None,
    }
}

/// Handles a key press in normal mode.
pub fn handle_mode(mosaic: &mut Mosaic, key_event: KeyPress)
    requires
        old(mosaic).wf(),
        old(mosaic)@.has_editor(),
    ensures
        final(mosaic).wf(),
        final(mosaic)@.has_editor(),
        final(mosaic)@ == old(mosaic)@.normal_key(key_event),
{
    match key_event.modifiers {
        Modifiers::Plain => {
            match key_event.code {
                Key::Esc => {
                    mosaic.set_result(None);
                    return ;
                },
                Key::Char(c) => {
                    if c == 'i' {
                        mosaic.set_mode(Mode::Insert);
                        return ;
                    } else if c == 'q' {
                        mosaic.set_result(None);
                        mosaic.set_mode(Mode::Command);
                        return ;
                    }
                },
                _ => {},
            }
            match motion(key_event.code) {
                Some(direction) => mosaic.edit(EditOp::Move(direction)),
                None => {},
            }
        },
        Modifiers::Control => {
            match motion(key_event.code) {
                Some(direction) => mosaic.edit(EditOp::Move(direction)),
                None => {},
            }
        },
        Modifiers::Other => {},
    }
}

} // verus!
