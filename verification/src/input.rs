//! What a key does, by mode.

pub mod command;
pub mod insert;
pub mod normal;

use crate::actions::EditOp;
use crate::cursor::CursorDirection;
use crate::event::{Key, KeyPress};
use crate::input::command::CommandStep;
use crate::state::{Mode, Mosaic, MosaicView};
use vstd::prelude::*;

verus! {

impl MosaicView {
    /// The state after a key that is handled without regard to what is held
    /// down with it, in insert mode.
    pub open spec fn plain_key(self, key: Key) -> MosaicView {
        match key {
            Key::Esc => self.set_mode(Mode::Normal),
            Key::Tab => self.edit(EditOp::Tab),
            Key::BackTab => self.edit(EditOp::BackTab),
            Key::Char(c) => self.edit(EditOp::Input(c)),
            Key::Left => self.edit(EditOp::Move(CursorDirection::Left)),
            Key::Up => self.edit(EditOp::Move(CursorDirection::Up)),
            Key::Down => self.edit(EditOp::Move(CursorDirection::Down)),
            Key::Right => self.edit(EditOp::Move(CursorDirection::Right)),
            Key::Enter => self.edit(EditOp::Enter),
            Key::Backspace => self.edit(EditOp::Backspace),
            _ => self,
        }
    }
}

/// Handles a key of insert mode without regard to what is held down with it.
pub fn handle_non_modifier(mosaic: &mut Mosaic, key: Key)
    requires
        old(mosaic).wf(),
    ensures
        final(mosaic).wf(),
        final(mosaic)@ == old(mosaic)@.plain_key(key),
{
    match key {
        Key::Esc => mosaic.set_mode(Mode::Normal),
        Key::Tab => mosaic.edit(EditOp::Tab),
        Key::BackTab => mosaic.edit(EditOp::BackTab),
        Key::Char(c) => mosaic.edit(EditOp::Input(c)),
        Key::Left => mosaic.edit(EditOp::Move(CursorDirection::Left)),
        Key::Up => mosaic.edit(EditOp::Move(CursorDirection::Up)),
        Key::Down => mosaic.edit(EditOp::Move(CursorDirection::Down)),
        Key::Right => mosaic.edit(EditOp::Move(CursorDirection::Right)),
        Key::Enter => mosaic.edit(EditOp::Enter),
        Key::Backspace => mosaic.edit(EditOp::Backspace),
        _ => {},
    }
}

/// Handles a key press: F12 does nothing, and every other key is handled by
/// the mode that the program is in. The result says what is left to do
/// outside, which only a command can ask for.
pub fn process_key(mosaic: &mut Mosaic, key: KeyPress) -> (step: CommandStep)
    requires
        old(mosaic).wf(),
        old(mosaic)@.has_editor(),
    ensures
        final(mosaic).wf(),
        final(mosaic)@.has_editor(),
        key.code == Key::F(12) ==> step is Done && final(mosaic)@ == old(mosaic)@,
        key.code != Key::F(12) && old(mosaic)@.mode == Mode::Normal ==> step is Done
            && final(mosaic)@ == old(mosaic)@.normal_key(key),
        key.code != Key::F(12) && old(mosaic)@.mode == Mode::Insert ==> step is Done
            && final(mosaic)@ == old(mosaic)@.insert_key(key),
        key.code != Key::F(12) && old(mosaic)@.mode == Mode::Command ==> final(mosaic)@
            == old(mosaic)@.command_key(key.code) && step@ == old(mosaic)@.command_step(
            key.code,
        ),
{
    if key.code == Key::F(12) {
        return CommandStep::Done;
    }
    match mosaic.mode() {
        Mode::Normal => {
            normal::handle_mode(mosaic, key);
            CommandStep::Done
        },
        Mode::Insert => {
            insert::handle_mode(mosaic, key);
            CommandStep::Done
        },
        Mode::Command => command::handle_mode(mosaic, key.code),
    }
}

} // verus!
