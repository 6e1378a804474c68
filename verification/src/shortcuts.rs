//! The shortcuts of the editor: their names, the keys that they are bound to
//! and what they do.

use crate::actions::EditOp;
use crate::state::{Mode, Mosaic, MosaicView};
use vstd::prelude::*;

verus! {

/// What a shortcut does.
#[derive(Debug, Clone, Copy, PartialEq, Eq, Structural)]
pub enum ShortcutAction {
    EnterNormalMode,
    EnterInsertMode,
    EnterCommandMode,
    Newline,
    Backspace,
    Tab,
    ReverseTab,
}

/// A shortcut: its name, the input that it is bound to, and what it does.
#[derive(Debug)]
pub struct Shortcut {
    pub name: String,
    pub input: String,
    pub handler: ShortcutAction,
}

/// A shortcut as mathematics.
pub struct ShortcutView {
    pub name: Seq<char>,
    pub input: Seq<char>,
    pub handler: ShortcutAction,
}

impl View for Shortcut {
    type V = ShortcutView;

    open spec fn view(&self) -> ShortcutView {
        ShortcutView { name: self.name@, input: self.input@, handler: self.handler }
    }
}

/// The inputs that the shortcuts of the editor are bound to.
pub struct ShortcutKeys {
    pub enter_insert_mode: String,
    pub enter_command_mode: String,
    pub leave_command_mode: String,
    pub leave_insert_mode: String,
    pub newline: String,
    pub backspace: String,
    pub tab: String,
    pub reverse_tab: String,
}

pub struct ShortcutHandler {
    shortcuts: Vec<Shortcut>,
}

impl View for ShortcutHandler {
    type V = Seq<ShortcutView>;

    closed spec fn view(&self) -> Seq<ShortcutView> {
        Seq::new(self.shortcuts@.len(), |i: int| self.shortcuts@[i]@)
    }
}

/// The shortcuts of the editor, in the order in which they are registered.
pub open spec fn editor_shortcuts(keys: ShortcutKeys) -> Seq<ShortcutView> {
    seq![
        ShortcutView {
            name: "mode.normal.enter_insert_mode"@,
            input: keys.enter_insert_mode@,
            handler: ShortcutAction::EnterInsertMode,
        },
        ShortcutView {
            name: "mode.normal.enter_command_mode"@,
            input: keys.enter_command_mode@,
            handler: ShortcutAction::EnterCommandMode,
        },
        ShortcutView {
            name: "mode.command.enter_normal_mode"@,
            input: keys.leave_command_mode@,
            handler: ShortcutAction::EnterNormalMode,
        },
        ShortcutView {
            name: "mode.insert.enter_normal_mode"@,
            input: keys.leave_insert_mode@,
            handler: ShortcutAction::EnterNormalMode,
        },
        ShortcutView {
            name: "mode.insert.newline"@,
            input: keys.newline@,
            handler: ShortcutAction::Newline,
        },
        ShortcutView {
            name: "mode.insert.backspace"@,
            input: keys.backspace@,
            handler: ShortcutAction::Backspace,
        },
        ShortcutView { name: "mode.insert.tab"@, input: keys.tab@, handler: ShortcutAction::Tab },
        ShortcutView {
            name: "mode.insert.reverse_tab"@,
            input: keys.reverse_tab@,
            handler: ShortcutAction::ReverseTab,
        },
    ]
}

impl ShortcutHandler {
    /// No shortcuts.
    pub fn new() -> (h: ShortcutHandler)
        ensures
            h@ == Seq::<ShortcutView>::empty(),
    {
        let h = ShortcutHandler { shortcuts: Vec::new() };
        assert(h@ =~= Seq::<ShortcutView>::empty());
        h
    }

    /// Adds a shortcut behind the others.
    pub fn register(&mut self, name: String, input: String, handler: ShortcutAction)
        ensures
            final(self)@ == old(self)@.push(ShortcutView { name: name@, input: input@, handler }),
    {
        let shortcut = Shortcut { name, input, handler };
        self.shortcuts.push(shortcut);
        assert(self@ =~= old(self)@.push(ShortcutView { name: name@, input: input@, handler }));
    }

    /// The shortcuts in the order in which they were registered.
    pub fn get_shortcuts(&self) -> (shortcuts: &Vec<Shortcut>)
        ensures
            shortcuts@.len() == self@.len(),
            forall|i: int| 0 <= i < shortcuts@.len() ==> (#[trigger] shortcuts@[i])@ == self@[i],
    {
        &self.shortcuts
    }
}

/// Registers the shortcuts of the editor under the inputs of `keys`.
pub fn register_shortcuts(shortcut_handler: &mut ShortcutHandler, keys: &ShortcutKeys)
    ensures
        final(shortcut_handler)@ == old(shortcut_handler)@ + editor_shortcuts(*keys),
{
    shortcut_handler.register(
        "mode.normal.enter_insert_mode".to_owned(),
        keys.enter_insert_mode.clone(),
        ShortcutAction::EnterInsertMode,
    );
    shortcut_handler.register(
        "mode.normal.enter_command_mode".to_owned(),
        keys.enter_command_mode.clone(),
        ShortcutAction::EnterCommandMode,
    );
    shortcut_handler.register(
        "mode.command.enter_normal_mode".to_owned(),
        keys.leave_command_mode.clone(),
        ShortcutAction::EnterNormalMode,
    );
    shortcut_handler.register(
        "mode.insert.enter_normal_mode".to_owned(),
        keys.leave_insert_mode.clone(),
        ShortcutAction::EnterNormalMode,
    );
    shortcut_handler.register(
        "mode.insert.newline".to_owned(),
        keys.newline.clone(),
        ShortcutAction::Newline,
    );
    shortcut_handler.register(
        "mode.insert.backspace".to_owned(),
        keys.backspace.clone(),
        ShortcutAction::Backspace,
    );
    shortcut_handler.register("mode.insert.tab".to_owned(), keys.tab.clone(), ShortcutAction::Tab);
    shortcut_handler.register(
        "mode.insert.reverse_tab".to_owned(),
        keys.reverse_tab.clone(),
        ShortcutAction::ReverseTab,
    );
    assert(shortcut_handler@ =~= old(shortcut_handler)@ + editor_shortcuts(*keys));
}

/// What an editing shortcut says: its message after the step, or that there
/// is no editor to make the step.
pub open spec fn edit_report(before: MosaicView, message: Seq<char>) -> Result<
    Seq<char>,
    Seq<char>,
> {
    if before.has_editor() {
        Ok(message)
    } else {
        Err("No active editor"@)
    }
}

/// A result as mathematics.
pub open spec fn report_view(r: Result<String, String>) -> Result<Seq<char>, Seq<char>> {
    match r {
        Ok(m) => Ok(m@),
        Err(e) => Err(e@),
    }
}

/// Has the current editor make `op` and says `message`; without an editor,
/// says that there is none.
fn edit_with_report(mosaic: &mut Mosaic, op: EditOp, message: &str) -> (r: Result<String, String>)
    requires
        old(mosaic).wf(),
    ensures
        final(mosaic).wf(),
        final(mosaic)@ == old(mosaic)@.edit(op),
        report_view(r) == edit_report(old(mosaic)@, message@),
{
    let present = mosaic.editor().is_some();
    if !present {
        return Err("No active editor".to_owned());
    }
    mosaic.edit(op);
    Ok(message.to_owned())
}

pub fn enter_normal_mode(mosaic: &mut Mosaic) -> (r: Result<String, String>)
    ensures
        final(mosaic)@ == (MosaicView { mode: Mode::Normal, ..old(mosaic)@ }),
        report_view(r) == Ok::<Seq<char>, Seq<char>>("Entered normal mode"@),
{
    mosaic.enter_mode(Mode::Normal);
    Ok("Entered normal mode".to_owned())
}

pub fn enter_insert_mode(mosaic: &mut Mosaic) -> (r: Result<String, String>)
    ensures
        final(mosaic)@ == (MosaicView { mode: Mode::Insert, ..old(mosaic)@ }),
        report_view(r) == Ok::<Seq<char>, Seq<char>>("Entered normal mode"@),
{
    mosaic.enter_mode(Mode::Insert);
    Ok("Entered normal mode".to_owned())
}

pub fn enter_command_mode(mosaic: &mut Mosaic) -> (r: Result<String, String>)
    ensures
        final(mosaic)@ == (MosaicView { mode: Mode::Command, ..old(mosaic)@.with_result(None) }),
        report_view(r) == Ok::<Seq<char>, Seq<char>>("Entered command mode"@),
{
    mosaic.set_result(None);
    mosaic.enter_mode(Mode::Command);
    Ok("Entered command mode".to_owned())
}

/// Breaks the line and keeps its indentation.
pub fn newline(mosaic: &mut Mosaic) -> (r: Result<String, String>)
    requires
        old(mosaic).wf(),
    ensures
        final(mosaic).wf(),
        final(mosaic)@ == old(mosaic)@.edit(EditOp::Newline),
        report_view(r) == edit_report(old(mosaic)@, "Newline"@),
{
    edit_with_report(mosaic, EditOp::Newline, "Newline")
}

pub fn backspace(mosaic: &mut Mosaic) -> (r: Result<String, String>)
    requires
        old(mosaic).wf(),
    ensures
        final(mosaic).wf(),
        final(mosaic)@ == old(mosaic)@.edit(EditOp::Backspace),
        report_view(r) == edit_report(old(mosaic)@, "Backspace"@),
{
    edit_with_report(mosaic, EditOp::Backspace, "Backspace")
}

pub fn tab(mosaic: &mut Mosaic) -> (r: Result<String, String>)
    requires
        old(mosaic).wf(),
    ensures
        final(mosaic).wf(),
        final(mosaic)@ == old(mosaic)@.edit(EditOp::Tab),
        report_view(r) == edit_report(old(mosaic)@, "Tab"@),
{
    edit_with_report(mosaic, EditOp::Tab, "Tab")
}

/// Takes back up to `tab_size` characters of indentation.
pub fn reverse_tab(mosaic: &mut Mosaic, tab_size: usize) -> (r: Result<String, String>)
    requires
        old(mosaic).wf(),
    ensures
        final(mosaic).wf(),
        final(mosaic)@ == old(mosaic)@.edit(EditOp::ReverseTab(tab_size)),
        report_view(r) == edit_report(old(mosaic)@, "Reverse tab"@),
{
    edit_with_report(mosaic, EditOp::ReverseTab(tab_size), "Reverse tab")
}

/// Does what a shortcut does.
pub fn run_shortcut(mosaic: &mut Mosaic, action: ShortcutAction, tab_size: usize) -> (r: Result<
    String,
    String,
>)
    requires
        old(mosaic).wf(),
    ensures
        final(mosaic).wf(),
        final(mosaic)@ == old(mosaic)@.after_shortcut(action, tab_size),
{
    match action {
        ShortcutAction::EnterNormalMode => enter_normal_mode(mosaic),
        ShortcutAction::EnterInsertMode => enter_insert_mode(mosaic),
        ShortcutAction::EnterCommandMode => enter_command_mode(mosaic),
        ShortcutAction::Newline => newline(mosaic),
        ShortcutAction::Backspace => backspace(mosaic),
        ShortcutAction::Tab => tab(mosaic),
        ShortcutAction::ReverseTab => reverse_tab(mosaic, tab_size),
    }
}

impl MosaicView {
    /// The state after a shortcut.
    pub open spec fn after_shortcut(self, action: ShortcutAction, tab_size: usize) -> MosaicView {
        match action {
            ShortcutAction::EnterNormalMode => MosaicView { mode: Mode::Normal, ..self },
            ShortcutAction::EnterInsertMode => MosaicView { mode: Mode::Insert, ..self },
            ShortcutAction::EnterCommandMode => MosaicView {
                mode: Mode::Command,
                ..self.with_result(None)
            },
            ShortcutAction::Newline => self.edit(EditOp::Newline),
            ShortcutAction::Backspace => self.edit(EditOp::Backspace),
            ShortcutAction::Tab => self.edit(EditOp::Tab),
            ShortcutAction::ReverseTab => self.edit(EditOp::ReverseTab(tab_size)),
        }
    }
}

} // verus!
