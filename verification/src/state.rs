//! What the program remembers between keys: the mode, the command line, the
//! editors and which of them is the current one.

use crate::editor::{Editor, EditorView};
use crate::strings::{string_pop, string_push};
use vstd::prelude::*;

verus! {

/// The input modes.
#[derive(Debug, Clone, Copy, PartialEq, Eq, Structural)]
pub enum Mode {
    Normal,
    Insert,
    Command,
}

impl Mode {
    /// The name under which the mode is shown.
    pub open spec fn spec_name(self) -> Seq<char> {
        match self {
            Mode::Normal => "NORMAL"@,
            Mode::Insert => "INSERT"@,
            Mode::Command => "COMMAND"@,
        }
    }

    /// The name under which the mode is shown.
    pub fn name(&self) -> (s: String)
        ensures
            s@ == self.spec_name(),
    {
        match self {
            Mode::Normal => "NORMAL".to_owned(),
            Mode::Insert => "INSERT".to_owned(),
            Mode::Command => "COMMAND".to_owned(),
        }
    }
}

/// An axis of the screen.
#[derive(Debug, Clone, Copy, PartialEq, Eq, Structural)]
pub enum Axis {
    Horizontal,
    Vertical,
}

/// The command line: what has been typed, and what the last command said.
#[derive(Debug)]
pub struct Command {
    pub content: String,
    pub result: Option<String>,
}

/// A command line as mathematics.
pub struct CommandView {
    pub content: Seq<char>,
    pub result: Option<Seq<char>>,
}

/// The view of an optional string.
pub open spec fn opt_string_view(s: Option<String>) -> Option<Seq<char>> {
    match s {
        Some(t) => Some(t@),
        None => None,
    }
}

impl View for Command {
    type V = CommandView;

    open spec fn view(&self) -> CommandView {
        CommandView { content: self.content@, result: opt_string_view(self.result) }
    }
}

impl Command {
    /// An empty command line.
    pub fn new() -> (c: Command)
        ensures
            c@ == (CommandView { content: Seq::empty(), result: None }),
    {
        Command { content: String::new(), result: None }
    }

    /// Forgets what has been typed.
    pub fn clear(&mut self)
        ensures
            final(self)@ == (CommandView { content: Seq::empty(), ..old(self)@ }),
    {
        self.content = String::new();
    }

    /// Takes back the last character typed, if there is one.
    pub fn pop(&mut self)
        ensures
            final(self)@ == (CommandView {
                content: if old(self)@.content.len() > 0 {
                    old(self)@.content.drop_last()
                } else {
                    old(self)@.content
                },
                ..old(self)@
            }),
    {
        let _ = string_pop(&mut self.content);
    }

    /// Adds `rhs` to what has been typed.
    pub fn add_assign(&mut self, rhs: &str)
        ensures
            final(self)@ == (CommandView { content: old(self)@.content + rhs@, ..old(self)@ }),
    {
        self.content.append(rhs);
    }

    /// Adds a character to what has been typed.
    pub fn push(&mut self, c: char)
        ensures
            final(self)@ == (CommandView { content: old(self)@.content.push(c), ..old(self)@ }),
    {
        string_push(&mut self.content, c);
    }
}

/// The mode, the command line and the flags of the program.
#[derive(Debug)]
pub struct StateHandler {
    pub should_quit: bool,
    pub mode: Mode,
    pub command: Command,
    pub extend_direction: Axis,
}

impl StateHandler {
    /// Normal mode, an empty command line, and new panels to the side.
    pub fn new() -> (s: StateHandler)
        ensures
            !s.should_quit,
            s.mode == Mode::Normal,
            s.command@ == (CommandView { content: Seq::empty(), result: None }),
            s.extend_direction == Axis::Horizontal,
    {
        StateHandler {
            should_quit: false,
            mode: Mode::Normal,
            command: Command::new(),
            extend_direction: Axis::Horizontal,
        }
    }
}

pub struct Mosaic {
    pub(crate) state_handler: StateHandler,
    pub(crate) editors: Vec<Editor>,
    pub(crate) current_editor: usize,
}

/// What a [`Mosaic`] holds, as mathematics.
pub struct MosaicView {
    pub mode: Mode,
    pub should_quit: bool,
    pub command: CommandView,
    pub extend_direction: Axis,
    pub editors: Seq<EditorView>,
    pub current_editor: usize,
}

impl View for Mosaic {
    type V = MosaicView;

    closed spec fn view(&self) -> MosaicView {
        MosaicView {
            mode: self.state_handler.mode,
            should_quit: self.state_handler.should_quit,
            command: self.state_handler.command@,
            extend_direction: self.state_handler.extend_direction,
            editors: Seq::new(self.editors@.len(), |i: int| self.editors@[i]@),
            current_editor: self.current_editor,
        }
    }
}

impl MosaicView {
    /// Every editor is well formed, and one of them is the current one,
    /// unless there is none.
    pub open spec fn wf(self) -> bool {
        &&& self.editors.len() == 0 || self.current_editor < self.editors.len()
        &&& forall|i: int| 0 <= i < self.editors.len() ==> (#[trigger] self.editors[i]).wf()
    }

    /// Whether there is a current editor.
    pub open spec fn has_editor(self) -> bool {
        self.current_editor < self.editors.len()
    }

    /// The current editor.
    pub open spec fn editor(self) -> EditorView {
        self.editors[self.current_editor as int]
    }

    /// The state with `e` in place of the current editor.
    pub open spec fn with_editor(self, e: EditorView) -> MosaicView {
        MosaicView { editors: self.editors.update(self.current_editor as int, e), ..self }
    }

    /// The state in `mode`, with an empty command line.
    pub open spec fn set_mode(self, mode: Mode) -> MosaicView {
        MosaicView { mode, command: CommandView { content: Seq::empty(), ..self.command }, ..self }
    }

    /// The state with `result` as what the last command said.
    pub open spec fn with_result(self, result: Option<Seq<char>>) -> MosaicView {
        MosaicView { command: CommandView { result, ..self.command }, ..self }
    }

    /// The state with `content` on the command line.
    pub open spec fn with_content(self, content: Seq<char>) -> MosaicView {
        MosaicView { command: CommandView { content, ..self.command }, ..self }
    }
}

impl Mosaic {
    /// The invariant that every operation keeps.
    pub open spec fn wf(&self) -> bool {
        self@.wf()
    }

    /// What the view shows of the fields.
    pub(crate) proof fn lemma_view(&self)
        ensures
            self@.mode == self.state_handler.mode,
            self@.should_quit == self.state_handler.should_quit,
            self@.command == self.state_handler.command@,
            self@.extend_direction == self.state_handler.extend_direction,
            self@.editors.len() == self.editors@.len(),
            forall|i: int|
                0 <= i < self.editors@.len() ==> (#[trigger] self@.editors[i]) == self.editors@[i]@,
            self@.current_editor == self.current_editor,
    {
    }

    /// The program in `mode` with one editor.
    pub fn new(mode: Mode, editor: Editor) -> (m: Mosaic)
        requires
            editor.wf(),
        ensures
            m.wf(),
            m@ == (MosaicView {
                mode,
                should_quit: false,
                command: CommandView { content: Seq::empty(), result: None },
                extend_direction: Axis::Horizontal,
                editors: seq![editor@],
                current_editor: 0,
            }),
    {
        let mut state_handler = StateHandler::new();
        state_handler.mode = mode;
        let mut editors: Vec<Editor> = Vec::new();
        editors.push(editor);
        let m = Mosaic { state_handler, editors, current_editor: 0 };
        assert(m@.editors =~= seq![editor@]);
        m
    }

    /// Changes the mode and empties the command line.
    pub fn set_mode(&mut self, mode: Mode)
        ensures
            final(self)@ == old(self)@.set_mode(mode),
    {
        self.state_handler.mode = mode;
        self.state_handler.command.clear();
        assert(self@.editors =~= old(self)@.editors);
    }

    /// Changes the mode and leaves the command line as it is.
    pub fn enter_mode(&mut self, mode: Mode)
        ensures
            final(self)@ == (MosaicView { mode, ..old(self)@ }),
    {
        self.state_handler.mode = mode;
        assert(self@.editors =~= old(self)@.editors);
    }

    /// Sets what the last command said.
    pub fn set_result(&mut self, result: Option<String>)
        ensures
            final(self)@ == old(self)@.with_result(opt_string_view(result)),
    {
        self.state_handler.command.result = result;
        assert(self@.editors =~= old(self)@.editors);
    }

    /// Adds a character to the command line.
    pub fn type_command(&mut self, c: char)
        ensures
            final(self)@ == old(self)@.with_content(old(self)@.command.content.push(c)),
    {
        self.state_handler.command.push(c);
        assert(self@.editors =~= old(self)@.editors);
    }

    /// Takes the last character off the command line, if there is one.
    pub fn pop_command(&mut self)
        ensures
            final(self)@ == old(self)@.with_content(
                if old(self)@.command.content.len() > 0 {
                    old(self)@.command.content.drop_last()
                } else {
                    old(self)@.command.content
                },
            ),
    {
        self.state_handler.command.pop();
        assert(self@.editors =~= old(self)@.editors);
    }

    /// Names the file of the current editor, if there is one.
    pub fn set_file_path(&mut self, path: String)
        requires
            old(self).wf(),
        ensures
            final(self).wf(),
            final(self)@ == (if old(self)@.has_editor() {
                old(self)@.with_editor(
                    EditorView { file_path: Some(path@), ..old(self)@.editor() },
                )
            } else {
                old(self)@
            }),
    {
        let ghost before = self@;
        if self.current_editor < self.editors.len() {
            self.editors[self.current_editor].set_file_path(path);
            proof {
                assert(self@.editors =~= before.editors.update(
                    before.current_editor as int,
                    EditorView { file_path: Some(path@), ..before.editor() },
                ));
            }
        }
    }

    /// Asks the program to end.
    pub fn quit(&mut self)
        ensures
            final(self)@ == (MosaicView { should_quit: true, ..old(self)@ }),
    {
        self.state_handler.should_quit = true;
        assert(self@.editors =~= old(self)@.editors);
    }

    /// Whether the program has been asked to end.
    pub fn should_quit(&self) -> (b: bool)
        ensures
            b == self@.should_quit,
    {
        self.state_handler.should_quit
    }

    /// The mode.
    pub fn mode(&self) -> (m: Mode)
        ensures
            m == self@.mode,
    {
        self.state_handler.mode
    }

    /// The command line.
    pub fn command(&self) -> (c: &Command)
        ensures
            c@ == self@.command,
    {
        &self.state_handler.command
    }

    /// The program in `mode` without an editor.
    pub fn without_editor(mode: Mode) -> (m: Mosaic)
        ensures
            m.wf(),
            m@ == (MosaicView {
                mode,
                should_quit: false,
                command: CommandView { content: Seq::empty(), result: None },
                extend_direction: Axis::Horizontal,
                editors: Seq::empty(),
                current_editor: 0,
            }),
    {
        let mut state_handler = StateHandler::new();
        state_handler.mode = mode;
        let m = Mosaic { state_handler, editors: Vec::new(), current_editor: 0 };
        assert(m@.editors =~= Seq::empty());
        m
    }

    /// The current editor, if there is one.
    pub fn editor(&self) -> (e: Option<&Editor>)
        requires
            self.wf(),
        ensures
            e.is_some() == self@.has_editor(),
            e matches Some(ed) ==> ed@ == self@.editor() && ed.wf(),
    {
        if self.current_editor < self.editors.len() {
            Some(&self.editors[self.current_editor])
        } else {
            None
        }
    }

    /// The number of editors.
    pub fn editor_count(&self) -> (n: usize)
        ensures
            n == self@.editors.len(),
    {
        self.editors.len()
    }

    /// Adds an editor behind the others and makes it the current one.
    pub fn add_editor(&mut self, editor: Editor)
        requires
            old(self).wf(),
            editor.wf(),
        ensures
            final(self).wf(),
            final(self)@ == (MosaicView {
                editors: old(self)@.editors.push(editor@),
                current_editor: old(self)@.editors.len() as usize,
                ..old(self)@
            }),
    {
        self.current_editor = self.editors.len();
        self.editors.push(editor);
        assert(self@.editors =~= old(self)@.editors.push(editor@));
    }

    /// Makes the editor behind the current one the current one, and the first
    /// behind the last.
    pub fn next_editor(&mut self)
        requires
            old(self).wf(),
        ensures
            final(self).wf(),
            final(self)@ == (MosaicView {
                current_editor: if old(self)@.current_editor + 1 >= old(self)@.editors.len() {
                    0
                } else {
                    (old(self)@.current_editor + 1) as usize
                },
                ..old(self)@
            }),
    {
        if self.editors.len() == 0 || self.current_editor >= self.editors.len() - 1 {
            self.current_editor = 0;
        } else {
            self.current_editor += 1;
        }
        assert(self@.editors =~= old(self)@.editors);
    }

    /// Makes the editor in front of the current one the current one, and the
    /// last in front of the first.
    pub fn previous_editor(&mut self)
        requires
            old(self).wf(),
        ensures
            final(self).wf(),
            final(self)@ == (MosaicView {
                current_editor: if old(self)@.editors.len() == 0 {
                    0
                } else if old(self)@.current_editor == 0 {
                    (old(self)@.editors.len() - 1) as usize
                } else {
                    (old(self)@.current_editor - 1) as usize
                },
                ..old(self)@
            }),
    {
        if self.editors.len() == 0 {
            self.current_editor = 0;
        } else if self.current_editor == 0 {
            self.current_editor = self.editors.len() - 1;
        } else {
            self.current_editor -= 1;
        }
        assert(self@.editors =~= old(self)@.editors);
    }

    /// Tells the current editor, if there is one, how many lines its window
    /// shows.
    pub fn set_height(&mut self, height: usize)
        requires
            old(self).wf(),
        ensures
            final(self).wf(),
            final(self)@ == (if old(self)@.has_editor() {
                old(self)@.with_editor(EditorView { height, ..old(self)@.editor() })
            } else {
                old(self)@
            }),
    {
        let ghost before = self@;
        if self.current_editor < self.editors.len() {
            self.editors[self.current_editor].set_height(height);
            proof {
                assert(self@.editors =~= before.editors.update(
                    before.current_editor as int,
                    EditorView { height, ..before.editor() },
                ));
            }
        }
    }
}

} // verus!
