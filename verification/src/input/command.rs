//! Keys in command mode, and the commands themselves. A command that has to
//! read or write a file hands that step out and is finished afterwards.

use crate::editor::EditorView;
use crate::event::Key;
use crate::state::{CommandView, Mode, Mosaic, MosaicView};
use crate::strings::{fields, split_fields, views};
use vstd::prelude::*;

verus! {

/// What is left to do outside after a key of command mode.
#[derive(Debug)]
pub enum CommandStep {
    /// Nothing.
    Done,
    /// `q` on a buffer with a file: read the file, then call
    /// [`quit_with_disk`].
    ReadDisk { path: String },
    /// `w`: write `content` to the file, then call [`finish`] with what came
    /// of it.
    Write { path: String, content: String },
}

/// A step as mathematics.
pub enum StepView {
    Done,
    ReadDisk { path: Seq<char> },
    Write { path: Seq<char>, content: Seq<char> },
}

impl View for CommandStep {
    type V = StepView;

    open spec fn view(&self) -> StepView {
        match self {
            CommandStep::Done => StepView::Done,
            CommandStep::ReadDisk { path } => StepView::ReadDisk { path: path@ },
            CommandStep::Write { path, content } => StepView::Write {
                path: path@,
                content: content@,
            },
        }
    }
}

/// What a command says when it is done: a message, or an error.
pub open spec fn said(outcome: Result<String, String>) -> Result<Seq<char>, Seq<char>> {
    match outcome {
        Ok(m) => Ok(m@),
        Err(e) => Err(e@),
    }
}

impl MosaicView {
    /// The first word of the command line.
    pub open spec fn command_word(self) -> Seq<char> {
        fields(self.command.content)[0]
    }

    /// The state after a command has said `outcome`: normal mode, an empty
    /// command line, and the message, or the error behind `Error: `, as what
    /// the last command said.
    pub open spec fn finish(self, outcome: Result<Seq<char>, Seq<char>>) -> MosaicView {
        MosaicView {
            mode: Mode::Normal,
            command: CommandView {
                content: Seq::empty(),
                result: Some(
                    match outcome {
                        Ok(m) => m,
                        Err(e) => "Error: "@ + e,
                    },
                ),
            },
            ..self
        }
    }

    /// The state with the program asked to end.
    pub open spec fn quit(self) -> MosaicView {
        MosaicView { should_quit: true, ..self }
    }

    /// The state after `q` has learned what is on disk: the program ends if
    /// the file holds what the buffer holds, or if the file cannot be read
    /// and the buffer is empty.
    pub open spec fn quit_with_disk(self, disk: Option<Seq<char>>) -> MosaicView {
        match disk {
            Some(d) => if d != self.editor().text {
                self.finish(Err("Unsaved changes present"@))
            } else {
                self.quit().finish(Ok("Quit command executed"@))
            },
            None => if self.editor().text.len() > 0 {
                self.finish(Err("Unsaved changes or unreadable file"@))
            } else {
                self.quit().finish(Ok("Quit command executed"@))
            },
        }
    }

    /// The state after the command on the command line has been run as far as
    /// it goes without reading or writing a file.
    pub open spec fn run_command(self) -> MosaicView {
        let args = fields(self.command.content);
        let word = args[0];
        if word == "q"@ {
            if self.editor().file_path is Some {
                self
            } else if self.editor().text.len() > 0 {
                self.finish(Err("Unsaved changes (no file path)"@))
            } else {
                self.quit().finish(Ok("Quit command executed"@))
            }
        } else if word == "q!"@ {
            self.quit().finish(Ok("Force quit command executed"@))
        } else if word == "w"@ {
            if self.editor().file_path is Some {
                self
            } else if args.len() < 2 {
                self.finish(Err("No file path provided"@))
            } else {
                self.with_editor(EditorView { file_path: Some(args[1]), ..self.editor() })
            }
        } else if word == "f"@ {
            self.finish(Ok("Search pattern set to 'test'"@))
        } else {
            self.finish(Ok("Error: Unknown command"@))
        }
    }

    /// What the command on the command line leaves to do outside.
    pub open spec fn command_io(self) -> StepView {
        let args = fields(self.command.content);
        let word = args[0];
        if word == "q"@ {
            match self.editor().file_path {
                Some(path) => StepView::ReadDisk { path },
                None => StepView::Done,
            }
        } else if word == "w"@ {
            match self.editor().file_path {
                Some(path) => StepView::Write { path, content: self.editor().text },
                None => if args.len() < 2 {
                    StepView::Done
                } else {
                    StepView::Write { path: args[1], content: self.editor().text }
                },
            }
        } else {
            StepView::Done
        }
    }

    /// The state after a key in command mode: Esc leaves the mode, Enter runs
    /// the command, a character is added to the command line and backspace
    /// takes one off.
    pub open spec fn command_key(self, key: Key) -> MosaicView {
        match key {
            Key::Esc => self.with_result(None).set_mode(Mode::Normal),
            Key::Enter => self.run_command(),
            Key::Char(c) => self.with_content(self.command.content.push(c)),
            Key::Backspace => self.with_content(
                if self.command.content.len() > 0 {
                    self.command.content.drop_last()
                } else {
                    self.command.content
                },
            ),
            _ => self,
        }
    }

    /// What a key in command mode leaves to do outside.
    pub open spec fn command_step(self, key: Key) -> StepView {
        match key {
            Key::Enter => self.command_io(),
            _ => StepView::Done,
        }
    }
}

/// Ends a command: the program is in normal mode, the command line is empty
/// and shows what the command said.
pub fn finish(mosaic: &mut Mosaic, outcome: Result<String, String>)
    requires
        old(mosaic).wf(),
    ensures
        final(mosaic).wf(),
        final(mosaic)@ == old(mosaic)@.finish(said(outcome)),
{
    let message = match outcome {
        Ok(m) => m,
        Err(e) => {
            let mut m = "Error: ".to_owned();
            m.append(e.as_str());
            m
        },
    };
    mosaic.set_result(Some(message));
    mosaic.set_mode(Mode::Normal);
}

/// Ends `q` once the file has been read: `disk` is what the file holds, or
/// nothing if it could not be read.
pub fn quit_with_disk(mosaic: &mut Mosaic, disk: Option<String>)
    requires
        old(mosaic).wf(),
        old(mosaic)@.has_editor(),
    ensures
        final(mosaic).wf(),
        final(mosaic)@ == old(mosaic)@.quit_with_disk(crate::state::opt_string_view(disk)),
{
    let current = match mosaic.editor() {
        Some(editor) => editor.text(),
        None => String::new(),
    };
    match disk {
        Some(d) => {
            if d != current {
                finish(mosaic, Err("Unsaved changes present".to_owned()));
                return ;
            }
        },
        None => {
            if !current.as_str().is_empty() {
                finish(mosaic, Err("Unsaved changes or unreadable file".to_owned()));
                return ;
            }
        },
    }
    mosaic.quit();
    finish(mosaic, Ok("Quit command executed".to_owned()));
}

/// Runs the command on the command line as far as it goes without reading or
/// writing a file, and says what is left to do outside.
pub fn handle_command(mosaic: &mut Mosaic) -> (step: CommandStep)
    requires
        old(mosaic).wf(),
        old(mosaic)@.has_editor(),
    ensures
        final(mosaic).wf(),
        final(mosaic)@.has_editor(),
        final(mosaic)@ == old(mosaic)@.run_command(),
        step@ == old(mosaic)@.command_io(),
{
    let args = split_fields(mosaic.command().content.as_str());
    let (current, path) = match mosaic.editor() {
        Some(editor) => (editor.text(), editor.file_path()),
        None => (String::new(), None),
    };
    proof {
        assert(views(args@)[0] == args@[0]@);
        if args@.len() >= 2 {
            assert(views(args@)[1] == args@[1]@);
        }
    }
    if args[0] == "q".to_owned() {
        match path {
            Some(p) => CommandStep::ReadDisk { path: p },
            None => {
                if !current.as_str().is_empty() {
                    finish(mosaic, Err("Unsaved changes (no file path)".to_owned()));
                } else {
                    mosaic.quit();
                    finish(mosaic, Ok("Quit command executed".to_owned()));
                }
                CommandStep::Done
            },
        }
    } else if args[0] == "q!".to_owned() {
        proof {
            reveal_strlit("q!");
            reveal_strlit("w");
            assert("q!"@.len() == 2 && "w"@.len() == 1);
        }
        mosaic.quit();
        finish(mosaic, Ok("Force quit command executed".to_owned()));
        CommandStep::Done
    } else if args[0] == "w".to_owned() {
        match path {
            Some(p) => CommandStep::Write { path: p, content: current },
            None => {
                if args.len() < 2 {
                    finish(mosaic, Err("No file path provided".to_owned()));
                    CommandStep::Done
                } else {
                    mosaic.set_file_path(args[1].clone());
                    CommandStep::Write { path: args[1].clone(), content: current }
                }
            },
        }
    } else if args[0] == "f".to_owned() {
        finish(mosaic, Ok("Search pattern set to 'test'".to_owned()));
        CommandStep::Done
    } else {
        finish(mosaic, Ok("Error: Unknown command".to_owned()));
        CommandStep::Done
    }
}

/// Handles a key in command mode.
pub fn handle_mode(mosaic: &mut Mosaic, key: Key) -> (step: CommandStep)
    requires
        old(mosaic).wf(),
        old(mosaic)@.has_editor(),
    ensures
        final(mosaic).wf(),
        final(mosaic)@.has_editor(),
        final(mosaic)@ == old(mosaic)@.command_key(key),
        step@ == old(mosaic)@.command_step(key),
{
    match key {
        Key::Esc => {
            mosaic.set_result(None);
            mosaic.set_mode(Mode::Normal);
            CommandStep::Done
        },
        Key::Enter => handle_command(mosaic),
        Key::Char(c) => {
            mosaic.type_command(c);
            CommandStep::Done
        },
        Key::Backspace => {
            mosaic.pop_command();
            CommandStep::Done
        },
        _ => CommandStep::Done,
    }
}

} // verus!
