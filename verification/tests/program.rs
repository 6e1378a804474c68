use mosaic::actions::EditOp;
use mosaic::commands::{Command, CommandHandler};
use mosaic::cursor::{Cursor, CursorDirection};
use mosaic::data::{DataStore, PanelData};
use mosaic::editor::Editor;
use mosaic::event::{Key, KeyPress, Modifiers};
use mosaic::highlight::{highlight_line, usable, Cut, SpanStyle};
use mosaic::input::command::{finish, quit_with_disk, CommandStep};
use mosaic::input::{handle_non_modifier, process_key};
use mosaic::shortcuts::{
    enter_command_mode, enter_insert_mode, enter_normal_mode, register_shortcuts, run_shortcut,
    ShortcutAction, ShortcutHandler, ShortcutKeys,
};
use mosaic::state::{Axis, Mode, Mosaic, StateHandler};
use mosaic::strings::split_fields;
use mosaic::workspace::{Layout, Workspace};
use regex::Regex;

fn plain(code: Key) -> KeyPress {
    KeyPress { code, modifiers: Modifiers::Plain }
}

fn ctrl(code: Key) -> KeyPress {
    KeyPress { code, modifiers: Modifiers::Control }
}

fn program(mode: Mode, text: &str, path: Option<&str>) -> Mosaic {
    let mut editor = Editor::new(Some(text), path.map(String::from));
    editor.set_height(10);
    Mosaic::new(mode, editor)
}

fn type_keys(mosaic: &mut Mosaic, keys: &str) {
    for c in keys.chars() {
        assert!(matches!(process_key(mosaic, plain(Key::Char(c))), CommandStep::Done));
    }
}

fn text_of(mosaic: &Mosaic) -> String {
    mosaic.editor().unwrap().text()
}

fn cursors_of(mosaic: &Mosaic) -> Vec<Cursor> {
    mosaic.editor().unwrap().cursors()
}

fn said(mosaic: &Mosaic) -> Option<String> {
    mosaic.command().result.clone()
}

#[test]
fn mode_names() {
    assert_eq!(Mode::Normal.name(), "NORMAL");
    assert_eq!(Mode::Insert.name(), "INSERT");
    assert_eq!(Mode::Command.name(), "COMMAND");
}

#[test]
fn state_handler_starts_in_normal_mode() {
    let state = StateHandler::new();
    assert!(!state.should_quit);
    assert_eq!(state.mode, Mode::Normal);
    assert_eq!(state.command.content, "");
    assert_eq!(state.command.result, None);
    assert_eq!(state.extend_direction, Axis::Horizontal);
}

#[test]
fn command_line_grows_and_shrinks() {
    let mut command = mosaic::state::Command::new();
    command.add_assign("ab");
    command.push('c');
    assert_eq!(command.content, "abc");
    command.pop();
    assert_eq!(command.content, "ab");
    command.clear();
    assert_eq!(command.content, "");
    command.pop();
    assert_eq!(command.content, "");
}

#[test]
fn fields_between_blanks() {
    assert_eq!(split_fields(""), vec![String::new()]);
    assert_eq!(split_fields("w"), vec![String::from("w")]);
    assert_eq!(
        split_fields("w  a b "),
        vec![
            String::from("w"),
            String::new(),
            String::from("a"),
            String::from("b"),
            String::new()
        ]
    );
}

#[test]
fn normal_mode_keys_change_the_mode() {
    let mut m = program(Mode::Normal, "ab", None);
    process_key(&mut m, plain(Key::Char('i')));
    assert_eq!(m.mode(), Mode::Insert);
    process_key(&mut m, plain(Key::Esc));
    assert_eq!(m.mode(), Mode::Normal);
    process_key(&mut m, plain(Key::Char('q')));
    assert_eq!(m.mode(), Mode::Command);
    process_key(&mut m, plain(Key::Esc));
    assert_eq!(m.mode(), Mode::Normal);
}

#[test]
fn normal_mode_motion_keys() {
    let mut m = program(Mode::Normal, "ab\ncd", None);
    process_key(&mut m, plain(Key::Char('l')));
    assert_eq!(cursors_of(&m), vec![Cursor::new(1, 0)]);
    process_key(&mut m, plain(Key::Char('ø')));
    assert_eq!(cursors_of(&m), vec![Cursor::new(1, 1)]);
    process_key(&mut m, ctrl(Key::Char('k')));
    assert_eq!(cursors_of(&m), vec![Cursor::new(0, 1)]);
    process_key(&mut m, plain(Key::Char('j')));
    assert_eq!(cursors_of(&m), vec![Cursor::new(0, 0)]);
    process_key(&mut m, ctrl(Key::Right));
    assert_eq!(cursors_of(&m), vec![Cursor::new(0, 1)]);
    process_key(&mut m, KeyPress { code: Key::Right, modifiers: Modifiers::Other });
    assert_eq!(cursors_of(&m), vec![Cursor::new(0, 1)]);
    process_key(&mut m, plain(Key::Char('x')));
    assert_eq!(text_of(&m), "ab\ncd");
    assert_eq!(m.mode(), Mode::Normal);
}

#[test]
fn escape_in_normal_mode_forgets_what_the_last_command_said() {
    let mut m = program(Mode::Command, "", None);
    type_keys(&mut m, "zz");
    process_key(&mut m, plain(Key::Enter));
    assert_eq!(said(&m), Some(String::from("Error: Unknown command")));
    assert_eq!(m.mode(), Mode::Normal);
    process_key(&mut m, plain(Key::Esc));
    assert_eq!(said(&m), None);
}

#[test]
fn f12_does_nothing() {
    let mut m = program(Mode::Insert, "ab", None);
    process_key(&mut m, plain(Key::F(12)));
    assert_eq!(text_of(&m), "ab");
    assert_eq!(m.mode(), Mode::Insert);
    assert_eq!(cursors_of(&m), vec![Cursor::new(0, 0)]);
}

#[test]
fn insert_mode_types_and_edits() {
    let mut m = program(Mode::Insert, "", None);
    type_keys(&mut m, "  ab");
    process_key(&mut m, plain(Key::Enter));
    assert_eq!(text_of(&m), "  ab\n  ");
    process_key(&mut m, plain(Key::Char('c')));
    process_key(&mut m, plain(Key::Backspace));
    process_key(&mut m, plain(Key::BackTab));
    assert_eq!(text_of(&m), "  ab\n");
    process_key(&mut m, plain(Key::Tab));
    assert_eq!(text_of(&m), "  ab\n    ");
    process_key(&mut m, plain(Key::Up));
    assert_eq!(cursors_of(&m), vec![Cursor::new(0, 4)]);
    process_key(&mut m, plain(Key::Left));
    process_key(&mut m, plain(Key::Down));
    process_key(&mut m, plain(Key::Right));
    assert_eq!(cursors_of(&m), vec![Cursor::new(1, 4)]);
    process_key(&mut m, plain(Key::Esc));
    assert_eq!(m.mode(), Mode::Normal);
}

#[test]
fn insert_mode_with_control_moves_by_words_and_scrolls() {
    let mut m = program(Mode::Insert, "one two\n2\n3\n4", None);
    process_key(&mut m, ctrl(Key::Right));
    assert_eq!(cursors_of(&m), vec![Cursor::new(0, 4)]);
    process_key(&mut m, ctrl(Key::Left));
    assert_eq!(cursors_of(&m), vec![Cursor::new(0, 0)]);
    process_key(&mut m, ctrl(Key::Down));
    assert_eq!(m.editor().unwrap().top_line(), 1);
    assert_eq!(cursors_of(&m), vec![Cursor::new(1, 0)]);
    process_key(&mut m, ctrl(Key::Up));
    assert_eq!(m.editor().unwrap().top_line(), 0);
    process_key(&mut m, ctrl(Key::Char('x')));
    assert_eq!(text_of(&m), "one two\nx2\n3\n4");
}

#[test]
fn handle_non_modifier_ignores_other_keys() {
    let mut m = program(Mode::Insert, "ab", None);
    handle_non_modifier(&mut m, Key::F(3));
    handle_non_modifier(&mut m, Key::Other);
    assert_eq!(text_of(&m), "ab");
    assert_eq!(m.mode(), Mode::Insert);
}

#[test]
fn command_line_is_typed_and_corrected() {
    let mut m = program(Mode::Command, "", None);
    type_keys(&mut m, "wq");
    process_key(&mut m, plain(Key::Backspace));
    assert_eq!(m.command().content, "w");
    process_key(&mut m, plain(Key::Left));
    assert_eq!(m.command().content, "w");
    process_key(&mut m, plain(Key::Esc));
    assert_eq!(m.command().content, "");
    assert_eq!(m.mode(), Mode::Normal);
}

#[test]
fn force_quit() {
    let mut m = program(Mode::Command, "unsaved", None);
    type_keys(&mut m, "q!");
    assert!(matches!(process_key(&mut m, plain(Key::Enter)), CommandStep::Done));
    assert!(m.should_quit());
    assert_eq!(said(&m), Some(String::from("Force quit command executed")));
    assert_eq!(m.mode(), Mode::Normal);
    assert_eq!(m.command().content, "");
}

#[test]
fn quit_without_a_file() {
    let mut m = program(Mode::Command, "", None);
    type_keys(&mut m, "q");
    assert!(matches!(process_key(&mut m, plain(Key::Enter)), CommandStep::Done));
    assert!(m.should_quit());
    assert_eq!(said(&m), Some(String::from("Quit command executed")));

    let mut m = program(Mode::Command, "text", None);
    type_keys(&mut m, "q");
    assert!(matches!(process_key(&mut m, plain(Key::Enter)), CommandStep::Done));
    assert!(!m.should_quit());
    assert_eq!(said(&m), Some(String::from("Error: Unsaved changes (no file path)")));
    assert_eq!(m.mode(), Mode::Normal);
}

#[test]
fn quit_with_a_file_asks_for_what_is_on_disk() {
    let mut m = program(Mode::Command, "text", Some("a.txt"));
    type_keys(&mut m, "q");
    match process_key(&mut m, plain(Key::Enter)) {
        CommandStep::ReadDisk { path } => assert_eq!(path, "a.txt"),
        _ => panic!("expected a request to read the file"),
    }
    assert_eq!(m.mode(), Mode::Command);
    assert!(!m.should_quit());
    quit_with_disk(&mut m, Some(String::from("other")));
    assert!(!m.should_quit());
    assert_eq!(said(&m), Some(String::from("Error: Unsaved changes present")));
    assert_eq!(m.mode(), Mode::Normal);

    let mut m = program(Mode::Command, "text", Some("a.txt"));
    quit_with_disk(&mut m, Some(String::from("text")));
    assert!(m.should_quit());
    assert_eq!(said(&m), Some(String::from("Quit command executed")));

    let mut m = program(Mode::Command, "text", Some("a.txt"));
    quit_with_disk(&mut m, None);
    assert!(!m.should_quit());
    assert_eq!(said(&m), Some(String::from("Error: Unsaved changes or unreadable file")));

    let mut m = program(Mode::Command, "", Some("a.txt"));
    quit_with_disk(&mut m, None);
    assert!(m.should_quit());
}

#[test]
fn write_needs_a_path() {
    let mut m = program(Mode::Command, "abc", None);
    type_keys(&mut m, "w");
    assert!(matches!(process_key(&mut m, plain(Key::Enter)), CommandStep::Done));
    assert_eq!(said(&m), Some(String::from("Error: No file path provided")));
    assert_eq!(m.mode(), Mode::Normal);
}

#[test]
fn write_takes_the_path_from_the_command() {
    let mut m = program(Mode::Command, "abc", None);
    type_keys(&mut m, "w out.txt");
    match process_key(&mut m, plain(Key::Enter)) {
        CommandStep::Write { path, content } => {
            assert_eq!(path, "out.txt");
            assert_eq!(content, "abc");
        }
        _ => panic!("expected a request to write the file"),
    }
    assert_eq!(m.editor().unwrap().file_path(), Some(String::from("out.txt")));
    assert_eq!(m.mode(), Mode::Command);
    finish(&mut m, Ok(String::from("Wrote 3 bytes to file")));
    assert_eq!(said(&m), Some(String::from("Wrote 3 bytes to file")));
    assert_eq!(m.mode(), Mode::Normal);
    assert_eq!(m.command().content, "");
}

#[test]
fn write_prefers_the_path_of_the_buffer() {
    let mut m = program(Mode::Command, "abc", Some("a.txt"));
    type_keys(&mut m, "w other.txt");
    match process_key(&mut m, plain(Key::Enter)) {
        CommandStep::Write { path, content } => {
            assert_eq!(path, "a.txt");
            assert_eq!(content, "abc");
        }
        _ => panic!("expected a request to write the file"),
    }
    finish(&mut m, Err(String::from("disk full")));
    assert_eq!(said(&m), Some(String::from("Error: disk full")));
}

#[test]
fn search_and_unknown_commands() {
    let mut m = program(Mode::Command, "", None);
    type_keys(&mut m, "f");
    process_key(&mut m, plain(Key::Enter));
    assert_eq!(said(&m), Some(String::from("Search pattern set to 'test'")));
    let mut m = program(Mode::Command, "", None);
    process_key(&mut m, plain(Key::Enter));
    assert_eq!(said(&m), Some(String::from("Error: Unknown command")));
    assert!(!m.should_quit());
}

#[test]
fn editors_take_turns() {
    let mut m = program(Mode::Normal, "one", None);
    m.add_editor(Editor::new(Some("two"), None));
    m.add_editor(Editor::new(Some("three"), None));
    assert_eq!(m.editor_count(), 3);
    assert_eq!(text_of(&m), "three");
    m.next_editor();
    assert_eq!(text_of(&m), "one");
    m.previous_editor();
    assert_eq!(text_of(&m), "three");
    m.previous_editor();
    assert_eq!(text_of(&m), "two");
    m.set_height(7);
    assert_eq!(m.editor().unwrap().height(), 7);
    m.edit(EditOp::Input('!'));
    assert_eq!(text_of(&m), "!two");
    m.next_editor();
    assert_eq!(text_of(&m), "three");
}

#[test]
fn editing_steps() {
    let mut m = program(Mode::Insert, "a\nb", None);
    m.edit(EditOp::Move(CursorDirection::Down));
    m.edit(EditOp::Input('x'));
    m.edit(EditOp::Tab);
    m.edit(EditOp::Backspace);
    assert_eq!(text_of(&m), "a\nx   b");
    m.edit(EditOp::ReverseTab(2));
    assert_eq!(text_of(&m), "a\nx   b");
    m.edit(EditOp::ScrollDown);
    assert_eq!(m.editor().unwrap().top_line(), 1);
    m.edit(EditOp::ScrollUp);
    assert_eq!(m.editor().unwrap().top_line(), 0);
    m.edit(EditOp::Newline);
    assert_eq!(text_of(&m), "a\nx   \nb");
    assert_eq!(cursors_of(&m), vec![Cursor::new(2, 0)]);
    m.edit(EditOp::Enter);
    assert_eq!(text_of(&m), "a\nx   \n\nb");
    m.edit(EditOp::BackTab);
    assert_eq!(text_of(&m), "a\nx   \n\nb");
    assert_eq!(cursors_of(&m), vec![Cursor::new(3, 0)]);
}

#[test]
fn shortcuts_without_an_editor_say_so() {
    let mut m = Mosaic::without_editor(Mode::Insert);
    assert!(m.editor().is_none());
    assert_eq!(mosaic::shortcuts::newline(&mut m), Err(String::from("No active editor")));
    assert_eq!(mosaic::shortcuts::backspace(&mut m), Err(String::from("No active editor")));
    assert_eq!(mosaic::shortcuts::tab(&mut m), Err(String::from("No active editor")));
    assert_eq!(mosaic::shortcuts::reverse_tab(&mut m, 4), Err(String::from("No active editor")));
    m.edit(EditOp::Input('x'));
    m.set_height(3);
    m.next_editor();
    m.previous_editor();
    assert_eq!(m.editor_count(), 0);
}

#[test]
fn shortcuts_edit_and_report() {
    let mut m = program(Mode::Insert, "  x", None);
    m.edit(EditOp::Move(CursorDirection::Right));
    m.edit(EditOp::Move(CursorDirection::Right));
    assert_eq!(mosaic::shortcuts::tab(&mut m), Ok(String::from("Tab")));
    assert_eq!(text_of(&m), "      x");
    assert_eq!(mosaic::shortcuts::backspace(&mut m), Ok(String::from("Backspace")));
    assert_eq!(text_of(&m), "     x");
    assert_eq!(mosaic::shortcuts::reverse_tab(&mut m, 4), Ok(String::from("Reverse tab")));
    assert_eq!(text_of(&m), " x");
    assert_eq!(mosaic::shortcuts::newline(&mut m), Ok(String::from("Newline")));
    assert_eq!(text_of(&m), " \n x");
}

#[test]
fn mode_shortcuts() {
    let mut m = program(Mode::Normal, "", None);
    m.type_command('x');
    assert_eq!(enter_insert_mode(&mut m), Ok(String::from("Entered normal mode")));
    assert_eq!(m.mode(), Mode::Insert);
    assert_eq!(enter_normal_mode(&mut m), Ok(String::from("Entered normal mode")));
    assert_eq!(m.mode(), Mode::Normal);
    m.set_result(Some(String::from("old")));
    assert_eq!(enter_command_mode(&mut m), Ok(String::from("Entered command mode")));
    assert_eq!(m.mode(), Mode::Command);
    assert_eq!(said(&m), None);
    assert_eq!(m.command().content, "x");
    assert_eq!(run_shortcut(&mut m, ShortcutAction::EnterNormalMode, 4), Ok(String::from("Entered normal mode")));
    assert_eq!(m.mode(), Mode::Normal);
    assert_eq!(run_shortcut(&mut m, ShortcutAction::Tab, 4), Ok(String::from("Tab")));
    assert_eq!(text_of(&m), "    ");
    assert_eq!(run_shortcut(&mut m, ShortcutAction::ReverseTab, 3), Ok(String::from("Reverse tab")));
    assert_eq!(text_of(&m), " ");
}

#[test]
fn editor_shortcuts_are_registered_in_order() {
    let keys = ShortcutKeys {
        enter_insert_mode: String::from("i"),
        enter_command_mode: String::from("q"),
        leave_command_mode: String::from("esc"),
        leave_insert_mode: String::from("esc"),
        newline: String::from("enter"),
        backspace: String::from("backspace"),
        tab: String::from("tab"),
        reverse_tab: String::from("shift+tab"),
    };
    let mut handler = ShortcutHandler::new();
    assert_eq!(handler.get_shortcuts().len(), 0);
    handler.register(String::from("first"), String::from("f1"), ShortcutAction::Tab);
    register_shortcuts(&mut handler, &keys);
    let shortcuts = handler.get_shortcuts();
    assert_eq!(shortcuts.len(), 9);
    assert_eq!(shortcuts[0].name, "first");
    assert_eq!(shortcuts[0].input, "f1");
    assert_eq!(shortcuts[1].name, "mode.normal.enter_insert_mode");
    assert_eq!(shortcuts[1].input, "i");
    assert_eq!(shortcuts[1].handler, ShortcutAction::EnterInsertMode);
    assert_eq!(shortcuts[2].name, "mode.normal.enter_command_mode");
    assert_eq!(shortcuts[2].handler, ShortcutAction::EnterCommandMode);
    assert_eq!(shortcuts[3].name, "mode.command.enter_normal_mode");
    assert_eq!(shortcuts[4].name, "mode.insert.enter_normal_mode");
    assert_eq!(shortcuts[4].handler, ShortcutAction::EnterNormalMode);
    assert_eq!(shortcuts[5].name, "mode.insert.newline");
    assert_eq!(shortcuts[5].handler, ShortcutAction::Newline);
    assert_eq!(shortcuts[6].name, "mode.insert.backspace");
    assert_eq!(shortcuts[7].name, "mode.insert.tab");
    assert_eq!(shortcuts[8].name, "mode.insert.reverse_tab");
    assert_eq!(shortcuts[8].input, "shift+tab");
    assert_eq!(shortcuts[8].handler, ShortcutAction::ReverseTab);
}

#[test]
fn commands_are_found_by_namespace_and_name() {
    let mut handler = CommandHandler::new();
    assert_eq!(handler.get_commands("@").map(|c| c.len()), Some(0));
    assert!(handler.get_commands("mos").is_none());
    handler.register_command_space("mos");
    handler.register_command_space("mos");
    handler.register_command(Command { name: String::from("reload"), handler: 7 }, "mos");
    handler.register_command(Command { name: String::from("reload"), handler: 8 }, "mos");
    handler.register_command(Command { name: String::from("w"), handler: 1 }, "@");
    handler.register_command(Command { name: String::from("open"), handler: 2 }, "files");
    assert_eq!(handler.handle_command("mos", "reload"), Some(7));
    assert_eq!(handler.handle_command("@", "w"), Some(1));
    assert_eq!(handler.handle_command("files", "open"), Some(2));
    assert_eq!(handler.handle_command("@", "reload"), None);
    assert_eq!(handler.handle_command("none", "w"), None);
    let commands = handler.get_commands("mos").unwrap();
    assert_eq!(commands.len(), 2);
    assert_eq!(commands[1].handler, 8);
}

#[test]
fn data_store_keeps_data_by_panel() {
    let mut store = DataStore::new();
    assert!(store.get(&1).is_none());
    assert!(store.get_mut(&1).is_none());
    store.insert(1, PanelData::Explorer);
    store.insert(2, PanelData::Editor(Editor::new(Some("ab"), None)));
    assert!(matches!(store.get(&1), Some(PanelData::Explorer)));
    match store.get_mut(&2) {
        Some(PanelData::Editor(editor)) => editor.input('x'),
        _ => panic!("expected an editor"),
    }
    match store.get(&2) {
        Some(PanelData::Editor(editor)) => assert_eq!(editor.text(), "xab"),
        _ => panic!("expected an editor"),
    }
    store.insert(1, PanelData::Editor(Editor::new(None, None)));
    assert!(matches!(store.get(&1), Some(PanelData::Editor(_))));
    assert!(store.get(&3).is_none());
}

#[test]
fn workspace_tabs() {
    let mut workspace = Workspace::new();
    assert_eq!(workspace.get_active_panel(), None);
    assert_eq!(workspace.get_floating(), None);
    assert!(workspace.add_panel(10));
    assert!(workspace.add_panel(20));
    assert_eq!(workspace.get_active_panel(), Some(20));
    workspace.set_floating(Some(30));
    assert_eq!(workspace.get_floating(), Some(30));
    workspace.set_floating(None);
    assert_eq!(workspace.get_floating(), None);
}

#[test]
fn active_panel_of_a_layout() {
    let stale = Layout::Tabs { tabs: vec![1, 2], active: Some(9) };
    assert_eq!(stale.get_active_panel(), Some(1));
    let marked = Layout::Tabs { tabs: vec![1, 2], active: Some(2) };
    assert_eq!(marked.get_active_panel(), Some(2));
    let unmarked = Layout::Tabs { tabs: vec![4, 5], active: None };
    assert_eq!(unmarked.get_active_panel(), Some(4));
    let split = Layout::Split {
        axis: Axis::Vertical,
        children: vec![
            Layout::Tabs { tabs: vec![], active: Some(3) },
            Layout::Split { axis: Axis::Horizontal, children: vec![] },
            Layout::Tabs { tabs: vec![7, 8], active: Some(8) },
            Layout::Tabs { tabs: vec![1], active: None },
        ],
    };
    assert_eq!(split.get_active_panel(), Some(8));
}

fn spans_of(line: &str) -> Vec<(String, SpanStyle)> {
    let keywords = Regex::new(r"\b(fn|let)\b").unwrap();
    let numbers = Regex::new(r"\b\d+\b").unwrap();
    let spans = highlight_line(line, &keywords, &numbers);
    let joined: String = spans.iter().map(|s| s.text.as_str()).collect();
    assert_eq!(joined, line);
    spans.into_iter().map(|s| (s.text, s.style)).collect()
}

#[test]
fn highlight_keywords_and_numbers() {
    assert_eq!(
        spans_of("let x = 42;"),
        vec![
            (String::from("let"), SpanStyle::Keyword),
            (String::from(" x = "), SpanStyle::Raw),
            (String::from("42"), SpanStyle::Number),
            (String::from(";"), SpanStyle::Raw),
        ]
    );
}

#[test]
fn highlight_string_literals() {
    assert_eq!(
        spans_of("\"hi\" é"),
        vec![
            (String::from("\"hi\""), SpanStyle::Literal),
            (String::from(" "), SpanStyle::Raw),
            (String::from("é"), SpanStyle::Raw),
        ]
    );
    assert_eq!(
        spans_of("\"ab"),
        vec![
            (String::from("\""), SpanStyle::Raw),
            (String::from("a"), SpanStyle::Raw),
            (String::from("b"), SpanStyle::Raw),
        ]
    );
    assert_eq!(
        spans_of("\"a\" fn"),
        vec![(String::from("\"a\" "), SpanStyle::Raw), (String::from("fn"), SpanStyle::Keyword)]
    );
}

#[test]
fn highlight_with_expressions_that_match_nothing_at_all() {
    let empty = Regex::new("").unwrap();
    let spans = highlight_line("ab", &empty, &empty);
    let texts: Vec<&str> = spans.iter().map(|s| s.text.as_str()).collect();
    assert_eq!(texts, vec!["a", "b"]);
    assert_eq!(highlight_line("", &empty, &empty).len(), 0);
}

fn cut(before: &str, matched: &str, after: &str) -> Cut {
    Cut { before: String::from(before), matched: String::from(matched), after: String::from(after) }
}

#[test]
fn a_match_that_takes_nothing_off_the_text_counts_as_none() {
    assert!(usable(None).is_none());
    assert!(usable(Some(cut("", "", "rest"))).is_none());
    assert!(usable(Some(cut("", "", ""))).is_none());
    let found = usable(Some(cut("a", "", "b"))).unwrap();
    assert_eq!((found.before.as_str(), found.matched.as_str(), found.after.as_str()), ("a", "", "b"));
    let found = usable(Some(cut("", "fn", " x"))).unwrap();
    assert_eq!((found.before.as_str(), found.matched.as_str(), found.after.as_str()), ("", "fn", " x"));
}
