use mosaic::cursor::{Cursor, CursorDirection};
use mosaic::editor::Editor;

fn place(text: &str, line: usize, col: usize) -> Editor {
    let mut ed = Editor::new(Some(text), None);
    ed.set_height(100);
    for _ in 0..line {
        ed.move_cursor(CursorDirection::Down);
    }
    for _ in 0..col {
        ed.move_cursor(CursorDirection::Right);
    }
    assert_eq!(ed.cursors(), vec![Cursor::new(line, col)]);
    ed
}

fn all_cursors_on_text(ed: &Editor) -> bool {
    let lines = ed.len_lines();
    ed.cursors().iter().all(|c| c.line < lines && c.col <= ed.line_text(c.line).chars().count())
}

#[test]
fn new_editor_is_empty_with_one_cursor() {
    let ed = Editor::new(None, None);
    assert_eq!(ed.text(), "");
    assert_eq!(ed.cursors(), vec![Cursor::new(0, 0)]);
    assert_eq!(ed.top_line(), 0);
    assert_eq!(ed.height(), 0);
    assert_eq!(ed.len_lines(), 1);
    assert!(ed.show_gutter());
    assert_eq!(ed.file_path(), None);
}

#[test]
fn new_editor_keeps_text_and_path() {
    let ed = Editor::new(Some("one\ntwo\n"), Some(String::from("notes.txt")));
    assert_eq!(ed.text(), "one\ntwo\n");
    assert_eq!(ed.len_lines(), 3);
    assert_eq!(ed.line_text(0), "one");
    assert_eq!(ed.line_text(1), "two");
    assert_eq!(ed.line_text(2), "");
    assert_eq!(ed.file_path(), Some(String::from("notes.txt")));
}

#[test]
fn backspace_at_end_of_hello() {
    let mut ed = place("hello", 0, 5);
    ed.backspace();
    assert_eq!(ed.text(), "hell");
    assert_eq!(ed.cursors(), vec![Cursor::new(0, 4)]);
}

#[test]
fn newline_then_char() {
    let mut ed = place("ab", 0, 2);
    ed.input('\n');
    ed.input('c');
    assert_eq!(ed.text(), "ab\nc");
    assert_eq!(ed.cursors(), vec![Cursor::new(1, 1)]);
}

#[test]
fn insert_in_the_middle_of_a_line() {
    let mut ed = place("ab\ncd", 1, 1);
    ed.input('x');
    assert_eq!(ed.text(), "ab\ncxd");
    assert_eq!(ed.cursors(), vec![Cursor::new(1, 2)]);
}

#[test]
fn insert_a_wide_character() {
    let mut ed = place("añb", 0, 2);
    ed.input('é');
    assert_eq!(ed.text(), "añéb");
    assert_eq!(ed.cursors(), vec![Cursor::new(0, 3)]);
    assert_eq!(ed.char_under_cursor(&Cursor::new(0, 1)), Some('ñ'));
}

#[test]
fn insert_at_two_cursors_on_two_lines() {
    let mut ed = place("ab\ncd", 0, 1);
    ed.add_cursor(1, 1);
    ed.input('x');
    assert_eq!(ed.text(), "axb\ncxd");
    assert_eq!(ed.cursors(), vec![Cursor::new(0, 2), Cursor::new(1, 2)]);
}

#[test]
fn insert_does_not_depend_on_the_order_of_the_cursors() {
    let mut ed = place("ab\ncd", 1, 1);
    ed.add_cursor(0, 1);
    ed.input('x');
    assert_eq!(ed.text(), "axb\ncxd");
    assert_eq!(ed.cursors(), vec![Cursor::new(1, 2), Cursor::new(0, 2)]);
}

#[test]
fn input_str_types_every_character() {
    let mut ed = Editor::new(None, None);
    ed.input_str(String::from("a\nbc"));
    assert_eq!(ed.text(), "a\nbc");
    assert_eq!(ed.cursors(), vec![Cursor::new(1, 2)]);
}

#[test]
fn tab_is_four_blanks() {
    let mut ed = place("x", 0, 1);
    ed.tab();
    assert_eq!(ed.text(), "x    ");
    assert_eq!(ed.cursors(), vec![Cursor::new(0, 5)]);
}

#[test]
fn backspace_at_the_start_of_the_text_does_nothing() {
    let mut ed = place("ab", 0, 0);
    ed.backspace();
    assert_eq!(ed.text(), "ab");
    assert_eq!(ed.cursors(), vec![Cursor::new(0, 0)]);
}

#[test]
fn backspace_at_the_start_of_a_line_joins_it_to_the_line_above() {
    let mut ed = place("ab\ncd", 1, 0);
    ed.backspace();
    assert_eq!(ed.text(), "abcd");
    assert_eq!(ed.cursors(), vec![Cursor::new(0, 4)]);
}

#[test]
fn cursors_at_one_offset_delete_one_character() {
    let mut ed = place("ab", 0, 1);
    ed.add_cursor(0, 2);
    ed.input('\n');
    assert_eq!(ed.text(), "a\nb\n");
    assert_eq!(ed.cursors(), vec![Cursor::new(1, 0), Cursor::new(1, 0)]);
    ed.backspace();
    assert_eq!(ed.text(), "ab\n");
    assert_eq!(ed.cursors(), vec![Cursor::new(0, 2), Cursor::new(0, 2)]);
}

#[test]
fn typed_character_is_taken_back_by_backspace() {
    let mut ed = place("ab\ncd", 0, 1);
    ed.input('x');
    ed.backspace();
    assert_eq!(ed.text(), "ab\ncd");
    assert_eq!(ed.cursors(), vec![Cursor::new(0, 1)]);
}

#[test]
fn typed_character_is_taken_back_at_cursors_on_different_lines() {
    let mut ed = place("ab\ncd\nef", 2, 0);
    ed.add_cursor(0, 2);
    ed.add_cursor(1, 1);
    let before = ed.cursors();
    ed.input('x');
    assert_eq!(ed.text(), "abx\ncxd\nxef");
    ed.backspace();
    assert_eq!(ed.text(), "ab\ncd\nef");
    assert_eq!(ed.cursors(), before);
}

#[test]
fn two_cursors_on_one_line_do_not_take_back_what_they_typed() {
    let mut ed = place("ab", 0, 0);
    ed.add_cursor(0, 1);
    ed.input('x');
    assert_eq!(ed.text(), "xaxb");
    assert_eq!(ed.cursors(), vec![Cursor::new(0, 1), Cursor::new(0, 2)]);
    ed.backspace();
    assert_eq!(ed.text(), "xb");
    assert_eq!(ed.cursors(), vec![Cursor::new(0, 0), Cursor::new(0, 1)]);

    let mut ed = place("abcd", 0, 1);
    ed.add_cursor(0, 3);
    ed.input('x');
    ed.backspace();
    assert_eq!(ed.text(), "abxd");
    assert_eq!(ed.cursors(), vec![Cursor::new(0, 1), Cursor::new(0, 3)]);
}

#[test]
fn cursors_on_one_line_take_back_a_character_that_stands_in_front_of_them() {
    let mut ed = place("ab", 0, 0);
    ed.add_cursor(0, 1);
    ed.input('a');
    assert_eq!(ed.text(), "aaab");
    ed.backspace();
    assert_eq!(ed.text(), "ab");
    assert_eq!(ed.cursors(), vec![Cursor::new(0, 0), Cursor::new(0, 1)]);

    let mut ed = place("aab\nxa", 0, 1);
    ed.add_cursor(1, 2);
    ed.add_cursor(0, 2);
    ed.add_cursor(0, 0);
    let before = ed.cursors();
    ed.input('a');
    assert_eq!(ed.text(), "aaaaab\nxaa");
    ed.backspace();
    assert_eq!(ed.text(), "aab\nxa");
    assert_eq!(ed.cursors(), before);
}

#[test]
fn left_and_right_wrap_at_line_ends() {
    let mut ed = place("ab\ncd", 1, 0);
    ed.move_cursor(CursorDirection::Left);
    assert_eq!(ed.cursors(), vec![Cursor::new(0, 2)]);
    ed.move_cursor(CursorDirection::Right);
    assert_eq!(ed.cursors(), vec![Cursor::new(1, 0)]);
}

#[test]
fn motions_stop_at_the_ends_of_the_text() {
    let mut ed = place("ab\ncd", 0, 0);
    ed.move_cursor(CursorDirection::Left);
    assert_eq!(ed.cursors(), vec![Cursor::new(0, 0)]);
    ed.move_cursor(CursorDirection::Up);
    assert_eq!(ed.cursors(), vec![Cursor::new(0, 0)]);
    let mut ed = place("ab\ncd", 1, 2);
    ed.move_cursor(CursorDirection::Right);
    assert_eq!(ed.cursors(), vec![Cursor::new(1, 2)]);
    ed.move_cursor(CursorDirection::Down);
    assert_eq!(ed.cursors(), vec![Cursor::new(1, 2)]);
}

#[test]
fn up_and_down_do_not_remember_the_column() {
    let mut ed = place("abcd\nx\nabcd", 0, 4);
    ed.move_cursor(CursorDirection::Down);
    assert_eq!(ed.cursors(), vec![Cursor::new(1, 1)]);
    ed.move_cursor(CursorDirection::Down);
    assert_eq!(ed.cursors(), vec![Cursor::new(2, 1)]);
    ed.move_cursor(CursorDirection::Up);
    ed.move_cursor(CursorDirection::Up);
    assert_eq!(ed.cursors(), vec![Cursor::new(0, 1)]);
}

#[test]
fn cursors_that_meet_become_one() {
    let mut ed = place("ab", 0, 2);
    ed.add_cursor(0, 1);
    assert_eq!(ed.cursors(), vec![Cursor::new(0, 2), Cursor::new(0, 1)]);
    ed.move_cursor(CursorDirection::Right);
    assert_eq!(ed.cursors(), vec![Cursor::new(0, 2)]);
}

#[test]
fn no_two_cursors_share_a_position_after_a_motion() {
    let mut ed = place("ab\ncd\nef", 0, 0);
    ed.add_cursor(1, 0);
    ed.add_cursor(2, 2);
    ed.add_cursor(0, 1);
    for direction in [
        CursorDirection::Up,
        CursorDirection::Left,
        CursorDirection::Up,
        CursorDirection::Down,
        CursorDirection::Right,
        CursorDirection::Down,
        CursorDirection::Down,
        CursorDirection::WordLeft,
        CursorDirection::WordRight,
    ] {
        ed.move_cursor(direction);
        let cursors = ed.cursors();
        for i in 0..cursors.len() {
            for j in 0..i {
                assert_ne!(cursors[i], cursors[j]);
            }
        }
        assert!(all_cursors_on_text(&ed));
    }
}

#[test]
fn cursors_stay_on_the_text_through_edits() {
    let mut ed = place("ab\ncd\nef", 2, 2);
    ed.add_cursor(0, 0);
    ed.add_cursor(1, 1);
    ed.backspace();
    assert!(all_cursors_on_text(&ed));
    ed.backspace();
    assert!(all_cursors_on_text(&ed));
    ed.backspace();
    assert!(all_cursors_on_text(&ed));
    ed.input('\n');
    assert!(all_cursors_on_text(&ed));
    ed.input('z');
    assert!(all_cursors_on_text(&ed));
    ed.move_cursor(CursorDirection::Up);
    assert!(all_cursors_on_text(&ed));
    ed.backspace();
    ed.backspace();
    ed.backspace();
    ed.backspace();
    assert!(all_cursors_on_text(&ed));
}

#[test]
fn backspace_that_removes_lines_brings_cursors_back_onto_the_text() {
    let mut ed = place("\n\n\n", 1, 0);
    ed.add_cursor(2, 0);
    ed.add_cursor(3, 0);
    ed.backspace();
    assert_eq!(ed.text(), "");
    assert_eq!(ed.cursors(), vec![Cursor::new(0, 0), Cursor::new(0, 0), Cursor::new(0, 0)]);
}

#[test]
fn word_right_goes_to_the_start_of_the_next_word() {
    let mut ed = place("hello world  foo", 0, 0);
    ed.move_cursor(CursorDirection::WordRight);
    assert_eq!(ed.cursors(), vec![Cursor::new(0, 6)]);
    ed.move_cursor(CursorDirection::WordRight);
    assert_eq!(ed.cursors(), vec![Cursor::new(0, 13)]);
    ed.move_cursor(CursorDirection::WordRight);
    assert_eq!(ed.cursors(), vec![Cursor::new(0, 16)]);
    ed.move_cursor(CursorDirection::WordRight);
    assert_eq!(ed.cursors(), vec![Cursor::new(0, 16)]);
}

#[test]
fn word_right_from_white_space_skips_it() {
    let mut ed = place("a  b", 0, 1);
    ed.move_cursor(CursorDirection::WordRight);
    assert_eq!(ed.cursors(), vec![Cursor::new(0, 3)]);
}

#[test]
fn word_left_goes_to_the_start_of_the_word_before() {
    let mut ed = place("hello world  foo", 0, 16);
    ed.move_cursor(CursorDirection::WordLeft);
    assert_eq!(ed.cursors(), vec![Cursor::new(0, 13)]);
    ed.move_cursor(CursorDirection::WordLeft);
    assert_eq!(ed.cursors(), vec![Cursor::new(0, 6)]);
    ed.move_cursor(CursorDirection::WordLeft);
    assert_eq!(ed.cursors(), vec![Cursor::new(0, 0)]);
    ed.move_cursor(CursorDirection::WordLeft);
    assert_eq!(ed.cursors(), vec![Cursor::new(0, 0)]);
}

#[test]
fn word_motions_cross_lines() {
    let mut ed = place("ab\ncd", 1, 0);
    ed.move_cursor(CursorDirection::WordLeft);
    assert_eq!(ed.cursors(), vec![Cursor::new(0, 0)]);
    ed.move_cursor(CursorDirection::WordRight);
    assert_eq!(ed.cursors(), vec![Cursor::new(1, 0)]);
}

#[test]
fn word_motions_move_the_primary_cursor_only() {
    let mut ed = place("one two\nthree four", 0, 0);
    ed.add_cursor(1, 0);
    ed.move_cursor(CursorDirection::WordRight);
    assert_eq!(ed.cursors(), vec![Cursor::new(0, 4), Cursor::new(1, 0)]);
}

#[test]
fn clamp_brings_a_cursor_onto_the_text() {
    let ed = Editor::new(Some("ab\ncde"), None);
    assert_eq!(ed.clamp(Cursor::new(7, 9)), Cursor::new(1, 3));
    assert_eq!(ed.clamp(Cursor::new(0, 9)), Cursor::new(0, 2));
    assert_eq!(ed.clamp(Cursor::new(1, 2)), Cursor::new(1, 2));
}

#[test]
fn clamping_twice_is_clamping_once() {
    let ed = Editor::new(Some("ab\ncde\n"), None);
    for line in 0..5 {
        for col in 0..5 {
            let once = ed.clamp(Cursor::new(line, col));
            assert_eq!(ed.clamp(once), once);
        }
    }
}

#[test]
fn add_cursor_clamps_and_adds_no_cursor_twice() {
    let mut ed = Editor::new(Some("ab\ncd"), None);
    ed.add_cursor(9, 9);
    assert_eq!(ed.cursors(), vec![Cursor::new(0, 0), Cursor::new(1, 2)]);
    ed.add_cursor(1, 2);
    ed.add_cursor(5, 7);
    assert_eq!(ed.cursors(), vec![Cursor::new(0, 0), Cursor::new(1, 2)]);
}

#[test]
fn window_follows_the_primary_cursor_down_and_up() {
    let mut ed = Editor::new(Some("0\n1\n2\n3\n4\n5\n6\n7\n8\n9"), None);
    ed.set_height(3);
    for _ in 0..2 {
        ed.move_cursor(CursorDirection::Down);
    }
    assert_eq!(ed.top_line(), 0);
    ed.move_cursor(CursorDirection::Down);
    assert_eq!(ed.top_line(), 1);
    for _ in 0..2 {
        ed.move_cursor(CursorDirection::Down);
    }
    assert_eq!(ed.cursors(), vec![Cursor::new(5, 0)]);
    assert_eq!(ed.top_line(), 3);
    for _ in 0..3 {
        ed.move_cursor(CursorDirection::Up);
    }
    assert_eq!(ed.cursors(), vec![Cursor::new(2, 0)]);
    assert_eq!(ed.top_line(), 2);
}

#[test]
fn window_follows_typing() {
    let mut ed = Editor::new(None, None);
    ed.set_height(2);
    ed.input_str(String::from("a\nb\nc\nd"));
    assert_eq!(ed.cursors(), vec![Cursor::new(3, 1)]);
    assert_eq!(ed.top_line(), 2);
}

#[test]
fn window_without_lines_ends_up_below_the_cursor() {
    let mut ed = Editor::new(None, None);
    ed.input('a');
    assert_eq!(ed.height(), 0);
    assert_eq!(ed.top_line(), 1);
}

#[test]
fn backspace_lets_the_window_follow_the_primary_cursor() {
    let mut ed = Editor::new(Some("0\n1\n2\n3\n4\n5\n6\n7\n8\n9"), None);
    ed.set_height(2);
    ed.add_cursor(8, 1);
    ed.backspace();
    assert_eq!(ed.cursors(), vec![Cursor::new(0, 0), Cursor::new(8, 0)]);
    assert_eq!(ed.top_line(), 0);
}

#[test]
fn backspace_at_a_second_cursor_leaves_the_window_on_the_primary_one() {
    let mut ed = Editor::new(Some("a\nb"), None);
    ed.set_height(1);
    ed.add_cursor(1, 1);
    ed.backspace();
    assert_eq!(ed.text(), "a\n");
    assert_eq!(ed.cursors(), vec![Cursor::new(0, 0), Cursor::new(1, 0)]);
    assert_eq!(ed.top_line(), 0);
}

#[test]
fn backspace_that_joins_lines_moves_the_window_up_with_the_primary_cursor() {
    let mut ed = Editor::new(Some("0\n1\n2"), None);
    ed.set_height(1);
    ed.move_cursor(CursorDirection::Down);
    ed.move_cursor(CursorDirection::Down);
    assert_eq!(ed.top_line(), 2);
    ed.backspace();
    assert_eq!(ed.text(), "0\n12");
    assert_eq!(ed.cursors(), vec![Cursor::new(1, 2)]);
    assert_eq!(ed.top_line(), 1);
}

#[test]
fn scroll_up_pulls_the_cursor_into_the_window() {
    let mut ed = Editor::new(Some("0\n1\n2\n3\n4\n5\n6\n7\n8\n9"), None);
    ed.set_height(3);
    for _ in 0..5 {
        ed.move_cursor(CursorDirection::Down);
    }
    assert_eq!(ed.top_line(), 3);
    ed.scroll_up();
    assert_eq!(ed.top_line(), 2);
    assert_eq!(ed.cursors(), vec![Cursor::new(4, 0)]);
    ed.scroll_up();
    ed.scroll_up();
    assert_eq!(ed.top_line(), 0);
    assert_eq!(ed.cursors(), vec![Cursor::new(2, 0)]);
    ed.scroll_up();
    assert_eq!(ed.top_line(), 0);
    assert_eq!(ed.cursors(), vec![Cursor::new(2, 0)]);
}

#[test]
fn scroll_down_pulls_the_cursor_into_the_window_and_stops_at_the_last_line() {
    let mut ed = Editor::new(Some("abc\n1\n2"), None);
    ed.set_height(3);
    ed.move_cursor(CursorDirection::Right);
    ed.move_cursor(CursorDirection::Right);
    ed.move_cursor(CursorDirection::Right);
    ed.scroll_down();
    assert_eq!(ed.top_line(), 1);
    assert_eq!(ed.cursors(), vec![Cursor::new(1, 1)]);
    ed.scroll_down();
    assert_eq!(ed.top_line(), 2);
    assert_eq!(ed.cursors(), vec![Cursor::new(2, 1)]);
    ed.scroll_down();
    assert_eq!(ed.top_line(), 2);
}

#[test]
fn open_file_replaces_the_buffer() {
    let mut ed = Editor::new(Some("ab\ncd"), None);
    ed.set_height(1);
    ed.move_cursor(CursorDirection::Down);
    ed.add_cursor(0, 0);
    assert_eq!(ed.top_line(), 1);
    ed.open_file("dir/new.rs", "fn main() {}\n");
    assert_eq!(ed.text(), "fn main() {}\n");
    assert_eq!(ed.cursors(), vec![Cursor::new(0, 0)]);
    assert_eq!(ed.top_line(), 0);
    assert_eq!(ed.height(), 1);
    assert_eq!(ed.file_path(), Some(String::from("dir/new.rs")));
    assert_eq!(ed.get_file_extension(), Some(String::from("rs")));
}

#[test]
fn file_extension_of_names_without_one() {
    assert_eq!(Editor::new(None, None).get_file_extension(), None);
    assert_eq!(Editor::new(None, Some(String::from("Makefile"))).get_file_extension(), None);
    assert_eq!(Editor::new(None, Some(String::from(".profile"))).get_file_extension(), None);
    assert_eq!(
        Editor::new(None, Some(String::from("a.tar.gz"))).get_file_extension(),
        Some(String::from("gz"))
    );
}

#[test]
fn char_under_cursor_is_none_at_the_end_of_a_line() {
    let ed = Editor::new(Some("ab\ncd"), None);
    assert_eq!(ed.char_under_cursor(&Cursor::new(0, 1)), Some('b'));
    assert_eq!(ed.char_under_cursor(&Cursor::new(0, 2)), None);
    assert_eq!(ed.char_under_cursor(&Cursor::new(1, 0)), Some('c'));
    assert_eq!(ed.char_under_cursor(&Cursor::new(1, 2)), None);
}

#[test]
fn toggle_gutter_flips_the_flag() {
    let mut ed = Editor::new(None, None);
    ed.toggle_gutter();
    assert!(!ed.show_gutter());
    ed.toggle_gutter();
    assert!(ed.show_gutter());
}

#[test]
fn newline_keeps_the_indentation() {
    let mut ed = place("  foo", 0, 5);
    ed.newline();
    assert_eq!(ed.text(), "  foo\n  ");
    assert_eq!(ed.cursors(), vec![Cursor::new(1, 2)]);
}

#[test]
fn newline_on_a_blank_line_repeats_its_line_break() {
    let mut ed = place("  \nx", 0, 2);
    assert_eq!(ed.leading_whitespace(0), "  \n");
    ed.newline();
    assert_eq!(ed.text(), "  \n  \n\nx");
    assert_eq!(ed.cursors(), vec![Cursor::new(2, 0)]);
}

#[test]
fn enter_indents_with_blanks() {
    let mut ed = place("\t foo", 0, 5);
    assert_eq!(ed.leading_indent(0), 2);
    assert_eq!(ed.leading_blanks(0), 0);
    ed.enter();
    assert_eq!(ed.text(), "\t foo\n  ");
    assert_eq!(ed.cursors(), vec![Cursor::new(1, 2)]);
}

#[test]
fn back_tab_takes_back_four_blanks_at_most() {
    let mut ed = place("      x", 0, 6);
    ed.back_tab();
    assert_eq!(ed.text(), "  x");
    assert_eq!(ed.cursors(), vec![Cursor::new(0, 2)]);
}

#[test]
fn back_tab_stops_at_the_start_of_the_line() {
    let mut ed = place("    x", 0, 2);
    ed.back_tab();
    assert_eq!(ed.text(), "  x");
    assert_eq!(ed.cursors(), vec![Cursor::new(0, 0)]);
}

#[test]
fn back_tab_stops_at_a_character_that_is_no_blank() {
    let mut ed = place("  ab", 0, 3);
    ed.back_tab();
    assert_eq!(ed.text(), "  ab");
    assert_eq!(ed.cursors(), vec![Cursor::new(0, 3)]);
}

#[test]
fn reverse_tab_takes_back_up_to_the_tab_size() {
    let mut ed = place("    x", 0, 4);
    ed.reverse_tab(2);
    assert_eq!(ed.text(), "  x");
    assert_eq!(ed.cursors(), vec![Cursor::new(0, 2)]);
    ed.reverse_tab(8);
    assert_eq!(ed.text(), "x");
    assert_eq!(ed.cursors(), vec![Cursor::new(0, 0)]);
}

#[test]
fn only_the_line_feed_ends_a_line() {
    let ed = Editor::new(Some("a\rb\u{2028}c\u{0085}d\u{000b}e\u{000c}f"), None);
    assert_eq!(ed.len_lines(), 1);
    assert_eq!(ed.line_text(0).chars().count(), 11);
    let ed = Editor::new(Some("a\r\nb"), None);
    assert_eq!(ed.len_lines(), 2);
    assert_eq!(ed.line_text(0), "a\r");
    assert_eq!(ed.clamp(Cursor::new(0, 9)), Cursor::new(0, 2));
    assert_eq!(ed.clamp(Cursor::new(1, 9)), Cursor::new(1, 1));
}

#[test]
fn text_that_ends_in_a_line_feed_has_an_empty_last_line() {
    let mut ed = place("ab\n", 1, 0);
    assert_eq!(ed.len_lines(), 2);
    ed.move_cursor(CursorDirection::Right);
    assert_eq!(ed.cursors(), vec![Cursor::new(1, 0)]);
    ed.input('c');
    assert_eq!(ed.text(), "ab\nc");
    assert_eq!(ed.len_lines(), 2);
}
