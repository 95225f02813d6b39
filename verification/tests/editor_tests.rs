use redit::editor::{convert_cx_to_rx, Editor, Movement};
use redit::line::Line;
use redit::render_config::RenderConfig;

fn editor_with(lines: &[&str]) -> Editor {
    let mut e = Editor::new(24, 80);
    e.load_lines(lines.iter().map(|s| Line::new(s.to_string())).collect());
    e
}

#[test]
fn new_editor_shows_greeting() {
    let e = Editor::new(24, 80);
    assert_eq!(e.get_line_count(), 1);
    assert_eq!(e.get_all(), "Redit version 0.1.0");
    assert_eq!(e.get_cursor(), (0, 0));
    assert!(!e.is_dirty());
    // 24 rows leave 22 for text under the two status rows; one line means a
    // one-digit gutter plus its separator.
    assert_eq!(e.get_screen_rows(), 22);
    assert_eq!(e.get_left_gutter_size(), 2);
    assert_eq!(e.get_screen_cols(), 78);
}

#[test]
fn load_lines_resets_history_and_dirty() {
    let mut e = editor_with(&["abc\n", "def\n"]);
    assert_eq!(e.get_all(), "abc\ndef\n");
    assert!(!e.is_dirty());
    e.undo();
    assert_eq!(e.get_all(), "abc\ndef\n");
}

#[test]
fn write_char_inserts_and_advances() {
    let mut e = editor_with(&["abc\n"]);
    e.move_cursor(Movement::End, false);
    e.write_char('!');
    assert_eq!(e.get_all(), "abc!\n");
    assert_eq!(e.get_cursor(), (4, 0));
    assert!(e.is_dirty());
}

#[test]
fn end_and_home_move_within_clean_content() {
    let mut e = editor_with(&["abcd\n", "ef\n"]);
    e.move_cursor(Movement::End, false);
    assert_eq!(e.get_cursor(), (4, 0));
    e.move_cursor(Movement::Home, false);
    assert_eq!(e.get_cursor(), (0, 0));
}

#[test]
fn vertical_move_snaps_to_shorter_line() {
    let mut e = editor_with(&["abcdef\n", "gh\n"]);
    e.move_cursor(Movement::End, false);
    assert_eq!(e.get_cursor(), (6, 0));
    e.move_cursor(Movement::Relative(0, 1), false);
    assert_eq!(e.get_cursor(), (2, 1));
}

#[test]
fn right_past_clean_end_wraps_to_next_line() {
    let mut e = editor_with(&["ab\n", "cd\n"]);
    e.move_cursor(Movement::End, false);
    e.move_cursor(Movement::Relative(1, 0), false);
    assert_eq!(e.get_cursor(), (0, 1));
}

#[test]
fn left_past_start_wraps_to_previous_end() {
    let mut e = editor_with(&["ab\n", "cd\n"]);
    e.move_cursor(Movement::Relative(0, 1), false);
    e.move_cursor(Movement::Relative(-1, 0), false);
    assert_eq!(e.get_cursor(), (2, 0));
}

#[test]
fn absolute_clamps_to_raw_length() {
    let mut e = editor_with(&["abc\n", "d\n"]);
    e.move_cursor(Movement::Absolute(99, 0), false);
    assert_eq!(e.get_cursor(), (4, 0));
    e.move_cursor(Movement::Absolute(0, 99), false);
    assert_eq!(e.get_cursor(), (0, 1));
}

#[test]
fn begfile_resets_everything() {
    let mut e = editor_with(&["abc\n", "def\n"]);
    e.move_cursor(Movement::Absolute(2, 1), false);
    e.move_cursor(Movement::BegFile, false);
    assert_eq!(e.get_cursor(), (0, 0));
    assert_eq!(e.get_row_offset(), 0);
    assert_eq!(e.get_col_offset(), 0);
}

#[test]
fn do_return_splits_and_homes() {
    let mut e = editor_with(&["abcd\n"]);
    e.move_cursor(Movement::Relative(2, 0), false);
    e.do_return();
    assert_eq!(e.get_all(), "ab\ncd\n");
    assert_eq!(e.get_cursor(), (0, 1));
    assert!(e.is_dirty());
    e.undo();
    assert_eq!(e.get_all(), "abcd\n");
}

#[test]
fn backspace_deletes_previous_char() {
    let mut e = editor_with(&["abc\n"]);
    e.move_cursor(Movement::Relative(2, 0), false);
    e.backspace_char();
    assert_eq!(e.get_all(), "ac\n");
    assert_eq!(e.get_cursor(), (1, 0));
}

#[test]
fn backspace_at_line_start_joins() {
    let mut e = editor_with(&["ab\n", "cd\n"]);
    e.move_cursor(Movement::Relative(0, 1), false);
    e.backspace_char();
    assert_eq!(e.get_all(), "abcd\n");
    assert_eq!(e.get_cursor(), (2, 0));
}

#[test]
fn delete_char_forward() {
    let mut e = editor_with(&["abc\n"]);
    e.delete_char();
    assert_eq!(e.get_all(), "bc\n");
    assert_eq!(e.get_cursor(), (0, 0));
}

#[test]
fn copy_returns_selection_without_mutation() {
    let mut e = editor_with(&["abc\n", "def\n"]);
    e.move_cursor(Movement::Relative(1, 0), false);
    e.move_cursor(Movement::Relative(0, 1), true);
    assert!(e.is_highlighting());
    assert_eq!(e.get_anchor(), (1, 0));
    let clip = e.copy();
    assert_eq!(e.get_all(), "abc\ndef\n");
    assert_eq!(clip.len(), 2);
    assert_eq!(clip[0].get_raw(), "bc\n");
    assert_eq!(clip[1].get_raw(), "d");
}

#[test]
fn cut_then_paste_reproduces_text() {
    // For a selection, cut followed by paste at the resulting cursor gives
    // back the exact original text.
    let mut e = editor_with(&["abc\n", "def\n", "ghi\n"]);
    let before = e.get_all();
    e.move_cursor(Movement::Relative(1, 0), false);
    e.move_cursor(Movement::Relative(0, 2), true);
    let clip = Some(e.cut());
    assert_ne!(e.get_all(), before);
    e.paste(&clip);
    assert_eq!(e.get_all(), before);
}

#[test]
fn cut_same_row_then_paste_reproduces_text() {
    let mut e = editor_with(&["abcdef\n"]);
    let before = e.get_all();
    e.move_cursor(Movement::Relative(2, 0), false);
    e.move_cursor(Movement::Relative(3, 0), true);
    let clip = Some(e.cut());
    assert_eq!(e.get_all(), "abf\n");
    e.paste(&clip);
    assert_eq!(e.get_all(), before);
}

#[test]
fn paste_of_none_is_noop() {
    let mut e = editor_with(&["abc\n"]);
    e.paste(&None);
    assert_eq!(e.get_all(), "abc\n");
    assert!(!e.is_dirty());
}

#[test]
fn selection_delete_places_cursor_at_start() {
    let mut e = editor_with(&["abc\n", "def\n"]);
    // Select backwards: anchor below, cursor above.
    e.move_cursor(Movement::Absolute(1, 1), false);
    e.move_cursor(Movement::Absolute(1, 0), true);
    e.delete_char();
    assert_eq!(e.get_all(), "aef\n");
    assert_eq!(e.get_cursor(), (1, 0));
}

#[test]
fn editor_undo_and_redo() {
    let mut e = editor_with(&["abc\n"]);
    e.write_char('X');
    assert_eq!(e.get_all(), "Xabc\n");
    e.undo();
    assert_eq!(e.get_all(), "abc\n");
    e.redo();
    assert_eq!(e.get_all(), "Xabc\n");
}

#[test]
fn try_quit_asks_once_when_dirty() {
    let mut e = editor_with(&["abc\n"]);
    assert!(e.try_quit());
    e.write_char('x');
    assert!(!e.try_quit());
    assert!(e.get_message().is_some());
    assert!(e.try_quit());
}

#[test]
fn mark_saved_clears_dirty() {
    let mut e = editor_with(&["abc\n"]);
    e.write_char('x');
    assert!(e.is_dirty());
    e.mark_saved();
    assert!(!e.is_dirty());
    assert!(e.get_message().is_some());
}

#[test]
fn open_prompt_takes_typed_characters() {
    let mut e = editor_with(&["abc\n"]);
    e.open();
    assert!(e.prompt_is_active());
    e.write_char('f');
    e.write_char('i');
    assert_eq!(e.get_all(), "abc\n");
    assert_eq!(e.prompt_answer().unwrap(), "fi");
    assert_eq!(e.prompt_line(), "File to open: fi");
    e.backspace_char();
    assert_eq!(e.prompt_answer().unwrap(), "f");
    e.cancel_prompt();
    assert!(!e.prompt_is_active());
}

#[test]
fn movement_ignored_while_prompt_active() {
    let mut e = editor_with(&["abc\n", "def\n"]);
    e.open();
    e.move_cursor(Movement::Absolute(1, 1), false);
    assert_eq!(e.get_cursor(), (0, 0));
}

#[test]
fn scroll_follows_cursor_down() {
    let lines: Vec<String> = (0..40).map(|i| format!("line{}\n", i)).collect();
    let mut e = Editor::new(12, 80);
    e.load_lines(lines.iter().map(|s| Line::new(s.clone())).collect());
    // 12 rows leave 10 for text.
    assert_eq!(e.get_screen_rows(), 10);
    e.move_cursor(Movement::Absolute(0, 25), false);
    let ro = e.get_row_offset();
    assert!(ro <= 25 && 25 <= ro + e.get_screen_rows());
    e.move_cursor(Movement::BegFile, false);
    assert_eq!(e.get_row_offset(), 0);
}

#[test]
fn page_down_and_up_keep_offset() {
    let lines: Vec<String> = (0..40).map(|i| format!("l{}\n", i)).collect();
    let mut e = Editor::new(12, 80);
    e.load_lines(lines.iter().map(|s| Line::new(s.clone())).collect());
    e.move_cursor(Movement::PageDown, false);
    let (_, cy1) = e.get_cursor();
    assert!(cy1 > 0);
    e.move_cursor(Movement::PageUp, false);
    assert_eq!(e.get_cursor().1, 0);
}

#[test]
fn rel_cursor_accounts_for_gutter() {
    let e = editor_with(&["abc\n"]);
    let (x, y) = e.get_rel_cursor();
    assert_eq!(x as usize, e.get_left_gutter_size());
    assert_eq!(y, 0);
}

#[test]
fn rendered_column_expands_tabs() {
    let l = Line::new("\tab\n".to_string());
    let opts = RenderConfig::default();
    assert_eq!(convert_cx_to_rx(&l, 0, &opts), 0);
    assert_eq!(convert_cx_to_rx(&l, 1, &opts), 4);
    assert_eq!(convert_cx_to_rx(&l, 3, &opts), 6);
}

#[test]
fn render_line_strips_terminator() {
    let e = editor_with(&["a\tb\n"]);
    assert_eq!(e.get_tab_size(), 4);
    assert_eq!(e.render_line(0).unwrap(), "a    b");
    assert!(e.render_line(5).is_none());
}

#[test]
fn scroll_down_moves_viewport_and_snaps_cursor() {
    let lines: Vec<String> = (0..40).map(|i| format!("r{}\n", i)).collect();
    let mut e = Editor::new(12, 80);
    e.load_lines(lines.iter().map(|s| Line::new(s.clone())).collect());
    e.move_cursor(Movement::ScrollDown(5), false);
    assert_eq!(e.get_row_offset(), 5);
    assert_eq!(e.get_cursor().1, 5);
    e.move_cursor(Movement::ScrollUp(2), false);
    assert_eq!(e.get_row_offset(), 3);
    assert_eq!(e.get_cursor().1, 5);
    // Scrolling clamps at the buffer's edges.
    e.move_cursor(Movement::ScrollDown(1000), false);
    assert_eq!(e.get_row_offset(), 39);
    assert_eq!(e.get_cursor().1, 39);
    e.move_cursor(Movement::ScrollUp(1000), false);
    assert_eq!(e.get_row_offset(), 0);
}

#[test]
fn endfile_request_changes_nothing() {
    let mut e = editor_with(&["abc\n", "def\n"]);
    e.move_cursor(Movement::Absolute(1, 1), false);
    e.move_cursor(Movement::EndFile, false);
    assert_eq!(e.get_cursor(), (1, 1));
}

#[test]
fn rel_cursor_in_prompt_mode() {
    let mut e = editor_with(&["abc\n"]);
    // Clear the load-time status message so its width is out of the picture.
    e.cancel_prompt();
    e.open();
    let (x, y) = e.get_rel_cursor();
    assert_eq!(y as usize, e.get_screen_rows() + 2);
    // "[No Messages] " occupies 14 cells, "File to open: " another 14.
    assert_eq!(x, 28);
}

#[test]
fn undo_pulls_cursor_back_into_buffer() {
    let mut e = editor_with(&["ab\n"]);
    e.move_cursor(Movement::Relative(1, 0), false);
    e.do_return();
    assert_eq!(e.get_cursor(), (0, 1));
    e.undo();
    assert_eq!(e.get_all(), "ab\n");
    assert_eq!(e.get_cursor().1, 0);
}
