use redit::buffer::Buffer;
use redit::line::Line;
use redit::render_config::RenderConfig;

fn mk(lines: &[&str]) -> Buffer {
    Buffer::new(lines.iter().map(|s| Line::new(s.to_string())).collect())
}

fn all(b: &Buffer) -> String {
    b.get_all()
}

#[test]
fn line_raw_and_clean() {
    let l = Line::new("abc\r\n".to_string());
    assert_eq!(l.get_raw(), "abc\r\n");
    assert_eq!(l.get_clean_raw(), "abc");
    assert_eq!(l.char_len(), 5);
    assert_eq!(l.clean_len(), 3);
    let bare = Line::new("abc".to_string());
    assert_eq!(bare.get_clean_raw(), "abc");
    let cr = Line::new("abc\r".to_string());
    assert_eq!(cr.get_clean_raw(), "abc");
}

#[test]
fn line_render_expands_tabs() {
    let l = Line::new("a\tb\n".to_string());
    let opts = RenderConfig::default();
    assert_eq!(l.render(&opts), "a    b");
    let two = RenderConfig { tab_size: 2 };
    assert_eq!(l.render(&two), "a  b");
}

#[test]
fn new_buffer_never_empty() {
    let b = Buffer::new(vec![]);
    assert_eq!(b.get_line_count(), 1);
    assert_eq!(b.get_all(), "");
}

#[test]
fn insert_char_line_becomes_abcx() {
    // Lines ["abc\n", "def\n"]: inserting 'X' at (0, 3) makes line 0 "abcX\n",
    // and undo restores "abc\n".
    let mut b = mk(&["abc\n", "def\n"]);
    b.insert_char(0, 3, 'X', true);
    assert_eq!(b.get_line(0).unwrap().get_raw(), "abcX\n");
    assert_eq!(all(&b), "abcX\ndef\n");
    b.undo();
    assert_eq!(b.get_line(0).unwrap().get_raw(), "abc\n");
    assert_eq!(all(&b), "abc\ndef\n");
}

#[test]
fn insert_then_delete_restores() {
    let mut b = mk(&["hello\n", "world\n"]);
    let before = all(&b);
    b.insert_char(1, 2, 'Q', true);
    assert_ne!(all(&b), before);
    b.delete_char(1, 2, true);
    assert_eq!(all(&b), before);
}

#[test]
fn delete_at_clean_end_joins_lines() {
    // Lines ["ab\n", "cd\n"]: a forward delete at the clean end of line 0
    // merges the two lines; undo splits them back.
    let mut b = mk(&["ab\n", "cd\n"]);
    let changed = b.delete_char(0, 2, true);
    assert!(changed);
    assert_eq!(b.get_line_count(), 1);
    assert_eq!(all(&b), "abcd\n");
    b.undo();
    assert_eq!(b.get_line_count(), 2);
    assert_eq!(b.get_line(0).unwrap().get_raw(), "ab\n");
    assert_eq!(b.get_line(1).unwrap().get_raw(), "cd\n");
}

#[test]
fn delete_at_buffer_end_is_refused() {
    let mut b = mk(&["ab"]);
    let before = all(&b);
    let changed = b.delete_char(0, 2, true);
    assert!(!changed);
    assert_eq!(all(&b), before);
    // Nothing was logged, so undo has nothing to take back.
    b.undo();
    assert_eq!(all(&b), before);
}

#[test]
fn split_line_reattaches_terminator() {
    // Splitting "abc\n" at column 1 gives ["a\n", "bc\n"].
    let mut b = mk(&["abc\n"]);
    b.split_line(0, 1, true);
    assert_eq!(b.get_line_count(), 2);
    assert_eq!(b.get_line(0).unwrap().get_raw(), "a\n");
    assert_eq!(b.get_line(1).unwrap().get_raw(), "bc\n");
    b.undo();
    assert_eq!(b.get_line_count(), 1);
    assert_eq!(b.get_line(0).unwrap().get_raw(), "abc\n");
}

#[test]
fn split_line_crlf() {
    let mut b = mk(&["abc\r\n"]);
    b.split_line(0, 2, true);
    assert_eq!(b.get_line(0).unwrap().get_raw(), "ab\r\n");
    assert_eq!(b.get_line(1).unwrap().get_raw(), "c\r\n");
    b.undo();
    assert_eq!(all(&b), "abc\r\n");
}

#[test]
fn get_region_single_row() {
    let b = mk(&["abcdef\n"]);
    let r = b.get_region((1, 0), (4, 0));
    assert_eq!(r.len(), 1);
    assert_eq!(r[0].get_raw(), "bcd");
}

#[test]
fn get_region_multi_row() {
    let b = mk(&["abc\n", "def\n", "ghi\n"]);
    let r = b.get_region((1, 0), (2, 2));
    assert_eq!(r.len(), 3);
    assert_eq!(r[0].get_raw(), "bc\n");
    assert_eq!(r[1].get_raw(), "def\n");
    assert_eq!(r[2].get_raw(), "gh");
}

#[test]
fn remove_region_then_insert_region_restores() {
    // The captured region put back at the removal's start reproduces the
    // original text byte for byte.
    let mut b = mk(&["abc\n", "def\n", "ghi\n"]);
    let before = all(&b);
    let captured = b.get_region((1, 0), (2, 2));
    b.remove_region((1, 0), (2, 2), true);
    assert_eq!(all(&b), "ai\n");
    b.insert_region((1, 0), &captured, true);
    assert_eq!(all(&b), before);
}

#[test]
fn remove_region_same_row() {
    let mut b = mk(&["abcdef\n"]);
    b.remove_region((2, 0), (4, 0), true);
    assert_eq!(all(&b), "abef\n");
    b.undo();
    assert_eq!(all(&b), "abcdef\n");
}

#[test]
fn remove_region_clamps_out_of_bounds() {
    let mut b = mk(&["abc\n"]);
    // Row 9 clamps to the last row, column 99 to the raw length.
    b.remove_region((1, 0), (99, 9), true);
    assert_eq!(all(&b), "a");
    // The captured span reached into the terminator; its inverse splices the
    // clean content back, so the terminator stays gone.
    b.undo();
    assert_eq!(all(&b), "abc");
}

#[test]
fn insert_region_empty_is_noop() {
    let mut b = mk(&["abc\n"]);
    let pos = b.insert_region((1, 0), &[], true);
    assert_eq!(pos, (1, 0));
    assert_eq!(all(&b), "abc\n");
}

#[test]
fn insert_region_single_line() {
    let mut b = mk(&["abc\n"]);
    let ins = vec![Line::new("XY".to_string())];
    let pos = b.insert_region((1, 0), &ins, true);
    assert_eq!(all(&b), "aXYbc\n");
    assert_eq!(pos, (3, 0));
    b.undo();
    assert_eq!(all(&b), "abc\n");
}

#[test]
fn insert_region_multi_line() {
    let mut b = mk(&["abcd\n"]);
    let ins = vec![
        Line::new("12\n".to_string()),
        Line::new("34\n".to_string()),
        Line::new("56".to_string()),
    ];
    let pos = b.insert_region((2, 0), &ins, true);
    assert_eq!(all(&b), "ab12\n34\n56cd\n");
    assert_eq!(pos, (2, 2));
    b.undo();
    assert_eq!(all(&b), "abcd\n");
    b.redo();
    assert_eq!(all(&b), "ab12\n34\n56cd\n");
}

#[test]
fn undo_then_redo_round_trip() {
    // Undo restores the pre-mutation text, redo the post-mutation text, for
    // each kind of logged edit in turn.
    let mut b = mk(&["one\n", "two\n"]);
    let s0 = all(&b);
    b.insert_char(0, 1, 'x', true);
    let s1 = all(&b);
    b.delete_char(1, 0, true);
    let s2 = all(&b);
    b.split_line(0, 2, true);
    let s3 = all(&b);
    b.undo();
    assert_eq!(all(&b), s2);
    b.undo();
    assert_eq!(all(&b), s1);
    b.undo();
    assert_eq!(all(&b), s0);
    b.redo();
    assert_eq!(all(&b), s1);
    b.redo();
    assert_eq!(all(&b), s2);
    b.redo();
    assert_eq!(all(&b), s3);
}

#[test]
fn undo_at_history_start_is_noop() {
    let mut b = mk(&["abc\n"]);
    b.undo();
    assert_eq!(all(&b), "abc\n");
}

#[test]
fn redo_at_history_end_is_noop() {
    let mut b = mk(&["abc\n"]);
    b.insert_char(0, 0, 'z', true);
    let s = all(&b);
    b.redo();
    assert_eq!(all(&b), s);
}

#[test]
fn new_edit_discards_redo_tail() {
    // After undoing, a fresh edit makes the undone edits unavailable to redo.
    let mut b = mk(&["abc\n"]);
    b.insert_char(0, 0, '1', true);
    b.insert_char(0, 0, '2', true);
    b.undo();
    assert_eq!(all(&b), "1abc\n");
    b.insert_char(0, 0, '9', true);
    let s = all(&b);
    assert_eq!(s, "91abc\n");
    b.redo();
    assert_eq!(all(&b), s);
    // Undo now walks the new branch only.
    b.undo();
    assert_eq!(all(&b), "1abc\n");
    b.undo();
    assert_eq!(all(&b), "abc\n");
}

#[test]
fn insert_char_clamps_row_and_column() {
    let mut b = mk(&["ab"]);
    b.insert_char(5, 99, 'z', true);
    assert_eq!(all(&b), "abz");
}

#[test]
fn join_of_crlf_lines_round_trips() {
    let mut b = mk(&["ab\r\n", "cd\r\n"]);
    b.delete_char(0, 2, true);
    assert_eq!(all(&b), "abcd\r\n");
    b.undo();
    assert_eq!(all(&b), "ab\r\ncd\r\n");
    b.redo();
    assert_eq!(all(&b), "abcd\r\n");
}
