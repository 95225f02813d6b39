use redit::editor_prompt::{EditorPrompt, EditorPromptPurpose};
use redit::prompt::Prompt;

#[test]
fn prompt_starts_with_cursor_at_end() {
    let mut p = Prompt::new(Some("open ".to_string()));
    assert_eq!(p.get_cursor(), (6, 1));
    let answer = p.take_answer();
    assert_eq!(answer.unwrap(), "open ");
    assert!(p.take_answer().is_none());
}

#[test]
fn prompt_add_and_backspace() {
    let mut p = Prompt::new(None);
    p.add_char('h');
    p.add_char('i');
    p.backspace();
    p.add_char('o');
    assert_eq!(p.take_answer().unwrap(), "ho");
}

#[test]
fn prompt_delete_under_cursor() {
    let mut p = Prompt::new(Some("abc".to_string()));
    // The cursor starts past the end, so a forward delete does nothing.
    p.delete_char();
    p.move_cursor(-2);
    p.delete_char();
    assert_eq!(p.take_answer().unwrap(), "ac");
}

#[test]
fn prompt_move_cursor_clamps() {
    let mut p = Prompt::new(Some("ab".to_string()));
    p.move_cursor(-10);
    assert_eq!(p.get_cursor(), (1, 1));
    p.move_cursor(10);
    assert_eq!(p.get_cursor(), (3, 1));
}

#[test]
fn editor_prompt_collects_answer() {
    let mut p = EditorPrompt::new("File to open".to_string(), Some(EditorPromptPurpose::Open));
    assert!(p.is_active());
    assert!(p.get_answer().is_none());
    p.add_char('a');
    p.add_char('b');
    assert_eq!(p.get_answer().unwrap(), "ab");
    p.remove_char();
    assert_eq!(p.get_answer().unwrap(), "a");
    assert!(matches!(p.get_purpose(), Some(EditorPromptPurpose::Open)));
    p.exit();
    assert!(!p.is_active());
    assert!(p.get_answer().is_none());
}

#[test]
fn editor_prompt_draw_and_length() {
    let mut p = EditorPrompt::new("Save as".to_string(), Some(EditorPromptPurpose::Save));
    assert_eq!(p.draw(), "Save as: ");
    assert_eq!(p.get_length(), 9);
    p.add_char('x');
    assert_eq!(p.draw(), "Save as: x");
    assert_eq!(p.get_length(), 10);
}

#[test]
fn editor_prompt_remove_on_empty_answer() {
    let mut p = EditorPrompt::new("q".to_string(), None);
    p.remove_char();
    assert!(p.get_answer().is_none());
    p.add_char('z');
    p.remove_char();
    assert_eq!(p.get_answer().unwrap(), "");
}
