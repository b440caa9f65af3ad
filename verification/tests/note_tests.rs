use sticky_notes::notes::Note;
use sticky_notes::notes::WindowState;

#[test]
fn window_state_default_values() {
    let ws = WindowState::default();
    assert_eq!(ws.x, 100);
    assert_eq!(ws.y, 100);
    assert_eq!(ws.width, 300);
    assert_eq!(ws.height, 400);
}

#[test]
fn note_new_has_valid_uuid() {
    let note = Note::new();
    // UUID v4 format: 8-4-4-4-12 hex chars
    assert_eq!(note.id.len(), 36);
    assert_eq!(note.id.chars().filter(|c| *c == '-').count(), 4);
}

#[test]
fn note_new_has_default_title() {
    let note = Note::new();
    assert_eq!(note.title, "新しいノート");
}

#[test]
fn note_new_has_empty_content() {
    let note = Note::new();
    assert!(note.content.is_empty());
}

#[test]
fn note_new_has_default_color() {
    let note = Note::new();
    assert_eq!(note.color, "#fef3c7");
}

#[test]
fn note_new_has_default_window_state() {
    let note = Note::new();
    assert_eq!(note.window_state.x, 100);
    assert_eq!(note.window_state.y, 100);
    assert_eq!(note.window_state.width, 300);
    assert_eq!(note.window_state.height, 400);
}

#[test]
fn note_new_timestamps_are_rfc3339() {
    let note = Note::new();
    // RFC3339 timestamps contain 'T' and '+' or 'Z'
    assert!(note.created_at.contains('T'));
    assert!(note.updated_at.contains('T'));
}

#[test]
fn note_new_timestamps_are_equal() {
    let note = Note::new();
    assert_eq!(note.created_at, note.updated_at);
}

#[test]
fn note_new_unique_ids() {
    let note1 = Note::new();
    let note2 = Note::new();
    assert_ne!(note1.id, note2.id);
}
