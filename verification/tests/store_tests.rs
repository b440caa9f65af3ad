use sticky_notes::notes::Note;
use sticky_notes::notes::NotesStore;
use sticky_notes::notes::WindowState;

fn create_test_note(id: &str, title: &str) -> Note {
    Note {
        id: id.to_string(),
        title: title.to_string(),
        content: String::new(),
        created_at: "2026-01-01T00:00:00+00:00".to_string(),
        updated_at: "2026-01-01T00:00:00+00:00".to_string(),
        window_state: WindowState::default(),
        color: "#fef3c7".to_string(),
        deleted: false,
    }
}

#[test]
fn store_default_is_empty() {
    let store = NotesStore::default();
    assert!(store.notes.is_empty());
}

#[test]
fn store_add_note() {
    let mut store = NotesStore::default();
    store.add_note(create_test_note("1", "Test"));
    assert_eq!(store.notes.len(), 1);
}

#[test]
fn store_add_multiple_notes() {
    let mut store = NotesStore::default();
    store.add_note(create_test_note("1", "First"));
    store.add_note(create_test_note("2", "Second"));
    store.add_note(create_test_note("3", "Third"));
    assert_eq!(store.notes.len(), 3);
}

#[test]
fn store_get_note_found() {
    let mut store = NotesStore::default();
    store.add_note(create_test_note("abc", "My Note"));
    let note = store.get_note("abc");
    assert!(note.is_some());
    assert_eq!(note.unwrap().title, "My Note");
}

#[test]
fn store_get_note_not_found() {
    let store = NotesStore::default();
    assert!(store.get_note("nonexistent").is_none());
}

#[test]
fn store_update_note() {
    let mut store = NotesStore::default();
    store.add_note(create_test_note("1", "Original"));

    let updated = Note {
        title: "Updated".to_string(),
        content: "New content".to_string(),
        ..create_test_note("1", "")
    };
    store.update_note(updated);

    let note = store.get_note("1").unwrap();
    assert_eq!(note.title, "Updated");
    assert_eq!(note.content, "New content");
}

#[test]
fn store_update_nonexistent_note_is_noop() {
    let mut store = NotesStore::default();
    store.add_note(create_test_note("1", "Original"));
    store.update_note(create_test_note("999", "Ghost"));
    // Should still have only 1 note, unchanged
    assert_eq!(store.notes.len(), 1);
    assert_eq!(store.get_note("1").unwrap().title, "Original");
}

#[test]
fn store_delete_note() {
    let mut store = NotesStore::default();
    store.add_note(create_test_note("1", "First"));
    store.add_note(create_test_note("2", "Second"));
    store.delete_note("1");
    assert_eq!(store.notes.len(), 1);
    assert!(store.get_note("1").is_none());
    assert!(store.get_note("2").is_some());
}

#[test]
fn store_delete_nonexistent_note_is_noop() {
    let mut store = NotesStore::default();
    store.add_note(create_test_note("1", "First"));
    store.delete_note("nonexistent");
    assert_eq!(store.notes.len(), 1);
}

#[test]
fn store_update_window_state_moves_first_carrier() {
    let mut store = NotesStore::default();
    store.add_note(create_test_note("1", "First"));
    store.add_note(create_test_note("2", "Second"));
    store.update_window_state("2", -10, 20, 640, 480);
    let moved = store.get_note("2").unwrap();
    assert_eq!(moved.window_state.x, -10);
    assert_eq!(moved.window_state.y, 20);
    assert_eq!(moved.window_state.width, 640);
    assert_eq!(moved.window_state.height, 480);
    let untouched = store.get_note("1").unwrap();
    assert_eq!(untouched.window_state.x, 100);
}

#[test]
fn store_update_window_state_unknown_id_is_noop() {
    let mut store = NotesStore::default();
    store.add_note(create_test_note("1", "First"));
    store.update_window_state("nope", 1, 2, 3, 4);
    assert_eq!(store.get_note("1").unwrap().window_state.x, 100);
}
