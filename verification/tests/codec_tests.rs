use sticky_notes::notes::Note;
use sticky_notes::notes::NotesStore;
use sticky_notes::notes::WindowState;

fn create_test_note(id: &str, title: &str) -> Note {
    Note {
        id: id.to_string(),
        title: title.to_string(),
        content: String::new(),
        created_at: "2026-01-01T00:00:00+00:00".to_string(),
        updated_at: "2026-01-01T00:00:00+00:00".to_string(),
        window_state: WindowState::default(),
        color: "#fef3c7".to_string(),
        deleted: false,
    }
}

#[test]
fn store_serialization_roundtrip() {
    let mut store = NotesStore::default();
    store.add_note(create_test_note("1", "Test Note"));
    store.notes[0].content = "Hello, world!".to_string();

    let json = store.to_json();
    let restored: NotesStore = NotesStore::from_json(&json);

    assert_eq!(restored.notes.len(), 1);
    assert_eq!(restored.notes[0].id, "1");
    assert_eq!(restored.notes[0].title, "Test Note");
    assert_eq!(restored.notes[0].content, "Hello, world!");
}

#[test]
fn test_note_json_serialization() {
    let note = create_test_note("test-id", "Test Title");
    let json = note.to_json();

    // Verify fields are present in JSON
    assert!(json.contains("\"id\":\"test-id\""));
    assert!(json.contains("\"title\":\"Test Title\""));
    assert!(json.contains("\"content\":\"\""));
    assert!(json.contains("\"created_at\":"));
    assert!(json.contains("\"updated_at\":"));
    assert!(json.contains("\"window_state\":"));
    assert!(json.contains("\"color\":\"#fef3c7\""));
    assert!(json.contains("\"deleted\":false"));
}

#[test]
fn test_note_deserialization_with_missing_fields() {
    let json = r#"{
            "id": "test-uuid",
            "title": "Minimal Note",
            "content": "Hello",
            "created_at": "2026-01-01T00:00:00Z",
            "updated_at": "2026-01-01T00:00:00Z"
        }"#;

    let note: Note = Note::from_json(json).unwrap();

    assert_eq!(note.id, "test-uuid");
    assert_eq!(note.window_state.x, 100); // Default from WindowState::default()
    assert_eq!(note.color, "#fef3c7"); // Default from default_color()
    assert_eq!(note.deleted, false); // Default from bool default
}

#[test]
fn test_window_state_json_serialization() {
    let ws = WindowState { x: 10, y: 20, width: 100, height: 200 };
    let json = ws.to_json();

    // Verify fields are present in JSON
    assert!(json.contains("\"x\":10"));
    assert!(json.contains("\"y\":20"));
    assert!(json.contains("\"width\":100"));
    assert!(json.contains("\"height\":200"));
}

#[test]
fn test_persistence_cycle() {
    // 1. Create a store and add some notes
    let mut store = NotesStore::default();
    let note1 = Note::new();
    let mut note2 = Note::new();
    note2.title = "Second Note".to_string();
    note2.content = "Content of second note".to_string();

    store.add_note(note1.clone());
    store.add_note(note2.clone());

    // 2. Write the whole store out as its persisted document
    let document = store.to_json_pretty();

    // 3. Load from the same document into a new store instance
    let loaded_store = NotesStore::from_json(&document);

    // 4. Verify data integrity
    assert_eq!(loaded_store.notes.len(), 2);

    // Check first note
    let loaded_note1 = loaded_store.get_note(&note1.id).expect("note1 not found");
    assert_eq!(loaded_note1.title, note1.title);
    assert_eq!(loaded_note1.content, note1.content);
    assert_eq!(loaded_note1.id, note1.id);

    // Check second note
    let loaded_note2 = loaded_store.get_note(&note2.id).expect("note2 not found");
    assert_eq!(loaded_note2.title, note2.title);
    assert_eq!(loaded_note2.content, note2.content);
    assert_eq!(loaded_note2.id, note2.id);
}

#[test]
fn test_data_integrity_special_chars() {
    let mut store = NotesStore::default();
    let mut note = Note::new();
    note.title = "Special Chars: < > \" ' & ¥".to_string();
    note.content = "Multi-line\nContent\r\nWith\tTabs".to_string();

    store.add_note(note.clone());
    let document = store.to_json_pretty();

    let loaded_store = NotesStore::from_json(&document);
    let loaded_note = loaded_store.get_note(&note.id).unwrap();

    assert_eq!(loaded_note.title, note.title);
    assert_eq!(loaded_note.content, note.content);
}

#[test]
fn test_empty_store_persistence() {
    let store = NotesStore::default();
    let document = store.to_json_pretty();

    let loaded_store = NotesStore::from_json(&document);
    assert!(loaded_store.notes.is_empty());
}

#[test]
fn test_update_then_reload_sees_new_title() {
    // Create note A with title "X", save, mutate an in-memory copy's
    // title to "Y", update, save again, reload: the new title is seen.
    let mut store = NotesStore::default();
    let mut a = Note::new();
    a.title = "X".to_string();
    store.add_note(a.clone());
    let _first_document = store.to_json_pretty();

    let mut copy = a.clone();
    copy.title = "Y".to_string();
    store.update_note(copy);
    let second_document = store.to_json_pretty();

    let reloaded = NotesStore::from_json(&second_document);
    assert_eq!(reloaded.get_note(&a.id).unwrap().title, "Y");
}

#[test]
fn compact_empty_store_document() {
    let store = NotesStore::default();
    assert_eq!(store.to_json(), "{\"notes\":[]}");
}

#[test]
fn compact_window_state_document() {
    let ws = WindowState { x: -7, y: 0, width: 1, height: 4294967295 };
    assert_eq!(ws.to_json(), "{\"x\":-7,\"y\":0,\"width\":1,\"height\":4294967295}");
}

#[test]
fn pretty_document_shape() {
    let mut store = NotesStore::default();
    store.add_note(create_test_note("1", "T"));
    let document = store.to_json_pretty();
    assert!(document.starts_with("{\n  \"notes\": [\n    {\n      \"id\": \"1\""));
    assert!(document.ends_with("    }\n  ]\n}"));
}

#[test]
fn malformed_document_loads_as_empty_store() {
    assert!(NotesStore::from_json("").notes.is_empty());
    assert!(NotesStore::from_json("{").notes.is_empty());
    assert!(NotesStore::from_json("not json at all").notes.is_empty());
    assert!(NotesStore::from_json("[1, 2, 3]").notes.is_empty());
    assert!(NotesStore::from_json("{\"notes\": [{}]}").notes.is_empty());
}

#[test]
fn trailing_garbage_is_malformed() {
    assert!(NotesStore::from_json("{\"notes\":[]} x").notes.is_empty());
}

#[test]
fn unknown_or_duplicate_keys_are_malformed() {
    assert!(NotesStore::from_json("{\"notes\":[],\"extra\":1}").notes.is_empty());
    let dup = "{\"notes\":[{\"id\":\"a\",\"id\":\"b\",\"title\":\"t\",\"content\":\"\",\"created_at\":\"c\",\"updated_at\":\"u\"}]}";
    assert!(NotesStore::from_json(dup).notes.is_empty());
}

#[test]
fn missing_required_field_is_malformed() {
    let doc = "{\"notes\":[{\"title\":\"t\",\"content\":\"\",\"created_at\":\"c\",\"updated_at\":\"u\"}]}";
    assert!(NotesStore::from_json(doc).notes.is_empty());
}

#[test]
fn note_fields_decode_in_any_order() {
    let doc = "{\"notes\":[{\"deleted\":true,\"content\":\"body\",\"id\":\"a\",\"updated_at\":\"u\",\"title\":\"t\",\"created_at\":\"c\",\"color\":\"#123456\",\"window_state\":{\"height\":4,\"width\":3,\"y\":2,\"x\":1}}]}";
    let store = NotesStore::from_json(doc);
    assert_eq!(store.notes.len(), 1);
    let n = &store.notes[0];
    assert_eq!(n.id, "a");
    assert_eq!(n.title, "t");
    assert_eq!(n.content, "body");
    assert!(n.deleted);
    assert_eq!(n.color, "#123456");
    assert_eq!(n.window_state.x, 1);
    assert_eq!(n.window_state.y, 2);
    assert_eq!(n.window_state.width, 3);
    assert_eq!(n.window_state.height, 4);
}

#[test]
fn unicode_escapes_decode() {
    let doc = "{\"notes\":[{\"id\":\"\\u0041\\u00e9\",\"title\":\"\\n\\t\\\"\\\\\",\"content\":\"\\u0001\",\"created_at\":\"c\",\"updated_at\":\"u\"}]}";
    let store = NotesStore::from_json(doc);
    assert_eq!(store.notes.len(), 1);
    assert_eq!(store.notes[0].id, "Aé");
    assert_eq!(store.notes[0].title, "\n\t\"\\");
    assert_eq!(store.notes[0].content, "\u{1}");
}

#[test]
fn geometry_out_of_range_is_malformed() {
    let doc = "{\"notes\":[{\"id\":\"a\",\"title\":\"t\",\"content\":\"\",\"created_at\":\"c\",\"updated_at\":\"u\",\"window_state\":{\"x\":0,\"y\":0,\"width\":4294967296,\"height\":1}}]}";
    assert!(NotesStore::from_json(doc).notes.is_empty());
    let neg = "{\"notes\":[{\"id\":\"a\",\"title\":\"t\",\"content\":\"\",\"created_at\":\"c\",\"updated_at\":\"u\",\"window_state\":{\"x\":0,\"y\":0,\"width\":-1,\"height\":1}}]}";
    assert!(NotesStore::from_json(neg).notes.is_empty());
}

#[test]
fn control_characters_round_trip() {
    let mut store = NotesStore::default();
    let mut note = create_test_note("ctl", "controls");
    note.content = "\u{1}\u{2}\u{8}\u{c}\u{1f} end".to_string();
    store.add_note(note);
    let reloaded = NotesStore::from_json(&store.to_json_pretty());
    assert_eq!(reloaded.notes[0].content, "\u{1}\u{2}\u{8}\u{c}\u{1f} end");
}
