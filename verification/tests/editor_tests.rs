use sticky_notes::editor::insert_format_markers;
use sticky_notes::editor::insert_heading;
use sticky_notes::editor::LiveEditor;
use sticky_notes::editor::MarkdownApp;
use sticky_notes::editor::ViewMode;

#[test]
fn new_app_starts_in_live_view() {
    let app = MarkdownApp::new();
    assert_eq!(app.view_mode, ViewMode::Live);
    assert!(app.current_file.is_none());
    assert!(!app.modified);
    assert!(app.content.starts_with("# Welcome to Markdown Editor"));
}

#[test]
fn live_editor_starts_on_first_line() {
    let le = LiveEditor::new();
    assert_eq!(le.focused_line, Some(0));
}

#[test]
fn toggle_view_from_live_goes_to_editor() {
    let mut app = MarkdownApp::new();
    app.view_mode = ViewMode::Live;
    app.toggle_view();
    assert_eq!(app.view_mode, ViewMode::Editor);
}

#[test]
fn toggle_view_from_preview_goes_to_editor() {
    let mut app = MarkdownApp::new();
    app.view_mode = ViewMode::Preview;
    app.toggle_view();
    assert_eq!(app.view_mode, ViewMode::Editor);
}

#[test]
fn toggle_view_from_editor_goes_to_live() {
    let mut app = MarkdownApp::new();
    app.view_mode = ViewMode::Editor;
    app.toggle_view();
    assert_eq!(app.view_mode, ViewMode::Live);
}

#[test]
fn toggle_view_from_split_goes_to_live() {
    let mut app = MarkdownApp::new();
    app.view_mode = ViewMode::Split;
    app.toggle_view();
    assert_eq!(app.view_mode, ViewMode::Live);
}

#[test]
fn insert_format_markers_appends_sample() {
    let mut content = "abc".to_string();
    insert_format_markers(&mut content, "**", "**");
    assert_eq!(content, "abc**text**");
    insert_format_markers(&mut content, "[", "](url)");
    assert_eq!(content, "abc**text**[text](url)");
}

#[test]
fn insert_heading_appends_heading_line() {
    let mut content = "abc".to_string();
    insert_heading(&mut content, 2);
    assert_eq!(content, "abc\n## Heading\n");
    insert_heading(&mut content, 6);
    assert_eq!(content, "abc\n## Heading\n\n###### Heading\n");
}

use sticky_notes::editor::LineEvent;
use sticky_notes::editor::ShellRequest;
use sticky_notes::editor::Shortcut;

#[test]
fn enter_inserts_a_line_below_and_moves_focus() {
    let mut le = LiveEditor::new();
    let mut lines = vec!["one".to_string(), "two".to_string()];
    le.apply_line_event(&mut lines, LineEvent::Enter);
    assert_eq!(lines, vec!["one".to_string(), String::new(), "two".to_string()]);
    assert_eq!(le.focused_line, Some(1));
}

#[test]
fn backspace_deletes_an_emptied_line() {
    let mut le = LiveEditor::new();
    le.focused_line = Some(1);
    let mut lines = vec!["one".to_string(), String::new()];
    le.apply_line_event(&mut lines, LineEvent::Backspace);
    assert_eq!(lines, vec!["one".to_string()]);
    assert_eq!(le.focused_line, Some(0));
}

#[test]
fn backspace_keeps_a_non_empty_line() {
    let mut le = LiveEditor::new();
    le.focused_line = Some(1);
    let mut lines = vec!["one".to_string(), "two".to_string()];
    le.apply_line_event(&mut lines, LineEvent::Backspace);
    assert_eq!(lines.len(), 2);
    assert_eq!(le.focused_line, Some(1));
}

#[test]
fn arrows_move_focus_within_bounds() {
    let mut le = LiveEditor::new();
    let mut lines = vec!["a".to_string(), "b".to_string()];
    le.apply_line_event(&mut lines, LineEvent::ArrowUp);
    assert_eq!(le.focused_line, Some(0));
    le.apply_line_event(&mut lines, LineEvent::ArrowDown);
    assert_eq!(le.focused_line, Some(1));
    le.apply_line_event(&mut lines, LineEvent::ArrowDown);
    assert_eq!(le.focused_line, Some(1));
}

#[test]
fn click_focuses_the_clicked_line() {
    let mut le = LiveEditor::new();
    let mut lines = vec!["a".to_string(), "b".to_string(), "c".to_string()];
    le.apply_line_event(&mut lines, LineEvent::ClickLine(2));
    assert_eq!(le.focused_line, Some(2));
}

#[test]
fn click_below_grows_only_after_a_non_empty_last_line() {
    let mut le = LiveEditor::new();
    let mut lines = vec!["a".to_string()];
    le.apply_line_event(&mut lines, LineEvent::ClickBelow);
    assert_eq!(lines, vec!["a".to_string(), String::new()]);
    assert_eq!(le.focused_line, Some(1));
    le.apply_line_event(&mut lines, LineEvent::ClickBelow);
    assert_eq!(lines.len(), 2);
    assert_eq!(le.focused_line, Some(1));
}

#[test]
fn shortcuts_edit_or_defer_to_the_shell() {
    let mut app = MarkdownApp::new();
    app.content = String::new();
    assert!(app.apply_shortcut(Shortcut::Bold).is_none());
    assert_eq!(app.content, "**text**");
    assert!(app.modified);
    assert!(matches!(app.apply_shortcut(Shortcut::OpenFile), Some(ShellRequest::OpenFile)));
    assert!(matches!(app.apply_shortcut(Shortcut::SaveFile), Some(ShellRequest::SaveFile)));
    app.content = String::new();
    app.apply_shortcut(Shortcut::Heading(3));
    assert_eq!(app.content, "\n### Heading\n");
}

use sticky_notes::editor::content_to_lines;
use sticky_notes::editor::lines_to_content;

#[test]
fn splitting_content_into_lines() {
    assert_eq!(content_to_lines("a\nb"), vec!["a".to_string(), "b".to_string()]);
    assert_eq!(content_to_lines("a\r\nb"), vec!["a".to_string(), "b".to_string()]);
    assert_eq!(content_to_lines("a\n"), vec!["a".to_string()]);
    assert_eq!(content_to_lines("\n"), vec![String::new()]);
    assert_eq!(content_to_lines(""), Vec::<String>::new());
    assert_eq!(content_to_lines("a\r"), vec!["a\r".to_string()]);
}

#[test]
fn joining_lines_into_content() {
    assert_eq!(lines_to_content(&vec!["a".to_string(), "b".to_string()]), "a\nb");
    assert_eq!(lines_to_content(&vec![String::new()]), "");
    assert_eq!(lines_to_content(&Vec::new()), "");
}

#[test]
fn edit_cycle_splits_edits_and_joins() {
    let mut le = LiveEditor::new();
    let mut lines = content_to_lines("one\ntwo");
    le.apply_line_event(&mut lines, LineEvent::Enter);
    assert_eq!(lines_to_content(&lines), "one\n\ntwo");
}
