use sticky_notes::editor::LiveEditor;
use sticky_notes::markdown::render_line_spans;
use sticky_notes::markdown::MdEvent;

#[test]
fn bold_line_renders_one_strong_span() {
    let le = LiveEditor::new();
    let spans = le.render_markdown_line("**bold**");
    assert_eq!(spans.len(), 1);
    assert_eq!(spans[0].text, "bold");
    assert!(spans[0].strong);
    assert!(!spans[0].emphasis);
    assert_eq!(spans[0].heading, 0);
    assert!(!spans[0].code);
}

#[test]
fn emphasis_line_renders_one_italic_span() {
    let le = LiveEditor::new();
    let spans = le.render_markdown_line("*lean*");
    assert_eq!(spans.len(), 1);
    assert_eq!(spans[0].text, "lean");
    assert!(spans[0].emphasis);
    assert!(!spans[0].strong);
}

#[test]
fn heading_line_carries_its_level() {
    let le = LiveEditor::new();
    let spans = le.render_markdown_line("## Section");
    assert_eq!(spans.len(), 1);
    assert_eq!(spans[0].text, "Section");
    assert_eq!(spans[0].heading, 2);
}

#[test]
fn inline_code_becomes_code_span() {
    let le = LiveEditor::new();
    let spans = le.render_markdown_line("run `cargo` now");
    assert_eq!(spans.len(), 3);
    assert_eq!(spans[0].text, "run ");
    assert_eq!(spans[1].text, "cargo");
    assert!(spans[1].code);
    assert_eq!(spans[2].text, " now");
}

#[test]
fn list_item_gets_a_bullet() {
    let le = LiveEditor::new();
    let spans = le.render_markdown_line("- milk");
    assert_eq!(spans.len(), 1);
    assert_eq!(spans[0].text, "\u{2022} milk");
}

#[test]
fn plain_line_is_one_plain_span() {
    let le = LiveEditor::new();
    let spans = le.render_markdown_line("hello world");
    assert_eq!(spans.len(), 1);
    assert_eq!(spans[0].text, "hello world");
    assert!(!spans[0].strong && !spans[0].emphasis && !spans[0].code);
}

#[test]
fn empty_line_renders_nothing() {
    let le = LiveEditor::new();
    assert!(le.render_markdown_line("").is_empty());
}

#[test]
fn line_without_text_events_falls_back_to_raw() {
    let le = LiveEditor::new();
    let spans = le.render_markdown_line("<!-- hidden -->");
    assert_eq!(spans.len(), 1);
    assert_eq!(spans[0].text, "<!-- hidden -->");
}

#[test]
fn mixed_styles_cut_spans_at_boundaries() {
    let le = LiveEditor::new();
    let spans = le.render_markdown_line("a **b** c");
    assert_eq!(spans.len(), 3);
    assert_eq!(spans[0].text, "a ");
    assert!(!spans[0].strong);
    assert_eq!(spans[1].text, "b");
    assert!(spans[1].strong);
    assert_eq!(spans[2].text, " c");
    assert!(!spans[2].strong);
}

#[test]
fn fold_of_constructed_events() {
    let events = vec![
        MdEvent::HeadingStart(3),
        MdEvent::Text("head ".to_string()),
        MdEvent::StrongStart,
        MdEvent::Text("strong".to_string()),
        MdEvent::StrongEnd,
        MdEvent::Code("c".to_string()),
        MdEvent::Other,
    ];
    let spans = render_line_spans(&events);
    assert_eq!(spans.len(), 3);
    assert_eq!(spans[0].text, "head ");
    assert_eq!(spans[0].heading, 3);
    assert!(!spans[0].strong);
    assert_eq!(spans[1].text, "strong");
    assert!(spans[1].strong);
    assert_eq!(spans[1].heading, 3);
    assert_eq!(spans[2].text, "c");
    assert!(spans[2].code);
}
