use sticky_notes::editor::Preview;
use sticky_notes::preview::RenderOp;

fn ops_for(doc: &str) -> Vec<RenderOp> {
    Preview::new().render_markdown(doc)
}

#[test]
fn paragraph_renders_label_and_space() {
    let ops = ops_for("hello world");
    assert_eq!(ops.len(), 2);
    match &ops[0] {
        RenderOp::Label { text, strong, emphasis } => {
            assert_eq!(text, "hello world");
            assert!(!strong && !emphasis);
        }
        other => panic!("unexpected op {:?}", other),
    }
    assert!(matches!(ops[1], RenderOp::Space));
}

#[test]
fn heading_renders_with_level() {
    let ops = ops_for("## Two");
    assert_eq!(ops.len(), 2);
    match &ops[0] {
        RenderOp::Heading { text, level } => {
            assert_eq!(text, "Two");
            assert_eq!(*level, 2);
        }
        other => panic!("unexpected op {:?}", other),
    }
    assert!(matches!(ops[1], RenderOp::Space));
}

#[test]
fn code_block_is_one_block() {
    let ops = ops_for("```\nlet x = 1;\n```");
    assert!(ops.iter().any(|o| matches!(o, RenderOp::CodeBlock(c) if c == "let x = 1;\n")));
}

#[test]
fn list_items_come_out_in_order() {
    let ops = ops_for("- one\n- two");
    let items: Vec<&str> = ops
        .iter()
        .filter_map(|o| match o {
            RenderOp::ListItem(t) => Some(t.as_str()),
            _ => None,
        })
        .collect();
    assert_eq!(items, vec!["one", "two"]);
}

#[test]
fn inline_code_is_kept_apart() {
    let ops = ops_for("use `cargo` here");
    assert!(ops.iter().any(|o| matches!(o, RenderOp::InlineCode(c) if c == "cargo")));
}

#[test]
fn link_destination_is_shown() {
    let ops = ops_for("[name](https://example.org)");
    let has_link_text = ops.iter().any(|o| match o {
        RenderOp::Label { text, .. } => text.contains("[link: https://example.org]"),
        _ => false,
    });
    assert!(has_link_text);
}

#[test]
fn empty_document_renders_nothing() {
    assert!(ops_for("").is_empty());
}
