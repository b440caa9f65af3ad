//! The whole-document markdown renderer behind the preview pane: a
//! document's event stream becomes an ordered sequence of render
//! operations (styled labels, headings, code blocks, list items, inline
//! code, spacing), which the widget layer draws one by one.

use vstd::prelude::*;
use vstd::string::StringExecFns;

use crate::editor::Preview;
use crate::markdown::events_view;
use crate::markdown::md_events_of;
use crate::markdown::parse_markdown_events;
use crate::markdown::MdEvent;
use crate::markdown::MdEventView;

verus! {

/// One drawing step of the rendered document.
#[derive(Clone, Debug)]
pub enum RenderOp {
    /// A run of body text with its style flags.
    Label { text: String, strong: bool, emphasis: bool },
    /// A heading line with its level.
    Heading { text: String, level: u8 },
    /// A fenced or indented code block.
    CodeBlock(String),
    /// One bulleted list item.
    ListItem(String),
    /// An inline code fragment.
    InlineCode(String),
    /// Vertical breathing room after a block.
    Space,
}

/// Mathematical image of a `RenderOp`.
pub ghost enum RenderOpView {
    Label { text: Seq<char>, strong: bool, emphasis: bool },
    Heading { text: Seq<char>, level: int },
    CodeBlock(Seq<char>),
    ListItem(Seq<char>),
    InlineCode(Seq<char>),
    Space,
}

impl View for RenderOp {
    type V = RenderOpView;

    open spec fn view(&self) -> RenderOpView {
        match self {
            RenderOp::Label { text, strong, emphasis } => RenderOpView::Label {
                text: text@,
                strong: *strong,
                emphasis: *emphasis,
            },
            RenderOp::Heading { text, level } => RenderOpView::Heading {
                text: text@,
                level: *level as int,
            },
            RenderOp::CodeBlock(s) => RenderOpView::CodeBlock(s@),
            RenderOp::ListItem(s) => RenderOpView::ListItem(s@),
            RenderOp::InlineCode(s) => RenderOpView::InlineCode(s@),
            RenderOp::Space => RenderOpView::Space,
        }
    }
}

/// The mathematical image of an operation list.
pub open spec fn ops_view(v: Seq<RenderOp>) -> Seq<RenderOpView> {
    v.map_values(|o: RenderOp| o@)
}

/// The document renderer's running state.
pub ghost struct DocState {
    /// Operations already emitted.
    pub ops: Seq<RenderOpView>,
    /// Body text gathered since the last flush.
    pub cur: Seq<char>,
    pub strong: bool,
    pub emphasis: bool,
    /// The open heading's level, if one is open.
    pub heading: Option<int>,
    pub in_code_block: bool,
    /// The open code block's content.
    pub code: Seq<char>,
    pub in_list: bool,
    /// The open list item's text.
    pub item: Seq<char>,
}

pub open spec fn doc_init() -> DocState {
    DocState {
        ops: Seq::empty(),
        cur: Seq::empty(),
        strong: false,
        emphasis: false,
        heading: None,
        in_code_block: false,
        code: Seq::empty(),
        in_list: false,
        item: Seq::empty(),
    }
}

/// Flushes the gathered body text as one label under the current flags;
/// nothing gathered, nothing emitted.
pub open spec fn doc_flush(st: DocState) -> Seq<RenderOpView> {
    if st.cur.len() == 0 {
        st.ops
    } else {
        st.ops.push(RenderOpView::Label { text: st.cur, strong: st.strong, emphasis: st.emphasis })
    }
}

/// One event advances the document renderer. Block openers flush the
/// gathered text; block closers emit their block and some spacing; text
/// accumulates into the open code block, the open list item or the body.
pub open spec fn doc_step(st: DocState, e: MdEventView) -> DocState {
    match e {
        MdEventView::HeadingStart(l) => DocState {
            ops: doc_flush(st),
            cur: Seq::empty(),
            heading: Some(l),
            ..st
        },
        MdEventView::HeadingEnd => match st.heading {
            Some(l) => DocState {
                ops: st.ops.push(RenderOpView::Heading { text: st.cur, level: l }).push(
                    RenderOpView::Space,
                ),
                cur: Seq::empty(),
                heading: None,
                ..st
            },
            None => st,
        },
        MdEventView::ParagraphStart => DocState { ops: doc_flush(st), cur: Seq::empty(), ..st },
        MdEventView::ParagraphEnd => DocState {
            ops: doc_flush(st).push(RenderOpView::Space),
            cur: Seq::empty(),
            ..st
        },
        MdEventView::StrongStart => DocState { strong: true, ..st },
        MdEventView::StrongEnd => DocState { strong: false, ..st },
        MdEventView::EmphasisStart => DocState { emphasis: true, ..st },
        MdEventView::EmphasisEnd => DocState { emphasis: false, ..st },
        MdEventView::CodeBlockStart => DocState {
            ops: doc_flush(st),
            cur: Seq::empty(),
            in_code_block: true,
            code: Seq::empty(),
            ..st
        },
        MdEventView::CodeBlockEnd => DocState {
            ops: st.ops.push(RenderOpView::CodeBlock(st.code)).push(RenderOpView::Space),
            in_code_block: false,
            code: Seq::empty(),
            ..st
        },
        MdEventView::ListStart => DocState {
            ops: doc_flush(st),
            cur: Seq::empty(),
            in_list: true,
            ..st
        },
        MdEventView::ListEnd => DocState {
            ops: st.ops.push(RenderOpView::Space),
            in_list: false,
            ..st
        },
        MdEventView::ItemStart => DocState { item: Seq::empty(), ..st },
        MdEventView::ItemEnd => if st.in_list {
            DocState { ops: st.ops.push(RenderOpView::ListItem(st.item)), item: Seq::empty(), ..st }
        } else {
            DocState { item: Seq::empty(), ..st }
        },
        MdEventView::LinkStart(d) => DocState {
            ops: doc_flush(st),
            cur: "[link: "@ + d + "]"@,
            ..st
        },
        MdEventView::Text(t) => if st.in_code_block {
            DocState { code: st.code + t, ..st }
        } else if st.in_list {
            DocState { item: st.item + t, ..st }
        } else {
            DocState { cur: st.cur + t, ..st }
        },
        MdEventView::Code(c) => DocState {
            ops: doc_flush(st).push(RenderOpView::InlineCode(c)),
            cur: Seq::empty(),
            ..st
        },
        MdEventView::SoftBreak => DocState { ops: doc_flush(st), cur: Seq::empty(), ..st },
        MdEventView::HardBreak => DocState { ops: doc_flush(st), cur: Seq::empty(), ..st },
        _ => st,
    }
}

/// The document renderer folded over a whole event list.
pub open spec fn doc_fold(es: Seq<MdEventView>, st: DocState) -> DocState
    decreases es.len(),
{
    if es.len() == 0 {
        st
    } else {
        doc_fold(es.drop_first(), doc_step(st, es[0]))
    }
}

/// The operations of a whole document: fold, then flush what remains.
pub open spec fn spec_render_doc(es: Seq<MdEventView>) -> Seq<RenderOpView> {
    doc_flush(doc_fold(es, doc_init()))
}

/// The spec-level image of the renderer's executable state.
pub open spec fn doc_state_of(
    ops: Seq<RenderOp>,
    cur: Seq<char>,
    strong: bool,
    emphasis: bool,
    heading: Option<u8>,
    in_code_block: bool,
    code: Seq<char>,
    in_list: bool,
    item: Seq<char>,
) -> DocState {
    DocState {
        ops: ops_view(ops),
        cur,
        strong,
        emphasis,
        heading: match heading {
            Some(l) => Some(l as int),
            None => None,
        },
        in_code_block,
        code,
        in_list,
        item,
    }
}

/// Flushes the gathered body text as one label, clearing the buffer.
fn flush_text(ops: &mut Vec<RenderOp>, cur: &mut String, strong: bool, emphasis: bool)
    ensures
        ops_view(final(ops)@) == doc_flush(
            DocState {
                ops: ops_view(old(ops)@),
                cur: old(cur)@,
                strong,
                emphasis,
                heading: None,
                in_code_block: false,
                code: Seq::empty(),
                in_list: false,
                item: Seq::empty(),
            },
        ),
        final(cur)@ == Seq::<char>::empty(),
{
    if !cur.as_str().is_empty() {
        let mut text = String::new();
        core::mem::swap(&mut text, cur);
        let op = RenderOp::Label { text, strong, emphasis };
        let ghost ov = op@;
        ops.push(op);
        proof {
            assert(ops_view(ops@) =~= ops_view(old(ops)@).push(ov));
        }
    } else {
        proof {
            assert(cur@ =~= Seq::<char>::empty());
        }
    }
}

/// Folds a document's event list into its render operations.
#[verifier::rlimit(100)]
pub fn render_doc_ops(events: &Vec<MdEvent>) -> (r: Vec<RenderOp>)
    ensures
        ops_view(r@) == spec_render_doc(events_view(events@)),
{
    let ghost all = events_view(events@);
    let mut ops: Vec<RenderOp> = Vec::new();
    let mut cur = String::new();
    let mut strong = false;
    let mut emphasis = false;
    let mut heading: Option<u8> = None;
    let mut in_code_block = false;
    let mut code = String::new();
    let mut in_list = false;
    let mut item = String::new();
    proof {
        assert(ops_view(ops@) =~= Seq::<RenderOpView>::empty());
        assert(all.skip(0) =~= all);
    }
    let mut i: usize = 0;
    while i < events.len()
        invariant
            i <= events.len(),
            all == events_view(events@),
            all.len() == events.len(),
            doc_fold(all, doc_init()) == doc_fold(
                all.skip(i as int),
                doc_state_of(
                    ops@,
                    cur@,
                    strong,
                    emphasis,
                    heading,
                    in_code_block,
                    code@,
                    in_list,
                    item@,
                ),
            ),
        decreases events.len() - i,
    {
        let ghost st = doc_state_of(
            ops@,
            cur@,
            strong,
            emphasis,
            heading,
            in_code_block,
            code@,
            in_list,
            item@,
        );
        proof {
            assert(all[i as int] == events@[i as int]@);
            assert(all.skip(i as int)[0] == all[i as int]);
            assert(all.skip(i as int).drop_first() =~= all.skip(i as int + 1));
        }
        match &events[i] {
            MdEvent::HeadingStart(l) => {
                flush_text(&mut ops, &mut cur, strong, emphasis);
                heading = Some(*l);
            },
            MdEvent::HeadingEnd => {
                if let Some(l) = heading {
                    let mut text = String::new();
                    core::mem::swap(&mut text, &mut cur);
                    let op = RenderOp::Heading { text, level: l };
                    let ghost ov = op@;
                    ops.push(op);
                    ops.push(RenderOp::Space);
                    heading = None;
                    proof {
                        assert(ops_view(ops@) =~= st.ops.push(ov).push(RenderOpView::Space));
                    }
                }
            },
            MdEvent::ParagraphStart => {
                flush_text(&mut ops, &mut cur, strong, emphasis);
            },
            MdEvent::ParagraphEnd => {
                flush_text(&mut ops, &mut cur, strong, emphasis);
                ops.push(RenderOp::Space);
                proof {
                    assert(ops_view(ops@) =~= doc_flush(st).push(RenderOpView::Space));
                }
            },
            MdEvent::StrongStart => {
                strong = true;
            },
            MdEvent::StrongEnd => {
                strong = false;
            },
            MdEvent::EmphasisStart => {
                emphasis = true;
            },
            MdEvent::EmphasisEnd => {
                emphasis = false;
            },
            MdEvent::CodeBlockStart => {
                flush_text(&mut ops, &mut cur, strong, emphasis);
                in_code_block = true;
                code = String::new();
            },
            MdEvent::CodeBlockEnd => {
                let mut text = String::new();
                core::mem::swap(&mut text, &mut code);
                let op = RenderOp::CodeBlock(text);
                let ghost ov = op@;
                ops.push(op);
                ops.push(RenderOp::Space);
                in_code_block = false;
                proof {
                    assert(ops_view(ops@) =~= st.ops.push(ov).push(RenderOpView::Space));
                }
            },
            MdEvent::ListStart => {
                flush_text(&mut ops, &mut cur, strong, emphasis);
                in_list = true;
            },
            MdEvent::ListEnd => {
                ops.push(RenderOp::Space);
                in_list = false;
                proof {
                    assert(ops_view(ops@) =~= st.ops.push(RenderOpView::Space));
                }
            },
            MdEvent::ItemStart => {
                item = String::new();
            },
            MdEvent::ItemEnd => {
                if in_list {
                    let mut text = String::new();
                    core::mem::swap(&mut text, &mut item);
                    let op = RenderOp::ListItem(text);
                    let ghost ov = op@;
                    ops.push(op);
                    proof {
                        assert(ops_view(ops@) =~= st.ops.push(ov));
                    }
                } else {
                    item = String::new();
                }
            },
            MdEvent::LinkStart(d) => {
                flush_text(&mut ops, &mut cur, strong, emphasis);
                cur.append("[link: ");
                cur.append(d.as_str());
                cur.append("]");
            },
            MdEvent::Text(t) => {
                if in_code_block {
                    code.append(t.as_str());
                } else if in_list {
                    item.append(t.as_str());
                } else {
                    cur.append(t.as_str());
                }
            },
            MdEvent::Code(c) => {
                flush_text(&mut ops, &mut cur, strong, emphasis);
                let op = RenderOp::InlineCode(c.clone());
                let ghost ov = op@;
                ops.push(op);
                proof {
                    assert(ops_view(ops@) =~= doc_flush(st).push(ov));
                    assert(ov == RenderOpView::InlineCode(events@[i as int]->Code_0@));
                }
            },
            MdEvent::SoftBreak => {
                flush_text(&mut ops, &mut cur, strong, emphasis);
            },
            MdEvent::HardBreak => {
                flush_text(&mut ops, &mut cur, strong, emphasis);
            },
            MdEvent::Other => {},
        }
        proof {
            assert(doc_step(st, all[i as int]) == doc_state_of(
                ops@,
                cur@,
                strong,
                emphasis,
                heading,
                in_code_block,
                code@,
                in_list,
                item@,
            ));
        }
        i += 1;
    }
    proof {
        assert(all.skip(i as int).len() == 0);
    }
    flush_text(&mut ops, &mut cur, strong, emphasis);
    ops
}

impl Preview {
    /// The render operations for a whole markdown document.
    pub fn render_markdown(&self, markdown: &str) -> (r: Vec<RenderOp>)
        ensures
            ops_view(r@) == spec_render_doc(md_events_of(markdown@)),
    {
        let events = parse_markdown_events(markdown);
        render_doc_ops(&events)
    }
}

} // verus!
