//! The line-oriented markdown renderer: one line of markdown becomes an
//! ordered sequence of styled text spans (bold, italic, heading level,
//! inline code). The markdown grammar itself is the parsing library's
//! business; it is treated as a black-box producer of an event stream, and
//! everything from the events to the spans is verified here.

use vstd::prelude::*;
use vstd::string::StrSliceExecFns;
use vstd::string::StringExecFns;

use pulldown_cmark::Event;
use pulldown_cmark::Tag;
use pulldown_cmark::TagEnd;

use crate::editor::LiveEditor;

verus! {

/// One event of a line's markdown event stream, reduced to what the
/// renderer reads; everything else is `Other`.
#[derive(Clone, Debug)]
pub enum MdEvent {
    /// A heading opens, with its level (1 to 6).
    HeadingStart(u8),
    StrongStart,
    StrongEnd,
    EmphasisStart,
    EmphasisEnd,
    /// A list item opens.
    ItemStart,
    /// A list item closes.
    ItemEnd,
    /// A heading closes.
    HeadingEnd,
    ParagraphStart,
    ParagraphEnd,
    CodeBlockStart,
    CodeBlockEnd,
    ListStart,
    ListEnd,
    /// A link opens, with its destination.
    LinkStart(String),
    SoftBreak,
    HardBreak,
    /// A text node.
    Text(String),
    /// An inline code node.
    Code(String),
    /// Any event the renderers ignore.
    Other,
}

/// Mathematical image of an `MdEvent`.
pub ghost enum MdEventView {
    HeadingStart(int),
    StrongStart,
    StrongEnd,
    EmphasisStart,
    EmphasisEnd,
    ItemStart,
    ItemEnd,
    HeadingEnd,
    ParagraphStart,
    ParagraphEnd,
    CodeBlockStart,
    CodeBlockEnd,
    ListStart,
    ListEnd,
    LinkStart(Seq<char>),
    SoftBreak,
    HardBreak,
    Text(Seq<char>),
    Code(Seq<char>),
    Other,
}

impl View for MdEvent {
    type V = MdEventView;

    open spec fn view(&self) -> MdEventView {
        match self {
            MdEvent::HeadingStart(l) => MdEventView::HeadingStart(*l as int),
            MdEvent::StrongStart => MdEventView::StrongStart,
            MdEvent::StrongEnd => MdEventView::StrongEnd,
            MdEvent::EmphasisStart => MdEventView::EmphasisStart,
            MdEvent::EmphasisEnd => MdEventView::EmphasisEnd,
            MdEvent::ItemStart => MdEventView::ItemStart,
            MdEvent::ItemEnd => MdEventView::ItemEnd,
            MdEvent::HeadingEnd => MdEventView::HeadingEnd,
            MdEvent::ParagraphStart => MdEventView::ParagraphStart,
            MdEvent::ParagraphEnd => MdEventView::ParagraphEnd,
            MdEvent::CodeBlockStart => MdEventView::CodeBlockStart,
            MdEvent::CodeBlockEnd => MdEventView::CodeBlockEnd,
            MdEvent::ListStart => MdEventView::ListStart,
            MdEvent::ListEnd => MdEventView::ListEnd,
            MdEvent::LinkStart(s) => MdEventView::LinkStart(s@),
            MdEvent::SoftBreak => MdEventView::SoftBreak,
            MdEvent::HardBreak => MdEventView::HardBreak,
            MdEvent::Text(s) => MdEventView::Text(s@),
            MdEvent::Code(s) => MdEventView::Code(s@),
            MdEvent::Other => MdEventView::Other,
        }
    }
}

/// The mathematical image of an event list.
pub open spec fn events_view(v: Seq<MdEvent>) -> Seq<MdEventView> {
    v.map_values(|e: MdEvent| e@)
}

/// One styled run of text: bold and italic flags, the heading level it
/// stands under (0 outside headings), and whether it is inline code.
#[derive(Clone, Debug)]
pub struct Span {
    pub text: String,
    pub strong: bool,
    pub emphasis: bool,
    pub heading: u8,
    pub code: bool,
}

/// Mathematical image of a `Span`.
pub ghost struct SpanView {
    pub text: Seq<char>,
    pub strong: bool,
    pub emphasis: bool,
    pub heading: int,
    pub code: bool,
}

impl View for Span {
    type V = SpanView;

    open spec fn view(&self) -> SpanView {
        SpanView {
            text: self.text@,
            strong: self.strong,
            emphasis: self.emphasis,
            heading: self.heading as int,
            code: self.code,
        }
    }
}

/// The mathematical image of a span list.
pub open spec fn spans_view(v: Seq<Span>) -> Seq<SpanView> {
    v.map_values(|s: Span| s@)
}

/// The renderer's running state: spans already cut, the text gathered
/// since the last cut, and the style flags that text carries.
pub ghost struct RenderState {
    pub spans: Seq<SpanView>,
    pub cur: Seq<char>,
    pub strong: bool,
    pub emphasis: bool,
    pub heading: int,
}

pub open spec fn render_init() -> RenderState {
    RenderState { spans: Seq::empty(), cur: Seq::empty(), strong: false, emphasis: false, heading: 0 }
}

/// Cuts the gathered text into a span under the current flags; gathering
/// nothing cuts nothing.
pub open spec fn cut(st: RenderState) -> Seq<SpanView> {
    if st.cur.len() == 0 {
        st.spans
    } else {
        st.spans.push(
            SpanView {
                text: st.cur,
                strong: st.strong,
                emphasis: st.emphasis,
                heading: st.heading,
                code: false,
            },
        )
    }
}

/// One event advances the renderer: style bounds cut the gathered text and
/// flip their flag, a heading start records the level, a list item starts
/// with a bullet, text accumulates, and inline code becomes a span of its
/// own.
pub open spec fn render_step(st: RenderState, e: MdEventView) -> RenderState {
    match e {
        MdEventView::HeadingStart(l) => RenderState { heading: l, ..st },
        MdEventView::StrongStart => RenderState {
            spans: cut(st),
            cur: Seq::empty(),
            strong: true,
            ..st
        },
        MdEventView::StrongEnd => RenderState {
            spans: cut(st),
            cur: Seq::empty(),
            strong: false,
            ..st
        },
        MdEventView::EmphasisStart => RenderState {
            spans: cut(st),
            cur: Seq::empty(),
            emphasis: true,
            ..st
        },
        MdEventView::EmphasisEnd => RenderState {
            spans: cut(st),
            cur: Seq::empty(),
            emphasis: false,
            ..st
        },
        MdEventView::ItemStart => RenderState { cur: st.cur + "\u{2022} "@, ..st },
        MdEventView::Text(t) => RenderState { cur: st.cur + t, ..st },
        MdEventView::Code(c) => RenderState {
            spans: cut(st).push(
                SpanView { text: c, strong: false, emphasis: false, heading: 0, code: true },
            ),
            cur: Seq::empty(),
            ..st
        },
        _ => st,
    }
}

/// The renderer folded over a whole event list.
pub open spec fn render_events(es: Seq<MdEventView>, st: RenderState) -> RenderState
    decreases es.len(),
{
    if es.len() == 0 {
        st
    } else {
        render_events(es.drop_first(), render_step(st, es[0]))
    }
}

/// The spans of an event list: fold, then cut what remains gathered.
pub open spec fn spec_render_spans(es: Seq<MdEventView>) -> Seq<SpanView> {
    cut(render_events(es, render_init()))
}

/// The spans shown for one line: the rendering of its events, or the raw
/// line as one plain span when the events yield nothing of a non-empty
/// line.
pub open spec fn spec_render_line(line: Seq<char>) -> Seq<SpanView> {
    let spans = spec_render_spans(md_events_of(line));
    if spans.len() == 0 && line.len() > 0 {
        seq![SpanView { text: line, strong: false, emphasis: false, heading: 0, code: false }]
    } else {
        spans
    }
}

/// What the markdown library's parser yields for one line of text: a pure
/// function of the characters alone.
pub uninterp spec fn md_events_of(line: Seq<char>) -> Seq<MdEventView>;

/// Relies on pulldown-cmark's `Parser::new` and its `Iterator`: the event
/// stream of the given text, which depends on the text alone; each event
/// is carried over by `convert_event`.
#[verifier::external_body]
pub(crate) fn parse_markdown_events(line: &str) -> (r: Vec<MdEvent>)
    ensures
        events_view(r@) == md_events_of(line@),
{
    pulldown_cmark::Parser::new(line).map(convert_event).collect()
}

/// The declaration of the markdown parser's event type.
#[verifier::external_type_specification]
#[verifier::external_body]
pub struct ExMdRawEvent<'a>(Event<'a>);

/// Relies on the shape of pulldown-cmark's `Event`: each variant the
/// renderers read is carried over one for one, moving the text out; every
/// other event becomes `Other`.
#[verifier::external_body]
fn convert_event(e: Event<'_>) -> MdEvent {
    match e {
        Event::Start(tag) => convert_tag(tag),
        Event::End(te) => convert_tag_end(te),
        Event::Text(t) => MdEvent::Text(t.to_string()),
        Event::Code(c) => MdEvent::Code(c.to_string()),
        Event::SoftBreak => MdEvent::SoftBreak,
        Event::HardBreak => MdEvent::HardBreak,
        _ => MdEvent::Other,
    }
}

/// The declaration of the markdown parser's opening-tag type.
#[verifier::external_type_specification]
#[verifier::external_body]
pub struct ExMdRawTag<'a>(Tag<'a>);

/// Relies on the shape of pulldown-cmark's `Tag`: one arm per tag the
/// renderers read, moving the heading level and the link destination out.
#[verifier::external_body]
fn convert_tag(t: Tag<'_>) -> MdEvent {
    match t {
        Tag::Heading { level, .. } => MdEvent::HeadingStart(level as u8),
        Tag::Paragraph => MdEvent::ParagraphStart,
        Tag::Strong => MdEvent::StrongStart,
        Tag::Emphasis => MdEvent::EmphasisStart,
        Tag::CodeBlock(_) => MdEvent::CodeBlockStart,
        Tag::List(_) => MdEvent::ListStart,
        Tag::Item => MdEvent::ItemStart,
        Tag::Link { dest_url, .. } => MdEvent::LinkStart(dest_url.to_string()),
        _ => MdEvent::Other,
    }
}

/// The declaration of the markdown parser's closing-tag type.
#[verifier::external_type_specification]
#[verifier::external_body]
pub struct ExMdRawTagEnd(TagEnd);

/// Relies on the shape of pulldown-cmark's `TagEnd`: one arm per tag the
/// renderers read.
#[verifier::external_body]
fn convert_tag_end(t: TagEnd) -> MdEvent {
    match t {
        TagEnd::Heading(_) => MdEvent::HeadingEnd,
        TagEnd::Paragraph => MdEvent::ParagraphEnd,
        TagEnd::Strong => MdEvent::StrongEnd,
        TagEnd::Emphasis => MdEvent::EmphasisEnd,
        TagEnd::CodeBlock => MdEvent::CodeBlockEnd,
        TagEnd::List(_) => MdEvent::ListEnd,
        TagEnd::Item => MdEvent::ItemEnd,
        _ => MdEvent::Other,
    }
}

/// Folds an event list into its styled spans.
pub fn render_line_spans(events: &Vec<MdEvent>) -> (r: Vec<Span>)
    ensures
        spans_view(r@) == spec_render_spans(events_view(events@)),
{
    let ghost all = events_view(events@);
    let mut spans: Vec<Span> = Vec::new();
    let mut cur = String::new();
    let mut strong = false;
    let mut emphasis = false;
    let mut heading: u8 = 0;
    proof {
        assert(spans_view(spans@) =~= Seq::<SpanView>::empty());
        assert(all.skip(0) =~= all);
    }
    let mut i: usize = 0;
    while i < events.len()
        invariant
            i <= events.len(),
            all == events_view(events@),
            all.len() == events.len(),
            render_events(all, render_init()) == render_events(
                all.skip(i as int),
                RenderState {
                    spans: spans_view(spans@),
                    cur: cur@,
                    strong: strong,
                    emphasis: emphasis,
                    heading: heading as int,
                },
            ),
        decreases events.len() - i,
    {
        let ghost st = RenderState {
            spans: spans_view(spans@),
            cur: cur@,
            strong: strong,
            emphasis: emphasis,
            heading: heading as int,
        };
        proof {
            assert(all[i as int] == events@[i as int]@);
            assert(all.skip(i as int)[0] == all[i as int]);
            assert(all.skip(i as int).drop_first() =~= all.skip(i as int + 1));
        }
        match &events[i] {
            MdEvent::HeadingStart(l) => {
                heading = *l;
            },
            MdEvent::StrongStart => {
                cut_exec(&mut spans, &mut cur, strong, emphasis, heading);
                strong = true;
            },
            MdEvent::StrongEnd => {
                cut_exec(&mut spans, &mut cur, strong, emphasis, heading);
                strong = false;
            },
            MdEvent::EmphasisStart => {
                cut_exec(&mut spans, &mut cur, strong, emphasis, heading);
                emphasis = true;
            },
            MdEvent::EmphasisEnd => {
                cut_exec(&mut spans, &mut cur, strong, emphasis, heading);
                emphasis = false;
            },
            MdEvent::ItemStart => {
                cur.append("\u{2022} ");
            },
            MdEvent::Text(t) => {
                cur.append(t.as_str());
            },
            MdEvent::Code(c) => {
                cut_exec(&mut spans, &mut cur, strong, emphasis, heading);
                let sp = Span {
                    text: c.clone(),
                    strong: false,
                    emphasis: false,
                    heading: 0,
                    code: true,
                };
                let ghost spv = sp@;
                spans.push(sp);
                proof {
                    assert(spans_view(spans@) =~= cut(st).push(spv));
                    assert(spv == (SpanView {
                        text: events@[i as int]->Code_0@,
                        strong: false,
                        emphasis: false,
                        heading: 0,
                        code: true,
                    }));
                }
            },
            _ => {},
        }
        proof {
            assert(render_step(st, all[i as int]) == (RenderState {
                spans: spans_view(spans@),
                cur: cur@,
                strong: strong,
                emphasis: emphasis,
                heading: heading as int,
            }));
        }
        i += 1;
    }
    proof {
        assert(all.skip(i as int).len() == 0);
    }
    cut_exec(&mut spans, &mut cur, strong, emphasis, heading);
    spans
}

/// Cuts the gathered text into a span, clearing the gathering buffer.
fn cut_exec(spans: &mut Vec<Span>, cur: &mut String, strong: bool, emphasis: bool, heading: u8)
    ensures
        spans_view(final(spans)@) == cut(
            RenderState {
                spans: spans_view(old(spans)@),
                cur: old(cur)@,
                strong: strong,
                emphasis: emphasis,
                heading: heading as int,
            },
        ),
        final(cur)@ == Seq::<char>::empty(),
{
    if !cur.as_str().is_empty() {
        let mut text = String::new();
        core::mem::swap(&mut text, cur);
        let sp = Span { text, strong: strong, emphasis: emphasis, heading: heading, code: false };
        let ghost spv = sp@;
        spans.push(sp);
        proof {
            assert(spans_view(spans@) =~= spans_view(old(spans)@).push(spv));
        }
    } else {
        proof {
            assert(cur@ =~= Seq::<char>::empty());
        }
    }
}

impl LiveEditor {
    /// The styled spans for one line of markdown; a line whose events
    /// yield no span at all is shown raw as one plain span.
    pub fn render_markdown_line(&self, line: &str) -> (r: Vec<Span>)
        ensures
            spans_view(r@) == spec_render_line(line@),
    {
        let events = parse_markdown_events(line);
        let spans = render_line_spans(&events);
        if spans.len() == 0 && line.unicode_len() > 0 {
            let mut raw: Vec<Span> = Vec::new();
            let sp = Span {
                text: String::from_str(line),
                strong: false,
                emphasis: false,
                heading: 0,
                code: false,
            };
            let ghost spv = sp@;
            raw.push(sp);
            proof {
                assert(spans_view(raw@) =~= seq![spv]);
            }
            raw
        } else {
            proof {
                assert(spans_view(spans@).len() == spans@.len());
            }
            spans
        }
    }
}

} // verus!
