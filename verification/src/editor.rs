//! The pure state of the markdown editor: the view mode and its toggle,
//! the main application state record, the component markers, and the two
//! text insertions the keyboard shortcuts perform. Rendering and event
//! plumbing live with the windowing shell, which drives these values.

use vstd::prelude::*;
use vstd::string::StringExecFns;

use crate::json_core::push_char;

verus! {

/// How the editor lays out its panes.
#[derive(Debug, Clone, Copy, PartialEq, Eq, Structural)]
pub enum ViewMode {
    /// Inline per-line preview, the default.
    Live,
    /// The raw text alone.
    Editor,
    /// The rendered view alone.
    Preview,
    /// Raw text and rendered view side by side.
    Split,
}

/// The plain-text editor pane.
pub struct Editor;

impl Editor {
    pub fn new() -> (r: Editor) {
        Editor
    }
}

/// The rendered-view pane.
pub struct Preview;

impl Preview {
    pub fn new() -> (r: Preview) {
        Preview
    }
}

/// The inline-preview pane: all lines are rendered but the focused one,
/// which is edited raw.
pub struct LiveEditor {
    /// The line being edited raw, if any.
    pub focused_line: Option<usize>,
}

impl LiveEditor {
    /// Starts with the first line focused.
    pub fn new() -> (r: LiveEditor)
        ensures
            r.focused_line == Some(0usize),
    {
        LiveEditor { focused_line: Some(0) }
    }
}

/// The main application state of the markdown editor.
pub struct MarkdownApp {
    /// The text being edited.
    pub content: String,
    /// The current pane layout.
    pub view_mode: ViewMode,
    /// The file the text came from, if any.
    pub current_file: Option<String>,
    /// Whether the text changed since it was last saved.
    pub modified: bool,
    /// The inline-preview pane's state.
    pub live_editor: LiveEditor,
}

impl MarkdownApp {
    /// A fresh editor: the welcome text, live view, no file, unmodified.
    pub fn new() -> (r: MarkdownApp)
        ensures
            r.content@ ==
                "# Welcome to Markdown Editor\n\nStart typing your **Markdown** here!\n\n## Features\n- Live preview\n- Typora-like shortcuts\n- Split view\n\nPress `Ctrl+/` to toggle between views."@,
            r.view_mode == ViewMode::Live,
            r.current_file is None,
            !r.modified,
            r.live_editor.focused_line == Some(0usize),
    {
        MarkdownApp {
            content: String::from_str(
                "# Welcome to Markdown Editor\n\nStart typing your **Markdown** here!\n\n## Features\n- Live preview\n- Typora-like shortcuts\n- Split view\n\nPress `Ctrl+/` to toggle between views.",
            ),
            view_mode: ViewMode::Live,
            current_file: None,
            modified: false,
            live_editor: LiveEditor::new(),
        }
    }

    /// Toggles between the raw editor and the live view: either rendered
    /// mode goes to the editor, the editor and the split view go to the
    /// live view. Nothing else changes.
    pub fn toggle_view(&mut self)
        ensures
            final(self).view_mode == (match old(self).view_mode {
                ViewMode::Live => ViewMode::Editor,
                ViewMode::Preview => ViewMode::Editor,
                ViewMode::Editor => ViewMode::Live,
                ViewMode::Split => ViewMode::Live,
            }),
            final(self).content == old(self).content,
            final(self).current_file == old(self).current_file,
            final(self).modified == old(self).modified,
            final(self).live_editor == old(self).live_editor,
    {
        self.view_mode = match self.view_mode {
            ViewMode::Live => ViewMode::Editor,
            ViewMode::Preview => ViewMode::Editor,
            ViewMode::Editor => ViewMode::Live,
            ViewMode::Split => ViewMode::Live,
        };
    }
}

/// A focus-changing edit event of the inline-preview pane, decoded from
/// the raw input by the widget layer.
pub enum LineEvent {
    /// Enter released on the focused line.
    Enter,
    /// Backspace pressed on the focused line.
    Backspace,
    ArrowUp,
    ArrowDown,
    /// A rendered line was clicked.
    ClickLine(usize),
    /// The blank area below the last line was clicked.
    ClickBelow,
}

impl LiveEditor {
    /// One edit event advances the pane's state machine: exactly one line
    /// is in raw-edit state at a time, and the transitions move that
    /// focus, insert an empty line after the focused one, or delete an
    /// emptied one. An event that does not apply leaves everything as it
    /// was.
    pub fn apply_line_event(&mut self, lines: &mut Vec<String>, ev: LineEvent)
        ensures
            match ev {
                LineEvent::Enter => match old(self).focused_line {
                    Some(i) => if (i as int) < old(lines)@.len() {
                        &&& final(lines)@.len() == old(lines)@.len() + 1
                        &&& final(lines)@ == old(lines)@.insert(
                            i as int + 1,
                            final(lines)@[i as int + 1],
                        )
                        &&& final(lines)@[i as int + 1]@ == Seq::<char>::empty()
                        &&& final(self).focused_line == Some((i + 1) as usize)
                    } else {
                        final(lines)@ == old(lines)@ && *final(self) == *old(self)
                    },
                    None => final(lines)@ == old(lines)@ && *final(self) == *old(self),
                },
                LineEvent::Backspace => match old(self).focused_line {
                    Some(i) => if 0 < i && (i as int) < old(lines)@.len() && old(lines)@[
                        i as int
                    ]@.len() == 0 {
                        &&& final(lines)@ == old(lines)@.remove(i as int)
                        &&& final(self).focused_line == Some((i - 1) as usize)
                    } else {
                        final(lines)@ == old(lines)@ && *final(self) == *old(self)
                    },
                    None => final(lines)@ == old(lines)@ && *final(self) == *old(self),
                },
                LineEvent::ArrowUp => final(lines)@ == old(lines)@ && final(self).focused_line
                    == (match old(self).focused_line {
                    Some(i) => if i > 0 {
                        Some((i - 1) as usize)
                    } else {
                        old(self).focused_line
                    },
                    None => old(self).focused_line,
                }),
                LineEvent::ArrowDown => final(lines)@ == old(lines)@ && final(self).focused_line
                    == (match old(self).focused_line {
                    Some(i) => if (i as int) + 1 < old(lines)@.len() {
                        Some((i + 1) as usize)
                    } else {
                        old(self).focused_line
                    },
                    None => old(self).focused_line,
                }),
                LineEvent::ClickLine(j) => final(lines)@ == old(lines)@ && final(self).focused_line == (if (j as int) < old(lines)@.len() {
                    Some(j)
                } else {
                    old(self).focused_line
                }),
                LineEvent::ClickBelow => if old(lines)@.len() == 0 || old(lines)@.last()@.len()
                    > 0 {
                    &&& final(lines)@.len() == old(lines)@.len() + 1
                    &&& final(lines)@ == old(lines)@.push(final(lines)@.last())
                    &&& final(lines)@.last()@ == Seq::<char>::empty()
                    &&& final(self).focused_line == Some((final(lines)@.len() - 1) as usize)
                } else {
                    &&& final(lines)@ == old(lines)@
                    &&& final(self).focused_line == Some((old(lines)@.len() - 1) as usize)
                },
            },
    {
        match ev {
            LineEvent::Enter => {
                if let Some(i) = self.focused_line {
                    if i < lines.len() {
                        let fresh = String::new();
                        proof {
                            old(lines)@.insert_ensures(i as int + 1, fresh);
                        }
                        lines.insert(i + 1, fresh);
                        self.focused_line = Some(i + 1);
                    }
                }
            },
            LineEvent::Backspace => {
                if let Some(i) = self.focused_line {
                    if 0 < i && i < lines.len() {
                        if lines[i].as_str().is_empty() {
                            lines.remove(i);
                            self.focused_line = Some(i - 1);
                        }
                    }
                }
            },
            LineEvent::ArrowUp => {
                if let Some(i) = self.focused_line {
                    if i > 0 {
                        self.focused_line = Some(i - 1);
                    }
                }
            },
            LineEvent::ArrowDown => {
                if let Some(i) = self.focused_line {
                    if lines.len() > 0 && i < lines.len() - 1 {
                        self.focused_line = Some(i + 1);
                    }
                }
            },
            LineEvent::ClickLine(j) => {
                if j < lines.len() {
                    self.focused_line = Some(j);
                }
            },
            LineEvent::ClickBelow => {
                let grow = match lines.last() {
                    Some(l) => !l.as_str().is_empty(),
                    None => true,
                };
                if grow {
                    let fresh = String::new();
                    lines.push(fresh);
                    proof {
                        assert(lines@.last()@ == Seq::<char>::empty());
                    }
                }
                self.focused_line = Some(lines.len() - 1);
            },
        }
    }
}

/// One keyboard shortcut of the editor, already decoded from its key and
/// the Ctrl modifier by the input layer.
pub enum Shortcut {
    ToggleView,
    OpenFile,
    SaveFile,
    Bold,
    Italic,
    Link,
    InlineCode,
    /// A heading shortcut with its level (1 to 6).
    Heading(usize),
}

/// What the shell still has to do after a shortcut was applied: run a
/// file dialog flow the editor state cannot perform itself.
pub enum ShellRequest {
    OpenFile,
    SaveFile,
}

impl MarkdownApp {
    /// Applies one shortcut: the view toggle and the formatting
    /// insertions act on the state here and mark the text modified, while
    /// the open and save shortcuts are handed back to the shell, which
    /// owns the dialogs and the files.
    pub fn apply_shortcut(&mut self, s: Shortcut) -> (r: Option<ShellRequest>)
        ensures
            match s {
                Shortcut::ToggleView => {
                    &&& r is None
                    &&& final(self).view_mode == (match old(self).view_mode {
                        ViewMode::Live => ViewMode::Editor,
                        ViewMode::Preview => ViewMode::Editor,
                        ViewMode::Editor => ViewMode::Live,
                        ViewMode::Split => ViewMode::Live,
                    })
                    &&& final(self).content == old(self).content
                    &&& final(self).modified == old(self).modified
                },
                Shortcut::OpenFile => r == Some(ShellRequest::OpenFile) && *final(self) == *old(self),
                Shortcut::SaveFile => r == Some(ShellRequest::SaveFile) && *final(self) == *old(self),
                Shortcut::Bold => r is None && final(self).content@ == old(self).content@ + "**"@
                    + "text"@ + "**"@ && final(self).modified && final(self).view_mode == old(self).view_mode,
                Shortcut::Italic => r is None && final(self).content@ == old(self).content@ + "*"@
                    + "text"@ + "*"@ && final(self).modified && final(self).view_mode == old(self).view_mode,
                Shortcut::Link => r is None && final(self).content@ == old(self).content@ + "["@
                    + "text"@ + "](url)"@ && final(self).modified && final(self).view_mode == old(self).view_mode,
                Shortcut::InlineCode => r is None && final(self).content@ == old(self).content@
                    + "`"@ + "text"@ + "`"@ && final(self).modified && final(self).view_mode
                    == old(self).view_mode,
                Shortcut::Heading(l) => r is None && final(self).content@ == old(self).content@
                    + seq!['\n'] + hashes(l as int) + " Heading\n"@ && final(self).modified
                    && final(self).view_mode == old(self).view_mode,
            },
    {
        match s {
            Shortcut::ToggleView => {
                self.toggle_view();
                None
            },
            Shortcut::OpenFile => Some(ShellRequest::OpenFile),
            Shortcut::SaveFile => Some(ShellRequest::SaveFile),
            Shortcut::Bold => {
                insert_format_markers(&mut self.content, "**", "**");
                self.modified = true;
                None
            },
            Shortcut::Italic => {
                insert_format_markers(&mut self.content, "*", "*");
                self.modified = true;
                None
            },
            Shortcut::Link => {
                insert_format_markers(&mut self.content, "[", "](url)");
                self.modified = true;
                None
            },
            Shortcut::InlineCode => {
                insert_format_markers(&mut self.content, "`", "`");
                self.modified = true;
                None
            },
            Shortcut::Heading(l) => {
                insert_heading(&mut self.content, l);
                self.modified = true;
                None
            },
        }
    }
}

/// A run of `l` number signs.
pub open spec fn hashes(l: int) -> Seq<char> {
    Seq::new(l as nat, |i: int| '#')
}

/// Appends a formatting sample: the prefix, the word `text`, the suffix
/// (the shortcut handler cannot read the real selection).
pub fn insert_format_markers(content: &mut String, prefix: &str, suffix: &str)
    ensures
        final(content)@ == old(content)@ + prefix@ + "text"@ + suffix@,
{
    content.append(prefix);
    content.append("text");
    content.append(suffix);
}

/// Appends a heading line of the given level.
pub fn insert_heading(content: &mut String, level: usize)
    ensures
        final(content)@ == old(content)@ + seq!['\n'] + hashes(level as int) + " Heading\n"@,
{
    push_char(content, '\n');
    let mut k: usize = 0;
    while k < level
        invariant
            k <= level,
            content@ == old(content)@ + seq!['\n'] + hashes(k as int),
        decreases level - k,
    {
        push_char(content, '#');
        proof {
            assert(hashes(k as int + 1) =~= hashes(k as int).push('#'));
            assert(content@ =~= old(content)@ + seq!['\n'] + hashes(k as int + 1));
        }
        k += 1;
    }
    content.append(" Heading\n");
    proof {
        assert(content@ =~= old(content)@ + seq!['\n'] + hashes(level as int) + " Heading\n"@);
    }
}

// ---------------------------------------------------------------------------
// The line buffer
// ---------------------------------------------------------------------------

/// The mathematical image of a line buffer.
pub open spec fn lines_view(v: Seq<String>) -> Seq<Seq<char>> {
    v.map_values(|s: String| s@)
}

/// The position of the first line feed in `s`, or `s.len()` when there is
/// none.
pub open spec fn find_nl(s: Seq<char>) -> int
    decreases s.len(),
{
    if s.len() == 0 {
        0
    } else if s[0] == '\n' {
        0
    } else {
        1 + find_nl(s.drop_first())
    }
}

proof fn lemma_find_nl(s: Seq<char>)
    ensures
        0 <= find_nl(s) <= s.len(),
        find_nl(s) < s.len() ==> s[find_nl(s)] == '\n',
        forall|m: int| 0 <= m < find_nl(s) ==> s[m] != '\n',
    decreases s.len(),
{
    if s.len() > 0 && s[0] != '\n' {
        lemma_find_nl(s.drop_first());
        assert(forall|m: int| 0 <= m < find_nl(s) ==> s[m] != '\n') by {
            assert(forall|m: int| 1 <= m < find_nl(s) ==> s[m] == s.drop_first()[m - 1]);
        }
    }
}

/// The first line feed stands exactly where no earlier character is one.
proof fn lemma_find_nl_at(s: Seq<char>, k: int)
    requires
        0 <= k <= s.len(),
        forall|m: int| 0 <= m < k ==> s[m] != '\n',
        k < s.len() ==> s[k] == '\n',
    ensures
        find_nl(s) == k,
    decreases s.len(),
{
    if s.len() > 0 && s[0] != '\n' {
        assert(k > 0);
        assert(forall|m: int| 0 <= m < k - 1 ==> s.drop_first()[m] != '\n');
        lemma_find_nl_at(s.drop_first(), k - 1);
    }
}

/// A line piece without its trailing carriage return, if it has one.
pub open spec fn strip_cr(p: Seq<char>) -> Seq<char> {
    if p.len() > 0 && p.last() == '\r' {
        p.drop_last()
    } else {
        p
    }
}

/// The lines of a text, split at line feeds: a carriage return before a
/// line feed belongs to the ending, and a final line ending is optional.
pub open spec fn split_lines_spec(s: Seq<char>) -> Seq<Seq<char>>
    decreases s.len(),
    via split_lines_dec
{
    if s.len() == 0 {
        Seq::empty()
    } else {
        let k = find_nl(s);
        if k == s.len() {
            seq![s]
        } else {
            seq![strip_cr(s.take(k))] + split_lines_spec(s.skip(k + 1))
        }
    }
}

#[via_fn]
proof fn split_lines_dec(s: Seq<char>) {
    lemma_find_nl(s);
}

/// The lines joined back with single line feeds.
pub open spec fn join_lines_spec(ls: Seq<Seq<char>>) -> Seq<char>
    decreases ls.len(),
{
    if ls.len() == 0 {
        Seq::empty()
    } else if ls.len() == 1 {
        ls[0]
    } else {
        join_lines_spec(ls.drop_last()) + seq!['\n'] + ls.last()
    }
}

/// Splits the editor's text into its line buffer.
#[verifier::rlimit(100)]
pub fn content_to_lines(content: &str) -> (r: Vec<String>)
    ensures
        lines_view(r@) == split_lines_spec(content@),
{
    let n = content.unicode_len();
    let mut acc: Vec<String> = Vec::new();
    let mut i: usize = 0;
    proof {
        assert(lines_view(acc@) =~= Seq::<Seq<char>>::empty());
        assert(content@.skip(0) =~= content@);
    }
    while i < n
        invariant
            i <= n,
            n == content@.len(),
            split_lines_spec(content@) == lines_view(acc@) + split_lines_spec(
                content@.skip(i as int),
            ),
        decreases n - i,
    {
        let ghost suf = content@.skip(i as int);
        // scan for the next line feed
        let mut j = i;
        while j < n && content.get_char(j) != '\n'
            invariant
                i <= j <= n,
                n == content@.len(),
                forall|m: int| i <= m < j ==> content@[m] != '\n',
            decreases n - j,
        {
            j += 1;
        }
        proof {
            assert(forall|m: int| 0 <= m < j - i ==> suf[m] != '\n');
            if j < n {
                assert(suf[j - i] == content@[j as int]);
            }
            lemma_find_nl_at(suf, j - i);
        }
        // the piece runs to the line feed, less a carriage return before it
        let end = if j < n && j > i && content.get_char(j - 1) == '\r' {
            j - 1
        } else {
            j
        };
        let mut piece = String::new();
        let mut m = i;
        while m < end
            invariant
                i <= m <= end <= n,
                n == content@.len(),
                piece@ == content@.subrange(i as int, m as int),
            decreases end - m,
        {
            push_char(&mut piece, content.get_char(m));
            proof {
                assert(content@.subrange(i as int, m as int + 1) =~= content@.subrange(
                    i as int,
                    m as int,
                ).push(content@[m as int]));
            }
            m += 1;
        }
        let ghost pv = piece@;
        let ghost before = lines_view(acc@);
        acc.push(piece);
        proof {
            assert(suf.take(j - i) =~= content@.subrange(i as int, j as int));
            if j < n {
                assert(strip_cr(suf.take(j - i)) =~= content@.subrange(i as int, end as int));
                assert(pv == strip_cr(suf.take(j - i)));
                assert(suf.skip(j - i + 1) =~= content@.skip(j as int + 1));
                assert(split_lines_spec(suf) == seq![pv] + split_lines_spec(
                    content@.skip(j as int + 1),
                ));
            } else {
                assert(end == j);
                assert(pv =~= suf);
                assert(split_lines_spec(suf) == seq![pv]);
                assert(split_lines_spec(content@.skip(j as int)).len() == 0);
            }
            assert(lines_view(acc@) =~= before.push(pv));
        }
        let next = if j < n {
            j + 1
        } else {
            j
        };
        proof {
            assert(lines_view(acc@) + split_lines_spec(content@.skip(next as int)) =~= before + (
            seq![pv] + split_lines_spec(content@.skip(next as int))));
            assert(split_lines_spec(content@) == lines_view(acc@) + split_lines_spec(
                content@.skip(next as int),
            ));
        }
        i = next;
    }
    proof {
        assert(split_lines_spec(content@.skip(i as int)).len() == 0);
        assert(lines_view(acc@) + split_lines_spec(content@.skip(i as int)) =~= lines_view(acc@));
    }
    acc
}

/// Joins the line buffer back into the editor's text.
pub fn lines_to_content(lines: &Vec<String>) -> (r: String)
    ensures
        r@ == join_lines_spec(lines_view(lines@)),
{
    let ghost ls = lines_view(lines@);
    let mut out = String::new();
    let mut i: usize = 0;
    while i < lines.len()
        invariant
            i <= lines.len(),
            ls == lines_view(lines@),
            ls.len() == lines.len(),
            out@ == join_lines_spec(ls.take(i as int)),
        decreases lines.len() - i,
    {
        if i > 0 {
            push_char(&mut out, '\n');
        }
        out.append(lines[i].as_str());
        proof {
            assert(ls[i as int] == lines@[i as int]@);
            assert(ls.take(i as int + 1).drop_last() =~= ls.take(i as int));
            assert(ls.take(i as int + 1).last() == ls[i as int]);
            if i == 0 {
                assert(join_lines_spec(ls.take(1)) == ls[0]);
                assert(out@ =~= join_lines_spec(ls.take(1)));
            } else {
                assert(join_lines_spec(ls.take(i as int + 1)) == join_lines_spec(ls.take(i as int))
                    + seq!['\n'] + ls[i as int]);
                assert(out@ =~= join_lines_spec(ls.take(i as int + 1)));
            }
        }
        i += 1;
    }
    proof {
        assert(ls.take(ls.len() as int) =~= ls);
    }
    out
}

} // verus!
