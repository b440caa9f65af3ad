//! The executable side of the persisted document: writers that lay a store
//! down as JSON text, and the scanner that reads such text back, each
//! proved against the grammar of `json_doc`.

use vstd::prelude::*;
use vstd::string::StrSliceExecFns;
use vstd::string::StringExecFns;

use crate::json_core::enc_bool;
use crate::json_core::enc_int;
use crate::json_core::enc_str;
use crate::json_core::push_char;
use crate::json_core::p_bool;
use crate::json_core::p_int;
use crate::json_core::p_string;
use crate::json_core::p_ws;
use crate::json_core::skip_ws;
use crate::json_core::write_bool;
use crate::json_core::write_i32;
use crate::json_core::write_json_string;
use crate::json_core::write_u32;
use crate::json_doc::compact_style;
use crate::json_doc::empty_note_acc;
use crate::json_doc::empty_window_acc;
use crate::json_doc::enc_note;
use crate::json_doc::enc_notes_arr;
use crate::json_doc::enc_notes_list;
use crate::json_doc::enc_pair;
use crate::json_doc::enc_store;
use crate::json_doc::enc_window;
use crate::json_doc::in_i32;
use crate::json_doc::in_u32;
use crate::json_doc::nl_ind;
use crate::json_doc::pretty_style;
use crate::json_doc::spaces;
use crate::json_doc::spec_load;
use crate::json_doc::spec_parse_note;
use crate::json_doc::spec_parse_store;
use crate::json_doc::sp_note_obj;
use crate::json_doc::sp_note_pairs;
use crate::json_doc::sp_note_value;
use crate::json_doc::sp_notes_arr;
use crate::json_doc::sp_notes_elems;
use crate::json_doc::sp_store;
use crate::json_doc::sp_window_obj;
use crate::json_doc::sp_window_pairs;
use crate::json_doc::sp_window_value;
use crate::json_doc::NoteAcc;
use crate::json_doc::WindowAcc;
use crate::json_doc::WsStyle;
use crate::notes::default_color;
use crate::notes::notes_view;
use crate::notes::Note;
use crate::notes::NotesStore;
use crate::notes::NoteView;
use crate::notes::WindowState;

verus! {

/// The whitespace style a writer uses: pretty or compact.
pub open spec fn style_of(pretty: bool) -> WsStyle {
    if pretty {
        pretty_style()
    } else {
        compact_style()
    }
}

/// Appends a line break and `m` spaces.
fn write_nl_ind(out: &mut String, m: usize)
    ensures
        final(out)@ == old(out)@ + nl_ind(m as int),
{
    push_char(out, '\n');
    let mut k: usize = 0;
    while k < m
        invariant
            k <= m,
            out@ == old(out)@ + seq!['\n'] + spaces(k as int),
        decreases m - k,
    {
        push_char(out, ' ');
        proof {
            assert(spaces(k as int + 1) =~= spaces(k as int).push(' '));
            assert(out@ =~= old(out)@ + seq!['\n'] + spaces(k as int + 1));
        }
        k += 1;
    }
    proof {
        assert(out@ =~= old(out)@ + nl_ind(m as int));
    }
}

/// Appends the object for a window geometry.
#[verifier::rlimit(100)]
fn write_window(out: &mut String, v: &WindowState, pretty: bool)
    ensures
        final(out)@ == old(out)@ + enc_window(v@, style_of(pretty)),
{
    let ghost w = style_of(pretty);
    push_char(out, '{');
    if pretty {
        write_nl_ind(out, 8);
    }
    write_json_string(out, "x");
    push_char(out, ':');
    if pretty {
        push_char(out, ' ');
    }
    write_i32(out, v.x);
    proof {
        assert(out@ =~= old(out)@ + seq!['{'] + w.fw + enc_pair("x"@, w.sp, enc_int(v@.x)));
    }
    let ghost o1 = out@;
    push_char(out, ',');
    if pretty {
        write_nl_ind(out, 8);
    }
    write_json_string(out, "y");
    push_char(out, ':');
    if pretty {
        push_char(out, ' ');
    }
    write_i32(out, v.y);
    proof {
        assert(out@ =~= o1 + seq![','] + w.fw + enc_pair("y"@, w.sp, enc_int(v@.y)));
    }
    let ghost o2 = out@;
    push_char(out, ',');
    if pretty {
        write_nl_ind(out, 8);
    }
    write_json_string(out, "width");
    push_char(out, ':');
    if pretty {
        push_char(out, ' ');
    }
    write_u32(out, v.width);
    proof {
        assert(out@ =~= o2 + seq![','] + w.fw + enc_pair("width"@, w.sp, enc_int(v@.width)));
    }
    let ghost o3 = out@;
    push_char(out, ',');
    if pretty {
        write_nl_ind(out, 8);
    }
    write_json_string(out, "height");
    push_char(out, ':');
    if pretty {
        push_char(out, ' ');
    }
    write_u32(out, v.height);
    proof {
        assert(out@ =~= o3 + seq![','] + w.fw + enc_pair("height"@, w.sp, enc_int(v@.height)));
    }
    if pretty {
        write_nl_ind(out, 6);
    }
    push_char(out, '}');
    proof {
        assert(out@ =~= old(out)@ + enc_window(v@, w));
    }
}

/// Stitches the eight written chunks of a note object back into the one
/// encoding; kept apart so the concatenation reasoning stays affordable.
#[verifier::rlimit(100)]
proof fn lemma_note_chunks(
    o0: Seq<char>,
    o1: Seq<char>,
    o2: Seq<char>,
    o3: Seq<char>,
    o4: Seq<char>,
    o5: Seq<char>,
    o6: Seq<char>,
    o7: Seq<char>,
    o8: Seq<char>,
    n: NoteView,
    w: WsStyle,
)
    requires
        o1 == o0 + seq!['{'] + w.f + enc_pair("id"@, w.sp, enc_str(n.id)),
        o2 == o1 + seq![','] + w.f + enc_pair("title"@, w.sp, enc_str(n.title)),
        o3 == o2 + seq![','] + w.f + enc_pair("content"@, w.sp, enc_str(n.content)),
        o4 == o3 + seq![','] + w.f + enc_pair("created_at"@, w.sp, enc_str(n.created_at)),
        o5 == o4 + seq![','] + w.f + enc_pair("updated_at"@, w.sp, enc_str(n.updated_at)),
        o6 == o5 + seq![','] + w.f + enc_pair("window_state"@, w.sp, enc_window(n.window_state, w)),
        o7 == o6 + seq![','] + w.f + enc_pair("color"@, w.sp, enc_str(n.color)),
        o8 == o7 + seq![','] + w.f + enc_pair("deleted"@, w.sp, enc_bool(n.deleted)) + w.c + seq![
            '}'
        ],
    ensures
        o8 == o0 + enc_note(n, w),
{
    assert(o8 =~= o0 + enc_note(n, w));
}

/// Appends the object for one note.
#[verifier::rlimit(100)]
fn write_note(out: &mut String, v: &Note, pretty: bool)
    ensures
        final(out)@ == old(out)@ + enc_note(v@, style_of(pretty)),
{
    let ghost w = style_of(pretty);
    write_note_pair_str(out, "id", self_str(&v.id), pretty, true);
    let ghost o1 = out@;
    write_note_pair_str(out, "title", self_str(&v.title), pretty, false);
    let ghost o2 = out@;
    write_note_pair_str(out, "content", self_str(&v.content), pretty, false);
    let ghost o3 = out@;
    write_note_pair_str(out, "created_at", self_str(&v.created_at), pretty, false);
    let ghost o4 = out@;
    write_note_pair_str(out, "updated_at", self_str(&v.updated_at), pretty, false);
    let ghost o5 = out@;
    push_char(out, ',');
    if pretty {
        write_nl_ind(out, 6);
    }
    write_json_string(out, "window_state");
    push_char(out, ':');
    if pretty {
        push_char(out, ' ');
    }
    write_window(out, &v.window_state, pretty);
    proof {
        assert(out@ =~= o5 + seq![','] + w.f + enc_pair(
            "window_state"@,
            w.sp,
            enc_window(v@.window_state, w),
        ));
    }
    let ghost o6 = out@;
    write_note_pair_str(out, "color", self_str(&v.color), pretty, false);
    let ghost o7 = out@;
    push_char(out, ',');
    if pretty {
        write_nl_ind(out, 6);
    }
    write_json_string(out, "deleted");
    push_char(out, ':');
    if pretty {
        push_char(out, ' ');
    }
    write_bool(out, v.deleted);
    if pretty {
        write_nl_ind(out, 4);
    }
    push_char(out, '}');
    proof {
        assert(out@ =~= o7 + seq![','] + w.f + enc_pair("deleted"@, w.sp, enc_bool(v@.deleted))
            + w.c + seq!['}']);
        lemma_note_chunks(old(out)@, o1, o2, o3, o4, o5, o6, o7, out@, v@, w);
    }
}

/// Appends one string-valued pair of a note object: the opening brace or a
/// comma, the pair whitespace, then `"key": "value"`.
fn write_note_pair_str(out: &mut String, key: &str, val: &str, pretty: bool, first: bool)
    ensures
        final(out)@ == old(out)@ + (if first {
            seq!['{']
        } else {
            seq![',']
        }) + style_of(pretty).f + enc_pair(key@, style_of(pretty).sp, enc_str(val@)),
{
    if first {
        push_char(out, '{');
    } else {
        push_char(out, ',');
    }
    if pretty {
        write_nl_ind(out, 6);
    }
    write_json_string(out, key);
    push_char(out, ':');
    if pretty {
        push_char(out, ' ');
    }
    write_json_string(out, val);
    proof {
        assert(out@ =~= old(out)@ + (if first {
            seq!['{']
        } else {
            seq![',']
        }) + style_of(pretty).f + enc_pair(key@, style_of(pretty).sp, enc_str(val@)));
    }
}


/// A `String` as a string slice.
fn self_str(s: &String) -> (r: &str)
    ensures
        r@ == s@,
{
    s.as_str()
}

/// Appends the element separator of the notes array: a comma and the
/// element whitespace.
fn write_elem_sep(out: &mut String, pretty: bool)
    ensures
        final(out)@ == old(out)@ + seq![','] + style_of(pretty).g,
{
    push_char(out, ',');
    if pretty {
        write_nl_ind(out, 4);
    }
    proof {
        assert(out@ =~= old(out)@ + seq![','] + style_of(pretty).g);
    }
}

/// One more element extends the encoded list by a separator and the
/// element's object; kept apart so the concatenation stays affordable.
#[verifier::rlimit(100)]
proof fn lemma_arr_step(
    o0: Seq<char>,
    oprev: Seq<char>,
    oc: Seq<char>,
    s: Seq<NoteView>,
    i: int,
    w: WsStyle,
)
    requires
        0 < i < s.len(),
        oprev == o0 + seq!['['] + w.g + enc_notes_list(s.take(i), w),
        oc == oprev + seq![','] + w.g + enc_note(s[i], w),
    ensures
        oc == o0 + seq!['['] + w.g + enc_notes_list(s.take(i + 1), w),
{
    assert(s.take(i + 1).drop_last() =~= s.take(i));
    assert(s.take(i + 1).last() == s[i]);
    assert(s.take(i + 1).len() == i + 1);
    assert(enc_notes_list(s.take(i + 1), w) == enc_notes_list(s.take(i), w) + seq![','] + w.g
        + enc_note(s[i], w));
    assert(oc =~= o0 + seq!['['] + w.g + enc_notes_list(s.take(i + 1), w));
}

/// The closing of the notes array appended to the encoded list gives the
/// encoded array.
#[verifier::rlimit(100)]
proof fn lemma_arr_close(o0: Seq<char>, oc: Seq<char>, s: Seq<NoteView>, w: WsStyle)
    requires
        s.len() > 0,
        oc == o0 + seq!['['] + w.g + enc_notes_list(s, w) + w.ca + seq![']'],
    ensures
        oc == o0 + enc_notes_arr(s, w),
{
    assert(oc =~= o0 + enc_notes_arr(s, w));
}

/// Appends the array of note objects.
#[verifier::rlimit(100)]
fn write_notes_arr(out: &mut String, v: &Vec<Note>, pretty: bool)
    ensures
        final(out)@ == old(out)@ + enc_notes_arr(notes_view(v@), style_of(pretty)),
{
    let ghost w = style_of(pretty);
    let ghost s = notes_view(v@);
    if v.len() == 0 {
        push_char(out, '[');
        push_char(out, ']');
        proof {
            assert(out@ =~= old(out)@ + enc_notes_arr(s, w));
        }
        return;
    }
    push_char(out, '[');
    if pretty {
        write_nl_ind(out, 4);
    }
    proof {
        assert(out@ =~= old(out)@ + seq!['['] + w.g);
    }
    let ghost o0 = old(out)@;
    let mut i: usize = 0;
    while i < v.len()
        invariant
            0 < v.len(),
            i <= v.len(),
            s == notes_view(v@),
            s.len() == v.len(),
            w == style_of(pretty),
            i > 0 ==> out@ == o0 + seq!['['] + w.g + enc_notes_list(s.take(i as int), w),
            i == 0 ==> out@ == o0 + seq!['['] + w.g,
        decreases v.len() - i,
    {
        proof {
            assert(s[i as int] == v@[i as int]@);
        }
        if i > 0 {
            let ghost oprev = out@;
            write_elem_sep(out, pretty);
            write_note(out, &v[i], pretty);
            proof {
                assert(out@ == oprev + seq![','] + w.g + enc_note(s[i as int], w));
                lemma_arr_step(o0, oprev, out@, s, i as int, w);
            }
        } else {
            write_note(out, &v[i], pretty);
            proof {
                assert(s.take(1).len() == 1);
                assert(s.take(1)[0] == s[0]);
                assert(enc_notes_list(s.take(1), w) == enc_note(s[0], w));
                assert(out@ == o0 + seq!['['] + w.g + enc_notes_list(s.take(1), w));
            }
        }
        i += 1;
    }
    if pretty {
        write_nl_ind(out, 2);
    }
    push_char(out, ']');
    proof {
        assert(s.take(s.len() as int) =~= s);
        assert(out@ =~= o0 + seq!['['] + w.g + enc_notes_list(s, w) + w.ca + seq![']']);
        lemma_arr_close(o0, out@, s, w);
    }
}


/// Appends the whole persisted document.
#[verifier::rlimit(100)]
fn write_store(out: &mut String, v: &NotesStore, pretty: bool)
    ensures
        final(out)@ == old(out)@ + enc_store(v@, style_of(pretty)),
{
    let ghost w = style_of(pretty);
    push_char(out, '{');
    if pretty {
        write_nl_ind(out, 2);
    }
    write_json_string(out, "notes");
    push_char(out, ':');
    if pretty {
        push_char(out, ' ');
    }
    write_notes_arr(out, &v.notes, pretty);
    if pretty {
        write_nl_ind(out, 0);
    }
    push_char(out, '}');
    proof {
        assert(out@ =~= old(out)@ + enc_store(v@, w));
    }
}

impl WindowState {
    /// This geometry as one compact JSON object.
    pub fn to_json(&self) -> (r: String)
        ensures
            r@ == enc_window(self@, compact_style()),
    {
        let mut out = String::new();
        write_window(&mut out, self, false);
        proof {
            assert(out@ =~= enc_window(self@, compact_style()));
        }
        out
    }
}

impl Note {
    /// This note as one compact JSON object.
    pub fn to_json(&self) -> (r: String)
        ensures
            r@ == enc_note(self@, compact_style()),
    {
        let mut out = String::new();
        write_note(&mut out, self, false);
        proof {
            assert(out@ =~= enc_note(self@, compact_style()));
        }
        out
    }
}

impl NotesStore {
    /// The persisted document for this store, compact.
    pub fn to_json(&self) -> (r: String)
        ensures
            r@ == enc_store(self@, compact_style()),
    {
        let mut out = String::new();
        write_store(&mut out, self, false);
        proof {
            assert(out@ =~= enc_store(self@, compact_style()));
        }
        out
    }

    /// The persisted document for this store, pretty-printed with two
    /// spaces of indentation per level.
    pub fn to_json_pretty(&self) -> (r: String)
        ensures
            r@ == enc_store(self@, pretty_style()),
    {
        let mut out = String::new();
        write_store(&mut out, self, true);
        proof {
            assert(out@ =~= enc_store(self@, pretty_style()));
        }
        out
    }
}

// ---------------------------------------------------------------------------
// The document scanner
// ---------------------------------------------------------------------------

/// The window fields collected so far by the scanner.
struct WindowPartial {
    x: Option<i32>,
    y: Option<i32>,
    width: Option<u32>,
    height: Option<u32>,
}

/// The spec-level image of a `WindowPartial`.
spec fn wacc(p: WindowPartial) -> WindowAcc {
    WindowAcc {
        x: match p.x {
            Some(v) => Some(v as int),
            None => None,
        },
        y: match p.y {
            Some(v) => Some(v as int),
            None => None,
        },
        width: match p.width {
            Some(v) => Some(v as int),
            None => None,
        },
        height: match p.height {
            Some(v) => Some(v as int),
            None => None,
        },
    }
}

/// The note fields collected so far by the scanner.
struct NotePartial {
    id: Option<String>,
    title: Option<String>,
    content: Option<String>,
    created_at: Option<String>,
    updated_at: Option<String>,
    window_state: Option<WindowState>,
    color: Option<String>,
    deleted: Option<bool>,
}

/// The spec-level image of a `NotePartial`.
spec fn nacc(p: NotePartial) -> NoteAcc {
    NoteAcc {
        id: match p.id {
            Some(v) => Some(v@),
            None => None,
        },
        title: match p.title {
            Some(v) => Some(v@),
            None => None,
        },
        content: match p.content {
            Some(v) => Some(v@),
            None => None,
        },
        created_at: match p.created_at {
            Some(v) => Some(v@),
            None => None,
        },
        updated_at: match p.updated_at {
            Some(v) => Some(v@),
            None => None,
        },
        window_state: match p.window_state {
            Some(v) => Some(v@),
            None => None,
        },
        color: match p.color {
            Some(v) => Some(v@),
            None => None,
        },
        deleted: match p.deleted {
            Some(v) => Some(v),
            None => None,
        },
    }
}

/// Scans the pairs of a window object (the part after the opening brace),
/// up to and including the closing brace.
#[verifier::rlimit(100)]
fn pd_window_pairs(s: &str, n: usize, i: usize) -> (r: Option<(WindowPartial, usize)>)
    requires
        n == s@.len(),
        i <= n,
    ensures
        match r {
            Some((a, j)) => i < j <= n && sp_window_pairs(s@.skip(i as int), empty_window_acc())
                == Some((wacc(a), s@.skip(j as int))),
            None => sp_window_pairs(s@.skip(i as int), empty_window_acc()) is None,
        },
{
    let kx = String::from_str("x");
    let ky = String::from_str("y");
    let kw = String::from_str("width");
    let kh = String::from_str("height");
    let mut acc = WindowPartial { x: None, y: None, width: None, height: None };
    let mut j = i;
    while j < n
        invariant
            i <= j <= n,
            n == s@.len(),
            kx@ == "x"@,
            ky@ == "y"@,
            kw@ == "width"@,
            kh@ == "height"@,
            sp_window_pairs(s@.skip(i as int), empty_window_acc()) == sp_window_pairs(
                s@.skip(j as int),
                wacc(acc),
            ),
        decreases n - j,
    {
        let ghost a0 = wacc(acc);
        let j1 = p_ws(s, n, j);
        let (key, j2) = match p_string(s, n, j1) {
            None => {
                return None;
            },
            Some(p) => p,
        };
        let j3 = p_ws(s, n, j2);
        if j3 >= n || s.get_char(j3) != ':' {
            proof {
                if j3 < n {
                    assert(s@.skip(j3 as int)[0] == s@[j3 as int]);
                }
            }
            return None;
        }
        proof {
            assert(s@.skip(j3 as int)[0] == s@[j3 as int]);
            assert(s@.skip(j3 as int).drop_first() =~= s@.skip(j3 as int + 1));
        }
        let j4 = p_ws(s, n, j3 + 1);
        let mut j5: usize = 0;
        if key == kx {
            let (v, jv) = match p_int(s, n, j4) {
                None => {
                    return None;
                },
                Some(p) => p,
            };
            if !(acc.x.is_none() && -2147483648i64 <= v && v <= 2147483647i64) {
                return None;
            }
            acc.x = Some(v as i32);
            j5 = jv;
        } else if key == ky {
            let (v, jv) = match p_int(s, n, j4) {
                None => {
                    return None;
                },
                Some(p) => p,
            };
            if !(acc.y.is_none() && -2147483648i64 <= v && v <= 2147483647i64) {
                return None;
            }
            acc.y = Some(v as i32);
            j5 = jv;
        } else if key == kw {
            let (v, jv) = match p_int(s, n, j4) {
                None => {
                    return None;
                },
                Some(p) => p,
            };
            if !(acc.width.is_none() && 0i64 <= v && v <= 4294967295i64) {
                return None;
            }
            acc.width = Some(v as u32);
            j5 = jv;
        } else if key == kh {
            let (v, jv) = match p_int(s, n, j4) {
                None => {
                    return None;
                },
                Some(p) => p,
            };
            if !(acc.height.is_none() && 0i64 <= v && v <= 4294967295i64) {
                return None;
            }
            acc.height = Some(v as u32);
            j5 = jv;
        } else {
            return None;
        }
        proof {
            assert(sp_window_value(key@, s@.skip(j4 as int), a0) == Some(
                (wacc(acc), s@.skip(j5 as int)),
            ));
        }
        let j6 = p_ws(s, n, j5);
        if j6 >= n {
            return None;
        }
        let c = s.get_char(j6);
        proof {
            assert(s@.skip(j6 as int)[0] == s@[j6 as int]);
            assert(s@.skip(j6 as int).drop_first() =~= s@.skip(j6 as int + 1));
        }
        if c == ',' {
            proof {
                assert(sp_window_pairs(s@.skip(j as int), a0) == sp_window_pairs(
                    s@.skip(j6 as int + 1),
                    wacc(acc),
                ));
            }
            j = j6 + 1;
        } else if c == '}' {
            proof {
                assert(sp_window_pairs(s@.skip(j as int), a0) == Some(
                    (wacc(acc), s@.skip(j6 as int + 1)),
                ));
            }
            return Some((acc, j6 + 1));
        } else {
            return None;
        }
    }
    proof {
        assert(s@.skip(j as int).len() == 0);
        assert(skip_ws(s@.skip(j as int)) == s@.skip(j as int));
    }
    None
}

/// Scans a whole window object, opening brace first.
fn pd_window_obj(s: &str, n: usize, i: usize) -> (r: Option<(WindowState, usize)>)
    requires
        n == s@.len(),
        i <= n,
    ensures
        match r {
            Some((w, j)) => i < j <= n && sp_window_obj(s@.skip(i as int)) == Some(
                (w@, s@.skip(j as int)),
            ),
            None => sp_window_obj(s@.skip(i as int)) is None,
        },
{
    if i >= n || s.get_char(i) != '{' {
        proof {
            if i < n {
                assert(s@.skip(i as int)[0] == s@[i as int]);
            }
        }
        return None;
    }
    proof {
        assert(s@.skip(i as int)[0] == s@[i as int]);
        assert(s@.skip(i as int).drop_first() =~= s@.skip(i as int + 1));
    }
    match pd_window_pairs(s, n, i + 1) {
        None => None,
        Some((a, j)) => match (a.x, a.y, a.width, a.height) {
            (Some(x), Some(y), Some(width), Some(height)) => {
                let w = WindowState { x, y, width, height };
                Some((w, j))
            },
            _ => None,
        },
    }
}

/// Scans the pairs of a note object (the part after the opening brace), up
/// to and including the closing brace.
#[verifier::rlimit(100)]
fn pd_note_pairs(s: &str, n: usize, i: usize) -> (r: Option<(NotePartial, usize)>)
    requires
        n == s@.len(),
        i <= n,
    ensures
        match r {
            Some((a, j)) => i < j <= n && sp_note_pairs(s@.skip(i as int), empty_note_acc())
                == Some((nacc(a), s@.skip(j as int))),
            None => sp_note_pairs(s@.skip(i as int), empty_note_acc()) is None,
        },
{
    let k_id = String::from_str("id");
    let k_title = String::from_str("title");
    let k_content = String::from_str("content");
    let k_created = String::from_str("created_at");
    let k_updated = String::from_str("updated_at");
    let k_window = String::from_str("window_state");
    let k_color = String::from_str("color");
    let k_deleted = String::from_str("deleted");
    let mut acc = NotePartial {
        id: None,
        title: None,
        content: None,
        created_at: None,
        updated_at: None,
        window_state: None,
        color: None,
        deleted: None,
    };
    let mut j = i;
    while j < n
        invariant
            i <= j <= n,
            n == s@.len(),
            k_id@ == "id"@,
            k_title@ == "title"@,
            k_content@ == "content"@,
            k_created@ == "created_at"@,
            k_updated@ == "updated_at"@,
            k_window@ == "window_state"@,
            k_color@ == "color"@,
            k_deleted@ == "deleted"@,
            sp_note_pairs(s@.skip(i as int), empty_note_acc()) == sp_note_pairs(
                s@.skip(j as int),
                nacc(acc),
            ),
        decreases n - j,
    {
        let ghost a0 = nacc(acc);
        let j1 = p_ws(s, n, j);
        let (key, j2) = match p_string(s, n, j1) {
            None => {
                return None;
            },
            Some(p) => p,
        };
        let j3 = p_ws(s, n, j2);
        if j3 >= n || s.get_char(j3) != ':' {
            proof {
                if j3 < n {
                    assert(s@.skip(j3 as int)[0] == s@[j3 as int]);
                }
            }
            return None;
        }
        proof {
            assert(s@.skip(j3 as int)[0] == s@[j3 as int]);
            assert(s@.skip(j3 as int).drop_first() =~= s@.skip(j3 as int + 1));
        }
        let j4 = p_ws(s, n, j3 + 1);
        let mut j5: usize = 0;
        if key == k_id {
            let (v, jv) = match p_string(s, n, j4) {
                None => {
                    return None;
                },
                Some(p) => p,
            };
            if !acc.id.is_none() {
                return None;
            }
            acc.id = Some(v);
            j5 = jv;
        } else if key == k_title {
            let (v, jv) = match p_string(s, n, j4) {
                None => {
                    return None;
                },
                Some(p) => p,
            };
            if !acc.title.is_none() {
                return None;
            }
            acc.title = Some(v);
            j5 = jv;
        } else if key == k_content {
            let (v, jv) = match p_string(s, n, j4) {
                None => {
                    return None;
                },
                Some(p) => p,
            };
            if !acc.content.is_none() {
                return None;
            }
            acc.content = Some(v);
            j5 = jv;
        } else if key == k_created {
            let (v, jv) = match p_string(s, n, j4) {
                None => {
                    return None;
                },
                Some(p) => p,
            };
            if !acc.created_at.is_none() {
                return None;
            }
            acc.created_at = Some(v);
            j5 = jv;
        } else if key == k_updated {
            let (v, jv) = match p_string(s, n, j4) {
                None => {
                    return None;
                },
                Some(p) => p,
            };
            if !acc.updated_at.is_none() {
                return None;
            }
            acc.updated_at = Some(v);
            j5 = jv;
        } else if key == k_window {
            let (v, jv) = match pd_window_obj(s, n, j4) {
                None => {
                    return None;
                },
                Some(p) => p,
            };
            if !acc.window_state.is_none() {
                return None;
            }
            acc.window_state = Some(v);
            j5 = jv;
        } else if key == k_color {
            let (v, jv) = match p_string(s, n, j4) {
                None => {
                    return None;
                },
                Some(p) => p,
            };
            if !acc.color.is_none() {
                return None;
            }
            acc.color = Some(v);
            j5 = jv;
        } else if key == k_deleted {
            let (v, jv) = match p_bool(s, n, j4) {
                None => {
                    return None;
                },
                Some(p) => p,
            };
            if !acc.deleted.is_none() {
                return None;
            }
            acc.deleted = Some(v);
            j5 = jv;
        } else {
            return None;
        }
        proof {
            assert(sp_note_value(key@, s@.skip(j4 as int), a0) == Some(
                (nacc(acc), s@.skip(j5 as int)),
            ));
        }
        let j6 = p_ws(s, n, j5);
        if j6 >= n {
            return None;
        }
        let c = s.get_char(j6);
        proof {
            assert(s@.skip(j6 as int)[0] == s@[j6 as int]);
            assert(s@.skip(j6 as int).drop_first() =~= s@.skip(j6 as int + 1));
        }
        if c == ',' {
            proof {
                assert(sp_note_pairs(s@.skip(j as int), a0) == sp_note_pairs(
                    s@.skip(j6 as int + 1),
                    nacc(acc),
                ));
            }
            j = j6 + 1;
        } else if c == '}' {
            proof {
                assert(sp_note_pairs(s@.skip(j as int), a0) == Some(
                    (nacc(acc), s@.skip(j6 as int + 1)),
                ));
            }
            return Some((acc, j6 + 1));
        } else {
            return None;
        }
    }
    proof {
        assert(s@.skip(j as int).len() == 0);
        assert(skip_ws(s@.skip(j as int)) == s@.skip(j as int));
    }
    None
}

/// Scans a whole note object, opening brace first; absent optional fields
/// get their defaults here.
fn pd_note_obj(s: &str, n: usize, i: usize) -> (r: Option<(Note, usize)>)
    requires
        n == s@.len(),
        i <= n,
    ensures
        match r {
            Some((v, j)) => i < j <= n && sp_note_obj(s@.skip(i as int)) == Some(
                (v@, s@.skip(j as int)),
            ),
            None => sp_note_obj(s@.skip(i as int)) is None,
        },
{
    if i >= n || s.get_char(i) != '{' {
        proof {
            if i < n {
                assert(s@.skip(i as int)[0] == s@[i as int]);
            }
        }
        return None;
    }
    proof {
        assert(s@.skip(i as int)[0] == s@[i as int]);
        assert(s@.skip(i as int).drop_first() =~= s@.skip(i as int + 1));
    }
    match pd_note_pairs(s, n, i + 1) {
        None => None,
        Some((a, j)) => match (a.id, a.title, a.content, a.created_at, a.updated_at) {
            (Some(id), Some(title), Some(content), Some(created_at), Some(updated_at)) => {
                let window_state = match a.window_state {
                    Some(w) => w,
                    None => WindowState::default(),
                };
                let color = match a.color {
                    Some(c) => c,
                    None => default_color(),
                };
                let deleted = match a.deleted {
                    Some(d) => d,
                    None => false,
                };
                let v = Note {
                    id,
                    title,
                    content,
                    created_at,
                    updated_at,
                    window_state,
                    color,
                    deleted,
                };
                Some((v, j))
            },
            _ => None,
        },
    }
}

/// Scans the array of note objects, opening bracket first.
fn pd_notes_arr(s: &str, n: usize, i: usize) -> (r: Option<(Vec<Note>, usize)>)
    requires
        n == s@.len(),
        i <= n,
    ensures
        match r {
            Some((v, j)) => i < j <= n && sp_notes_arr(s@.skip(i as int)) == Some(
                (notes_view(v@), s@.skip(j as int)),
            ),
            None => sp_notes_arr(s@.skip(i as int)) is None,
        },
{
    if i >= n || s.get_char(i) != '[' {
        proof {
            if i < n {
                assert(s@.skip(i as int)[0] == s@[i as int]);
            }
        }
        return None;
    }
    proof {
        assert(s@.skip(i as int)[0] == s@[i as int]);
        assert(s@.skip(i as int).drop_first() =~= s@.skip(i as int + 1));
    }
    let j1 = p_ws(s, n, i + 1);
    if j1 < n && s.get_char(j1) == ']' {
        proof {
            assert(s@.skip(j1 as int)[0] == s@[j1 as int]);
            assert(s@.skip(j1 as int).drop_first() =~= s@.skip(j1 as int + 1));
            assert(notes_view(Seq::<Note>::empty()) =~= Seq::<NoteView>::empty());
        }
        return Some((Vec::new(), j1 + 1));
    }
    proof {
        if j1 < n {
            assert(s@.skip(j1 as int)[0] == s@[j1 as int]);
        }
    }
    let mut acc: Vec<Note> = Vec::new();
    let mut j = i + 1;
    proof {
        assert(notes_view(acc@) =~= Seq::<NoteView>::empty());
        assert(sp_notes_arr(s@.skip(i as int)) == sp_notes_elems(
            s@.skip(i as int + 1),
            Seq::<NoteView>::empty(),
        ));
    }
    while j < n
        invariant
            i + 1 <= j <= n,
            n == s@.len(),
            sp_notes_arr(s@.skip(i as int)) == sp_notes_elems(
                s@.skip(j as int),
                notes_view(acc@),
            ),
        decreases n - j,
    {
        let ghost a0 = notes_view(acc@);
        let j1e = p_ws(s, n, j);
        let (note, j2) = match pd_note_obj(s, n, j1e) {
            None => {
                return None;
            },
            Some(p) => p,
        };
        let ghost nv = note@;
        let j3 = p_ws(s, n, j2);
        if j3 >= n {
            return None;
        }
        let c = s.get_char(j3);
        proof {
            assert(s@.skip(j3 as int)[0] == s@[j3 as int]);
            assert(s@.skip(j3 as int).drop_first() =~= s@.skip(j3 as int + 1));
        }
        if c == ',' {
            acc.push(note);
            proof {
                assert(notes_view(acc@) =~= a0.push(nv));
                assert(sp_notes_elems(s@.skip(j as int), a0) == sp_notes_elems(
                    s@.skip(j3 as int + 1),
                    notes_view(acc@),
                ));
            }
            j = j3 + 1;
        } else if c == ']' {
            acc.push(note);
            proof {
                assert(notes_view(acc@) =~= a0.push(nv));
                assert(sp_notes_elems(s@.skip(j as int), a0) == Some(
                    (notes_view(acc@), s@.skip(j3 as int + 1)),
                ));
            }
            return Some((acc, j3 + 1));
        } else {
            return None;
        }
    }
    proof {
        assert(s@.skip(j as int).len() == 0);
        assert(skip_ws(s@.skip(j as int)) == s@.skip(j as int));
    }
    None
}

/// Scans the whole document: one object whose one key is `notes`.
fn pd_store(s: &str, n: usize) -> (r: Option<(Vec<Note>, usize)>)
    requires
        n == s@.len(),
    ensures
        match r {
            Some((v, j)) => j <= n && sp_store(s@) == Some((notes_view(v@), s@.skip(j as int))),
            None => sp_store(s@) is None,
        },
{
    let k_notes = String::from_str("notes");
    proof {
        assert(s@.skip(0) =~= s@);
    }
    let t0 = p_ws(s, n, 0);
    if t0 >= n || s.get_char(t0) != '{' {
        proof {
            if t0 < n {
                assert(s@.skip(t0 as int)[0] == s@[t0 as int]);
            }
        }
        return None;
    }
    proof {
        assert(s@.skip(t0 as int)[0] == s@[t0 as int]);
        assert(s@.skip(t0 as int).drop_first() =~= s@.skip(t0 as int + 1));
    }
    let j1 = p_ws(s, n, t0 + 1);
    let (key, j2) = match p_string(s, n, j1) {
        None => {
            return None;
        },
        Some(p) => p,
    };
    if !(key == k_notes) {
        return None;
    }
    let j3 = p_ws(s, n, j2);
    if j3 >= n || s.get_char(j3) != ':' {
        proof {
            if j3 < n {
                assert(s@.skip(j3 as int)[0] == s@[j3 as int]);
            }
        }
        return None;
    }
    proof {
        assert(s@.skip(j3 as int)[0] == s@[j3 as int]);
        assert(s@.skip(j3 as int).drop_first() =~= s@.skip(j3 as int + 1));
    }
    let j4 = p_ws(s, n, j3 + 1);
    let (v, j5) = match pd_notes_arr(s, n, j4) {
        None => {
            return None;
        },
        Some(p) => p,
    };
    let j6 = p_ws(s, n, j5);
    if j6 >= n || s.get_char(j6) != '}' {
        proof {
            if j6 < n {
                assert(s@.skip(j6 as int)[0] == s@[j6 as int]);
            }
        }
        return None;
    }
    proof {
        assert(s@.skip(j6 as int)[0] == s@[j6 as int]);
        assert(s@.skip(j6 as int).drop_first() =~= s@.skip(j6 as int + 1));
    }
    Some((v, j6 + 1))
}

impl Note {
    /// Decodes one free-standing note object, as it stands inside the
    /// persisted document's array: the five text fields are required, and
    /// a missing `window_state`, `color` or `deleted` field takes its
    /// documented default.
    pub fn from_json(text: &str) -> (r: Option<Note>)
        ensures
            match r {
                Some(v) => spec_parse_note(text@) == Some(v@),
                None => spec_parse_note(text@) is None,
            },
    {
        let n = text.unicode_len();
        proof {
            assert(text@.skip(0) =~= text@);
        }
        let j0 = p_ws(text, n, 0);
        match pd_note_obj(text, n, j0) {
            Some((v, j)) => {
                let jj = p_ws(text, n, j);
                if jj == n {
                    proof {
                        assert(skip_ws(text@.skip(j as int)).len() == 0);
                    }
                    Some(v)
                } else {
                    proof {
                        assert(skip_ws(text@.skip(j as int)).len() != 0);
                    }
                    None
                }
            },
            None => None,
        }
    }
}

impl NotesStore {
    /// Decodes a well-formed persisted document (nothing but whitespace
    /// around the one object); a missing or duplicated field, a malformed
    /// literal, or any other breach of the grammar yields nothing.
    pub fn parse_json(text: &str) -> (r: Option<NotesStore>)
        ensures
            match r {
                Some(v) => spec_parse_store(text@) == Some(v@),
                None => spec_parse_store(text@) is None,
            },
    {
        let n = text.unicode_len();
        match pd_store(text, n) {
            Some((notes, j)) => {
                let jj = p_ws(text, n, j);
                if jj == n {
                    proof {
                        assert(skip_ws(text@.skip(j as int)).len() == 0);
                    }
                    Some(NotesStore { notes })
                } else {
                    proof {
                        assert(skip_ws(text@.skip(j as int)).len() != 0);
                    }
                    None
                }
            },
            None => None,
        }
    }

    /// Decodes a persisted document, falling open: a well-formed document
    /// yields its notes, anything else yields the empty store.
    pub fn from_json(text: &str) -> (r: NotesStore)
        ensures
            r@ == spec_load(text@),
    {
        match Self::parse_json(text) {
            Some(store) => store,
            None => {
                let r = NotesStore { notes: Vec::new() };
                proof {
                    assert(r@ =~= Seq::<NoteView>::empty());
                }
                r
            },
        }
    }
}

} // verus!
