//! The store's persisted JSON document, as a spec-level grammar.
//!
//! A document is one object `{"notes": [ ... ]}` whose array holds one
//! object per note. On the way out the writer lays the fields down in a
//! fixed order, either compactly or pretty-printed; on the way in the
//! scanner takes the fields of an object in any order, requires the five
//! text fields of a note, and fills `window_state`, `color` and `deleted`
//! with their documented defaults when absent. A duplicated or unknown
//! key, a number out of its field's range, or any other breach of the
//! grammar makes the whole document malformed.

use vstd::prelude::*;

use crate::json_core::enc_bool;
use crate::json_core::enc_int;
use crate::json_core::enc_str;
use crate::json_core::all_ws;
use crate::json_core::lemma_skip_ws_shrink;
use crate::json_core::lemma_sp_bool_shrink;
use crate::json_core::lemma_sp_int_shrink;
use crate::json_core::lemma_sp_string_shrink;
use crate::json_core::skip_ws;
use crate::json_core::sp_bool;
use crate::json_core::sp_int;
use crate::json_core::sp_string;
use crate::notes::default_color_spec;
use crate::notes::default_window_state;
use crate::notes::NoteView;
use crate::notes::WindowStateView;

verus! {

// ---------------------------------------------------------------------------
// Encoding
// ---------------------------------------------------------------------------

/// A run of `m` spaces.
pub open spec fn spaces(m: int) -> Seq<char> {
    Seq::new(m as nat, |i: int| ' ')
}

/// A line break followed by `m` spaces of indentation.
pub open spec fn nl_ind(m: int) -> Seq<char> {
    seq!['\n'] + spaces(m)
}

/// The whitespace a document encoding weaves between its tokens. Each
/// field must hold JSON whitespace only (`ws_ok`).
pub ghost struct WsStyle {
    /// after each colon
    pub sp: Seq<char>,
    /// before the document's one pair
    pub fs: Seq<char>,
    /// before the document's closing brace
    pub cs: Seq<char>,
    /// before each array element
    pub g: Seq<char>,
    /// before the array's closing bracket
    pub ca: Seq<char>,
    /// before each pair of a note object
    pub f: Seq<char>,
    /// before a note object's closing brace
    pub c: Seq<char>,
    /// before each pair of a window object
    pub fw: Seq<char>,
    /// before a window object's closing brace
    pub cw: Seq<char>,
}

pub open spec fn ws_ok(w: WsStyle) -> bool {
    all_ws(w.sp) && all_ws(w.fs) && all_ws(w.cs) && all_ws(w.g) && all_ws(w.ca) && all_ws(w.f)
        && all_ws(w.c) && all_ws(w.fw) && all_ws(w.cw)
}

/// Everything on one line, no blanks.
pub open spec fn compact_style() -> WsStyle {
    WsStyle {
        sp: Seq::empty(),
        fs: Seq::empty(),
        cs: Seq::empty(),
        g: Seq::empty(),
        ca: Seq::empty(),
        f: Seq::empty(),
        c: Seq::empty(),
        fw: Seq::empty(),
        cw: Seq::empty(),
    }
}

/// One pair and one value per line, two spaces of indentation per level.
pub open spec fn pretty_style() -> WsStyle {
    WsStyle {
        sp: seq![' '],
        fs: nl_ind(2),
        cs: nl_ind(0),
        g: nl_ind(4),
        ca: nl_ind(2),
        f: nl_ind(6),
        c: nl_ind(4),
        fw: nl_ind(8),
        cw: nl_ind(6),
    }
}

/// One `"key": value` pair of an object body.
pub open spec fn enc_pair(key: Seq<char>, sp: Seq<char>, val: Seq<char>) -> Seq<char> {
    enc_str(key) + seq![':'] + sp + val
}

/// The object for a window geometry.
pub open spec fn enc_window(v: WindowStateView, w: WsStyle) -> Seq<char> {
    seq!['{'] + w.fw + enc_pair("x"@, w.sp, enc_int(v.x)) + seq![','] + w.fw + enc_pair(
        "y"@,
        w.sp,
        enc_int(v.y),
    ) + seq![','] + w.fw + enc_pair("width"@, w.sp, enc_int(v.width)) + seq![','] + w.fw
        + enc_pair("height"@, w.sp, enc_int(v.height)) + w.cw + seq!['}']
}

/// The object for one note, fields in declaration order.
pub open spec fn enc_note(n: NoteView, w: WsStyle) -> Seq<char> {
    seq!['{'] + w.f + enc_pair("id"@, w.sp, enc_str(n.id)) + seq![','] + w.f + enc_pair(
        "title"@,
        w.sp,
        enc_str(n.title),
    ) + seq![','] + w.f + enc_pair("content"@, w.sp, enc_str(n.content)) + seq![','] + w.f
        + enc_pair("created_at"@, w.sp, enc_str(n.created_at)) + seq![','] + w.f + enc_pair(
        "updated_at"@,
        w.sp,
        enc_str(n.updated_at),
    ) + seq![','] + w.f + enc_pair("window_state"@, w.sp, enc_window(n.window_state, w)) + seq![
        ','
    ] + w.f + enc_pair("color"@, w.sp, enc_str(n.color)) + seq![','] + w.f + enc_pair(
        "deleted"@,
        w.sp,
        enc_bool(n.deleted),
    ) + w.c + seq!['}']
}

/// The note objects joined by commas.
pub open spec fn enc_notes_list(s: Seq<NoteView>, w: WsStyle) -> Seq<char>
    decreases s.len(),
{
    if s.len() == 0 {
        Seq::empty()
    } else if s.len() == 1 {
        enc_note(s[0], w)
    } else {
        enc_notes_list(s.drop_last(), w) + seq![','] + w.g + enc_note(s.last(), w)
    }
}

/// The array of note objects.
pub open spec fn enc_notes_arr(s: Seq<NoteView>, w: WsStyle) -> Seq<char> {
    if s.len() == 0 {
        seq!['[', ']']
    } else {
        seq!['['] + w.g + enc_notes_list(s, w) + w.ca + seq![']']
    }
}

/// The whole persisted document.
pub open spec fn enc_store(s: Seq<NoteView>, w: WsStyle) -> Seq<char> {
    seq!['{'] + w.fs + enc_pair("notes"@, w.sp, enc_notes_arr(s, w)) + w.cs + seq!['}']
}

// ---------------------------------------------------------------------------
// Scanning
// ---------------------------------------------------------------------------

/// The fields gathered so far while scanning a window object.
pub ghost struct WindowAcc {
    pub x: Option<int>,
    pub y: Option<int>,
    pub width: Option<int>,
    pub height: Option<int>,
}

pub open spec fn empty_window_acc() -> WindowAcc {
    WindowAcc { x: None, y: None, width: None, height: None }
}

/// A finished window object: all four fields are required.
pub open spec fn finish_window(a: WindowAcc) -> Option<WindowStateView> {
    match (a.x, a.y, a.width, a.height) {
        (Some(x), Some(y), Some(width), Some(height)) => Some(
            WindowStateView { x, y, width, height },
        ),
        _ => None,
    }
}

/// The fields gathered so far while scanning a note object.
pub ghost struct NoteAcc {
    pub id: Option<Seq<char>>,
    pub title: Option<Seq<char>>,
    pub content: Option<Seq<char>>,
    pub created_at: Option<Seq<char>>,
    pub updated_at: Option<Seq<char>>,
    pub window_state: Option<WindowStateView>,
    pub color: Option<Seq<char>>,
    pub deleted: Option<bool>,
}

pub open spec fn empty_note_acc() -> NoteAcc {
    NoteAcc {
        id: None,
        title: None,
        content: None,
        created_at: None,
        updated_at: None,
        window_state: None,
        color: None,
        deleted: None,
    }
}

/// A finished note object: the five text fields are required, the other
/// three get their documented defaults when absent.
pub open spec fn finish_note(a: NoteAcc) -> Option<NoteView> {
    match (a.id, a.title, a.content, a.created_at, a.updated_at) {
        (Some(id), Some(title), Some(content), Some(created_at), Some(updated_at)) => Some(
            NoteView {
                id,
                title,
                content,
                created_at,
                updated_at,
                window_state: match a.window_state {
                    Some(w) => w,
                    None => default_window_state(),
                },
                color: match a.color {
                    Some(c) => c,
                    None => default_color_spec(),
                },
                deleted: match a.deleted {
                    Some(d) => d,
                    None => false,
                },
            },
        ),
        _ => None,
    }
}

/// The range of an `i32` field.
pub open spec fn in_i32(v: int) -> bool {
    -0x8000_0000 <= v <= 0x7FFF_FFFF
}

/// The range of a `u32` field.
pub open spec fn in_u32(v: int) -> bool {
    0 <= v <= 0xFFFF_FFFF
}

/// Takes the value of one window pair, dispatched on the key: a duplicate
/// key, an unknown key or a value outside the field's range is malformed.
pub open spec fn sp_window_value(key: Seq<char>, t: Seq<char>, a: WindowAcc) -> Option<
    (WindowAcc, Seq<char>),
> {
    if key == "x"@ {
        match sp_int(t) {
            Some((v, r)) => if a.x is None && in_i32(v) {
                Some((WindowAcc { x: Some(v), ..a }, r))
            } else {
                None
            },
            None => None,
        }
    } else if key == "y"@ {
        match sp_int(t) {
            Some((v, r)) => if a.y is None && in_i32(v) {
                Some((WindowAcc { y: Some(v), ..a }, r))
            } else {
                None
            },
            None => None,
        }
    } else if key == "width"@ {
        match sp_int(t) {
            Some((v, r)) => if a.width is None && in_u32(v) {
                Some((WindowAcc { width: Some(v), ..a }, r))
            } else {
                None
            },
            None => None,
        }
    } else if key == "height"@ {
        match sp_int(t) {
            Some((v, r)) => if a.height is None && in_u32(v) {
                Some((WindowAcc { height: Some(v), ..a }, r))
            } else {
                None
            },
            None => None,
        }
    } else {
        None
    }
}

/// Scans `"key": value` pairs of a window object, commas between them,
/// up to and including the closing brace.
pub open spec fn sp_window_pairs(t: Seq<char>, a: WindowAcc) -> Option<(WindowAcc, Seq<char>)>
    decreases t.len(),
    via sp_window_pairs_dec
{
    match sp_string(skip_ws(t)) {
        None => None,
        Some((key, t2)) => {
            let t3 = skip_ws(t2);
            if t3.len() == 0 || t3[0] != ':' {
                None
            } else {
                match sp_window_value(key, skip_ws(t3.drop_first()), a) {
                    None => None,
                    Some((a2, t5)) => {
                        let t6 = skip_ws(t5);
                        if t6.len() == 0 {
                            None
                        } else if t6[0] == ',' {
                            sp_window_pairs(t6.drop_first(), a2)
                        } else if t6[0] == '}' {
                            Some((a2, t6.drop_first()))
                        } else {
                            None
                        }
                    },
                }
            }
        },
    }
}

/// The value scanners give back a strict suffix.
pub proof fn lemma_sp_window_value_shrink(key: Seq<char>, t: Seq<char>, a: WindowAcc)
    ensures
        sp_window_value(key, t, a) matches Some(p) ==> p.1.len() < t.len(),
{
    lemma_sp_int_shrink(t);
}

#[via_fn]
proof fn sp_window_pairs_dec(t: Seq<char>, a: WindowAcc) {
    lemma_skip_ws_shrink(t);
    lemma_sp_string_shrink(skip_ws(t));
    match sp_string(skip_ws(t)) {
        None => {},
        Some((key, t2)) => {
            lemma_skip_ws_shrink(t2);
            let t3 = skip_ws(t2);
            if t3.len() == 0 || t3[0] != ':' {
            } else {
                lemma_skip_ws_shrink(t3.drop_first());
                lemma_sp_window_value_shrink(key, skip_ws(t3.drop_first()), a);
                match sp_window_value(key, skip_ws(t3.drop_first()), a) {
                    None => {},
                    Some((a2, t5)) => {
                        lemma_skip_ws_shrink(t5);
                    },
                }
            }
        },
    }
}

pub proof fn lemma_sp_window_pairs_shrink(t: Seq<char>, a: WindowAcc)
    ensures
        sp_window_pairs(t, a) matches Some(p) ==> p.1.len() < t.len(),
    decreases t.len(),
{
    lemma_skip_ws_shrink(t);
    lemma_sp_string_shrink(skip_ws(t));
    match sp_string(skip_ws(t)) {
        None => {},
        Some((key, t2)) => {
            lemma_skip_ws_shrink(t2);
            let t3 = skip_ws(t2);
            if t3.len() == 0 || t3[0] != ':' {
            } else {
                lemma_skip_ws_shrink(t3.drop_first());
                lemma_sp_window_value_shrink(key, skip_ws(t3.drop_first()), a);
                match sp_window_value(key, skip_ws(t3.drop_first()), a) {
                    None => {},
                    Some((a2, t5)) => {
                        lemma_skip_ws_shrink(t5);
                        let t6 = skip_ws(t5);
                        if t6.len() == 0 {
                        } else if t6[0] == ',' {
                            lemma_sp_window_pairs_shrink(t6.drop_first(), a2);
                        }
                    },
                }
            }
        },
    }
}

/// Scans a whole window object, opening brace first. An object without
/// fields is malformed: all four fields are required.
pub open spec fn sp_window_obj(t: Seq<char>) -> Option<(WindowStateView, Seq<char>)> {
    if t.len() == 0 || t[0] != '{' {
        None
    } else {
        match sp_window_pairs(t.drop_first(), empty_window_acc()) {
            Some((a, r)) => match finish_window(a) {
                Some(w) => Some((w, r)),
                None => None,
            },
            None => None,
        }
    }
}

pub proof fn lemma_sp_window_obj_shrink(t: Seq<char>)
    ensures
        sp_window_obj(t) matches Some(p) ==> p.1.len() < t.len(),
{
    if t.len() > 0 && t[0] == '{' {
        lemma_sp_window_pairs_shrink(t.drop_first(), empty_window_acc());
    }
}

/// Takes the value of one note pair, dispatched on the key: a duplicate
/// or unknown key is malformed.
pub open spec fn sp_note_value(key: Seq<char>, t: Seq<char>, a: NoteAcc) -> Option<
    (NoteAcc, Seq<char>),
> {
    if key == "id"@ {
        match sp_string(t) {
            Some((v, r)) => if a.id is None {
                Some((NoteAcc { id: Some(v), ..a }, r))
            } else {
                None
            },
            None => None,
        }
    } else if key == "title"@ {
        match sp_string(t) {
            Some((v, r)) => if a.title is None {
                Some((NoteAcc { title: Some(v), ..a }, r))
            } else {
                None
            },
            None => None,
        }
    } else if key == "content"@ {
        match sp_string(t) {
            Some((v, r)) => if a.content is None {
                Some((NoteAcc { content: Some(v), ..a }, r))
            } else {
                None
            },
            None => None,
        }
    } else if key == "created_at"@ {
        match sp_string(t) {
            Some((v, r)) => if a.created_at is None {
                Some((NoteAcc { created_at: Some(v), ..a }, r))
            } else {
                None
            },
            None => None,
        }
    } else if key == "updated_at"@ {
        match sp_string(t) {
            Some((v, r)) => if a.updated_at is None {
                Some((NoteAcc { updated_at: Some(v), ..a }, r))
            } else {
                None
            },
            None => None,
        }
    } else if key == "window_state"@ {
        match sp_window_obj(t) {
            Some((w, r)) => if a.window_state is None {
                Some((NoteAcc { window_state: Some(w), ..a }, r))
            } else {
                None
            },
            None => None,
        }
    } else if key == "color"@ {
        match sp_string(t) {
            Some((v, r)) => if a.color is None {
                Some((NoteAcc { color: Some(v), ..a }, r))
            } else {
                None
            },
            None => None,
        }
    } else if key == "deleted"@ {
        match sp_bool(t) {
            Some((b, r)) => if a.deleted is None {
                Some((NoteAcc { deleted: Some(b), ..a }, r))
            } else {
                None
            },
            None => None,
        }
    } else {
        None
    }
}

pub proof fn lemma_sp_note_value_shrink(key: Seq<char>, t: Seq<char>, a: NoteAcc)
    ensures
        sp_note_value(key, t, a) matches Some(p) ==> p.1.len() < t.len(),
{
    lemma_sp_string_shrink(t);
    lemma_sp_window_obj_shrink(t);
    lemma_sp_bool_shrink(t);
}

/// Scans `"key": value` pairs of a note object, commas between them, up
/// to and including the closing brace.
pub open spec fn sp_note_pairs(t: Seq<char>, a: NoteAcc) -> Option<(NoteAcc, Seq<char>)>
    decreases t.len(),
    via sp_note_pairs_dec
{
    match sp_string(skip_ws(t)) {
        None => None,
        Some((key, t2)) => {
            let t3 = skip_ws(t2);
            if t3.len() == 0 || t3[0] != ':' {
                None
            } else {
                match sp_note_value(key, skip_ws(t3.drop_first()), a) {
                    None => None,
                    Some((a2, t5)) => {
                        let t6 = skip_ws(t5);
                        if t6.len() == 0 {
                            None
                        } else if t6[0] == ',' {
                            sp_note_pairs(t6.drop_first(), a2)
                        } else if t6[0] == '}' {
                            Some((a2, t6.drop_first()))
                        } else {
                            None
                        }
                    },
                }
            }
        },
    }
}

#[via_fn]
proof fn sp_note_pairs_dec(t: Seq<char>, a: NoteAcc) {
    lemma_skip_ws_shrink(t);
    lemma_sp_string_shrink(skip_ws(t));
    match sp_string(skip_ws(t)) {
        None => {},
        Some((key, t2)) => {
            lemma_skip_ws_shrink(t2);
            let t3 = skip_ws(t2);
            if t3.len() == 0 || t3[0] != ':' {
            } else {
                lemma_skip_ws_shrink(t3.drop_first());
                lemma_sp_note_value_shrink(key, skip_ws(t3.drop_first()), a);
                match sp_note_value(key, skip_ws(t3.drop_first()), a) {
                    None => {},
                    Some((a2, t5)) => {
                        lemma_skip_ws_shrink(t5);
                    },
                }
            }
        },
    }
}

pub proof fn lemma_sp_note_pairs_shrink(t: Seq<char>, a: NoteAcc)
    ensures
        sp_note_pairs(t, a) matches Some(p) ==> p.1.len() < t.len(),
    decreases t.len(),
{
    lemma_skip_ws_shrink(t);
    lemma_sp_string_shrink(skip_ws(t));
    match sp_string(skip_ws(t)) {
        None => {},
        Some((key, t2)) => {
            lemma_skip_ws_shrink(t2);
            let t3 = skip_ws(t2);
            if t3.len() == 0 || t3[0] != ':' {
            } else {
                lemma_skip_ws_shrink(t3.drop_first());
                lemma_sp_note_value_shrink(key, skip_ws(t3.drop_first()), a);
                match sp_note_value(key, skip_ws(t3.drop_first()), a) {
                    None => {},
                    Some((a2, t5)) => {
                        lemma_skip_ws_shrink(t5);
                        let t6 = skip_ws(t5);
                        if t6.len() == 0 {
                        } else if t6[0] == ',' {
                            lemma_sp_note_pairs_shrink(t6.drop_first(), a2);
                        }
                    },
                }
            }
        },
    }
}

/// Scans a whole note object, opening brace first. An object without
/// fields is malformed: the five text fields are required.
pub open spec fn sp_note_obj(t: Seq<char>) -> Option<(NoteView, Seq<char>)> {
    if t.len() == 0 || t[0] != '{' {
        None
    } else {
        match sp_note_pairs(t.drop_first(), empty_note_acc()) {
            Some((a, r)) => match finish_note(a) {
                Some(n) => Some((n, r)),
                None => None,
            },
            None => None,
        }
    }
}

pub proof fn lemma_sp_note_obj_shrink(t: Seq<char>)
    ensures
        sp_note_obj(t) matches Some(p) ==> p.1.len() < t.len(),
{
    if t.len() > 0 && t[0] == '{' {
        lemma_sp_note_pairs_shrink(t.drop_first(), empty_note_acc());
    }
}

/// Scans the note objects of a non-empty array, commas between them, up
/// to and including the closing bracket; `acc` holds the notes read so
/// far.
pub open spec fn sp_notes_elems(t: Seq<char>, acc: Seq<NoteView>) -> Option<
    (Seq<NoteView>, Seq<char>),
>
    decreases t.len(),
    via sp_notes_elems_dec
{
    match sp_note_obj(skip_ws(t)) {
        None => None,
        Some((n, t2)) => {
            let t3 = skip_ws(t2);
            if t3.len() == 0 {
                None
            } else if t3[0] == ',' {
                sp_notes_elems(t3.drop_first(), acc.push(n))
            } else if t3[0] == ']' {
                Some((acc.push(n), t3.drop_first()))
            } else {
                None
            }
        },
    }
}

#[via_fn]
proof fn sp_notes_elems_dec(t: Seq<char>, acc: Seq<NoteView>) {
    lemma_skip_ws_shrink(t);
    lemma_sp_note_obj_shrink(skip_ws(t));
    match sp_note_obj(skip_ws(t)) {
        None => {},
        Some((n, t2)) => {
            lemma_skip_ws_shrink(t2);
        },
    }
}

/// Scans the array of note objects, opening bracket first.
pub open spec fn sp_notes_arr(t: Seq<char>) -> Option<(Seq<NoteView>, Seq<char>)> {
    if t.len() == 0 || t[0] != '[' {
        None
    } else {
        let t1 = skip_ws(t.drop_first());
        if t1.len() > 0 && t1[0] == ']' {
            Some((Seq::empty(), t1.drop_first()))
        } else {
            sp_notes_elems(t.drop_first(), Seq::empty())
        }
    }
}

/// Scans the whole document: one object with the one key `notes`.
pub open spec fn sp_store(t: Seq<char>) -> Option<(Seq<NoteView>, Seq<char>)> {
    let t0 = skip_ws(t);
    if t0.len() == 0 || t0[0] != '{' {
        None
    } else {
        match sp_string(skip_ws(t0.drop_first())) {
            None => None,
            Some((key, t2)) => {
                if key != "notes"@ {
                    None
                } else {
                    let t3 = skip_ws(t2);
                    if t3.len() == 0 || t3[0] != ':' {
                        None
                    } else {
                        match sp_notes_arr(skip_ws(t3.drop_first())) {
                            None => None,
                            Some((ns, t5)) => {
                                let t6 = skip_ws(t5);
                                if t6.len() == 0 || t6[0] != '}' {
                                    None
                                } else {
                                    Some((ns, t6.drop_first()))
                                }
                            },
                        }
                    }
                }
            },
        }
    }
}

/// What scanning one free-standing note object yields: the note of a
/// well-formed object with nothing but whitespace around it, or nothing.
pub open spec fn spec_parse_note(t: Seq<char>) -> Option<NoteView> {
    match sp_note_obj(skip_ws(t)) {
        Some((n, rest)) => if skip_ws(rest).len() == 0 {
            Some(n)
        } else {
            None
        },
        None => None,
    }
}

/// What scanning a whole document yields: the notes of a well-formed
/// document with nothing but whitespace after it, or nothing.
pub open spec fn spec_parse_store(t: Seq<char>) -> Option<Seq<NoteView>> {
    match sp_store(t) {
        Some((ns, rest)) => if skip_ws(rest).len() == 0 {
            Some(ns)
        } else {
            None
        },
        None => None,
    }
}

/// What loading a document yields: the notes of a well-formed document,
/// the empty store for anything else (the fail-open policy).
pub open spec fn spec_load(t: Seq<char>) -> Seq<NoteView> {
    match spec_parse_store(t) {
        Some(ns) => ns,
        None => Seq::empty(),
    }
}

} // verus!
