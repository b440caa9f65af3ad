//! What the document format guarantees: reading back what the writer laid
//! down gives the very store that was written, whichever whitespace style
//! the writer used, and absent optional fields decode to their documented
//! defaults.

use vstd::prelude::*;

use crate::json_core::all_ws;
use crate::json_core::dec_digits;
use crate::json_core::digit_char;
use crate::json_core::digit_val;
use crate::json_core::enc_bool;
use crate::json_core::enc_int;
use crate::json_core::enc_str;
use crate::json_core::enc_str_body;
use crate::json_core::esc_char;
use crate::json_core::hex_char;
use crate::json_core::hex_val;
use crate::json_core::is_digit_char;
use crate::json_core::is_hex_char;
use crate::json_core::is_scalar_code;
use crate::json_core::is_ws_char;
use crate::json_core::max_num;
use crate::json_core::skip_ws;
use crate::json_core::sp_bool;
use crate::json_core::sp_digits;
use crate::json_core::sp_int;
use crate::json_core::sp_string;
use crate::json_core::sp_string_body;
use crate::json_core::sp_uint;
use crate::json_doc::empty_note_acc;
use crate::json_doc::empty_window_acc;
use crate::json_doc::enc_note;
use crate::json_doc::enc_notes_arr;
use crate::json_doc::enc_notes_list;
use crate::json_doc::enc_pair;
use crate::json_doc::enc_store;
use crate::json_doc::enc_window;
use crate::json_doc::finish_note;
use crate::json_doc::finish_window;
use crate::json_doc::in_i32;
use crate::json_doc::in_u32;
use crate::json_doc::sp_note_obj;
use crate::json_doc::sp_note_pairs;
use crate::json_doc::sp_note_value;
use crate::json_doc::sp_notes_arr;
use crate::json_doc::sp_notes_elems;
use crate::json_doc::sp_store;
use crate::json_doc::sp_window_obj;
use crate::json_doc::sp_window_pairs;
use crate::json_doc::sp_window_value;
use crate::json_doc::compact_style;
use crate::json_doc::nl_ind;
use crate::json_doc::pretty_style;
use crate::json_doc::spec_load;
use crate::json_doc::spec_parse_store;
use crate::json_doc::ws_ok;
use crate::json_doc::NoteAcc;
use crate::json_doc::WindowAcc;
use crate::json_doc::WsStyle;
use crate::notes::default_color_spec;
use crate::notes::default_window_state;
use crate::notes::first_with_id;
use crate::notes::notes_view;
use crate::notes::Note;
use crate::notes::NoteView;
use crate::notes::WindowStateView;

verus! {

// ---------------------------------------------------------------------------
// Whitespace
// ---------------------------------------------------------------------------

/// A whitespace prefix is skipped whole.
pub proof fn lemma_skip_ws_prefix(a: Seq<char>, t: Seq<char>)
    requires
        all_ws(a),
    ensures
        skip_ws(a + t) == skip_ws(t),
    decreases a.len(),
{
    if a.len() == 0 {
        assert(a + t =~= t);
    } else {
        assert((a + t)[0] == a[0]);
        assert((a + t).drop_first() =~= a.drop_first() + t);
        assert(all_ws(a.drop_first()));
        lemma_skip_ws_prefix(a.drop_first(), t);
    }
}

// ---------------------------------------------------------------------------
// String literals read back
// ---------------------------------------------------------------------------

/// Scanning the escaped body of `v` consumes it whole and decodes it back
/// to `v`, leaving what follows the closing quote untouched.
proof fn lemma_sp_string_body_enc(v: Seq<char>, acc: Seq<char>, rest: Seq<char>)
    ensures
        sp_string_body(enc_str_body(v) + (seq!['"'] + rest), acc) == Some((acc + v, rest)),
    decreases v.len(),
{
    if v.len() == 0 {
        assert(enc_str_body(v) + (seq!['"'] + rest) =~= seq!['"'] + rest);
        assert((seq!['"'] + rest)[0] == '"');
        assert((seq!['"'] + rest).drop_first() =~= rest);
        assert(acc + v =~= acc);
    } else {
        let c = v[0];
        let e = esc_char(c);
        let t = enc_str_body(v) + (seq!['"'] + rest);
        let t2 = enc_str_body(v.drop_first()) + (seq!['"'] + rest);
        assert(enc_str_body(v) == esc_char(c) + enc_str_body(v.drop_first()));
        assert(t =~= e + t2);
        lemma_sp_string_body_enc(v.drop_first(), acc.push(c), rest);
        assert(acc.push(c) + v.drop_first() =~= acc + v);
        if c == '"' || c == '\\' || c == '\n' || c == '\r' || c == '\t' {
            assert(e.len() == 2 && e[0] == '\\');
            assert(t[0] == '\\');
            assert(t[1] == e[1]);
            assert(t.skip(2) =~= t2);
        } else if (c as u32) < 0x20 {
            let u = (c as u32) as int;
            assert(e =~= seq!['\\', 'u', '0', '0', hex_char(u / 16), hex_char(u % 16)]);
            assert(t.len() >= 6);
            assert(t[0] == '\\' && t[1] == 'u' && t[2] == '0' && t[3] == '0');
            assert(t[4] == hex_char(u / 16) && t[5] == hex_char(u % 16));
            assert(is_hex_char('0') && hex_val('0') == 0);
            assert(0 <= u / 16 < 16 && 0 <= u % 16 < 16);
            assert(is_hex_char(hex_char(u / 16)) && hex_val(hex_char(u / 16)) == u / 16);
            assert(is_hex_char(hex_char(u % 16)) && hex_val(hex_char(u % 16)) == u % 16);
            let code = hex_val(t[2]) * 4096 + hex_val(t[3]) * 256 + hex_val(t[4]) * 16 + hex_val(
                t[5],
            );
            assert(code == u);
            assert(is_scalar_code(code));
            vstd::utf8::char_u32_cast(c, code as u32);
            assert((code as u32) as char == c);
            assert(t.skip(6) =~= t2);
        } else {
            assert(e =~= seq![c]);
            assert(t[0] == c);
            assert(t.drop_first() =~= t2);
        }
    }
}

/// Scanning the encoded string literal for `v` yields `v` and what follows.
pub proof fn lemma_sp_string_enc(v: Seq<char>, rest: Seq<char>)
    ensures
        sp_string(enc_str(v) + rest) == Some((v, rest)),
{
    let t = enc_str(v) + rest;
    assert(t[0] == '"');
    assert(t.drop_first() =~= enc_str_body(v) + (seq!['"'] + rest));
    lemma_sp_string_body_enc(v, Seq::empty(), rest);
    assert(Seq::<char>::empty() + v =~= v);
}

// ---------------------------------------------------------------------------
// Numbers read back
// ---------------------------------------------------------------------------

/// Ten to the `k`.
pub open spec fn pow10(k: nat) -> int
    decreases k,
{
    if k == 0 {
        1
    } else {
        10 * pow10((k - 1) as nat)
    }
}

proof fn lemma_pow10_pos(k: nat)
    ensures
        pow10(k) >= 1,
    decreases k,
{
    if k > 0 {
        lemma_pow10_pos((k - 1) as nat);
    }
}

/// The decimal digits of `m`: at least one, all digit characters, no
/// leading zero unless `m` is zero, and `m` below ten to their number.
proof fn lemma_dec_digits_props(m: int)
    requires
        0 <= m,
    ensures
        dec_digits(m).len() >= 1,
        forall|i: int| 0 <= i < dec_digits(m).len() ==> is_digit_char(#[trigger] dec_digits(m)[i]),
        m >= 1 ==> dec_digits(m)[0] != '0',
        m < pow10(dec_digits(m).len()),
    decreases m,
{
    if m < 10 {
        assert(dec_digits(m) =~= seq![digit_char(m)]);
        assert(is_digit_char(digit_char(m)));
        assert(pow10(1) == 10 * pow10(0));
    } else {
        let d = m / 10;
        lemma_dec_digits_props(d);
        let l = dec_digits(d).len();
        assert(dec_digits(m) == dec_digits(d) + seq![digit_char(m % 10)]);
        assert(dec_digits(m)[0] == dec_digits(d)[0]);
        assert(is_digit_char(digit_char(m % 10)));
        assert(forall|i: int|
            0 <= i < dec_digits(m).len() ==> is_digit_char(#[trigger] dec_digits(m)[i]));
        assert(pow10(l + 1) == 10 * pow10(l));
        assert(m < pow10(l + 1)) by (nonlinear_arith)
            requires
                d == m / 10,
                10 <= m,
                d < pow10(l),
                pow10(l + 1) == 10 * pow10(l),
        ;
    }
}

/// Scanning the digits of `m` folds them onto `acc` and continues into
/// what follows, provided the final value stays within `max_num`.
proof fn lemma_sp_digits_enc(m: int, acc: int, rest: Seq<char>)
    requires
        0 <= m,
        0 <= acc,
        acc * pow10(dec_digits(m).len()) + m <= max_num(),
    ensures
        sp_digits(dec_digits(m) + rest, acc) == sp_digits(
            rest,
            acc * pow10(dec_digits(m).len()) + m,
        ),
    decreases m,
{
    lemma_dec_digits_props(m);
    if m < 10 {
        let t = dec_digits(m) + rest;
        assert(dec_digits(m) =~= seq![digit_char(m)]);
        assert(t[0] == digit_char(m));
        assert(is_digit_char(t[0]));
        assert(digit_val(digit_char(m)) == m);
        assert(pow10(1) == 10 * pow10(0));
        assert(acc * pow10(1) == acc * 10) by (nonlinear_arith)
            requires
                pow10(1) == 10,
        ;
        assert(t.drop_first() =~= rest);
    } else {
        let d = m / 10;
        let g = m % 10;
        let l = dec_digits(d).len();
        assert(dec_digits(m) == dec_digits(d) + seq![digit_char(g)]);
        assert(dec_digits(m).len() == l + 1);
        assert(pow10(l + 1) == 10 * pow10(l));
        lemma_pow10_pos(l);
        let a2 = acc * pow10(l) + d;
        assert(a2 * 10 + g == acc * pow10(l + 1) + m) by (nonlinear_arith)
            requires
                a2 == acc * pow10(l) + d,
                pow10(l + 1) == 10 * pow10(l),
                d == m / 10,
                g == m % 10,
                0 <= m,
        ;
        assert(0 <= a2) by (nonlinear_arith)
            requires
                a2 == acc * pow10(l) + d,
                0 <= acc,
                1 <= pow10(l),
                0 <= d,
        ;
        assert(a2 * 10 + g <= max_num());
        assert(a2 <= a2 * 10 + g) by (nonlinear_arith)
            requires
                0 <= a2,
                0 <= g,
        ;
        lemma_sp_digits_enc(d, acc, seq![digit_char(g)] + rest);
        assert(dec_digits(m) + rest =~= dec_digits(d) + (seq![digit_char(g)] + rest));
        let t2 = seq![digit_char(g)] + rest;
        assert(t2[0] == digit_char(g));
        assert(is_digit_char(t2[0]));
        assert(digit_val(digit_char(g)) == g);
        assert(t2.drop_first() =~= rest);
    }
}

/// Scanning the encoded unsigned integer `m` yields `m`, provided what
/// follows does not begin with another digit.
proof fn lemma_sp_uint_enc(m: int, rest: Seq<char>)
    requires
        0 <= m <= max_num(),
        rest.len() == 0 || !is_digit_char(rest[0]),
    ensures
        sp_uint(dec_digits(m) + rest) == Some((m, rest)),
{
    lemma_dec_digits_props(m);
    let t = dec_digits(m) + rest;
    assert(t[0] == dec_digits(m)[0]);
    assert(is_digit_char(t[0]));
    if m == 0 {
        assert(dec_digits(0) =~= seq![digit_char(0)]);
        assert(t[0] == '0');
        if t.len() >= 2 {
            assert(t[1] == rest[0]);
        }
        assert(t.drop_first() =~= rest);
    } else {
        assert(t[0] != '0');
        lemma_sp_digits_enc(m, 0, rest);
        assert(0 * pow10(dec_digits(m).len()) == 0) by (nonlinear_arith);
        if rest.len() > 0 {
            assert(!is_digit_char(rest[0]));
        }
        assert(sp_digits(rest, m) == Some((m, rest)));
    }
}

/// Scanning the encoded integer `v` yields `v`, provided what follows does
/// not begin with a digit.
pub proof fn lemma_sp_int_enc(v: int, rest: Seq<char>)
    requires
        -max_num() <= v <= max_num(),
        rest.len() == 0 || !is_digit_char(rest[0]),
    ensures
        sp_int(enc_int(v) + rest) == Some((v, rest)),
{
    if v < 0 {
        let t = enc_int(v) + rest;
        assert(t[0] == '-');
        assert(t.drop_first() =~= dec_digits(-v) + rest);
        lemma_sp_uint_enc(-v, rest);
    } else {
        lemma_dec_digits_props(v);
        let t = enc_int(v) + rest;
        assert(t[0] == dec_digits(v)[0]);
        assert(is_digit_char(t[0]));
        assert(t[0] != '-');
        assert(t =~= dec_digits(v) + rest);
        lemma_sp_uint_enc(v, rest);
    }
}

/// The first character of an encoded integer is a sign or a digit, never
/// whitespace.
pub proof fn lemma_enc_int_head(v: int)
    requires
        -max_num() <= v <= max_num(),
    ensures
        enc_int(v).len() > 0,
        !is_ws_char(enc_int(v)[0]),
{
    if v < 0 {
        assert(enc_int(v)[0] == '-');
    } else {
        lemma_dec_digits_props(v);
        assert(enc_int(v)[0] == dec_digits(v)[0]);
        assert(is_digit_char(enc_int(v)[0]));
    }
}

// ---------------------------------------------------------------------------
// Booleans read back
// ---------------------------------------------------------------------------

pub proof fn lemma_sp_bool_enc(b: bool, rest: Seq<char>)
    ensures
        sp_bool(enc_bool(b) + rest) == Some((b, rest)),
{
    let t = enc_bool(b) + rest;
    if b {
        assert(t[0] == 't' && t[1] == 'r' && t[2] == 'u' && t[3] == 'e');
        assert(t.skip(4) =~= rest);
    } else {
        assert(t[0] == 'f' && t[1] == 'a' && t[2] == 'l' && t[3] == 's' && t[4] == 'e');
        assert(t.skip(5) =~= rest);
    }
}

// ---------------------------------------------------------------------------
// Objects read back
// ---------------------------------------------------------------------------

/// Scanning one encoded window pair takes its key and value and goes on
/// behind the value.
proof fn lemma_window_pairs_step(
    f: Seq<char>,
    sp: Seq<char>,
    key: Seq<char>,
    val: Seq<char>,
    tail: Seq<char>,
    a: WindowAcc,
    a2: WindowAcc,
)
    requires
        all_ws(f),
        all_ws(sp),
        val.len() > 0 && !is_ws_char(val[0]),
        sp_window_value(key, val + tail, a) == Some((a2, tail)),
    ensures
        sp_window_pairs(f + enc_str(key) + seq![':'] + sp + val + tail, a) == ({
            let t6 = skip_ws(tail);
            if t6.len() == 0 {
                None
            } else if t6[0] == ',' {
                sp_window_pairs(t6.drop_first(), a2)
            } else if t6[0] == '}' {
                Some((a2, t6.drop_first()))
            } else {
                None
            }
        }),
{
    let t = f + enc_str(key) + seq![':'] + sp + val + tail;
    let rest1 = seq![':'] + (sp + (val + tail));
    let x = enc_str(key) + rest1;
    assert(t =~= f + x);
    lemma_skip_ws_prefix(f, x);
    assert(x[0] == '"');
    assert(skip_ws(x) == x);
    lemma_sp_string_enc(key, rest1);
    assert(rest1[0] == ':');
    assert(skip_ws(rest1) == rest1);
    assert(rest1.drop_first() =~= sp + (val + tail));
    lemma_skip_ws_prefix(sp, val + tail);
    assert((val + tail)[0] == val[0]);
    assert(skip_ws(val + tail) == val + tail);
}

/// Scanning one encoded note pair takes its key and value and goes on
/// behind the value.
proof fn lemma_note_pairs_step(
    f: Seq<char>,
    sp: Seq<char>,
    key: Seq<char>,
    val: Seq<char>,
    tail: Seq<char>,
    a: NoteAcc,
    a2: NoteAcc,
)
    requires
        all_ws(f),
        all_ws(sp),
        val.len() > 0 && !is_ws_char(val[0]),
        sp_note_value(key, val + tail, a) == Some((a2, tail)),
    ensures
        sp_note_pairs(f + enc_str(key) + seq![':'] + sp + val + tail, a) == ({
            let t6 = skip_ws(tail);
            if t6.len() == 0 {
                None
            } else if t6[0] == ',' {
                sp_note_pairs(t6.drop_first(), a2)
            } else if t6[0] == '}' {
                Some((a2, t6.drop_first()))
            } else {
                None
            }
        }),
{
    let t = f + enc_str(key) + seq![':'] + sp + val + tail;
    let rest1 = seq![':'] + (sp + (val + tail));
    let x = enc_str(key) + rest1;
    assert(t =~= f + x);
    lemma_skip_ws_prefix(f, x);
    assert(x[0] == '"');
    assert(skip_ws(x) == x);
    lemma_sp_string_enc(key, rest1);
    assert(rest1[0] == ':');
    assert(skip_ws(rest1) == rest1);
    assert(rest1.drop_first() =~= sp + (val + tail));
    lemma_skip_ws_prefix(sp, val + tail);
    assert((val + tail)[0] == val[0]);
    assert(skip_ws(val + tail) == val + tail);
}

/// A window geometry representable in the store's integer fields.
pub open spec fn window_view_wf(v: WindowStateView) -> bool {
    in_i32(v.x) && in_i32(v.y) && in_u32(v.width) && in_u32(v.height)
}

/// A note whose geometry is representable.
pub open spec fn note_view_wf(n: NoteView) -> bool {
    window_view_wf(n.window_state)
}

/// Every note of the store is representable.
pub open spec fn store_view_wf(s: Seq<NoteView>) -> bool {
    forall|i: int| 0 <= i < s.len() ==> note_view_wf(#[trigger] s[i])
}

// The suffixes of an encoded window object, outermost pair first; naming
// them keeps the concatenation terms small while the scan is replayed.
spec fn wr4(w: WsStyle, rest: Seq<char>) -> Seq<char> {
    w.cw + seq!['}'] + rest
}

spec fn wi4(v: WindowStateView, w: WsStyle, rest: Seq<char>) -> Seq<char> {
    w.fw + enc_str("height"@) + seq![':'] + w.sp + enc_int(v.height) + wr4(w, rest)
}

spec fn wr3(v: WindowStateView, w: WsStyle, rest: Seq<char>) -> Seq<char> {
    seq![','] + wi4(v, w, rest)
}

spec fn wi3(v: WindowStateView, w: WsStyle, rest: Seq<char>) -> Seq<char> {
    w.fw + enc_str("width"@) + seq![':'] + w.sp + enc_int(v.width) + wr3(v, w, rest)
}

spec fn wr2(v: WindowStateView, w: WsStyle, rest: Seq<char>) -> Seq<char> {
    seq![','] + wi3(v, w, rest)
}

spec fn wi2(v: WindowStateView, w: WsStyle, rest: Seq<char>) -> Seq<char> {
    w.fw + enc_str("y"@) + seq![':'] + w.sp + enc_int(v.y) + wr2(v, w, rest)
}

spec fn wr1(v: WindowStateView, w: WsStyle, rest: Seq<char>) -> Seq<char> {
    seq![','] + wi2(v, w, rest)
}

spec fn wi1(v: WindowStateView, w: WsStyle, rest: Seq<char>) -> Seq<char> {
    w.fw + enc_str("x"@) + seq![':'] + w.sp + enc_int(v.x) + wr1(v, w, rest)
}

/// Rotating a closing brace and what precedes it into a nested suffix.
proof fn lemma_close_rotate(a: Seq<char>, c: Seq<char>, rest: Seq<char>)
    ensures
        ((a + c) + seq!['}']) + rest == a + (c + seq!['}'] + rest),
{
    assert(((a + c) + seq!['}']) + rest =~= a + (c + seq!['}'] + rest));
}

/// Rotating one `", key: value"` pair into a nested suffix.
proof fn lemma_pair_rotate(
    a: Seq<char>,
    f: Seq<char>,
    ek: Seq<char>,
    sp: Seq<char>,
    ev: Seq<char>,
    tail: Seq<char>,
)
    ensures
        (a + seq![','] + f + (ek + seq![':'] + sp + ev)) + tail == a + (seq![','] + (f + ek
            + seq![':'] + sp + ev + tail)),
{
    assert((a + seq![','] + f + (ek + seq![':'] + sp + ev)) + tail =~= a + (seq![','] + (f + ek
        + seq![':'] + sp + ev + tail)));
}

/// Rotating the opening brace and first pair into a nested suffix.
proof fn lemma_first_rotate(
    f: Seq<char>,
    ek: Seq<char>,
    sp: Seq<char>,
    ev: Seq<char>,
    tail: Seq<char>,
)
    ensures
        (seq!['{'] + f + (ek + seq![':'] + sp + ev)) + tail == seq!['{'] + (f + ek + seq![':'] + sp
            + ev + tail),
{
    assert((seq!['{'] + f + (ek + seq![':'] + sp + ev)) + tail =~= seq!['{'] + (f + ek + seq![':']
        + sp + ev + tail));
}

/// An encoded window object is an opening brace before its first pair's
/// suffix.
proof fn lemma_window_reshape(v: WindowStateView, w: WsStyle, rest: Seq<char>)
    ensures
        enc_window(v, w) + rest == seq!['{'] + wi1(v, w, rest),
{
    let a1 = seq!['{'] + w.fw + enc_pair("x"@, w.sp, enc_int(v.x));
    let a2 = a1 + seq![','] + w.fw + enc_pair("y"@, w.sp, enc_int(v.y));
    let a3 = a2 + seq![','] + w.fw + enc_pair("width"@, w.sp, enc_int(v.width));
    let a4 = a3 + seq![','] + w.fw + enc_pair("height"@, w.sp, enc_int(v.height));
    assert(enc_window(v, w) == (a4 + w.cw) + seq!['}']);
    lemma_close_rotate(a4, w.cw, rest);
    assert(enc_window(v, w) + rest == a4 + wr4(w, rest));
    lemma_pair_rotate(a3, w.fw, enc_str("height"@), w.sp, enc_int(v.height), wr4(w, rest));
    assert(enc_window(v, w) + rest == a3 + wr3(v, w, rest));
    lemma_pair_rotate(a2, w.fw, enc_str("width"@), w.sp, enc_int(v.width), wr3(v, w, rest));
    assert(enc_window(v, w) + rest == a2 + wr2(v, w, rest));
    lemma_pair_rotate(a1, w.fw, enc_str("y"@), w.sp, enc_int(v.y), wr2(v, w, rest));
    assert(enc_window(v, w) + rest == a1 + wr1(v, w, rest));
    lemma_first_rotate(w.fw, enc_str("x"@), w.sp, enc_int(v.x), wr1(v, w, rest));
}

/// Scanning an encoded window object yields the very geometry written.
#[verifier::rlimit(100)]
pub proof fn lemma_window_obj_enc(v: WindowStateView, w: WsStyle, rest: Seq<char>)
    requires
        ws_ok(w),
        window_view_wf(v),
    ensures
        sp_window_obj(enc_window(v, w) + rest) == Some((v, rest)),
{
    reveal_strlit("x");
    reveal_strlit("y");
    reveal_strlit("width");
    reveal_strlit("height");
    assert("y"@ != "x"@) by {
        assert("y"@[0] == 'y' && "x"@[0] == 'x');
    }
    lemma_window_reshape(v, w, rest);
    let a0 = empty_window_acc();
    let a1 = WindowAcc { x: Some(v.x), ..a0 };
    let a2 = WindowAcc { y: Some(v.y), ..a1 };
    let a3 = WindowAcc { width: Some(v.width), ..a2 };
    let a4 = WindowAcc { height: Some(v.height), ..a3 };
    lemma_enc_int_head(v.x);
    lemma_enc_int_head(v.y);
    lemma_enc_int_head(v.width);
    lemma_enc_int_head(v.height);
    // pair "x"
    assert(wr1(v, w, rest)[0] == ',');
    lemma_sp_int_enc(v.x, wr1(v, w, rest));
    assert(sp_window_value("x"@, enc_int(v.x) + wr1(v, w, rest), a0) == Some((a1, wr1(v, w, rest))));
    lemma_window_pairs_step(w.fw, w.sp, "x"@, enc_int(v.x), wr1(v, w, rest), a0, a1);
    assert(skip_ws(wr1(v, w, rest)) == wr1(v, w, rest));
    assert(wr1(v, w, rest).drop_first() =~= wi2(v, w, rest));
    assert(sp_window_pairs(wi1(v, w, rest), a0) == sp_window_pairs(wi2(v, w, rest), a1));
    // pair "y"
    assert(wr2(v, w, rest)[0] == ',');
    lemma_sp_int_enc(v.y, wr2(v, w, rest));
    assert(sp_window_value("y"@, enc_int(v.y) + wr2(v, w, rest), a1) == Some((a2, wr2(v, w, rest))));
    lemma_window_pairs_step(w.fw, w.sp, "y"@, enc_int(v.y), wr2(v, w, rest), a1, a2);
    assert(skip_ws(wr2(v, w, rest)) == wr2(v, w, rest));
    assert(wr2(v, w, rest).drop_first() =~= wi3(v, w, rest));
    assert(sp_window_pairs(wi2(v, w, rest), a1) == sp_window_pairs(wi3(v, w, rest), a2));
    // pair "width"
    assert(wr3(v, w, rest)[0] == ',');
    lemma_sp_int_enc(v.width, wr3(v, w, rest));
    assert(sp_window_value("width"@, enc_int(v.width) + wr3(v, w, rest), a2) == Some(
        (a3, wr3(v, w, rest)),
    ));
    lemma_window_pairs_step(w.fw, w.sp, "width"@, enc_int(v.width), wr3(v, w, rest), a2, a3);
    assert(skip_ws(wr3(v, w, rest)) == wr3(v, w, rest));
    assert(wr3(v, w, rest).drop_first() =~= wi4(v, w, rest));
    assert(sp_window_pairs(wi3(v, w, rest), a2) == sp_window_pairs(wi4(v, w, rest), a3));
    // pair "height"
    assert(wr4(w, rest).len() == 0 || !is_digit_char(wr4(w, rest)[0])) by {
        assert(wr4(w, rest) =~= w.cw + (seq!['}'] + rest));
        if wr4(w, rest).len() > 0 {
            if w.cw.len() > 0 {
                assert(wr4(w, rest)[0] == w.cw[0]);
                assert(is_ws_char(w.cw[0]));
            } else {
                assert(wr4(w, rest)[0] == '}');
            }
        }
    }
    lemma_sp_int_enc(v.height, wr4(w, rest));
    assert(sp_window_value("height"@, enc_int(v.height) + wr4(w, rest), a3) == Some(
        (a4, wr4(w, rest)),
    ));
    lemma_window_pairs_step(w.fw, w.sp, "height"@, enc_int(v.height), wr4(w, rest), a3, a4);
    assert(wr4(w, rest) =~= w.cw + (seq!['}'] + rest));
    lemma_skip_ws_prefix(w.cw, seq!['}'] + rest);
    assert((seq!['}'] + rest)[0] == '}');
    assert(skip_ws(seq!['}'] + rest) == seq!['}'] + rest);
    assert((seq!['}'] + rest).drop_first() =~= rest);
    assert(sp_window_pairs(wi4(v, w, rest), a3) == Some((a4, rest)));
    // the whole object
    assert((seq!['{'] + wi1(v, w, rest))[0] == '{');
    assert((seq!['{'] + wi1(v, w, rest)).drop_first() =~= wi1(v, w, rest));
    assert(finish_window(a4) == Some(
        WindowStateView { x: v.x, y: v.y, width: v.width, height: v.height },
    ));
    assert(v == WindowStateView { x: v.x, y: v.y, width: v.width, height: v.height });
}

// The suffixes of an encoded note object, outermost pair first.
spec fn nr8(w: WsStyle, rest: Seq<char>) -> Seq<char> {
    w.c + seq!['}'] + rest
}

spec fn ni8(n: NoteView, w: WsStyle, rest: Seq<char>) -> Seq<char> {
    w.f + enc_str("deleted"@) + seq![':'] + w.sp + enc_bool(n.deleted) + nr8(w, rest)
}

spec fn nr7(n: NoteView, w: WsStyle, rest: Seq<char>) -> Seq<char> {
    seq![','] + ni8(n, w, rest)
}

spec fn ni7(n: NoteView, w: WsStyle, rest: Seq<char>) -> Seq<char> {
    w.f + enc_str("color"@) + seq![':'] + w.sp + enc_str(n.color) + nr7(n, w, rest)
}

spec fn nr6(n: NoteView, w: WsStyle, rest: Seq<char>) -> Seq<char> {
    seq![','] + ni7(n, w, rest)
}

spec fn ni6(n: NoteView, w: WsStyle, rest: Seq<char>) -> Seq<char> {
    w.f + enc_str("window_state"@) + seq![':'] + w.sp + enc_window(n.window_state, w) + nr6(
        n,
        w,
        rest,
    )
}

spec fn nr5(n: NoteView, w: WsStyle, rest: Seq<char>) -> Seq<char> {
    seq![','] + ni6(n, w, rest)
}

spec fn ni5(n: NoteView, w: WsStyle, rest: Seq<char>) -> Seq<char> {
    w.f + enc_str("updated_at"@) + seq![':'] + w.sp + enc_str(n.updated_at) + nr5(n, w, rest)
}

spec fn nr4(n: NoteView, w: WsStyle, rest: Seq<char>) -> Seq<char> {
    seq![','] + ni5(n, w, rest)
}

spec fn ni4(n: NoteView, w: WsStyle, rest: Seq<char>) -> Seq<char> {
    w.f + enc_str("created_at"@) + seq![':'] + w.sp + enc_str(n.created_at) + nr4(n, w, rest)
}

spec fn nr3(n: NoteView, w: WsStyle, rest: Seq<char>) -> Seq<char> {
    seq![','] + ni4(n, w, rest)
}

spec fn ni3(n: NoteView, w: WsStyle, rest: Seq<char>) -> Seq<char> {
    w.f + enc_str("content"@) + seq![':'] + w.sp + enc_str(n.content) + nr3(n, w, rest)
}

spec fn nr2(n: NoteView, w: WsStyle, rest: Seq<char>) -> Seq<char> {
    seq![','] + ni3(n, w, rest)
}

spec fn ni2(n: NoteView, w: WsStyle, rest: Seq<char>) -> Seq<char> {
    w.f + enc_str("title"@) + seq![':'] + w.sp + enc_str(n.title) + nr2(n, w, rest)
}

spec fn nr1(n: NoteView, w: WsStyle, rest: Seq<char>) -> Seq<char> {
    seq![','] + ni2(n, w, rest)
}

spec fn ni1(n: NoteView, w: WsStyle, rest: Seq<char>) -> Seq<char> {
    w.f + enc_str("id"@) + seq![':'] + w.sp + enc_str(n.id) + nr1(n, w, rest)
}

/// An encoded note object is an opening brace before its first pair's
/// suffix.
proof fn lemma_note_reshape(n: NoteView, w: WsStyle, rest: Seq<char>)
    ensures
        enc_note(n, w) + rest == seq!['{'] + ni1(n, w, rest),
{
    let a1 = seq!['{'] + w.f + enc_pair("id"@, w.sp, enc_str(n.id));
    let a2 = a1 + seq![','] + w.f + enc_pair("title"@, w.sp, enc_str(n.title));
    let a3 = a2 + seq![','] + w.f + enc_pair("content"@, w.sp, enc_str(n.content));
    let a4 = a3 + seq![','] + w.f + enc_pair("created_at"@, w.sp, enc_str(n.created_at));
    let a5 = a4 + seq![','] + w.f + enc_pair("updated_at"@, w.sp, enc_str(n.updated_at));
    let a6 = a5 + seq![','] + w.f + enc_pair("window_state"@, w.sp, enc_window(n.window_state, w));
    let a7 = a6 + seq![','] + w.f + enc_pair("color"@, w.sp, enc_str(n.color));
    let a8 = a7 + seq![','] + w.f + enc_pair("deleted"@, w.sp, enc_bool(n.deleted));
    assert(enc_note(n, w) == (a8 + w.c) + seq!['}']);
    lemma_close_rotate(a8, w.c, rest);
    assert(enc_note(n, w) + rest == a8 + nr8(w, rest));
    lemma_pair_rotate(a7, w.f, enc_str("deleted"@), w.sp, enc_bool(n.deleted), nr8(w, rest));
    assert(enc_note(n, w) + rest == a7 + nr7(n, w, rest));
    lemma_pair_rotate(a6, w.f, enc_str("color"@), w.sp, enc_str(n.color), nr7(n, w, rest));
    assert(enc_note(n, w) + rest == a6 + nr6(n, w, rest));
    lemma_pair_rotate(
        a5,
        w.f,
        enc_str("window_state"@),
        w.sp,
        enc_window(n.window_state, w),
        nr6(n, w, rest),
    );
    assert(enc_note(n, w) + rest == a5 + nr5(n, w, rest));
    lemma_pair_rotate(a4, w.f, enc_str("updated_at"@), w.sp, enc_str(n.updated_at), nr5(n, w, rest));
    assert(enc_note(n, w) + rest == a4 + nr4(n, w, rest));
    lemma_pair_rotate(a3, w.f, enc_str("created_at"@), w.sp, enc_str(n.created_at), nr4(n, w, rest));
    assert(enc_note(n, w) + rest == a3 + nr3(n, w, rest));
    lemma_pair_rotate(a2, w.f, enc_str("content"@), w.sp, enc_str(n.content), nr3(n, w, rest));
    assert(enc_note(n, w) + rest == a2 + nr2(n, w, rest));
    lemma_pair_rotate(a1, w.f, enc_str("title"@), w.sp, enc_str(n.title), nr2(n, w, rest));
    assert(enc_note(n, w) + rest == a1 + nr1(n, w, rest));
    lemma_first_rotate(w.f, enc_str("id"@), w.sp, enc_str(n.id), nr1(n, w, rest));
}

// The accumulator after each pair of a note object, in writing order.
spec fn na1(n: NoteView) -> NoteAcc {
    NoteAcc { id: Some(n.id), ..empty_note_acc() }
}

spec fn na2(n: NoteView) -> NoteAcc {
    NoteAcc { title: Some(n.title), ..na1(n) }
}

spec fn na3(n: NoteView) -> NoteAcc {
    NoteAcc { content: Some(n.content), ..na2(n) }
}

spec fn na4(n: NoteView) -> NoteAcc {
    NoteAcc { created_at: Some(n.created_at), ..na3(n) }
}

spec fn na5(n: NoteView) -> NoteAcc {
    NoteAcc { updated_at: Some(n.updated_at), ..na4(n) }
}

spec fn na6(n: NoteView) -> NoteAcc {
    NoteAcc { window_state: Some(n.window_state), ..na5(n) }
}

spec fn na7(n: NoteView) -> NoteAcc {
    NoteAcc { color: Some(n.color), ..na6(n) }
}

spec fn na8(n: NoteView) -> NoteAcc {
    NoteAcc { deleted: Some(n.deleted), ..na7(n) }
}

/// Scanning the first four pairs of an encoded note object collects the
/// four text fields.
#[verifier::rlimit(100)]
proof fn lemma_note_pairs_front(n: NoteView, w: WsStyle, rest: Seq<char>)
    requires
        ws_ok(w),
    ensures
        sp_note_pairs(ni1(n, w, rest), empty_note_acc()) == sp_note_pairs(
            ni5(n, w, rest),
            na4(n),
        ),
{
    reveal_strlit("id");
    reveal_strlit("title");
    reveal_strlit("content");
    reveal_strlit("created_at");
    // pair "id"
    assert((enc_str(n.id) + nr1(n, w, rest))[0] == '"');
    lemma_sp_string_enc(n.id, nr1(n, w, rest));
    assert(sp_note_value("id"@, enc_str(n.id) + nr1(n, w, rest), empty_note_acc()) == Some(
        (na1(n), nr1(n, w, rest)),
    ));
    lemma_note_pairs_step(w.f, w.sp, "id"@, enc_str(n.id), nr1(n, w, rest), empty_note_acc(), na1(n));
    assert(nr1(n, w, rest)[0] == ',');
    assert(skip_ws(nr1(n, w, rest)) == nr1(n, w, rest));
    assert(nr1(n, w, rest).drop_first() =~= ni2(n, w, rest));
    assert(sp_note_pairs(ni1(n, w, rest), empty_note_acc()) == sp_note_pairs(
        ni2(n, w, rest),
        na1(n),
    ));
    // pair "title"
    assert((enc_str(n.title) + nr2(n, w, rest))[0] == '"');
    lemma_sp_string_enc(n.title, nr2(n, w, rest));
    assert(sp_note_value("title"@, enc_str(n.title) + nr2(n, w, rest), na1(n)) == Some(
        (na2(n), nr2(n, w, rest)),
    ));
    lemma_note_pairs_step(w.f, w.sp, "title"@, enc_str(n.title), nr2(n, w, rest), na1(n), na2(n));
    assert(nr2(n, w, rest)[0] == ',');
    assert(skip_ws(nr2(n, w, rest)) == nr2(n, w, rest));
    assert(nr2(n, w, rest).drop_first() =~= ni3(n, w, rest));
    assert(sp_note_pairs(ni2(n, w, rest), na1(n)) == sp_note_pairs(ni3(n, w, rest), na2(n)));
    // pair "content"
    assert((enc_str(n.content) + nr3(n, w, rest))[0] == '"');
    lemma_sp_string_enc(n.content, nr3(n, w, rest));
    assert(sp_note_value("content"@, enc_str(n.content) + nr3(n, w, rest), na2(n)) == Some(
        (na3(n), nr3(n, w, rest)),
    ));
    lemma_note_pairs_step(w.f, w.sp, "content"@, enc_str(n.content), nr3(n, w, rest), na2(n), na3(n));
    assert(nr3(n, w, rest)[0] == ',');
    assert(skip_ws(nr3(n, w, rest)) == nr3(n, w, rest));
    assert(nr3(n, w, rest).drop_first() =~= ni4(n, w, rest));
    assert(sp_note_pairs(ni3(n, w, rest), na2(n)) == sp_note_pairs(ni4(n, w, rest), na3(n)));
    // pair "created_at"
    assert((enc_str(n.created_at) + nr4(n, w, rest))[0] == '"');
    lemma_sp_string_enc(n.created_at, nr4(n, w, rest));
    assert(sp_note_value("created_at"@, enc_str(n.created_at) + nr4(n, w, rest), na3(n)) == Some(
        (na4(n), nr4(n, w, rest)),
    ));
    lemma_note_pairs_step(
        w.f,
        w.sp,
        "created_at"@,
        enc_str(n.created_at),
        nr4(n, w, rest),
        na3(n),
        na4(n),
    );
    assert(nr4(n, w, rest)[0] == ',');
    assert(skip_ws(nr4(n, w, rest)) == nr4(n, w, rest));
    assert(nr4(n, w, rest).drop_first() =~= ni5(n, w, rest));
    assert(sp_note_pairs(ni4(n, w, rest), na3(n)) == sp_note_pairs(ni5(n, w, rest), na4(n)));
}

/// Scanning the last four pairs of an encoded note object collects the
/// remaining fields and ends at the closing brace.
#[verifier::rlimit(100)]
proof fn lemma_note_pairs_back(n: NoteView, w: WsStyle, rest: Seq<char>)
    requires
        ws_ok(w),
        note_view_wf(n),
    ensures
        sp_note_pairs(ni5(n, w, rest), na4(n)) == Some((na8(n), rest)),
{
    reveal_strlit("id");
    reveal_strlit("title");
    reveal_strlit("content");
    reveal_strlit("created_at");
    reveal_strlit("updated_at");
    reveal_strlit("window_state");
    reveal_strlit("color");
    reveal_strlit("deleted");
    assert("updated_at"@ != "created_at"@) by {
        assert("updated_at"@[0] == 'u' && "created_at"@[0] == 'c');
    }
    assert("color"@ != "title"@) by {
        assert("color"@[0] == 'c' && "title"@[0] == 't');
    }
    assert("deleted"@ != "content"@) by {
        assert("deleted"@[0] == 'd' && "content"@[0] == 'c');
    }
    // pair "updated_at"
    assert((enc_str(n.updated_at) + nr5(n, w, rest))[0] == '"');
    lemma_sp_string_enc(n.updated_at, nr5(n, w, rest));
    assert(sp_note_value("updated_at"@, enc_str(n.updated_at) + nr5(n, w, rest), na4(n)) == Some(
        (na5(n), nr5(n, w, rest)),
    ));
    lemma_note_pairs_step(
        w.f,
        w.sp,
        "updated_at"@,
        enc_str(n.updated_at),
        nr5(n, w, rest),
        na4(n),
        na5(n),
    );
    assert(nr5(n, w, rest)[0] == ',');
    assert(skip_ws(nr5(n, w, rest)) == nr5(n, w, rest));
    assert(nr5(n, w, rest).drop_first() =~= ni6(n, w, rest));
    assert(sp_note_pairs(ni5(n, w, rest), na4(n)) == sp_note_pairs(ni6(n, w, rest), na5(n)));
    // pair "window_state"
    assert((enc_window(n.window_state, w) + nr6(n, w, rest))[0] == '{');
    lemma_window_obj_enc(n.window_state, w, nr6(n, w, rest));
    assert(sp_note_value("window_state"@, enc_window(n.window_state, w) + nr6(n, w, rest), na5(n))
        == Some((na6(n), nr6(n, w, rest))));
    lemma_note_pairs_step(
        w.f,
        w.sp,
        "window_state"@,
        enc_window(n.window_state, w),
        nr6(n, w, rest),
        na5(n),
        na6(n),
    );
    assert(nr6(n, w, rest)[0] == ',');
    assert(skip_ws(nr6(n, w, rest)) == nr6(n, w, rest));
    assert(nr6(n, w, rest).drop_first() =~= ni7(n, w, rest));
    assert(sp_note_pairs(ni6(n, w, rest), na5(n)) == sp_note_pairs(ni7(n, w, rest), na6(n)));
    // pair "color"
    assert((enc_str(n.color) + nr7(n, w, rest))[0] == '"');
    lemma_sp_string_enc(n.color, nr7(n, w, rest));
    assert(sp_note_value("color"@, enc_str(n.color) + nr7(n, w, rest), na6(n)) == Some(
        (na7(n), nr7(n, w, rest)),
    ));
    lemma_note_pairs_step(w.f, w.sp, "color"@, enc_str(n.color), nr7(n, w, rest), na6(n), na7(n));
    assert(nr7(n, w, rest)[0] == ',');
    assert(skip_ws(nr7(n, w, rest)) == nr7(n, w, rest));
    assert(nr7(n, w, rest).drop_first() =~= ni8(n, w, rest));
    assert(sp_note_pairs(ni7(n, w, rest), na6(n)) == sp_note_pairs(ni8(n, w, rest), na7(n)));
    // pair "deleted"
    assert((enc_bool(n.deleted) + nr8(w, rest))[0] == enc_bool(n.deleted)[0]);
    assert(!is_ws_char(enc_bool(n.deleted)[0]));
    lemma_sp_bool_enc(n.deleted, nr8(w, rest));
    assert(sp_note_value("deleted"@, enc_bool(n.deleted) + nr8(w, rest), na7(n)) == Some(
        (na8(n), nr8(w, rest)),
    ));
    lemma_note_pairs_step(w.f, w.sp, "deleted"@, enc_bool(n.deleted), nr8(w, rest), na7(n), na8(n));
    assert(nr8(w, rest) =~= w.c + (seq!['}'] + rest));
    lemma_skip_ws_prefix(w.c, seq!['}'] + rest);
    assert((seq!['}'] + rest)[0] == '}');
    assert(skip_ws(seq!['}'] + rest) == seq!['}'] + rest);
    assert((seq!['}'] + rest).drop_first() =~= rest);
    assert(sp_note_pairs(ni8(n, w, rest), na7(n)) == Some((na8(n), rest)));
}

/// Scanning an encoded note object yields the very note written.
pub proof fn lemma_note_obj_enc(n: NoteView, w: WsStyle, rest: Seq<char>)
    requires
        ws_ok(w),
        note_view_wf(n),
    ensures
        sp_note_obj(enc_note(n, w) + rest) == Some((n, rest)),
{
    lemma_note_reshape(n, w, rest);
    lemma_note_pairs_front(n, w, rest);
    lemma_note_pairs_back(n, w, rest);
    assert((seq!['{'] + ni1(n, w, rest))[0] == '{');
    assert((seq!['{'] + ni1(n, w, rest)).drop_first() =~= ni1(n, w, rest));
    assert(finish_note(na8(n)) matches Some(m) && m == n) by {
        assert(n == NoteView {
            id: n.id,
            title: n.title,
            content: n.content,
            created_at: n.created_at,
            updated_at: n.updated_at,
            window_state: n.window_state,
            color: n.color,
            deleted: n.deleted,
        });
    }
}

// ---------------------------------------------------------------------------
// The array and the whole document read back
// ---------------------------------------------------------------------------

/// Concatenation is associative.
proof fn lemma_assoc(a: Seq<char>, b: Seq<char>, c: Seq<char>)
    ensures
        (a + b) + c == a + (b + c),
{
    assert((a + b) + c =~= a + (b + c));
}

/// Dropping a one-piece front of a concatenation.
proof fn lemma_drop_front(h: Seq<char>, x: Seq<char>)
    requires
        h.len() == 1,
    ensures
        (h + x).drop_first() == x,
{
    assert((h + x).drop_first() =~= x);
}

/// Rotating the last element of an encoded list into a nested suffix.
proof fn lemma_list_rotate(a: Seq<char>, g: Seq<char>, b: Seq<char>, c: Seq<char>)
    ensures
        (a + seq![','] + g + b) + seq![','] + g + c == a + seq![','] + g + (b + seq![','] + g + c),
{
    assert((a + seq![','] + g + b) + seq![','] + g + c =~= a + seq![','] + g + (b + seq![','] + g
        + c));
}

/// Rotating the first element of an encoded list out of the whole.
proof fn lemma_elem_rotate(a: Seq<char>, g: Seq<char>, b: Seq<char>, rest: Seq<char>)
    ensures
        (a + seq![','] + g + b) + rest == a + (seq![','] + (g + (b + rest))),
{
    assert((a + seq![','] + g + b) + rest =~= a + (seq![','] + (g + (b + rest))));
}

/// Opening an encoded non-empty array: what stands after the bracket.
proof fn lemma_arr_open(g: Seq<char>, b: Seq<char>, ca: Seq<char>, rest: Seq<char>)
    ensures
        ((seq!['['] + g + b + ca + seq![']']) + rest).drop_first() == g + (b + (ca + seq![']']
            + rest)),
{
    assert(((seq!['['] + g + b + ca + seq![']']) + rest).drop_first() =~= g + (b + (ca + seq![']']
        + rest)));
}

/// Nesting the body of a single `"key": value` object suffix.
proof fn lemma_inner_rotate(
    f: Seq<char>,
    ek: Seq<char>,
    sp: Seq<char>,
    ev: Seq<char>,
    tail: Seq<char>,
)
    ensures
        f + ek + seq![':'] + sp + ev + tail == f + (ek + (seq![':'] + (sp + (ev + tail)))),
{
    assert(f + ek + seq![':'] + sp + ev + tail =~= f + (ek + (seq![':'] + (sp + (ev + tail)))));
}

/// An encoded note object begins with its opening brace.
proof fn lemma_enc_note_head(n: NoteView, w: WsStyle)
    ensures
        enc_note(n, w).len() > 0,
        enc_note(n, w)[0] == '{',
{
    assert(enc_note(n, w)[0] == '{');
}

/// An encoded list of notes read head first: the first note's object, then
/// a comma, the element whitespace and the remaining list.
proof fn lemma_notes_list_cons(s: Seq<NoteView>, w: WsStyle)
    requires
        s.len() >= 2,
    ensures
        enc_notes_list(s, w) == enc_note(s[0], w) + seq![','] + w.g + enc_notes_list(
            s.drop_first(),
            w,
        ),
    decreases s.len(),
{
    let d = s.drop_last();
    assert(d[0] == s[0]);
    assert(s.last() == s[s.len() - 1]);
    if s.len() == 2 {
        assert(enc_notes_list(d, w) == enc_note(d[0], w));
        assert(s.drop_first().len() == 1);
        assert(enc_notes_list(s.drop_first(), w) == enc_note(s.drop_first()[0], w));
        assert(s.drop_first()[0] == s[1]);
    } else {
        lemma_notes_list_cons(d, w);
        assert(s.drop_first().len() >= 2);
        assert(s.drop_first().drop_last() =~= d.drop_first());
        assert(s.drop_first().last() == s.last());
        assert(enc_notes_list(s.drop_first(), w) == enc_notes_list(d.drop_first(), w) + seq![',']
            + w.g + enc_note(s.last(), w));
        lemma_list_rotate(
            enc_note(s[0], w),
            w.g,
            enc_notes_list(d.drop_first(), w),
            enc_note(s.last(), w),
        );
    }
}

/// Scanning the encoded elements of a non-empty list, after any leading
/// whitespace, collects the notes in order and stops behind the closing
/// bracket that follows the list.
#[verifier::rlimit(100)]
proof fn lemma_notes_elems_enc(
    pre: Seq<char>,
    s: Seq<NoteView>,
    w: WsStyle,
    rest: Seq<char>,
    acc: Seq<NoteView>,
)
    requires
        all_ws(pre),
        ws_ok(w),
        store_view_wf(s),
        s.len() > 0,
        skip_ws(rest).len() > 0 && skip_ws(rest)[0] == ']',
    ensures
        sp_notes_elems(pre + (enc_notes_list(s, w) + rest), acc) == Some(
            (acc + s, skip_ws(rest).drop_first()),
        ),
    decreases s.len(),
{
    let input = pre + (enc_notes_list(s, w) + rest);
    assert(note_view_wf(s[0]));
    if s.len() == 1 {
        assert(enc_notes_list(s, w) == enc_note(s[0], w));
        let x = enc_note(s[0], w) + rest;
        lemma_enc_note_head(s[0], w);
        assert(x[0] == '{');
        lemma_skip_ws_prefix(pre, x);
        assert(skip_ws(x) == x);
        lemma_note_obj_enc(s[0], w, rest);
        assert(acc.push(s[0]) =~= acc + s);
    } else {
        lemma_notes_list_cons(s, w);
        let s2 = s.drop_first();
        let tail0 = seq![','] + (w.g + (enc_notes_list(s2, w) + rest));
        lemma_elem_rotate(enc_note(s[0], w), w.g, enc_notes_list(s2, w), rest);
        assert(enc_notes_list(s, w) + rest == enc_note(s[0], w) + tail0);
        let x = enc_note(s[0], w) + tail0;
        lemma_enc_note_head(s[0], w);
        assert(x[0] == '{');
        lemma_skip_ws_prefix(pre, x);
        assert(skip_ws(x) == x);
        lemma_note_obj_enc(s[0], w, tail0);
        assert(tail0[0] == ',');
        assert(skip_ws(tail0) == tail0);
        lemma_drop_front(seq![','], w.g + (enc_notes_list(s2, w) + rest));
        assert(tail0.drop_first() == w.g + (enc_notes_list(s2, w) + rest));
        assert(store_view_wf(s2)) by {
            assert(forall|i: int| 0 <= i < s2.len() ==> s2[i] == s[i + 1]);
        }
        lemma_notes_elems_enc(w.g, s2, w, rest, acc.push(s[0]));
        assert(acc.push(s[0]) + s2 =~= acc + s);
    }
}

/// Scanning an encoded notes array yields the very notes written.
#[verifier::rlimit(100)]
proof fn lemma_notes_arr_enc(s: Seq<NoteView>, w: WsStyle, rest: Seq<char>)
    requires
        ws_ok(w),
        store_view_wf(s),
    ensures
        sp_notes_arr(enc_notes_arr(s, w) + rest) == Some((s, rest)),
{
    let t = enc_notes_arr(s, w) + rest;
    if s.len() == 0 {
        assert(t[0] == '[');
        lemma_drop_front(seq!['['], seq![']'] + rest);
        assert(seq!['[', ']'] + rest =~= seq!['['] + (seq![']'] + rest));
        assert(t.drop_first() == seq![']'] + rest);
        assert((seq![']'] + rest)[0] == ']');
        assert(skip_ws(seq![']'] + rest) == seq![']'] + rest);
        lemma_drop_front(seq![']'], rest);
        assert(Seq::<NoteView>::empty() =~= s);
    } else {
        let rest_e = w.ca + seq![']'] + rest;
        assert(t[0] == '[');
        lemma_arr_open(w.g, enc_notes_list(s, w), w.ca, rest);
        lemma_assoc(w.ca, seq![']'], rest);
        assert(t.drop_first() == w.g + (enc_notes_list(s, w) + rest_e));
        lemma_enc_note_head(s[0], w);
        // head of the list, to rule out the empty-array branch
        if s.len() == 1 {
            assert(enc_notes_list(s, w) == enc_note(s[0], w));
        } else {
            lemma_notes_list_cons(s, w);
        }
        assert(enc_notes_list(s, w).len() > 0 && enc_notes_list(s, w)[0] == '{');
        let y = enc_notes_list(s, w) + rest_e;
        assert(y[0] == '{');
        lemma_skip_ws_prefix(w.g, y);
        assert(skip_ws(y) == y);
        assert(skip_ws(t.drop_first()) == y);
        assert(rest_e == w.ca + (seq![']'] + rest));
        lemma_skip_ws_prefix(w.ca, seq![']'] + rest);
        assert((seq![']'] + rest)[0] == ']');
        assert(skip_ws(seq![']'] + rest) == seq![']'] + rest);
        assert(skip_ws(rest_e) == seq![']'] + rest);
        lemma_notes_elems_enc(w.g, s, w, rest_e, Seq::<NoteView>::empty());
        assert(Seq::<NoteView>::empty() + s =~= s);
        lemma_drop_front(seq![']'], rest);
    }
}

/// Scanning an encoded document yields the very store written.
#[verifier::rlimit(100)]
proof fn lemma_store_enc(s: Seq<NoteView>, w: WsStyle, rest: Seq<char>)
    requires
        ws_ok(w),
        store_view_wf(s),
    ensures
        sp_store(enc_store(s, w) + rest) == Some((s, rest)),
{
    let arr = enc_notes_arr(s, w);
    let a1 = seq!['{'] + w.fs + enc_pair("notes"@, w.sp, arr);
    assert(enc_store(s, w) == (a1 + w.cs) + seq!['}']);
    lemma_close_rotate(a1, w.cs, rest);
    let rs = w.cs + seq!['}'] + rest;
    assert(enc_store(s, w) + rest == a1 + rs);
    lemma_first_rotate(w.fs, enc_str("notes"@), w.sp, arr, rs);
    let si = w.fs + enc_str("notes"@) + seq![':'] + w.sp + arr + rs;
    assert(enc_store(s, w) + rest == seq!['{'] + si);
    let t = enc_store(s, w) + rest;
    assert(t[0] == '{');
    assert(skip_ws(t) == t);
    lemma_drop_front(seq!['{'], si);
    assert(t.drop_first() == si);
    let rest1 = seq![':'] + (w.sp + (arr + rs));
    lemma_inner_rotate(w.fs, enc_str("notes"@), w.sp, arr, rs);
    assert(si == w.fs + (enc_str("notes"@) + rest1));
    lemma_skip_ws_prefix(w.fs, enc_str("notes"@) + rest1);
    assert((enc_str("notes"@) + rest1)[0] == '"');
    assert(skip_ws(enc_str("notes"@) + rest1) == enc_str("notes"@) + rest1);
    lemma_sp_string_enc("notes"@, rest1);
    assert(rest1[0] == ':');
    assert(skip_ws(rest1) == rest1);
    lemma_drop_front(seq![':'], w.sp + (arr + rs));
    assert(rest1.drop_first() == w.sp + (arr + rs));
    lemma_skip_ws_prefix(w.sp, arr + rs);
    assert(arr.len() > 0 && (arr[0] == '[')) by {
        if s.len() == 0 {
        } else {
            assert(enc_notes_arr(s, w)[0] == '[');
        }
    }
    assert((arr + rs)[0] == '[');
    assert(skip_ws(arr + rs) == arr + rs);
    lemma_notes_arr_enc(s, w, rs);
    lemma_assoc(w.cs, seq!['}'], rest);
    assert(rs == w.cs + (seq!['}'] + rest));
    lemma_skip_ws_prefix(w.cs, seq!['}'] + rest);
    assert((seq!['}'] + rest)[0] == '}');
    assert(skip_ws(seq!['}'] + rest) == seq!['}'] + rest);
    lemma_drop_front(seq!['}'], rest);
}

// ---------------------------------------------------------------------------
// The library's persistence laws
// ---------------------------------------------------------------------------

proof fn lemma_nl_ind_ws(m: int)
    ensures
        all_ws(nl_ind(m)),
{
    assert(forall|i: int| 0 <= i < nl_ind(m).len() ==> is_ws_char(#[trigger] nl_ind(m)[i])) by {
        assert(forall|i: int| 1 <= i < nl_ind(m).len() ==> nl_ind(m)[i] == ' ');
    }
}

/// Both styles the writers use weave only whitespace between tokens.
pub proof fn lemma_styles_ws_ok()
    ensures
        ws_ok(pretty_style()),
        ws_ok(compact_style()),
{
    lemma_nl_ind_ws(0);
    lemma_nl_ind_ws(2);
    lemma_nl_ind_ws(4);
    lemma_nl_ind_ws(6);
    lemma_nl_ind_ws(8);
}

/// Round-trip fidelity: loading a saved document yields exactly the notes
/// that were saved, field for field and in order, whether the document was
/// written pretty-printed or compactly. In particular a saved empty store
/// loads back empty.
pub proof fn lemma_save_load_round_trip(s: Seq<NoteView>)
    requires
        store_view_wf(s),
    ensures
        spec_load(enc_store(s, pretty_style())) == s,
        spec_load(enc_store(s, compact_style())) == s,
{
    lemma_styles_ws_ok();
    lemma_store_enc(s, pretty_style(), Seq::<char>::empty());
    lemma_store_enc(s, compact_style(), Seq::<char>::empty());
    assert(enc_store(s, pretty_style()) + Seq::<char>::empty() =~= enc_store(s, pretty_style()));
    assert(enc_store(s, compact_style()) + Seq::<char>::empty() =~= enc_store(s, compact_style()));
}

/// Every store held in executable form is representable, so the round
/// trip applies to it.
pub proof fn lemma_notes_view_wf(v: Seq<Note>)
    ensures
        store_view_wf(notes_view(v)),
{
    assert(forall|i: int| 0 <= i < notes_view(v).len() ==> note_view_wf(#[trigger] notes_view(
        v,
    )[i])) by {
        assert(forall|i: int| 0 <= i < v.len() ==> notes_view(v)[i] == v[i]@);
    }
}

/// After a round trip, looking a note up by id finds exactly what it found
/// before.
pub proof fn lemma_round_trip_get_note(s: Seq<NoteView>, id: Seq<char>)
    requires
        store_view_wf(s),
    ensures
        first_with_id(spec_load(enc_store(s, pretty_style())), id) == first_with_id(s, id),
{
    lemma_save_load_round_trip(s);
}

/// The fail-open policy: a text that is not a well-formed document loads
/// as the empty store — loading never fails.
pub proof fn lemma_fail_open(t: Seq<char>)
    ensures
        spec_parse_store(t) is None ==> spec_load(t) == Seq::<NoteView>::empty(),
{
}

/// A note object that omitted `window_state`, `color` and `deleted`
/// decodes with the documented defaults: geometry (100, 100, 300, 400),
/// the warm-yellow color tag, and the flag cleared.
pub proof fn lemma_missing_fields_defaults(a: NoteAcc)
    requires
        a.id is Some,
        a.title is Some,
        a.content is Some,
        a.created_at is Some,
        a.updated_at is Some,
        a.window_state is None,
        a.color is None,
        a.deleted is None,
    ensures
        finish_note(a) matches Some(m) && m.window_state == default_window_state() && m.color
            == default_color_spec() && !m.deleted,
{
}

} // verus!
