//! Primitive pieces of the store's JSON document format: character classes,
//! the escape scheme for string literals, decimal numbers and the two
//! boolean words, each as a spec-level grammar beside an executable scanner
//! or writer proved against it.
//!
//! Scanners work on a suffix of the input: a spec scanner takes the
//! remaining character sequence and yields the parsed value together with
//! the sequence left over, or nothing when the text is malformed; the
//! executable scanner walks the same input by index.

use vstd::prelude::*;

verus! {

// ---------------------------------------------------------------------------
// Character classes
// ---------------------------------------------------------------------------

/// JSON insignificant whitespace.
pub open spec fn is_ws_char(c: char) -> bool {
    c == ' ' || c == '\t' || c == '\n' || c == '\r'
}

/// Every character of `s` is JSON whitespace.
pub open spec fn all_ws(s: Seq<char>) -> bool {
    forall|i: int| 0 <= i < s.len() ==> is_ws_char(#[trigger] s[i])
}

pub open spec fn is_digit_char(c: char) -> bool {
    c == '0' || c == '1' || c == '2' || c == '3' || c == '4' || c == '5' || c == '6' || c == '7'
        || c == '8' || c == '9'
}

/// The decimal digit character for `d` (0 to 9).
pub open spec fn digit_char(d: int) -> char {
    if d == 0 {
        '0'
    } else if d == 1 {
        '1'
    } else if d == 2 {
        '2'
    } else if d == 3 {
        '3'
    } else if d == 4 {
        '4'
    } else if d == 5 {
        '5'
    } else if d == 6 {
        '6'
    } else if d == 7 {
        '7'
    } else if d == 8 {
        '8'
    } else {
        '9'
    }
}

/// The value of a decimal digit character.
pub open spec fn digit_val(c: char) -> int {
    if c == '0' {
        0
    } else if c == '1' {
        1
    } else if c == '2' {
        2
    } else if c == '3' {
        3
    } else if c == '4' {
        4
    } else if c == '5' {
        5
    } else if c == '6' {
        6
    } else if c == '7' {
        7
    } else if c == '8' {
        8
    } else {
        9
    }
}

pub open spec fn is_hex_char(c: char) -> bool {
    is_digit_char(c) || c == 'a' || c == 'b' || c == 'c' || c == 'd' || c == 'e' || c == 'f'
        || c == 'A' || c == 'B' || c == 'C' || c == 'D' || c == 'E' || c == 'F'
}

/// The lower-case hex digit character for `d` (0 to 15).
pub open spec fn hex_char(d: int) -> char {
    if d < 10 {
        digit_char(d)
    } else if d == 10 {
        'a'
    } else if d == 11 {
        'b'
    } else if d == 12 {
        'c'
    } else if d == 13 {
        'd'
    } else if d == 14 {
        'e'
    } else {
        'f'
    }
}

/// The value of a hex digit character (either case).
pub open spec fn hex_val(c: char) -> int {
    if is_digit_char(c) {
        digit_val(c)
    } else if c == 'a' || c == 'A' {
        10
    } else if c == 'b' || c == 'B' {
        11
    } else if c == 'c' || c == 'C' {
        12
    } else if c == 'd' || c == 'D' {
        13
    } else if c == 'e' || c == 'E' {
        14
    } else {
        15
    }
}

/// A Unicode scalar value: a code a `char` can carry.
pub open spec fn is_scalar_code(code: int) -> bool {
    (0 <= code < 0xD800) || (0xE000 <= code <= 0x10FFFF)
}

// ---------------------------------------------------------------------------
// String literals
// ---------------------------------------------------------------------------

/// What the writer emits for one character inside a string literal: the
/// two-character escapes for quote, backslash, newline, carriage return and
/// tab, a `\u00XX` escape for the remaining control characters, and the
/// character itself otherwise.
pub open spec fn esc_char(c: char) -> Seq<char> {
    if c == '"' {
        seq!['\\', '"']
    } else if c == '\\' {
        seq!['\\', '\\']
    } else if c == '\n' {
        seq!['\\', 'n']
    } else if c == '\r' {
        seq!['\\', 'r']
    } else if c == '\t' {
        seq!['\\', 't']
    } else if (c as u32) < 0x20 {
        seq!['\\', 'u', '0', '0', hex_char((c as u32) as int / 16), hex_char((c as u32) as int % 16)]
    } else {
        seq![c]
    }
}

/// The escaped body of the string literal for `s`.
pub open spec fn enc_str_body(s: Seq<char>) -> Seq<char>
    decreases s.len(),
{
    if s.len() == 0 {
        Seq::empty()
    } else {
        esc_char(s[0]) + enc_str_body(s.drop_first())
    }
}

/// The full JSON string literal for `s`, quotes included.
pub open spec fn enc_str(s: Seq<char>) -> Seq<char> {
    seq!['"'] + enc_str_body(s) + seq!['"']
}

/// Scans a string body, the part after the opening quote: `acc` holds the
/// content decoded so far; yields the full content and the input after the
/// closing quote. Accepts the standard JSON escapes; a `\u` escape must
/// denote a scalar value (surrogate pairs are not accepted), and raw
/// control characters are not accepted.
pub open spec fn sp_string_body(t: Seq<char>, acc: Seq<char>) -> Option<(Seq<char>, Seq<char>)>
    decreases t.len(),
{
    if t.len() == 0 {
        None
    } else if t[0] == '"' {
        Some((acc, t.drop_first()))
    } else if t[0] == '\\' {
        if t.len() < 2 {
            None
        } else {
            let e = t[1];
            if e == '"' {
                sp_string_body(t.skip(2), acc.push('"'))
            } else if e == '\\' {
                sp_string_body(t.skip(2), acc.push('\\'))
            } else if e == '/' {
                sp_string_body(t.skip(2), acc.push('/'))
            } else if e == 'b' {
                sp_string_body(t.skip(2), acc.push(8u8 as char))
            } else if e == 'f' {
                sp_string_body(t.skip(2), acc.push(12u8 as char))
            } else if e == 'n' {
                sp_string_body(t.skip(2), acc.push('\n'))
            } else if e == 'r' {
                sp_string_body(t.skip(2), acc.push('\r'))
            } else if e == 't' {
                sp_string_body(t.skip(2), acc.push('\t'))
            } else if e == 'u' {
                if t.len() < 6 {
                    None
                } else if !(is_hex_char(t[2]) && is_hex_char(t[3]) && is_hex_char(t[4])
                    && is_hex_char(t[5])) {
                    None
                } else {
                    let code = hex_val(t[2]) * 4096 + hex_val(t[3]) * 256 + hex_val(t[4]) * 16
                        + hex_val(t[5]);
                    if is_scalar_code(code) {
                        sp_string_body(t.skip(6), acc.push((code as u32) as char))
                    } else {
                        None
                    }
                }
            } else {
                None
            }
        }
    } else if (t[0] as u32) < 0x20 {
        None
    } else {
        sp_string_body(t.drop_first(), acc.push(t[0]))
    }
}

/// Scans a JSON string literal, opening quote first.
pub open spec fn sp_string(t: Seq<char>) -> Option<(Seq<char>, Seq<char>)> {
    if t.len() > 0 && t[0] == '"' {
        sp_string_body(t.drop_first(), Seq::empty())
    } else {
        None
    }
}

// ---------------------------------------------------------------------------
// Numbers
// ---------------------------------------------------------------------------

/// The greatest magnitude a number of the store's document may take: the
/// geometry fields are at most `u32`-sized.
pub open spec fn max_num() -> int {
    0xFFFF_FFFF
}

/// The decimal digits of `n` (`n` at least 0), most significant first.
pub open spec fn dec_digits(n: int) -> Seq<char>
    decreases n,
{
    if n < 10 {
        seq![digit_char(n)]
    } else {
        dec_digits(n / 10) + seq![digit_char(n % 10)]
    }
}

/// The JSON text of the integer `n`, sign included.
pub open spec fn enc_int(n: int) -> Seq<char> {
    if n < 0 {
        seq!['-'] + dec_digits(-n)
    } else {
        dec_digits(n)
    }
}

/// The JSON text of a boolean.
pub open spec fn enc_bool(b: bool) -> Seq<char> {
    if b {
        seq!['t', 'r', 'u', 'e']
    } else {
        seq!['f', 'a', 'l', 's', 'e']
    }
}

/// Scans decimal digits left to right onto `acc`; fails once the value
/// passes `max_num`.
pub open spec fn sp_digits(t: Seq<char>, acc: int) -> Option<(int, Seq<char>)>
    decreases t.len(),
{
    if t.len() > 0 && is_digit_char(t[0]) {
        let v = acc * 10 + digit_val(t[0]);
        if v > max_num() {
            None
        } else {
            sp_digits(t.drop_first(), v)
        }
    } else {
        Some((acc, t))
    }
}

/// Scans an unsigned JSON integer: at least one digit, no leading zero.
pub open spec fn sp_uint(t: Seq<char>) -> Option<(int, Seq<char>)> {
    if t.len() == 0 || !is_digit_char(t[0]) {
        None
    } else if t[0] == '0' {
        if t.len() >= 2 && is_digit_char(t[1]) {
            None
        } else {
            Some((0, t.drop_first()))
        }
    } else {
        sp_digits(t, 0)
    }
}

/// Scans a JSON integer: an optional minus sign, then an unsigned integer.
pub open spec fn sp_int(t: Seq<char>) -> Option<(int, Seq<char>)> {
    if t.len() > 0 && t[0] == '-' {
        match sp_uint(t.drop_first()) {
            Some((v, r)) => Some((-v, r)),
            None => None,
        }
    } else {
        sp_uint(t)
    }
}

/// Scans one of the two boolean words.
pub open spec fn sp_bool(t: Seq<char>) -> Option<(bool, Seq<char>)> {
    if t.len() >= 4 && t[0] == 't' && t[1] == 'r' && t[2] == 'u' && t[3] == 'e' {
        Some((true, t.skip(4)))
    } else if t.len() >= 5 && t[0] == 'f' && t[1] == 'a' && t[2] == 'l' && t[3] == 's' && t[4]
        == 'e' {
        Some((false, t.skip(5)))
    } else {
        None
    }
}

// ---------------------------------------------------------------------------
// Whitespace
// ---------------------------------------------------------------------------

/// `t` without its leading JSON whitespace.
pub open spec fn skip_ws(t: Seq<char>) -> Seq<char>
    decreases t.len(),
{
    if t.len() > 0 && is_ws_char(t[0]) {
        skip_ws(t.drop_first())
    } else {
        t
    }
}

// ---------------------------------------------------------------------------
// Progress of the scanners
// ---------------------------------------------------------------------------

pub proof fn lemma_skip_ws_shrink(t: Seq<char>)
    ensures
        skip_ws(t).len() <= t.len(),
    decreases t.len(),
{
    if t.len() > 0 && is_ws_char(t[0]) {
        lemma_skip_ws_shrink(t.drop_first());
    }
}

pub proof fn lemma_sp_string_body_shrink(t: Seq<char>, acc: Seq<char>)
    ensures
        sp_string_body(t, acc) matches Some(p) ==> p.1.len() < t.len(),
    decreases t.len(),
{
    if t.len() == 0 {
    } else if t[0] == '"' {
    } else if t[0] == '\\' {
        if t.len() >= 2 {
            let e = t[1];
            if e == '"' {
                lemma_sp_string_body_shrink(t.skip(2), acc.push('"'));
            } else if e == '\\' {
                lemma_sp_string_body_shrink(t.skip(2), acc.push('\\'));
            } else if e == '/' {
                lemma_sp_string_body_shrink(t.skip(2), acc.push('/'));
            } else if e == 'b' {
                lemma_sp_string_body_shrink(t.skip(2), acc.push(8u8 as char));
            } else if e == 'f' {
                lemma_sp_string_body_shrink(t.skip(2), acc.push(12u8 as char));
            } else if e == 'n' {
                lemma_sp_string_body_shrink(t.skip(2), acc.push('\n'));
            } else if e == 'r' {
                lemma_sp_string_body_shrink(t.skip(2), acc.push('\r'));
            } else if e == 't' {
                lemma_sp_string_body_shrink(t.skip(2), acc.push('\t'));
            } else if e == 'u' {
                if t.len() >= 6 && is_hex_char(t[2]) && is_hex_char(t[3]) && is_hex_char(t[4])
                    && is_hex_char(t[5]) {
                    let code = hex_val(t[2]) * 4096 + hex_val(t[3]) * 256 + hex_val(t[4]) * 16
                        + hex_val(t[5]);
                    if is_scalar_code(code) {
                        lemma_sp_string_body_shrink(t.skip(6), acc.push((code as u32) as char));
                    }
                }
            }
        }
    } else if (t[0] as u32) < 0x20 {
    } else {
        lemma_sp_string_body_shrink(t.drop_first(), acc.push(t[0]));
    }
}

pub proof fn lemma_sp_string_shrink(t: Seq<char>)
    ensures
        sp_string(t) matches Some(p) ==> p.1.len() < t.len(),
{
    if t.len() > 0 && t[0] == '"' {
        lemma_sp_string_body_shrink(t.drop_first(), Seq::empty());
    }
}

pub proof fn lemma_sp_digits_shrink(t: Seq<char>, acc: int)
    ensures
        sp_digits(t, acc) matches Some(p) ==> p.1.len() <= t.len(),
    decreases t.len(),
{
    if t.len() > 0 && is_digit_char(t[0]) {
        let v = acc * 10 + digit_val(t[0]);
        if v <= max_num() {
            lemma_sp_digits_shrink(t.drop_first(), v);
        }
    }
}

pub proof fn lemma_sp_int_shrink(t: Seq<char>)
    ensures
        sp_int(t) matches Some(p) ==> p.1.len() < t.len(),
{
    if t.len() > 0 && t[0] == '-' {
        lemma_sp_uint_shrink(t.drop_first());
    } else {
        lemma_sp_uint_shrink(t);
    }
}

pub proof fn lemma_sp_uint_shrink(t: Seq<char>)
    ensures
        sp_uint(t) matches Some(p) ==> p.1.len() < t.len(),
{
    if t.len() == 0 || !is_digit_char(t[0]) {
    } else if t[0] == '0' {
    } else {
        if t.len() > 0 && is_digit_char(t[0]) {
            let v = 0 * 10 + digit_val(t[0]);
            if v <= max_num() {
                lemma_sp_digits_shrink(t.drop_first(), v);
            }
        }
    }
}

pub proof fn lemma_sp_bool_shrink(t: Seq<char>)
    ensures
        sp_bool(t) matches Some(p) ==> p.1.len() < t.len(),
{
}

// ---------------------------------------------------------------------------
// Trusted helpers over std
// ---------------------------------------------------------------------------

/// Relies on std's `String::push`: appends exactly the one character.
#[verifier::external_body]
pub(crate) fn push_char(s: &mut String, c: char)
    ensures
        final(s)@ == old(s)@.push(c),
{
    s.push(c);
}

/// Relies on std's `char::from_u32`: `Some` exactly for Unicode scalar
/// values (codes outside the surrogate range and at most the maximum code
/// point), and the returned character carries exactly the requested code.
#[verifier::external_body]
pub(crate) fn char_from_u32(u: u32) -> (r: Option<char>)
    ensures
        r is Some <==> is_scalar_code(u as int),
        r matches Some(c) ==> c as u32 == u,
{
    char::from_u32(u)
}

// ---------------------------------------------------------------------------
// Character helpers
// ---------------------------------------------------------------------------

pub(crate) fn is_ws_exec(c: char) -> (r: bool)
    ensures
        r == is_ws_char(c),
{
    c == ' ' || c == '\t' || c == '\n' || c == '\r'
}

/// The digit character for a value below ten.
pub(crate) fn digit_to_char(d: u8) -> (c: char)
    requires
        d < 10,
    ensures
        c == digit_char(d as int),
{
    match d {
        0 => '0',
        1 => '1',
        2 => '2',
        3 => '3',
        4 => '4',
        5 => '5',
        6 => '6',
        7 => '7',
        8 => '8',
        _ => '9',
    }
}

/// The lower-case hex digit character for a value below sixteen.
pub(crate) fn hex_to_char(d: u8) -> (c: char)
    requires
        d < 16,
    ensures
        c == hex_char(d as int),
{
    if d < 10 {
        digit_to_char(d)
    } else {
        match d {
            10 => 'a',
            11 => 'b',
            12 => 'c',
            13 => 'd',
            14 => 'e',
            _ => 'f',
        }
    }
}

/// The value of a decimal digit character, or nothing.
pub(crate) fn char_to_digit(c: char) -> (r: Option<u8>)
    ensures
        r is Some <==> is_digit_char(c),
        r matches Some(d) ==> d as int == digit_val(c) && d <= 9,
{
    match c {
        '0' => Some(0),
        '1' => Some(1),
        '2' => Some(2),
        '3' => Some(3),
        '4' => Some(4),
        '5' => Some(5),
        '6' => Some(6),
        '7' => Some(7),
        '8' => Some(8),
        '9' => Some(9),
        _ => None,
    }
}

/// The value of a hex digit character (either case), or nothing.
pub(crate) fn char_to_hex(c: char) -> (r: Option<u8>)
    ensures
        r is Some <==> is_hex_char(c),
        r matches Some(d) ==> d as int == hex_val(c) && d < 16,
{
    match c {
        '0' => Some(0),
        '1' => Some(1),
        '2' => Some(2),
        '3' => Some(3),
        '4' => Some(4),
        '5' => Some(5),
        '6' => Some(6),
        '7' => Some(7),
        '8' => Some(8),
        '9' => Some(9),
        'a' | 'A' => Some(10),
        'b' | 'B' => Some(11),
        'c' | 'C' => Some(12),
        'd' | 'D' => Some(13),
        'e' | 'E' => Some(14),
        'f' | 'F' => Some(15),
        _ => None,
    }
}

// ---------------------------------------------------------------------------
// Executable scanners
// ---------------------------------------------------------------------------

/// Advances past JSON whitespace.
pub(crate) fn p_ws(s: &str, n: usize, i: usize) -> (j: usize)
    requires
        n == s@.len(),
        i <= n,
    ensures
        i <= j <= n,
        skip_ws(s@.skip(i as int)) == s@.skip(j as int),
{
    let mut j = i;
    while j < n && is_ws_exec(s.get_char(j))
        invariant
            i <= j <= n,
            n == s@.len(),
            skip_ws(s@.skip(i as int)) == skip_ws(s@.skip(j as int)),
        decreases n - j,
    {
        proof {
            assert(s@.skip(j as int)[0] == s@[j as int]);
            assert(s@.skip(j as int).drop_first() =~= s@.skip(j as int + 1));
        }
        j += 1;
    }
    proof {
        assert(skip_ws(s@.skip(j as int)) == s@.skip(j as int));
    }
    j
}

/// Scans a JSON string literal beginning at `i`; on success the decoded
/// content and the position after the closing quote.
pub(crate) fn p_string(s: &str, n: usize, i: usize) -> (r: Option<(String, usize)>)
    requires
        n == s@.len(),
        i <= n,
    ensures
        match r {
            Some((v, j)) => i <= j <= n && sp_string(s@.skip(i as int)) == Some(
                (v@, s@.skip(j as int)),
            ),
            None => sp_string(s@.skip(i as int)) is None,
        },
{
    if i >= n || s.get_char(i) != '"' {
        return None;
    }
    proof {
        assert(s@.skip(i as int)[0] == s@[i as int]);
        assert(s@.skip(i as int).drop_first() =~= s@.skip(i as int + 1));
    }
    let mut acc = String::new();
    let mut j = i + 1;
    while j < n
        invariant
            i + 1 <= j <= n,
            n == s@.len(),
            sp_string(s@.skip(i as int)) == sp_string_body(s@.skip(j as int), acc@),
        decreases n - j,
    {
        let c = s.get_char(j);
        proof {
            assert(s@.skip(j as int)[0] == s@[j as int]);
        }
        if c == '"' {
            proof {
                assert(s@.skip(j as int).drop_first() =~= s@.skip(j as int + 1));
            }
            return Some((acc, j + 1));
        } else if c == '\\' {
            if j + 1 >= n {
                return None;
            }
            let e = s.get_char(j + 1);
            proof {
                assert(s@.skip(j as int)[1] == s@[j as int + 1]);
                assert(s@.skip(j as int).skip(2) =~= s@.skip(j as int + 2));
            }
            if e == '"' {
                push_char(&mut acc, '"');
                j += 2;
            } else if e == '\\' {
                push_char(&mut acc, '\\');
                j += 2;
            } else if e == '/' {
                push_char(&mut acc, '/');
                j += 2;
            } else if e == 'b' {
                push_char(&mut acc, 8u8 as char);
                j += 2;
            } else if e == 'f' {
                push_char(&mut acc, 12u8 as char);
                j += 2;
            } else if e == 'n' {
                push_char(&mut acc, '\n');
                j += 2;
            } else if e == 'r' {
                push_char(&mut acc, '\r');
                j += 2;
            } else if e == 't' {
                push_char(&mut acc, '\t');
                j += 2;
            } else if e == 'u' {
                if n - j < 6 {
                    return None;
                }
                let h2 = char_to_hex(s.get_char(j + 2));
                let h3 = char_to_hex(s.get_char(j + 3));
                let h4 = char_to_hex(s.get_char(j + 4));
                let h5 = char_to_hex(s.get_char(j + 5));
                proof {
                    assert(s@.skip(j as int)[2] == s@[j as int + 2]);
                    assert(s@.skip(j as int)[3] == s@[j as int + 3]);
                    assert(s@.skip(j as int)[4] == s@[j as int + 4]);
                    assert(s@.skip(j as int)[5] == s@[j as int + 5]);
                    assert(s@.skip(j as int).skip(6) =~= s@.skip(j as int + 6));
                }
                match (h2, h3, h4, h5) {
                    (Some(a), Some(b), Some(g), Some(d)) => {
                        let code: u32 = (a as u32) * 4096 + (b as u32) * 256 + (g as u32) * 16
                            + (d as u32);
                        match char_from_u32(code) {
                            Some(ch) => {
                                proof {
                                    vstd::utf8::char_u32_cast(ch, code);
                                }
                                push_char(&mut acc, ch);
                                j += 6;
                            },
                            None => {
                                return None;
                            },
                        }
                    },
                    _ => {
                        return None;
                    },
                }
            } else {
                return None;
            }
        } else if (c as u32) < 0x20 {
            return None;
        } else {
            push_char(&mut acc, c);
            proof {
                assert(s@.skip(j as int).drop_first() =~= s@.skip(j as int + 1));
            }
            j += 1;
        }
    }
    proof {
        assert(s@.skip(j as int).len() == 0);
    }
    None
}

/// Scans an unsigned JSON integer bounded by `max_num`.
pub(crate) fn p_uint(s: &str, n: usize, i: usize) -> (r: Option<(u32, usize)>)
    requires
        n == s@.len(),
        i <= n,
    ensures
        match r {
            Some((v, j)) => i <= j <= n && sp_uint(s@.skip(i as int)) == Some(
                (v as int, s@.skip(j as int)),
            ),
            None => sp_uint(s@.skip(i as int)) is None,
        },
{
    if i >= n {
        return None;
    }
    let c0 = s.get_char(i);
    proof {
        assert(s@.skip(i as int)[0] == s@[i as int]);
    }
    let d0 = match char_to_digit(c0) {
        None => {
            return None;
        },
        Some(d) => d,
    };
    if d0 == 0 {
        if i + 1 < n {
            proof {
                assert(s@.skip(i as int)[1] == s@[i as int + 1]);
            }
            let c1 = s.get_char(i + 1);
            if char_to_digit(c1).is_some() {
                return None;
            }
        }
        proof {
            assert(s@.skip(i as int).drop_first() =~= s@.skip(i as int + 1));
        }
        return Some((0, i + 1));
    }
    proof {
        assert(s@.skip(i as int)[0] != '0');
    }
    let mut acc: u64 = 0;
    let mut j = i;
    while j < n
        invariant_except_break
            i <= j <= n,
            n == s@.len(),
            acc <= 0xFFFF_FFFFu64,
            sp_uint(s@.skip(i as int)) == sp_digits(s@.skip(j as int), acc as int),
        ensures
            i <= j <= n,
            acc <= 0xFFFF_FFFFu64,
            sp_uint(s@.skip(i as int)) == Some((acc as int, s@.skip(j as int))),
        decreases n - j,
    {
        let c = s.get_char(j);
        proof {
            assert(s@.skip(j as int)[0] == s@[j as int]);
        }
        match char_to_digit(c) {
            None => {
                break;
            },
            Some(d) => {
                let v: u64 = acc * 10 + d as u64;
                if v > 0xFFFF_FFFF {
                    return None;
                }
                acc = v;
                proof {
                    assert(s@.skip(j as int).drop_first() =~= s@.skip(j as int + 1));
                }
                j += 1;
            },
        }
    }
    Some((acc as u32, j))
}

/// Scans a JSON integer: optional minus sign, then an unsigned integer.
pub(crate) fn p_int(s: &str, n: usize, i: usize) -> (r: Option<(i64, usize)>)
    requires
        n == s@.len(),
        i <= n,
    ensures
        match r {
            Some((v, j)) => i <= j <= n && sp_int(s@.skip(i as int)) == Some(
                (v as int, s@.skip(j as int)),
            ),
            None => sp_int(s@.skip(i as int)) is None,
        },
{
    let neg = i < n && s.get_char(i) == '-';
    let st = if neg {
        i + 1
    } else {
        i
    };
    proof {
        if i < n {
            assert(s@.skip(i as int)[0] == s@[i as int]);
        }
        if neg {
            assert(s@.skip(i as int).drop_first() =~= s@.skip(i as int + 1));
        }
    }
    match p_uint(s, n, st) {
        Some((v, j)) => {
            let sv: i64 = if neg {
                -(v as i64)
            } else {
                v as i64
            };
            Some((sv, j))
        },
        None => None,
    }
}

/// Scans one of the two boolean words.
pub(crate) fn p_bool(s: &str, n: usize, i: usize) -> (r: Option<(bool, usize)>)
    requires
        n == s@.len(),
        i <= n,
    ensures
        match r {
            Some((b, j)) => i <= j <= n && sp_bool(s@.skip(i as int)) == Some(
                (b, s@.skip(j as int)),
            ),
            None => sp_bool(s@.skip(i as int)) is None,
        },
{
    proof {
        assert(forall|k: int| 0 <= k < s@.skip(i as int).len() ==> s@.skip(i as int)[k] == s@[
            i + k
        ]);
    }
    let t_ok = n - i >= 4 && s.get_char(i) == 't' && s.get_char(i + 1) == 'r' && s.get_char(i + 2)
        == 'u' && s.get_char(i + 3) == 'e';
    if t_ok {
        proof {
            assert(s@.skip(i as int).skip(4) =~= s@.skip(i as int + 4));
        }
        return Some((true, i + 4));
    }
    let f_ok = n - i >= 5 && s.get_char(i) == 'f' && s.get_char(i + 1) == 'a' && s.get_char(i + 2)
        == 'l' && s.get_char(i + 3) == 's' && s.get_char(i + 4) == 'e';
    if f_ok {
        proof {
            assert(s@.skip(i as int).skip(5) =~= s@.skip(i as int + 5));
        }
        return Some((false, i + 5));
    }
    None
}

// ---------------------------------------------------------------------------
// Executable writers
// ---------------------------------------------------------------------------

/// Appending one character to a string extends its escaped body by that
/// character's escape.
proof fn lemma_enc_str_body_push(s: Seq<char>, c: char)
    ensures
        enc_str_body(s.push(c)) == enc_str_body(s) + esc_char(c),
    decreases s.len(),
{
    if s.len() == 0 {
        assert(s.push(c)[0] == c);
        assert(s.push(c).drop_first() =~= Seq::<char>::empty());
        assert(enc_str_body(s.push(c)) == esc_char(c) + enc_str_body(Seq::<char>::empty()));
        assert(enc_str_body(Seq::<char>::empty()) == Seq::<char>::empty());
        assert(esc_char(c) + Seq::<char>::empty() =~= esc_char(c));
        assert(enc_str_body(s) == Seq::<char>::empty());
        assert(Seq::<char>::empty() + esc_char(c) =~= esc_char(c));
    } else {
        assert(s.push(c)[0] == s[0]);
        assert(s.push(c).drop_first() =~= s.drop_first().push(c));
        assert(enc_str_body(s.push(c)) == esc_char(s[0]) + enc_str_body(s.drop_first().push(c)));
        lemma_enc_str_body_push(s.drop_first(), c);
        assert(enc_str_body(s) == esc_char(s[0]) + enc_str_body(s.drop_first()));
        assert(esc_char(s[0]) + (enc_str_body(s.drop_first()) + esc_char(c)) =~= (esc_char(s[0])
            + enc_str_body(s.drop_first())) + esc_char(c));
    }
}

/// Appends the JSON string literal for `v`, quotes and escapes included.
pub(crate) fn write_json_string(out: &mut String, v: &str)
    ensures
        final(out)@ == old(out)@ + enc_str(v@),
{
    let n = v.unicode_len();
    push_char(out, '"');
    let mut k: usize = 0;
    while k < n
        invariant
            k <= n,
            n == v@.len(),
            out@ == old(out)@ + seq!['"'] + enc_str_body(v@.take(k as int)),
        decreases n - k,
    {
        let c = v.get_char(k);
        let u = c as u32;
        proof {
            assert(v@.take(k as int + 1) =~= v@.take(k as int).push(v@[k as int]));
            lemma_enc_str_body_push(v@.take(k as int), v@[k as int]);
        }
        if c == '"' {
            push_char(out, '\\');
            push_char(out, '"');
        } else if c == '\\' {
            push_char(out, '\\');
            push_char(out, '\\');
        } else if c == '\n' {
            push_char(out, '\\');
            push_char(out, 'n');
        } else if c == '\r' {
            push_char(out, '\\');
            push_char(out, 'r');
        } else if c == '\t' {
            push_char(out, '\\');
            push_char(out, 't');
        } else if u < 0x20 {
            push_char(out, '\\');
            push_char(out, 'u');
            push_char(out, '0');
            push_char(out, '0');
            push_char(out, hex_to_char((u / 16) as u8));
            push_char(out, hex_to_char((u % 16) as u8));
        } else {
            push_char(out, c);
        }
        proof {
            assert(out@ =~= old(out)@ + seq!['"'] + enc_str_body(v@.take(k as int + 1)));
        }
        k += 1;
    }
    push_char(out, '"');
    proof {
        assert(v@.take(n as int) =~= v@);
        assert(out@ =~= old(out)@ + enc_str(v@));
    }
}

/// Appends the decimal digits of `v`.
pub(crate) fn write_u32(out: &mut String, v: u32)
    ensures
        final(out)@ == old(out)@ + dec_digits(v as int),
    decreases v,
{
    if v < 10 {
        push_char(out, digit_to_char(v as u8));
        proof {
            assert(out@ =~= old(out)@ + dec_digits(v as int));
        }
    } else {
        write_u32(out, v / 10);
        push_char(out, digit_to_char((v % 10) as u8));
        proof {
            assert(out@ =~= old(out)@ + dec_digits(v as int));
        }
    }
}

/// Appends the decimal text of `v`, sign included.
pub(crate) fn write_i32(out: &mut String, v: i32)
    ensures
        final(out)@ == old(out)@ + enc_int(v as int),
{
    if v < 0 {
        push_char(out, '-');
        let m: u32 = (-(v as i64)) as u32;
        write_u32(out, m);
        proof {
            assert(out@ =~= old(out)@ + enc_int(v as int));
        }
    } else {
        write_u32(out, v as u32);
    }
}

/// Appends `true` or `false`.
pub(crate) fn write_bool(out: &mut String, b: bool)
    ensures
        final(out)@ == old(out)@ + enc_bool(b),
{
    if b {
        push_char(out, 't');
        push_char(out, 'r');
        push_char(out, 'u');
        push_char(out, 'e');
    } else {
        push_char(out, 'f');
        push_char(out, 'a');
        push_char(out, 'l');
        push_char(out, 's');
        push_char(out, 'e');
    }
    proof {
        assert(out@ =~= old(out)@ + enc_bool(b));
    }
}

} // verus!
