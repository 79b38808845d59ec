//! JSON values and a decoder for the graph files.
//!
//! The decoder reads the subset of JSON the graph schema uses: objects,
//! arrays, strings with the standard escape sequences, integer numbers,
//! booleans and null. A spec parser mirrors the decoder step for step
//! over the character sequence; the decoder returns exactly what the
//! mirror names, and an error wherever the mirror rejects.

use vstd::prelude::*;
use vstd::string::StringExecFns;
use vstd::string::StrSliceExecFns;

use crate::dtype::spec_dec_val;
use crate::dtype::spec_digit_end;
use crate::dtype::spec_is_digit;
use crate::errors::Error;

verus! {

broadcast use vstd::std_specs::vec::group_vec_axioms, vstd::seq::group_seq_axioms;


/// A decoded JSON value.
pub enum Json {
    Null,
    Bool(bool),
    Int(i64),
    Str(String),
    Arr(Vec<Json>),
    Obj(Vec<(String, Json)>),
}

/// A JSON value as mathematics: strings are character sequences, arrays
/// and objects are sequences.
pub enum JsonVal {
    Null,
    Bool(bool),
    Int(i64),
    Str(Seq<char>),
    Arr(Seq<JsonVal>),
    Obj(Seq<(Seq<char>, JsonVal)>),
}

/// The mathematical value a decoded JSON value stands for.
pub open spec fn json_view(j: Json) -> JsonVal
    decreases j,
{
    match j {
        Json::Null => JsonVal::Null,
        Json::Bool(b) => JsonVal::Bool(b),
        Json::Int(x) => JsonVal::Int(x),
        Json::Str(s) => JsonVal::Str(s@),
        Json::Arr(items) => JsonVal::Arr(
            Seq::new(items@.len(), |i: int| if 0 <= i < items@.len() {
                json_view(items@[i])
            } else {
                JsonVal::Null
            }),
        ),
        Json::Obj(fields) => JsonVal::Obj(
            Seq::new(fields@.len(), |i: int| if 0 <= i < fields@.len() {
                (fields@[i].0@, json_view(fields@[i].1))
            } else {
                (Seq::empty(), JsonVal::Null)
            }),
        ),
    }
}

impl View for Json {
    type V = JsonVal;

    open spec fn view(&self) -> JsonVal {
        json_view(*self)
    }
}

/// True for the whitespace JSON allows between tokens.
pub open spec fn spec_is_ws(c: char) -> bool {
    c == ' ' || c == '\t' || c == '\n' || c == '\r'
}

/// First position at or after `i` that holds no whitespace; never before
/// `i`.
pub open spec fn sp_ws_end(s: Seq<char>, i: int) -> int
    decreases s.len() - i,
{
    if 0 <= i && i < s.len() && spec_is_ws(s[i]) {
        let r = sp_ws_end(s, i + 1);
        if r < i {
            i
        } else {
            r
        }
    } else {
        i
    }
}

/// True for an ASCII hexadecimal digit.
pub open spec fn spec_is_hex(c: char) -> bool {
    (48 <= c as u32 && c as u32 <= 57) || (97 <= c as u32 && c as u32 <= 102) || (65 <= c as u32
        && c as u32 <= 70)
}

/// The value of one hexadecimal digit.
pub open spec fn spec_hex_val(c: char) -> u32
    recommends
        spec_is_hex(c),
{
    if 48 <= c as u32 && c as u32 <= 57 {
        (c as u32 - 48) as u32
    } else if 97 <= c as u32 && c as u32 <= 102 {
        (c as u32 - 87) as u32
    } else {
        (c as u32 - 55) as u32
    }
}

/// The value of the four hexadecimal digits at `i`.
pub open spec fn sp_hex4(s: Seq<char>, i: int) -> u32
    recommends
        0 <= i,
        i + 4 <= s.len(),
{
    (spec_hex_val(s[i]) * 0x1000 + spec_hex_val(s[i + 1]) * 0x100 + spec_hex_val(s[i + 2]) * 0x10
        + spec_hex_val(s[i + 3])) as u32
}

/// What the escape sequence whose introducing backslash stands just
/// before `i` yields: the named character, or the scalar a `u` escape
/// spells — a surrogate pair as one character, a lone surrogate as
/// nothing.
pub open spec fn sp_escape(s: Seq<char>, i: int) -> Option<(char, int)> {
    if !(0 <= i && i < s.len()) {
        None
    } else if s[i] == '"' {
        Some(('"', i + 1))
    } else if s[i] == '\\' {
        Some(('\\', i + 1))
    } else if s[i] == '/' {
        Some(('/', i + 1))
    } else if s[i] == 'b' {
        Some(('\u{8}', i + 1))
    } else if s[i] == 'f' {
        Some(('\u{c}', i + 1))
    } else if s[i] == 'n' {
        Some(('\n', i + 1))
    } else if s[i] == 'r' {
        Some(('\r', i + 1))
    } else if s[i] == 't' {
        Some(('\t', i + 1))
    } else if s[i] == 'u' {
        if !(i + 5 <= s.len() && spec_is_hex(s[i + 1]) && spec_is_hex(s[i + 2]) && spec_is_hex(
            s[i + 3],
        ) && spec_is_hex(s[i + 4])) {
            None
        } else {
            let v = sp_hex4(s, i + 1);
            if 0xD800 <= v < 0xDC00 {
                if !(i + 11 <= s.len() && s[i + 5] == '\\' && s[i + 6] == 'u' && spec_is_hex(
                    s[i + 7],
                ) && spec_is_hex(s[i + 8]) && spec_is_hex(s[i + 9]) && spec_is_hex(s[i + 10])) {
                    None
                } else {
                    let w = sp_hex4(s, i + 7);
                    if 0xDC00 <= w < 0xE000 {
                        Some(
                            (
                                (((0x10000 + (v - 0xD800) * 0x400 + (w - 0xDC00)) as u32) as char),
                                i + 11,
                            ),
                        )
                    } else {
                        None
                    }
                }
            } else if 0xDC00 <= v < 0xE000 {
                None
            } else {
                Some(((v as char), i + 5))
            }
        }
    } else {
        None
    }
}

/// What the string content starting at `i` (just after the opening
/// quote) yields: the characters up to the closing quote, escape
/// sequences decoded.
pub open spec fn sp_str_content(s: Seq<char>, i: int) -> Option<(Seq<char>, int)>
    decreases s.len() - i,
{
    if !(0 <= i && i < s.len()) {
        None
    } else if s[i] == '"' {
        Some((Seq::empty(), i + 1))
    } else if s[i] == '\\' {
        match sp_escape(s, i + 1) {
            None => None,
            Some((c, p)) => match sp_str_content(s, p) {
                None => None,
                Some((rest, p2)) => Some((seq![c] + rest, p2)),
            },
        }
    } else {
        match sp_str_content(s, i + 1) {
            None => None,
            Some((rest, p2)) => Some((seq![s[i]] + rest, p2)),
        }
    }
}

/// A string's content always ends past where it starts.
pub proof fn lemma_str_content_advances(s: Seq<char>, i: int)
    ensures
        sp_str_content(s, i) matches Some((_, p)) ==> p > i,
    decreases s.len() - i,
{
    if 0 <= i && i < s.len() && s[i] != '"' {
        if s[i] == '\\' {
            match sp_escape(s, i + 1) {
                None => {},
                Some((c, p)) => {
                    lemma_str_content_advances(s, p);
                },
            }
        } else {
            lemma_str_content_advances(s, i + 1);
        }
    }
}

/// What parsing a string literal at `pos` yields: its decoded
/// characters, when a quote stands at `pos` and the content reaches a
/// closing quote.
pub open spec fn sp_string(s: Seq<char>, pos: int) -> Option<(Seq<char>, int)> {
    if 0 <= pos && pos < s.len() && s[pos] == '"' {
        sp_str_content(s, pos + 1)
    } else {
        None
    }
}

/// Whether the characters of `lit` stand at `pos`.
pub open spec fn sp_lit_at(s: Seq<char>, pos: int, lit: Seq<char>) -> bool {
    &&& 0 <= pos
    &&& pos + lit.len() <= s.len()
    &&& s.subrange(pos, pos + lit.len()) == lit
}

/// What parsing a number at `pos` yields: an optional minus sign and a
/// digit run, valued within `i64`.
pub open spec fn sp_number(s: Seq<char>, pos: int) -> Option<(JsonVal, int)> {
    let neg = 0 <= pos && pos < s.len() && s[pos] == '-';
    let ds: int = if neg {
        pos + 1
    } else {
        pos
    };
    let de = spec_digit_end(s, ds);
    if !(0 <= ds <= s.len()) || de == ds {
        None
    } else {
        let val = spec_dec_val(s, ds, de);
        if neg {
            if val > 0x8000000000000000 {
                None
            } else {
                Some((JsonVal::Int((-(val as int)) as i64), de))
            }
        } else {
            if val > 0x7fffffffffffffff {
                None
            } else {
                Some((JsonVal::Int(val as i64), de))
            }
        }
    }
}

/// What parsing one value at `pos` yields. `pos` must stand on the
/// value's first character; the position handed back stands right after
/// the value.
pub open spec fn sp_value(s: Seq<char>, pos: int) -> Option<(JsonVal, int)>
    decreases s.len() - pos, 0int,
{
    if !(0 <= pos && pos < s.len()) {
        None
    } else if s[pos] == '{' {
        let q = sp_ws_end(s, pos + 1);
        if q < s.len() && s[q] == '}' {
            Some((JsonVal::Obj(Seq::empty()), q + 1))
        } else {
            match sp_members(s, pos + 1) {
                None => None,
                Some((fields, p)) => Some((JsonVal::Obj(fields), p)),
            }
        }
    } else if s[pos] == '[' {
        let q = sp_ws_end(s, pos + 1);
        if q < s.len() && s[q] == ']' {
            Some((JsonVal::Arr(Seq::empty()), q + 1))
        } else {
            match sp_elems(s, pos + 1) {
                None => None,
                Some((items, p)) => Some((JsonVal::Arr(items), p)),
            }
        }
    } else if s[pos] == '"' {
        match sp_string(s, pos) {
            None => None,
            Some((content, p)) => Some((JsonVal::Str(content), p)),
        }
    } else if sp_lit_at(s, pos, seq!['t', 'r', 'u', 'e']) {
        Some((JsonVal::Bool(true), pos + 4))
    } else if sp_lit_at(s, pos, seq!['f', 'a', 'l', 's', 'e']) {
        Some((JsonVal::Bool(false), pos + 5))
    } else if sp_lit_at(s, pos, seq!['n', 'u', 'l', 'l']) {
        Some((JsonVal::Null, pos + 4))
    } else {
        sp_number(s, pos)
    }
}

/// What parsing the elements of a non-empty array yields, entered right
/// after the opening bracket or a comma; consumes through the closing
/// bracket.
pub open spec fn sp_elems(s: Seq<char>, pos: int) -> Option<(Seq<JsonVal>, int)>
    decreases s.len() - pos, 1int,
{
    if !(0 <= pos && pos <= s.len()) {
        None
    } else {
        let q0 = sp_ws_end(s, pos);
        if q0 < pos || q0 > s.len() {
            None
        } else {
            match sp_value(s, q0) {
                None => None,
                Some((v, p2)) => {
                    let q = sp_ws_end(s, p2);
                    if q < s.len() && s[q] == ']' {
                        Some((seq![v], q + 1))
                    } else if q < s.len() && s[q] == ',' && q + 1 > pos {
                        match sp_elems(s, q + 1) {
                            None => None,
                            Some((rest, p3)) => Some((seq![v] + rest, p3)),
                        }
                    } else {
                        None
                    }
                },
            }
        }
    }
}

/// What parsing the members of a non-empty object yields, entered right
/// after the opening brace or a comma; consumes through the closing
/// brace.
pub open spec fn sp_members(s: Seq<char>, pos: int) -> Option<(Seq<(Seq<char>, JsonVal)>, int)>
    decreases s.len() - pos, 1int,
{
    if !(0 <= pos && pos <= s.len()) {
        None
    } else {
        let q0 = sp_ws_end(s, pos);
        if q0 < pos {
            None
        } else {
            match sp_string(s, q0) {
                None => None,
                Some((key, pk)) => {
                    let qc = sp_ws_end(s, pk);
                    if !(qc < s.len() && s[qc] == ':') {
                        None
                    } else {
                        let qv = sp_ws_end(s, qc + 1);
                        if qv < pos || qv > s.len() {
                            None
                        } else {
                            match sp_value(s, qv) {
                                None => None,
                                Some((v, p2)) => {
                                    let q = sp_ws_end(s, p2);
                                    if q < s.len() && s[q] == '}' {
                                        Some((seq![(key, v)], q + 1))
                                    } else if q < s.len() && s[q] == ',' && q + 1 > pos {
                                        match sp_members(s, q + 1) {
                                            None => None,
                                            Some((rest, p3)) => Some((seq![(key, v)] + rest, p3)),
                                        }
                                    } else {
                                        None
                                    }
                                },
                            }
                        }
                    }
                },
            }
        }
    }
}

/// What parsing a whole document yields: one value, with nothing but
/// whitespace around it.
pub open spec fn sp_json(s: Seq<char>) -> Option<JsonVal> {
    let q0 = sp_ws_end(s, 0);
    match sp_value(s, q0) {
        None => None,
        Some((v, p)) => if sp_ws_end(s, p) == s.len() {
            Some(v)
        } else {
            None
        },
    }
}

/// A run never ends before it starts.
proof fn lemma_ws_end_ge(s: Seq<char>, i: int)
    ensures
        sp_ws_end(s, i) >= i,
{
}

/// Position where the whitespace run starting at `i` ends.
fn ws_end(s: &str, n: usize, i: usize) -> (r: usize)
    requires
        n == s@.len(),
        i <= n,
    ensures
        i <= r <= n,
        r as int == sp_ws_end(s@, i as int),
{
    let mut k = i;
    while k < n && is_ws_at(s, k)
        invariant
            i <= k <= n,
            n == s@.len(),
            sp_ws_end(s@, i as int) == sp_ws_end(s@, k as int),
        decreases n - k,
    {
        proof {
            lemma_ws_end_ge(s@, k + 1);
        }
        k = k + 1;
    }
    k
}

/// Whether the character at `k` is JSON whitespace.
fn is_ws_at(s: &str, k: usize) -> (r: bool)
    requires
        k < s@.len(),
    ensures
        r == spec_is_ws(s@[k as int]),
{
    let c = s.get_char(k);
    c == ' ' || c == '\t' || c == '\n' || c == '\r'
}

/// Relies on `char::from_u32`: yields the character of the value exactly
/// when the value is a Unicode scalar — not a surrogate and at most
/// 0x10FFFF.
#[verifier::external_body]
fn char_from_u32(v: u32) -> (r: Option<char>)
    ensures
        match r {
            Some(c) => c as u32 == v,
            None => !vstd::utf8::is_scalar(v),
        },
{
    char::from_u32(v)
}

/// The value of the hexadecimal digit at `k`, if it is one.
fn hex_val_at(s: &str, k: usize) -> (r: Option<u32>)
    requires
        k < s@.len(),
    ensures
        match r {
            Some(v) => spec_is_hex(s@[k as int]) && v == spec_hex_val(s@[k as int]),
            None => !spec_is_hex(s@[k as int]),
        },
{
    let cu = s.get_char(k) as u32;
    if 48 <= cu && cu <= 57 {
        Some(cu - 48)
    } else if 97 <= cu && cu <= 102 {
        Some(cu - 87)
    } else if 65 <= cu && cu <= 70 {
        Some(cu - 55)
    } else {
        None
    }
}

/// The value of the four hexadecimal digits at `i`, if they are ones.
fn hex4_at(s: &str, n: usize, i: usize) -> (r: Option<u32>)
    requires
        n == s@.len(),
        i <= n,
    ensures
        match r {
            Some(v) => i + 4 <= n && spec_is_hex(s@[i as int]) && spec_is_hex(s@[i + 1])
                && spec_is_hex(s@[i + 2]) && spec_is_hex(s@[i + 3]) && v == sp_hex4(s@, i as int),
            None => !(i + 4 <= n && spec_is_hex(s@[i as int]) && spec_is_hex(s@[i + 1])
                && spec_is_hex(s@[i + 2]) && spec_is_hex(s@[i + 3])),
        },
{
    if n - i < 4 {
        return None;
    }
    let d0 = match hex_val_at(s, i) {
        Some(v) => v,
        None => {
            return None;
        },
    };
    let d1 = match hex_val_at(s, i + 1) {
        Some(v) => v,
        None => {
            return None;
        },
    };
    let d2 = match hex_val_at(s, i + 2) {
        Some(v) => v,
        None => {
            return None;
        },
    };
    let d3 = match hex_val_at(s, i + 3) {
        Some(v) => v,
        None => {
            return None;
        },
    };
    Some(d0 * 0x1000 + d1 * 0x100 + d2 * 0x10 + d3)
}

/// Parses the escape sequence whose backslash stands just before `i`.
fn parse_escape(s: &str, n: usize, i: usize) -> (r: Option<(char, usize)>)
    requires
        n == s@.len(),
        i <= n,
    ensures
        match sp_escape(s@, i as int) {
            Some((c, p)) => r matches Some((ce, pe)) && ce == c && pe as int == p && i < pe <= n,
            None => r is None,
        },
{
    if i >= n {
        return None;
    }
    let c = s.get_char(i);
    if c == '"' {
        Some(('"', i + 1))
    } else if c == '\\' {
        Some(('\\', i + 1))
    } else if c == '/' {
        Some(('/', i + 1))
    } else if c == 'b' {
        Some(('\u{8}', i + 1))
    } else if c == 'f' {
        Some(('\u{c}', i + 1))
    } else if c == 'n' {
        Some(('\n', i + 1))
    } else if c == 'r' {
        Some(('\r', i + 1))
    } else if c == 't' {
        Some(('\t', i + 1))
    } else if c == 'u' {
        let v = match hex4_at(s, n, i + 1) {
            Some(v) => v,
            None => {
                return None;
            },
        };
        if 0xD800 <= v && v < 0xDC00 {
            if !(n - i >= 11 && s.get_char(i + 5) == '\\' && s.get_char(i + 6) == 'u') {
                return None;
            }
            let w = match hex4_at(s, n, i + 7) {
                Some(w) => w,
                None => {
                    return None;
                },
            };
            if !(0xDC00 <= w && w < 0xE000) {
                return None;
            }
            let code = 0x10000 + (v - 0xD800) * 0x400 + (w - 0xDC00);
            match char_from_u32(code) {
                Some(ch) => {
                    proof {
                        vstd::utf8::char_u32_cast(ch, code);
                    }
                    Some((ch, i + 11))
                },
                None => {
                    proof {
                        assert(vstd::utf8::is_scalar(code));
                        assert(false);
                    }
                    None
                },
            }
        } else if 0xDC00 <= v && v < 0xE000 {
            None
        } else {
            match char_from_u32(v) {
                Some(ch) => {
                    proof {
                        vstd::utf8::char_u32_cast(ch, v);
                    }
                    Some((ch, i + 5))
                },
                None => {
                    proof {
                        assert(vstd::utf8::is_scalar(v));
                        assert(false);
                    }
                    None
                },
            }
        }
    } else {
        None
    }
}

/// Parses a string literal at `pos`, decoding its escape sequences.
fn parse_string_at(s: &str, n: usize, pos: usize) -> (r: Option<(String, usize)>)
    requires
        n == s@.len(),
        pos <= n,
    ensures
        match sp_string(s@, pos as int) {
            Some((content, p)) => r matches Some((c, pe)) && pe as int == p && pe <= n && c@
                == content,
            None => r is None,
        },
{
    if !(pos < n && s.get_char(pos) == '"') {
        return None;
    }
    let mut acc = String::new();
    let mut cur = pos + 1;
    while cur < n
        invariant
            pos + 1 <= cur <= n,
            n == s@.len(),
            s@[pos as int] == '"',
            match sp_str_content(s@, cur as int) {
                Some((rest, p)) => sp_str_content(s@, pos + 1) == Some((acc@ + rest, p)),
                None => sp_str_content(s@, pos + 1) is None,
            },
        decreases n - cur,
    {
        let c = s.get_char(cur);
        if c == '"' {
            proof {
                assert(acc@ + Seq::<char>::empty() =~= acc@);
            }
            return Some((acc, cur + 1));
        }
        if c == '\\' {
            let (ch, p) = match parse_escape(s, n, cur + 1) {
                Some(x) => x,
                None => {
                    return None;
                },
            };
            proof {
                let rest_opt = sp_str_content(s@, p as int);
                match rest_opt {
                    Some((rest2, p2)) => {
                        assert(acc@ + (seq![ch] + rest2) =~= acc@.push(ch) + rest2);
                    },
                    None => {},
                }
            }
            crate::text::push_char(&mut acc, ch);
            cur = p;
        } else {
            proof {
                let rest_opt = sp_str_content(s@, cur + 1);
                match rest_opt {
                    Some((rest2, p2)) => {
                        assert(acc@ + (seq![c] + rest2) =~= acc@.push(c) + rest2);
                    },
                    None => {},
                }
            }
            crate::text::push_char(&mut acc, c);
            cur = cur + 1;
        }
    }
    None
}

/// Whether the four given characters stand at `pos`.
fn match_lit4(s: &str, n: usize, pos: usize, c0: char, c1: char, c2: char, c3: char) -> (r: bool)
    requires
        n == s@.len(),
        pos <= n,
    ensures
        r == sp_lit_at(s@, pos as int, seq![c0, c1, c2, c3]),
{
    let hit = n - pos >= 4 && s.get_char(pos) == c0 && s.get_char(pos + 1) == c1 && s.get_char(
        pos + 2,
    ) == c2 && s.get_char(pos + 3) == c3;
    proof {
        let lit = seq![c0, c1, c2, c3];
        if hit {
            assert(s@.subrange(pos as int, pos + 4) =~= lit);
        } else {
            if sp_lit_at(s@, pos as int, lit) {
                assert(s@.subrange(pos as int, pos + 4)[0] == s@[pos as int]);
                assert(s@.subrange(pos as int, pos + 4)[1] == s@[pos + 1]);
                assert(s@.subrange(pos as int, pos + 4)[2] == s@[pos + 2]);
                assert(s@.subrange(pos as int, pos + 4)[3] == s@[pos + 3]);
            }
        }
    }
    hit
}

/// Whether the five given characters stand at `pos`.
fn match_lit5(
    s: &str,
    n: usize,
    pos: usize,
    c0: char,
    c1: char,
    c2: char,
    c3: char,
    c4: char,
) -> (r: bool)
    requires
        n == s@.len(),
        pos <= n,
    ensures
        r == sp_lit_at(s@, pos as int, seq![c0, c1, c2, c3, c4]),
{
    let hit = n - pos >= 5 && s.get_char(pos) == c0 && s.get_char(pos + 1) == c1 && s.get_char(
        pos + 2,
    ) == c2 && s.get_char(pos + 3) == c3 && s.get_char(pos + 4) == c4;
    proof {
        let lit = seq![c0, c1, c2, c3, c4];
        if hit {
            assert(s@.subrange(pos as int, pos + 5) =~= lit);
        } else {
            if sp_lit_at(s@, pos as int, lit) {
                assert(s@.subrange(pos as int, pos + 5)[0] == s@[pos as int]);
                assert(s@.subrange(pos as int, pos + 5)[1] == s@[pos + 1]);
                assert(s@.subrange(pos as int, pos + 5)[2] == s@[pos + 2]);
                assert(s@.subrange(pos as int, pos + 5)[3] == s@[pos + 3]);
                assert(s@.subrange(pos as int, pos + 5)[4] == s@[pos + 4]);
            }
        }
    }
    hit
}

/// Value of the digit run `s[i .. j]`, or `None` when it exceeds `cap`.
fn dec_val_u64(s: &str, i: usize, j: usize, cap: u64) -> (r: Option<u64>)
    requires
        i <= j <= s@.len(),
        forall|t: int| i <= t < j ==> spec_is_digit(#[trigger] s@[t]),
        cap >= 0xffff,
    ensures
        match r {
            Some(v) => v == spec_dec_val(s@, i as int, j as int) && v <= cap,
            None => spec_dec_val(s@, i as int, j as int) > cap,
        },
{
    let mut acc: u64 = 0;
    let mut over = false;
    let mut k = i;
    while k < j
        invariant
            i <= k <= j <= s@.len(),
            forall|t: int| i <= t < j ==> spec_is_digit(#[trigger] s@[t]),
            cap >= 0xffff,
            !over ==> acc == spec_dec_val(s@, i as int, k as int) && acc <= cap,
            over ==> spec_dec_val(s@, i as int, k as int) > cap,
        decreases j - k,
    {
        let d = (s.get_char(k) as u32 - 48) as u64;
        proof {
            let sv = s@;
            assert(spec_dec_val(sv, i as int, k + 1) == spec_dec_val(sv, i as int, k as int) * 10
                + (sv[k as int] as u32 - 48));
        }
        if !over {
            let next = match acc.checked_mul(10) {
                Some(m) => m.checked_add(d),
                None => None,
            };
            match next {
                Some(v) => {
                    if v > cap {
                        over = true;
                    } else {
                        acc = v;
                    }
                },
                None => {
                    over = true;
                },
            }
        } else {
            proof {
                let v0 = spec_dec_val(s@, i as int, k as int);
                assert(v0 * 10 >= v0) by (nonlinear_arith);
            }
        }
        k = k + 1;
    }
    if over {
        None
    } else {
        Some(acc)
    }
}

/// Parses a number at `pos`.
fn parse_number(s: &str, n: usize, pos: usize) -> (r: Option<(Json, usize)>)
    requires
        n == s@.len(),
        pos <= n,
    ensures
        match sp_number(s@, pos as int) {
            Some((jv, p)) => r matches Some((j, pe)) && pe as int == p && pe <= n && j@ == jv,
            None => r is None,
        },
{
    let neg = pos < n && s.get_char(pos) == '-';
    let ds = if neg {
        pos + 1
    } else {
        pos
    };
    if ds > n {
        return None;
    }
    let de = crate::dtype::digit_end(s, n, ds);
    if de == ds {
        return None;
    }
    proof {
        crate::dtype::lemma_digit_run(s@, ds as int);
    }
    if neg {
        let val = match dec_val_u64(s, ds, de, 0x8000000000000000) {
            Some(v) => v,
            None => {
                return None;
            },
        };
        let out: i64 = if val == 0x8000000000000000 {
            i64::MIN
        } else {
            -(val as i64)
        };
        Some((Json::Int(out), de))
    } else {
        let val = match dec_val_u64(s, ds, de, 0x7fffffffffffffff) {
            Some(v) => v,
            None => {
                return None;
            },
        };
        Some((Json::Int(val as i64), de))
    }
}

/// Parses one value at `pos`.
fn parse_value(s: &str, n: usize, pos: usize) -> (r: Option<(Json, usize)>)
    requires
        n == s@.len(),
        pos <= n,
    ensures
        match sp_value(s@, pos as int) {
            Some((jv, p)) => r matches Some((j, pe)) && pe as int == p && pe <= n && j@ == jv,
            None => r is None,
        },
    decreases n - pos, 0int,
{
    if pos >= n {
        return None;
    }
    let c = s.get_char(pos);
    if c == '{' {
        let q = ws_end(s, n, pos + 1);
        if q < n && s.get_char(q) == '}' {
            let j = Json::Obj(Vec::new());
            proof {
                assert(j@ matches JsonVal::Obj(f) && f =~= Seq::<(Seq<char>, JsonVal)>::empty());
            }
            Some((j, q + 1))
        } else {
            match parse_members(s, n, pos + 1) {
                None => None,
                Some((fields, p)) => {
                    let j = Json::Obj(fields);
                    proof {
                        let vals = sp_members(s@, pos + 1)->Some_0.0;
                        assert(j@ matches JsonVal::Obj(vs) && vs =~= vals) by {
                            let vs = j@->Obj_0;
                            assert forall|i: int| 0 <= i < vals.len() implies vs[i] == vals[i] by {
                                assert(vs[i].0 == vals[i].0 && vs[i].1 == vals[i].1);
                                assert(vals[i] == (vals[i].0, vals[i].1));
                            }
                        }
                    }
                    Some((j, p))
                },
            }
        }
    } else if c == '[' {
        let q = ws_end(s, n, pos + 1);
        if q < n && s.get_char(q) == ']' {
            let j = Json::Arr(Vec::new());
            proof {
                assert(j@ matches JsonVal::Arr(f) && f =~= Seq::<JsonVal>::empty());
            }
            Some((j, q + 1))
        } else {
            match parse_elems(s, n, pos + 1) {
                None => None,
                Some((items, p)) => {
                    let j = Json::Arr(items);
                    proof {
                        let vals = sp_elems(s@, pos + 1)->Some_0.0;
                        assert(j@ matches JsonVal::Arr(vs) && vs =~= vals);
                    }
                    Some((j, p))
                },
            }
        }
    } else if c == '"' {
        match parse_string_at(s, n, pos) {
            None => None,
            Some((content, p)) => Some((Json::Str(content), p)),
        }
    } else if match_lit4(s, n, pos, 't', 'r', 'u', 'e') {
        Some((Json::Bool(true), pos + 4))
    } else if match_lit5(s, n, pos, 'f', 'a', 'l', 's', 'e') {
        Some((Json::Bool(false), pos + 5))
    } else if match_lit4(s, n, pos, 'n', 'u', 'l', 'l') {
        Some((Json::Null, pos + 4))
    } else {
        parse_number(s, n, pos)
    }
}

/// Parses the elements of a non-empty array, entered right after the
/// opening bracket or a comma.
fn parse_elems(s: &str, n: usize, pos: usize) -> (r: Option<(Vec<Json>, usize)>)
    requires
        n == s@.len(),
        pos <= n,
    ensures
        match sp_elems(s@, pos as int) {
            Some((vals, p)) => r matches Some((items, pe)) && pe as int == p && pe <= n && items@.len()
                == vals.len() && forall|i: int|
                0 <= i < vals.len() ==> (#[trigger] items@[i])@ == vals[i],
            None => r is None,
        },
    decreases n - pos, 1int,
{
    let q0 = ws_end(s, n, pos);
    let (v, p2) = match parse_value(s, n, q0) {
        Some(x) => x,
        None => {
            return None;
        },
    };
    let q = ws_end(s, n, p2);
    if q < n && s.get_char(q) == ']' {
        let mut out: Vec<Json> = Vec::new();
        out.push(v);
        proof {
            let vals = sp_elems(s@, pos as int)->Some_0.0;
            assert(out@.len() == vals.len());
            assert(out@[0]@ == vals[0]);
        }
        Some((out, q + 1))
    } else if q < n && s.get_char(q) == ',' && q + 1 > pos {
        match parse_elems(s, n, q + 1) {
            None => None,
            Some((mut rest, p3)) => {
                let ghost rest0 = rest@;
                let mut out: Vec<Json> = Vec::new();
                out.push(v);
                out.append(&mut rest);
                proof {
                    let vals = sp_elems(s@, pos as int)->Some_0.0;
                    let vals_rest = sp_elems(s@, q + 1)->Some_0.0;
                    assert forall|i: int| 0 <= i < vals.len() implies (#[trigger] out@[i])@
                        == vals[i] by {
                        if i == 0 {
                            assert(out@[0] == v);
                            assert(vals[0] == sp_value(s@, sp_ws_end(s@, pos as int))->Some_0.0);
                        } else {
                            assert(out@[i] == rest0[i - 1]);
                            assert(vals[i] == vals_rest[i - 1]);
                        }
                    }
                }
                Some((out, p3))
            },
        }
    } else {
        None
    }
}

/// Parses the members of a non-empty object, entered right after the
/// opening brace or a comma.
fn parse_members(s: &str, n: usize, pos: usize) -> (r: Option<(Vec<(String, Json)>, usize)>)
    requires
        n == s@.len(),
        pos <= n,
    ensures
        match sp_members(s@, pos as int) {
            Some((vals, p)) => r matches Some((fields, pe)) && pe as int == p && pe <= n
                && fields@.len() == vals.len() && forall|i: int|
                0 <= i < vals.len() ==> (#[trigger] fields@[i]).0@ == vals[i].0 && fields@[i].1@
                    == vals[i].1,
            None => r is None,
        },
    decreases n - pos, 1int,
{
    let q0 = ws_end(s, n, pos);
    let (key, pk) = match parse_string_at(s, n, q0) {
        Some(x) => x,
        None => {
            return None;
        },
    };
    proof {
        assert(pk as int == sp_string(s@, q0 as int)->Some_0.1);
        lemma_str_content_advances(s@, q0 + 1);
    }
    let qc = ws_end(s, n, pk);
    if !(qc < n && s.get_char(qc) == ':') {
        return None;
    }
    let qv = ws_end(s, n, qc + 1);
    let (v, p2) = match parse_value(s, n, qv) {
        Some(x) => x,
        None => {
            return None;
        },
    };
    let q = ws_end(s, n, p2);
    if q < n && s.get_char(q) == '}' {
        let mut out: Vec<(String, Json)> = Vec::new();
        out.push((key, v));
        proof {
            let vals = sp_members(s@, pos as int)->Some_0.0;
            assert(out@.len() == vals.len());
            assert(out@[0].0@ == vals[0].0 && out@[0].1@ == vals[0].1);
        }
        Some((out, q + 1))
    } else if q < n && s.get_char(q) == ',' && q + 1 > pos {
        match parse_members(s, n, q + 1) {
            None => None,
            Some((mut rest, p3)) => {
                let ghost rest0 = rest@;
                let mut out: Vec<(String, Json)> = Vec::new();
                out.push((key, v));
                out.append(&mut rest);
                proof {
                    let vals = sp_members(s@, pos as int)->Some_0.0;
                    let vals_rest = sp_members(s@, q + 1)->Some_0.0;
                    assert forall|i: int|
                        0 <= i < vals.len() implies (#[trigger] out@[i]).0@ == vals[i].0
                        && out@[i].1@ == vals[i].1 by {
                        if i == 0 {
                            assert(out@[0].0 == key && out@[0].1 == v);
                        } else {
                            assert(out@[i] == rest0[i - 1]);
                            assert(vals[i] == vals_rest[i - 1]);
                        }
                    }
                }
                Some((out, p3))
            },
        }
    } else {
        None
    }
}

/// The value under the last field named `key`, if any — later fields
/// shadow earlier ones, as a map built by insertion would have it.
pub open spec fn spec_obj_get(fields: Seq<(Seq<char>, JsonVal)>, key: Seq<char>) -> Option<JsonVal>
    decreases fields.len(),
{
    if fields.len() == 0 {
        None
    } else if fields.last().0 == key {
        Some(fields.last().1)
    } else {
        spec_obj_get(fields.drop_last(), key)
    }
}

/// How a lookup sees one more field at the front: the rest shadows it.
pub proof fn lemma_obj_get_prepend(
    fields: Seq<(Seq<char>, JsonVal)>,
    head: (Seq<char>, JsonVal),
    key: Seq<char>,
)
    ensures
        spec_obj_get(seq![head] + fields, key) == (match spec_obj_get(fields, key) {
            Some(v) => Some(v),
            None => if head.0 == key {
                Some(head.1)
            } else {
                None
            },
        }),
    decreases fields.len(),
{
    let s = seq![head] + fields;
    if fields.len() == 0 {
        assert(s.len() == 1);
        assert(s.last() == head);
        assert(s.drop_last() =~= Seq::<(Seq<char>, JsonVal)>::empty());
        assert(spec_obj_get(fields, key) is None);
        if head.0 == key {
            assert(spec_obj_get(s, key) == Some(head.1));
        } else {
            assert(spec_obj_get(s.drop_last(), key) is None);
            assert(spec_obj_get(s, key) is None);
        }
    } else {
        assert(s.last() == fields.last());
        assert(s.drop_last() =~= seq![head] + fields.drop_last());
        lemma_obj_get_prepend(fields.drop_last(), head, key);
        if fields.last().0 == key {
            assert(spec_obj_get(s, key) == Some(fields.last().1));
            assert(spec_obj_get(fields, key) == Some(fields.last().1));
        } else {
            assert(spec_obj_get(s, key) == spec_obj_get(seq![head] + fields.drop_last(), key));
            assert(spec_obj_get(fields, key) == spec_obj_get(fields.drop_last(), key));
        }
    }
}

impl Json {
    /// The value this object holds under `key` — the last such field
    /// when several carry it; nothing when this is no object or no field
    /// carries the key.
    pub fn obj_get(&self, key: &str) -> (r: Option<&Json>)
        ensures
            match self@ {
                JsonVal::Obj(fields) => match spec_obj_get(fields, key@) {
                    Some(v) => r matches Some(j) && j@ == v,
                    None => r is None,
                },
                _ => r is None,
            },
    {
        match self {
            Json::Obj(fields) => {
                let key_s = String::from_str(key);
                let n = fields.len();
                proof {
                    assert(self@->Obj_0.take(n as int) =~= self@->Obj_0);
                }
                let mut k: usize = n;
                while k > 0
                    invariant
                        k <= n,
                        n == fields@.len(),
                        key_s@ == key@,
                        self matches Json::Obj(fv) && fv@ == fields@,
                        spec_obj_get(self@->Obj_0, key@) == spec_obj_get(
                            self@->Obj_0.take(k as int),
                            key@,
                        ),
                    decreases k,
                {
                    k = k - 1;
                    proof {
                        let vs = self@->Obj_0;
                        assert(self@ matches JsonVal::Obj(x) && x == vs);
                        assert(vs.len() == fields@.len());
                        assert(vs[k as int] == (fields@[k as int].0@, fields@[k as int].1@));
                        assert(vs.take(k + 1).last() == vs[k as int]);
                        assert(vs.take(k + 1).drop_last() =~= vs.take(k as int));
                    }
                    if fields[k].0 == key_s {
                        return Some(&fields[k].1);
                    }
                }
                proof {
                    assert(self@->Obj_0.take(0) =~= Seq::<(Seq<char>, JsonVal)>::empty());
                }
                None
            },
            _ => None,
        }
    }

    /// How many elements this array holds; zero when this is no array.
    pub fn arr_len(&self) -> (r: usize)
        ensures
            match self@ {
                JsonVal::Arr(items) => r == items.len(),
                _ => r == 0,
            },
    {
        match self {
            Json::Arr(items) => items.len(),
            _ => 0,
        }
    }

    /// The element at `i` of this array, if this is an array and `i` is
    /// within it.
    pub fn arr_get(&self, i: usize) -> (r: Option<&Json>)
        ensures
            match self@ {
                JsonVal::Arr(items) => if i < items.len() {
                    r matches Some(j) && j@ == items[i as int]
                } else {
                    r is None
                },
                _ => r is None,
            },
    {
        match self {
            Json::Arr(items) => {
                if i < items.len() {
                    Some(&items[i])
                } else {
                    None
                }
            },
            _ => None,
        }
    }

    /// The characters of this string value, if it is one.
    pub fn as_str(&self) -> (r: Option<&String>)
        ensures
            match self@ {
                JsonVal::Str(content) => r matches Some(c) && c@ == content,
                _ => r is None,
            },
    {
        match self {
            Json::Str(s) => Some(s),
            _ => None,
        }
    }

    /// This integer value, if it is one.
    pub fn as_int(&self) -> (r: Option<i64>)
        ensures
            match self@ {
                JsonVal::Int(x) => r == Some(x),
                _ => r is None,
            },
    {
        match self {
            Json::Int(x) => Some(*x),
            _ => None,
        }
    }

    /// This integer value as a machine word, if it is an integer in
    /// range.
    pub fn as_usize(&self) -> (r: Option<usize>)
        ensures
            match self@ {
                JsonVal::Int(x) => if 0 <= x <= usize::MAX {
                    r == Some(x as usize)
                } else {
                    r is None
                },
                _ => r is None,
            },
    {
        match self {
            Json::Int(x) => {
                if *x >= 0 && (*x as u64) <= (usize::MAX as u64) {
                    Some(*x as usize)
                } else {
                    None
                }
            },
            _ => None,
        }
    }
}

/// A fresh deserialize error.
pub(crate) fn deserialize_error() -> (r: Error)
    ensures
        r is GraphDeserialize,
{
    Error::GraphDeserialize(String::from_str("invalid graph JSON"))
}

/// Decodes one JSON document. Fails, with a deserialize error, exactly on
/// the strings the grammar here rejects.
pub fn parse_json(s: &str) -> (r: Result<Json, Error>)
    ensures
        match sp_json(s@) {
            Some(v) => r matches Ok(j) && j@ == v,
            None => r matches Err(e) && e is GraphDeserialize,
        },
{
    let n = s.unicode_len();
    let q0 = ws_end(s, n, 0);
    match parse_value(s, n, q0) {
        None => Err(Error::GraphDeserialize(String::from_str("invalid JSON"))),
        Some((j, p)) => {
            let q = ws_end(s, n, p);
            if q != n {
                Err(Error::GraphDeserialize(String::from_str("trailing characters")))
            } else {
                Ok(j)
            }
        },
    }
}

} // verus!
