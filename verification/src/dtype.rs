//! The dtype string grammar: `"<kind><bits>[x<lanes>]"`.
//!
//! A kind is a run of letters: `int`, `uint` and `float` name their type
//! codes, any other kind falls back to `float`. The bit width is a decimal
//! run that must fit a byte; the lane count, when an `x` and a decimal run
//! follow, must fit sixteen bits and defaults to 1. Trailing characters
//! after the parsed forms are ignored, as is an `x` that no digits follow.

use vstd::prelude::*;
use vstd::string::StrSliceExecFns;

use crate::array::DataType;
use crate::array::DTYPE_CODE_FLOAT;
use crate::array::DTYPE_CODE_INT;
use crate::array::DTYPE_CODE_UINT;
use crate::errors::Error;

verus! {

/// True for an ASCII letter.
pub open spec fn spec_is_alpha(c: char) -> bool {
    (97 <= c as u32 && c as u32 <= 122) || (65 <= c as u32 && c as u32 <= 90)
}

/// True for an ASCII digit.
pub open spec fn spec_is_digit(c: char) -> bool {
    48 <= c as u32 && c as u32 <= 57
}

/// First position at or after `i` that does not hold a letter.
pub open spec fn spec_alpha_end(s: Seq<char>, i: int) -> int
    recommends
        0 <= i <= s.len(),
    decreases s.len() - i,
{
    if i < s.len() && spec_is_alpha(s[i]) {
        spec_alpha_end(s, i + 1)
    } else {
        i
    }
}

/// First position at or after `i` that does not hold a digit.
pub open spec fn spec_digit_end(s: Seq<char>, i: int) -> int
    recommends
        0 <= i <= s.len(),
    decreases s.len() - i,
{
    if i < s.len() && spec_is_digit(s[i]) {
        spec_digit_end(s, i + 1)
    } else {
        i
    }
}

/// Value of the decimal digit run `s[i .. j]`.
pub open spec fn spec_dec_val(s: Seq<char>, i: int, j: int) -> nat
    recommends
        0 <= i <= j <= s.len(),
    decreases j - i,
{
    if i >= j {
        0
    } else {
        (spec_dec_val(s, i, j - 1) * 10 + (s[j - 1] as u32 - 48)) as nat
    }
}

/// The type code a kind word names: `int`, `uint` and `float` their own
/// codes, anything else the float code.
pub open spec fn spec_kind_code(kind: Seq<char>) -> usize {
    if kind == seq!['i', 'n', 't'] {
        DTYPE_CODE_INT
    } else if kind == seq!['u', 'i', 'n', 't'] {
        DTYPE_CODE_UINT
    } else {
        DTYPE_CODE_FLOAT
    }
}

/// What the dtype grammar makes of `s`: `None` when no kind run or no bit
/// run starts the string, or a run's value is out of range; otherwise the
/// parsed data type.
pub open spec fn spec_parse_dtype(s: Seq<char>) -> Option<DataType> {
    let a = spec_alpha_end(s, 0);
    let b = spec_digit_end(s, a);
    if a == 0 || b == a {
        None
    } else if spec_dec_val(s, a, b) > 0xff {
        None
    } else {
        let c = spec_digit_end(s, b + 1);
        if b < s.len() && s[b] == 'x' && c > b + 1 {
            if spec_dec_val(s, b + 1, c) > 0xffff {
                None
            } else {
                Some(
                    DataType {
                        code: spec_kind_code(s.subrange(0, a)),
                        bits: spec_dec_val(s, a, b) as usize,
                        lanes: spec_dec_val(s, b + 1, c) as usize,
                    },
                )
            }
        } else {
            Some(
                DataType {
                    code: spec_kind_code(s.subrange(0, a)),
                    bits: spec_dec_val(s, a, b) as usize,
                    lanes: 1,
                },
            )
        }
    }
}

/// Whether the character at `k` is an ASCII letter.
fn is_alpha_at(s: &str, k: usize) -> (r: bool)
    requires
        k < s@.len(),
    ensures
        r == spec_is_alpha(s@[k as int]),
{
    let cu = s.get_char(k) as u32;
    (97 <= cu && cu <= 122) || (65 <= cu && cu <= 90)
}

/// Whether the character at `k` is an ASCII digit.
fn is_digit_at(s: &str, k: usize) -> (r: bool)
    requires
        k < s@.len(),
    ensures
        r == spec_is_digit(s@[k as int]),
{
    let cu = s.get_char(k) as u32;
    48 <= cu && cu <= 57
}

/// Position where the letter run starting at `i` ends.
fn alpha_end(s: &str, n: usize, i: usize) -> (r: usize)
    requires
        n == s@.len(),
        i <= n,
    ensures
        i <= r <= n,
        r == spec_alpha_end(s@, i as int),
{
    let mut k = i;
    while k < n && is_alpha_at(s, k)
        invariant
            i <= k <= n,
            n == s@.len(),
            spec_alpha_end(s@, i as int) == spec_alpha_end(s@, k as int),
        decreases n - k,
    {
        k = k + 1;
    }
    k
}

/// Position where the digit run starting at `i` ends.
pub(crate) fn digit_end(s: &str, n: usize, i: usize) -> (r: usize)
    requires
        n == s@.len(),
        i <= n,
    ensures
        i <= r <= n,
        r == spec_digit_end(s@, i as int),
{
    let mut k = i;
    while k < n && is_digit_at(s, k)
        invariant
            i <= k <= n,
            n == s@.len(),
            spec_digit_end(s@, i as int) == spec_digit_end(s@, k as int),
        decreases n - k,
    {
        k = k + 1;
    }
    k
}

/// Every character of a digit run is a digit.
pub(crate) proof fn lemma_digit_run(s: Seq<char>, i: int)
    requires
        0 <= i <= s.len(),
    ensures
        i <= spec_digit_end(s, i) <= s.len(),
        forall|t: int| i <= t < spec_digit_end(s, i) ==> spec_is_digit(#[trigger] s[t]),
    decreases s.len() - i,
{
    if i < s.len() && spec_is_digit(s[i]) {
        lemma_digit_run(s, i + 1);
    }
}

/// Value of the digit run `s[i .. j]`, or `None` when it exceeds `cap`.
fn dec_val_capped(s: &str, i: usize, j: usize, cap: u32) -> (r: Option<u32>)
    requires
        i <= j <= s@.len(),
        forall|t: int| i <= t < j ==> spec_is_digit(s@[t]),
        cap <= 0xffff,
    ensures
        match r {
            Some(v) => v == spec_dec_val(s@, i as int, j as int) && v <= cap,
            None => spec_dec_val(s@, i as int, j as int) > cap,
        },
{
    let mut acc: u32 = 0;
    let mut over = false;
    let mut k = i;
    while k < j
        invariant
            i <= k <= j <= s@.len(),
            forall|t: int| i <= t < j ==> spec_is_digit(s@[t]),
            cap <= 0xffff,
            !over ==> acc == spec_dec_val(s@, i as int, k as int) && acc <= cap,
            over ==> spec_dec_val(s@, i as int, k as int) > cap,
        decreases j - k,
    {
        let d = s.get_char(k) as u32 - 48;
        proof {
            let sv = s@;
            let ii = i as int;
            let kk = k as int;
            assert(spec_dec_val(sv, ii, kk + 1) == spec_dec_val(sv, ii, kk) * 10 + (sv[kk] as u32
                - 48));
        }
        if !over {
            let next = acc * 10 + d;
            if next > cap {
                over = true;
            } else {
                acc = next;
            }
        } else {
            proof {
                let sv = s@;
                let ii = i as int;
                let kk = k as int;
                assert(spec_dec_val(sv, ii, kk) * 10 >= spec_dec_val(sv, ii, kk))
                    by (nonlinear_arith);
            }
        }
        k = k + 1;
    }
    if over {
        None
    } else {
        Some(acc)
    }
}

/// Parses a dtype string such as `float32` or `uint111x44`. Fails, with a
/// graph-format error, exactly on the strings the grammar gives no data
/// type.
pub fn tvm_str_to_type(s: &str) -> (r: Result<DataType, Error>)
    ensures
        match r {
            Ok(dt) => spec_parse_dtype(s@) == Some(dt),
            Err(e) => spec_parse_dtype(s@) is None && e is GraphFormat,
        },
{
    let n = s.unicode_len();
    let a = alpha_end(s, n, 0);
    if a == 0 {
        return Err(Error::GraphFormat(String::from_str("invalid dltype")));
    }
    let b = digit_end(s, n, a);
    if b == a {
        return Err(Error::GraphFormat(String::from_str("invalid dltype")));
    }
    proof {
        lemma_digit_run(s@, a as int);
    }
    let bits = match dec_val_capped(s, a, b, 0xff) {
        Some(v) => v,
        None => {
            return Err(Error::GraphFormat(String::from_str("invalid dltype")));
        },
    };
    let code = kind_code(s, a);
    let mut lanes: u32 = 1;
    if b < n && s.get_char(b) == 'x' {
        let c = digit_end(s, n, b + 1);
        if c > b + 1 {
            proof {
                lemma_digit_run(s@, b + 1);
            }
            lanes = match dec_val_capped(s, b + 1, c, 0xffff) {
                Some(v) => v,
                None => {
                    return Err(Error::GraphFormat(String::from_str("invalid dltype")));
                },
            };
        }
    }
    Ok(DataType { code, bits: bits as usize, lanes: lanes as usize })
}

/// The type code of the kind word `s[0 .. a]`.
fn kind_code(s: &str, a: usize) -> (r: usize)
    requires
        a <= s@.len(),
    ensures
        r == spec_kind_code(s@.subrange(0, a as int)),
{
    proof {
        reveal_strlit("int");
        reveal_strlit("uint");
        reveal_strlit("float");
    }
    if a == 3 && s.get_char(0) == 'i' && s.get_char(1) == 'n' && s.get_char(2) == 't' {
        proof {
            assert(s@.subrange(0, 3) =~= seq!['i', 'n', 't']);
        }
        DTYPE_CODE_INT
    } else if a == 4 && s.get_char(0) == 'u' && s.get_char(1) == 'i' && s.get_char(2) == 'n'
        && s.get_char(3) == 't' {
        proof {
            assert(s@.subrange(0, 4) =~= seq!['u', 'i', 'n', 't']);
        }
        DTYPE_CODE_UINT
    } else {
        proof {
            let kind = s@.subrange(0, a as int);
            if kind == seq!['i', 'n', 't'] {
                assert(kind.len() == 3);
                assert(kind[0] == 'i' && kind[1] == 'n' && kind[2] == 't');
                assert(s@[0] == kind[0] && s@[1] == kind[1] && s@[2] == kind[2]);
            }
            if kind == seq!['u', 'i', 'n', 't'] {
                assert(kind.len() == 4);
                assert(kind[0] == 'u' && kind[1] == 'i' && kind[2] == 'n' && kind[3] == 't');
                assert(s@[0] == kind[0] && s@[1] == kind[1] && s@[2] == kind[2] && s@[3]
                    == kind[3]);
            }
        }
        DTYPE_CODE_FLOAT
    }
}

} // verus!
