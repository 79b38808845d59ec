//! Little-endian integers on the wire.
//!
//! Readers take a byte vector and a position and hand back the decoded
//! value with the position after it; each is mirrored by a spec function,
//! and for each width a lemma says that reading an encoding placed at the
//! position yields the encoded value back.

use vstd::bytes::*;
use vstd::prelude::*;
use vstd::slice::slice_subrange;

verus! {

/// Little-endian bytes of a `u64`.
pub open spec fn enc_u64(x: u64) -> Seq<u8> {
    spec_u64_to_le_bytes(x)
}

/// Little-endian bytes of a `u32`.
pub open spec fn enc_u32(x: u32) -> Seq<u8> {
    spec_u32_to_le_bytes(x)
}

/// Little-endian bytes of a `u16`.
pub open spec fn enc_u16(x: u16) -> Seq<u8> {
    spec_u16_to_le_bytes(x)
}

/// The one byte of a `u8`.
pub open spec fn enc_u8(x: u8) -> Seq<u8> {
    seq![x]
}

/// What reading a `u64` at `pos` yields: the value and the position after
/// it, or nothing when fewer than eight bytes remain.
pub open spec fn sp_u64(v: Seq<u8>, pos: int) -> Option<(u64, int)> {
    if 0 <= pos && pos + 8 <= v.len() {
        Some((spec_u64_from_le_bytes(v.subrange(pos, pos + 8)), pos + 8))
    } else {
        None
    }
}

/// What reading a `u32` at `pos` yields.
pub open spec fn sp_u32(v: Seq<u8>, pos: int) -> Option<(u32, int)> {
    if 0 <= pos && pos + 4 <= v.len() {
        Some((spec_u32_from_le_bytes(v.subrange(pos, pos + 4)), pos + 4))
    } else {
        None
    }
}

/// What reading a `u16` at `pos` yields.
pub open spec fn sp_u16(v: Seq<u8>, pos: int) -> Option<(u16, int)> {
    if 0 <= pos && pos + 2 <= v.len() {
        Some((spec_u16_from_le_bytes(v.subrange(pos, pos + 2)), pos + 2))
    } else {
        None
    }
}

/// What reading a `u8` at `pos` yields.
pub open spec fn sp_u8(v: Seq<u8>, pos: int) -> Option<(u8, int)> {
    if 0 <= pos && pos + 1 <= v.len() {
        Some((v[pos], pos + 1))
    } else {
        None
    }
}

/// Reads a little-endian `u64` at `pos`.
pub fn read_u64(v: &Vec<u8>, pos: usize) -> (r: Option<(u64, usize)>)
    ensures
        match r {
            Some((x, p)) => sp_u64(v@, pos as int) == Some((x, p as int)),
            None => sp_u64(v@, pos as int) is None,
        },
{
    if pos <= v.len() && v.len() - pos >= 8 {
        let s = slice_subrange(v.as_slice(), pos, pos + 8);
        Some((u64_from_le_bytes(s), pos + 8))
    } else {
        None
    }
}

/// Reads a little-endian `u32` at `pos`.
pub fn read_u32(v: &Vec<u8>, pos: usize) -> (r: Option<(u32, usize)>)
    ensures
        match r {
            Some((x, p)) => sp_u32(v@, pos as int) == Some((x, p as int)),
            None => sp_u32(v@, pos as int) is None,
        },
{
    if pos <= v.len() && v.len() - pos >= 4 {
        let s = slice_subrange(v.as_slice(), pos, pos + 4);
        Some((u32_from_le_bytes(s), pos + 4))
    } else {
        None
    }
}

/// Reads a little-endian `u16` at `pos`.
pub fn read_u16(v: &Vec<u8>, pos: usize) -> (r: Option<(u16, usize)>)
    ensures
        match r {
            Some((x, p)) => sp_u16(v@, pos as int) == Some((x, p as int)),
            None => sp_u16(v@, pos as int) is None,
        },
{
    if pos <= v.len() && v.len() - pos >= 2 {
        let s = slice_subrange(v.as_slice(), pos, pos + 2);
        Some((u16_from_le_bytes(s), pos + 2))
    } else {
        None
    }
}

/// Reads one byte at `pos`.
pub fn read_u8(v: &Vec<u8>, pos: usize) -> (r: Option<(u8, usize)>)
    ensures
        match r {
            Some((x, p)) => sp_u8(v@, pos as int) == Some((x, p as int)),
            None => sp_u8(v@, pos as int) is None,
        },
{
    if pos < v.len() {
        Some((v[pos], pos + 1))
    } else {
        None
    }
}

/// The byte lengths of the wire encodings.
pub proof fn lemma_enc_lens()
    ensures
        forall|x: u64| (#[trigger] enc_u64(x)).len() == 8,
        forall|x: u32| (#[trigger] enc_u32(x)).len() == 4,
        forall|x: u16| (#[trigger] enc_u16(x)).len() == 2,
        forall|x: u8| (#[trigger] enc_u8(x)).len() == 1,
{
    lemma_auto_spec_u64_to_from_le_bytes();
    lemma_auto_spec_u32_to_from_le_bytes();
    lemma_auto_spec_u16_to_from_le_bytes();
    assert forall|x: u64| (#[trigger] enc_u64(x)).len() == 8 by {
        assert(spec_u64_to_le_bytes(x).len() == 8);
    }
    assert forall|x: u32| (#[trigger] enc_u32(x)).len() == 4 by {
        assert(spec_u32_to_le_bytes(x).len() == 4);
    }
    assert forall|x: u16| (#[trigger] enc_u16(x)).len() == 2 by {
        assert(spec_u16_to_le_bytes(x).len() == 2);
    }
}

/// Splits knowledge of a two-part window: when `v` holds `a + b` at `pos`,
/// it holds `a` at `pos` and `b` right after it.
pub proof fn lemma_split_prefix(v: Seq<u8>, pos: int, a: Seq<u8>, b: Seq<u8>)
    requires
        0 <= pos,
        pos + a.len() + b.len() <= v.len(),
        v.subrange(pos, pos + a.len() + b.len()) == a + b,
    ensures
        v.subrange(pos, pos + a.len()) == a,
        v.subrange(pos + a.len(), pos + a.len() + b.len()) == b,
{
    let whole = v.subrange(pos, pos + a.len() + b.len());
    assert forall|i: int| 0 <= i < a.len() implies v.subrange(pos, pos + a.len())[i] == a[i] by {
        assert(whole[i] == v[pos + i]);
        assert((a + b)[i] == a[i]);
    }
    assert(v.subrange(pos, pos + a.len()) =~= a);
    assert forall|i: int|
        0 <= i < b.len() implies v.subrange(pos + a.len(), pos + a.len() + b.len())[i] == b[i] by {
        assert(whole[a.len() + i] == v[pos + a.len() + i]);
        assert((a + b)[a.len() + i] == b[i]);
    }
    assert(v.subrange(pos + a.len(), pos + a.len() + b.len()) =~= b);
}

/// Reading where a `u64` was encoded, with `rest` after it, yields the
/// encoded value and leaves `rest` in the window that follows.
pub proof fn lemma_read_enc_u64(v: Seq<u8>, pos: int, x: u64, rest: Seq<u8>)
    requires
        0 <= pos,
        pos + 8 + rest.len() <= v.len(),
        v.subrange(pos, pos + 8 + rest.len()) == enc_u64(x) + rest,
    ensures
        sp_u64(v, pos) == Some((x, pos + 8)),
        v.subrange(pos + 8, pos + 8 + rest.len()) == rest,
{
    lemma_auto_spec_u64_to_from_le_bytes();
    lemma_split_prefix(v, pos, enc_u64(x), rest);
}

/// As `lemma_read_enc_u64`, for a `u32`.
pub proof fn lemma_read_enc_u32(v: Seq<u8>, pos: int, x: u32, rest: Seq<u8>)
    requires
        0 <= pos,
        pos + 4 + rest.len() <= v.len(),
        v.subrange(pos, pos + 4 + rest.len()) == enc_u32(x) + rest,
    ensures
        sp_u32(v, pos) == Some((x, pos + 4)),
        v.subrange(pos + 4, pos + 4 + rest.len()) == rest,
{
    lemma_auto_spec_u32_to_from_le_bytes();
    lemma_split_prefix(v, pos, enc_u32(x), rest);
}

/// As `lemma_read_enc_u64`, for a `u16`.
pub proof fn lemma_read_enc_u16(v: Seq<u8>, pos: int, x: u16, rest: Seq<u8>)
    requires
        0 <= pos,
        pos + 2 + rest.len() <= v.len(),
        v.subrange(pos, pos + 2 + rest.len()) == enc_u16(x) + rest,
    ensures
        sp_u16(v, pos) == Some((x, pos + 2)),
        v.subrange(pos + 2, pos + 2 + rest.len()) == rest,
{
    lemma_auto_spec_u16_to_from_le_bytes();
    lemma_split_prefix(v, pos, enc_u16(x), rest);
}

/// As `lemma_read_enc_u64`, for a single byte.
pub proof fn lemma_read_enc_u8(v: Seq<u8>, pos: int, x: u8, rest: Seq<u8>)
    requires
        0 <= pos,
        pos + 1 + rest.len() <= v.len(),
        v.subrange(pos, pos + 1 + rest.len()) == enc_u8(x) + rest,
    ensures
        sp_u8(v, pos) == Some((x, pos + 1)),
        v.subrange(pos + 1, pos + 1 + rest.len()) == rest,
{
    lemma_split_prefix(v, pos, enc_u8(x), rest);
    assert(v.subrange(pos, pos + 1)[0] == v[pos]);
    assert(enc_u8(x)[0] == x);
}

} // verus!
