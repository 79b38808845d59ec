//! The binary parameter dictionary: a tagged container of named tensors.
//!
//! The container holds, all integers little-endian: a list magic, a zero
//! reserved word, a name count and that many length-prefixed names, a
//! tensor count equal to the name count, and that many tensors. A tensor
//! holds its own magic, a zero reserved word, a device context, the
//! dimension count, the element type, the extents, and a length-prefixed
//! payload of raw element bytes.
//!
//! Names travel as length-prefixed UTF-8. The parser is mirrored, step
//! for step, by spec functions over the byte sequence; encoding spec
//! functions describe the container's grammar, and
//! the round-trip law at the end of this module says that parsing an
//! encoded dictionary yields exactly the encoded names, in order, and the
//! encoded payload bytes — and consumes exactly the encoding, so that any
//! trailing byte is reported as extra input.

use vstd::prelude::*;
use vstd::slice::slice_subrange;
use vstd::slice::slice_to_vec;
use vstd::string::StringExecFns;

use crate::allocator::spec_valid_layout;
use crate::allocator::DEFAULT_ALIGN_BYTES;
use crate::array::spec_numel;
use crate::array::DataType;
use crate::array::Tensor;
use crate::array::TVMContext;
use crate::errors::Error;
use crate::wire::enc_u16;
use crate::wire::enc_u32;
use crate::wire::enc_u64;
use crate::wire::enc_u8;
use crate::wire::lemma_read_enc_u16;
use crate::wire::lemma_read_enc_u32;
use crate::wire::lemma_read_enc_u64;
use crate::wire::lemma_read_enc_u8;
use crate::wire::lemma_split_prefix;
use crate::wire::read_u16;
use crate::wire::read_u32;
use crate::wire::read_u64;
use crate::wire::read_u8;
use crate::wire::sp_u16;
use crate::wire::sp_u32;
use crate::wire::sp_u64;
use crate::wire::sp_u8;

verus! {

/// Magic of the tensor-list container.
pub const NDARRAY_LIST_MAGIC: u64 = 0xF7E58D4F05049CB7;

/// Magic of one serialized tensor.
pub const NDARRAY_MAGIC: u64 = 0xDD5E40F096B4A13F;

/// What one serialized tensor carries, as plain mathematical values.
pub struct TensorRec {
    pub device_type: u32,
    pub device_id: u32,
    pub code: u8,
    pub bits: u8,
    pub lanes: u16,
    pub shape: Seq<usize>,
    pub payload: Seq<u8>,
}

/// A name the container can carry: its UTF-8 encoding is counted by a
/// machine word.
pub open spec fn wf_name(name: Seq<char>) -> bool {
    vstd::utf8::encode_utf8(name).len() <= usize::MAX
}

/// A tensor the container can carry: the dimension count fits its field,
/// the payload is allocatable, and the element count fits a machine word.
pub open spec fn wf_tensor_rec(r: TensorRec) -> bool {
    &&& r.shape.len() <= u32::MAX
    &&& r.payload.len() <= usize::MAX
    &&& spec_valid_layout(r.payload.len() as usize, DEFAULT_ALIGN_BYTES)
    &&& spec_numel(r.shape) <= usize::MAX
}

/// A dictionary the container can carry.
pub open spec fn wf_param_dict(d: Seq<(Seq<char>, TensorRec)>) -> bool {
    &&& d.len() <= usize::MAX
    &&& forall|i: int|
        0 <= i < d.len() ==> wf_name((#[trigger] d[i]).0) && wf_tensor_rec(d[i].1)
}

/// A length-prefixed name on the wire: its byte count, then its UTF-8
/// bytes.
pub open spec fn enc_name(name: Seq<char>) -> Seq<u8> {
    enc_u64(vstd::utf8::encode_utf8(name).len() as u64) + vstd::utf8::encode_utf8(name)
}

/// The extents on the wire, one word each.
pub open spec fn enc_shape(shape: Seq<usize>) -> Seq<u8>
    decreases shape.len(),
{
    if shape.len() == 0 {
        Seq::empty()
    } else {
        enc_u64(shape[0] as u64) + enc_shape(shape.skip(1))
    }
}

/// One tensor on the wire.
pub open spec fn enc_tensor(r: TensorRec) -> Seq<u8> {
    enc_u64(NDARRAY_MAGIC) + (enc_u64(0) + (enc_u32(r.device_type) + (enc_u32(r.device_id) + (
    enc_u32(r.shape.len() as u32) + (enc_u8(r.code) + (enc_u8(r.bits) + (enc_u16(r.lanes) + (
    enc_shape(r.shape) + (enc_u64(r.payload.len() as u64) + r.payload)))))))))
}

/// The dictionary's names on the wire, in order.
pub open spec fn enc_names(d: Seq<(Seq<char>, TensorRec)>) -> Seq<u8>
    decreases d.len(),
{
    if d.len() == 0 {
        Seq::empty()
    } else {
        enc_name(d[0].0) + enc_names(d.skip(1))
    }
}

/// The dictionary's tensors on the wire, in order.
pub open spec fn enc_tensors(d: Seq<(Seq<char>, TensorRec)>) -> Seq<u8>
    decreases d.len(),
{
    if d.len() == 0 {
        Seq::empty()
    } else {
        enc_tensor(d[0].1) + enc_tensors(d.skip(1))
    }
}

/// The whole container on the wire.
pub open spec fn enc_param_dict(d: Seq<(Seq<char>, TensorRec)>) -> Seq<u8> {
    enc_u64(NDARRAY_LIST_MAGIC) + (enc_u64(0) + (enc_u64(d.len() as u64) + (enc_names(d) + (
    enc_u64(d.len() as u64) + enc_tensors(d)))))
}

/// What parsing a name at `pos` yields: the decoding of a length-counted
/// run of UTF-8 bytes, or nothing when bytes are missing or the run is
/// not valid UTF-8.
pub open spec fn sp_name(v: Seq<u8>, pos: int) -> Option<(Seq<char>, int)> {
    match sp_u64(v, pos) {
        None => None,
        Some((len, p)) => if len <= usize::MAX && p + len <= v.len() {
            if vstd::utf8::valid_utf8(v.subrange(p, p + len)) {
                Some((vstd::utf8::decode_utf8(v.subrange(p, p + len)), p + len))
            } else {
                None
            }
        } else {
            None
        },
    }
}

/// What parsing `n` extents at `pos` yields.
pub open spec fn sp_shape(v: Seq<u8>, pos: int, n: nat) -> Option<(Seq<usize>, int)>
    decreases n,
{
    if n == 0 {
        Some((Seq::empty(), pos))
    } else {
        match sp_u64(v, pos) {
            None => None,
            Some((x, p)) => if x <= usize::MAX {
                match sp_shape(v, p, (n - 1) as nat) {
                    None => None,
                    Some((rest, p2)) => Some((seq![x as usize] + rest, p2)),
                }
            } else {
                None
            },
        }
    }
}

/// What parsing one tensor at `pos` yields: its record, when the magic
/// matches, the reserved word is zero, every field is in range, the
/// payload is present and allocatable, and the element count fits a
/// machine word.
pub open spec fn sp_tensor(v: Seq<u8>, pos: int) -> Option<(TensorRec, int)> {
    match sp_u64(v, pos) {
        None => None,
        Some((magic, p1)) => if magic != NDARRAY_MAGIC {
            None
        } else {
            match sp_u64(v, p1) {
                None => None,
                Some((reserved, p2)) => if reserved != 0 {
                    None
                } else {
                    match sp_u32(v, p2) {
                        None => None,
                        Some((device_type, p3)) => match sp_u32(v, p3) {
                            None => None,
                            Some((device_id, p4)) => match sp_u32(v, p4) {
                                None => None,
                                Some((ndim, p5)) => match sp_u8(v, p5) {
                                    None => None,
                                    Some((code, p6)) => match sp_u8(v, p6) {
                                        None => None,
                                        Some((bits, p7)) => match sp_u16(v, p7) {
                                            None => None,
                                            Some((lanes, p8)) => match sp_shape(
                                                v,
                                                p8,
                                                ndim as nat,
                                            ) {
                                                None => None,
                                                Some((shape, p9)) => match sp_u64(v, p9) {
                                                    None => None,
                                                    Some((length, p10)) => if length <= usize::MAX
                                                        && p10 + length <= v.len()
                                                        && spec_valid_layout(
                                                        length as usize,
                                                        DEFAULT_ALIGN_BYTES,
                                                    ) && spec_numel(shape) <= usize::MAX {
                                                        Some(
                                                            (
                                                                TensorRec {
                                                                    device_type,
                                                                    device_id,
                                                                    code,
                                                                    bits,
                                                                    lanes,
                                                                    shape,
                                                                    payload: v.subrange(
                                                                        p10,
                                                                        p10 + length,
                                                                    ),
                                                                },
                                                                p10 + length,
                                                            ),
                                                        )
                                                    } else {
                                                        None
                                                    },
                                                },
                                            },
                                        },
                                    },
                                },
                            },
                        },
                    }
                },
            }
        },
    }
}

/// What parsing `n` names at `pos` yields.
pub open spec fn sp_names(v: Seq<u8>, pos: int, n: nat) -> Option<(Seq<Seq<char>>, int)>
    decreases n,
{
    if n == 0 {
        Some((Seq::empty(), pos))
    } else {
        match sp_name(v, pos) {
            None => None,
            Some((name, p)) => match sp_names(v, p, (n - 1) as nat) {
                None => None,
                Some((rest, p2)) => Some((seq![name] + rest, p2)),
            },
        }
    }
}

/// What parsing `n` tensors at `pos` yields.
pub open spec fn sp_tensors(v: Seq<u8>, pos: int, n: nat) -> Option<(Seq<TensorRec>, int)>
    decreases n,
{
    if n == 0 {
        Some((Seq::empty(), pos))
    } else {
        match sp_tensor(v, pos) {
            None => None,
            Some((rec, p)) => match sp_tensors(v, p, (n - 1) as nat) {
                None => None,
                Some((rest, p2)) => Some((seq![rec] + rest, p2)),
            },
        }
    }
}

/// A successful name-list parse yields exactly as many names as asked.
pub proof fn lemma_sp_names_len(v: Seq<u8>, pos: int, n: nat)
    ensures
        match sp_names(v, pos, n) {
            Some((names, _)) => names.len() == n,
            None => true,
        },
    decreases n,
{
    if n > 0 {
        match sp_name(v, pos) {
            Some((_, p)) => {
                lemma_sp_names_len(v, p, (n - 1) as nat);
            },
            None => {},
        }
    }
}

/// A successful tensor-list parse yields exactly as many tensors as asked.
pub proof fn lemma_sp_tensors_len(v: Seq<u8>, pos: int, n: nat)
    ensures
        match sp_tensors(v, pos, n) {
            Some((recs, _)) => recs.len() == n,
            None => true,
        },
    decreases n,
{
    if n > 0 {
        match sp_tensor(v, pos) {
            Some((_, p)) => {
                lemma_sp_tensors_len(v, p, (n - 1) as nat);
            },
            None => {},
        }
    }
}

/// What parsing the whole container at `pos` yields: names paired with
/// tensors, in file order, when the header is sound and the two counts
/// are equal.
pub open spec fn sp_param_dict(v: Seq<u8>, pos: int) -> Option<
    (Seq<(Seq<char>, TensorRec)>, int),
> {
    match sp_u64(v, pos) {
        None => None,
        Some((magic, p1)) => if magic != NDARRAY_LIST_MAGIC {
            None
        } else {
            match sp_u64(v, p1) {
                None => None,
                Some((reserved, p2)) => if reserved != 0 {
                    None
                } else {
                    match sp_u64(v, p2) {
                        None => None,
                        Some((n_names, p3)) => if n_names <= usize::MAX {
                            match sp_names(v, p3, n_names as nat) {
                                None => None,
                                Some((names, p4)) => match sp_u64(v, p4) {
                                    None => None,
                                    Some((n_tensors, p5)) => if n_tensors != n_names {
                                        None
                                    } else {
                                        match sp_tensors(v, p5, n_tensors as nat) {
                                            None => None,
                                            Some((recs, p6)) => Some(
                                                (
                                                    Seq::new(
                                                        n_names as nat,
                                                        |i: int| (names[i], recs[i]),
                                                    ),
                                                    p6,
                                                ),
                                            ),
                                        }
                                    },
                                },
                            }
                        } else {
                            None
                        },
                    }
                },
            }
        },
    }
}

/// How an in-memory tensor realizes a parsed record: it owns exactly the
/// payload bytes, repeats the context and element type, takes the extents
/// as its shape with no strides and no offset, and counts its elements.
pub open spec fn tensor_matches(t: Tensor, r: TensorRec) -> bool {
    &&& t.data is Owned
    &&& t.owned_bytes() == r.payload
    &&& t.ctx.device_type == r.device_type as usize
    &&& t.ctx.device_id == r.device_id as usize
    &&& t.dtype.code == r.code as usize
    &&& t.dtype.bits == r.bits as usize
    &&& t.dtype.lanes == r.lanes as usize
    &&& t.shape@ == r.shape
    &&& t.strides is None
    &&& t.byte_offset == 0
    &&& t.numel == spec_numel(r.shape)
    &&& t.wf()
}

/// How a loaded dictionary realizes a parsed one, entry by entry and in
/// the same order.
pub open spec fn dict_matches(d: Seq<(String, Tensor)>, recs: Seq<(Seq<char>, TensorRec)>) -> bool {
    &&& d.len() == recs.len()
    &&& forall|i: int|
        0 <= i < d.len() ==> (#[trigger] d[i].0)@ == recs[i].0 && tensor_matches(
            d[i].1,
            recs[i].1,
        )
}

/// Parses one length-prefixed ASCII name.
fn parse_name(v: &Vec<u8>, pos: usize) -> (r: Option<(String, usize)>)
    ensures
        match sp_name(v@, pos as int) {
            Some((name, p)) => r matches Some((s, pe)) && pe as int == p && s@ == name,
            None => r is None,
        },
{
    let (len, p) = match read_u64(v, pos) {
        Some(x) => x,
        None => {
            return None;
        },
    };
    let rem = v.len() - p;
    if len > rem as u64 {
        return None;
    }
    let len_us = len as usize;
    let payload = slice_to_vec(slice_subrange(v.as_slice(), p, p + len_us));
    match crate::text::string_from_utf8(payload) {
        Some(s) => Some((s, p + len_us)),
        None => None,
    }
}

/// Parses `n` extents.
fn parse_shape(v: &Vec<u8>, pos: usize, n: usize) -> (r: Option<(Vec<usize>, usize)>)
    ensures
        match sp_shape(v@, pos as int, n as nat) {
            Some((shape, p)) => r matches Some((sv, pe)) && pe as int == p && sv@ == shape,
            None => r is None,
        },
{
    let mut acc: Vec<usize> = Vec::new();
    let mut cur = pos;
    let mut i: usize = 0;
    while i < n
        invariant
            i <= n,
            match sp_shape(v@, cur as int, (n - i) as nat) {
                Some((rest, p)) => sp_shape(v@, pos as int, n as nat) == Some((acc@ + rest, p)),
                None => sp_shape(v@, pos as int, n as nat) is None,
            },
        decreases n - i,
    {
        let (x, p) = match read_u64(v, cur) {
            Some(x) => x,
            None => {
                return None;
            },
        };
        if x > usize::MAX as u64 {
            return None;
        }
        proof {
            let rest_opt = sp_shape(v@, p as int, (n - i - 1) as nat);
            match rest_opt {
                Some((rest2, p2)) => {
                    assert(acc@ + (seq![x as usize] + rest2) =~= acc@.push(x as usize) + rest2);
                },
                None => {},
            }
        }
        acc.push(x as usize);
        cur = p;
        i = i + 1;
    }
    proof {
        assert(acc@ + Seq::<usize>::empty() =~= acc@);
    }
    Some((acc, cur))
}

/// Parses one tensor.
fn parse_tensor(v: &Vec<u8>, pos: usize) -> (r: Option<(Tensor, usize)>)
    ensures
        match sp_tensor(v@, pos as int) {
            Some((rec, p)) => r matches Some((t, pe)) && pe as int == p && tensor_matches(t, rec),
            None => r is None,
        },
{
    let (magic, p1) = match read_u64(v, pos) {
        Some(x) => x,
        None => {
            return None;
        },
    };
    if magic != NDARRAY_MAGIC {
        return None;
    }
    let (reserved, p2) = match read_u64(v, p1) {
        Some(x) => x,
        None => {
            return None;
        },
    };
    if reserved != 0 {
        return None;
    }
    let (device_type, p3) = match read_u32(v, p2) {
        Some(x) => x,
        None => {
            return None;
        },
    };
    let (device_id, p4) = match read_u32(v, p3) {
        Some(x) => x,
        None => {
            return None;
        },
    };
    let (ndim, p5) = match read_u32(v, p4) {
        Some(x) => x,
        None => {
            return None;
        },
    };
    let (code, p6) = match read_u8(v, p5) {
        Some(x) => x,
        None => {
            return None;
        },
    };
    let (bits, p7) = match read_u8(v, p6) {
        Some(x) => x,
        None => {
            return None;
        },
    };
    let (lanes, p8) = match read_u16(v, p7) {
        Some(x) => x,
        None => {
            return None;
        },
    };
    let (shape_vec, p9) = match parse_shape(v, p8, ndim as usize) {
        Some(x) => x,
        None => {
            return None;
        },
    };
    let (length, p10) = match read_u64(v, p9) {
        Some(x) => x,
        None => {
            return None;
        },
    };
    let rem = v.len() - p10;
    if length > rem as u64 {
        return None;
    }
    let len_us = length as usize;
    let payload = slice_to_vec(slice_subrange(v.as_slice(), p10, p10 + len_us));
    let ctx = TVMContext { device_type: device_type as usize, device_id: device_id as usize };
    let dtype = DataType { code: code as usize, bits: bits as usize, lanes: lanes as usize };
    match Tensor::from_bytes(&payload, ctx, dtype, shape_vec) {
        Ok(t) => Some((t, p10 + len_us)),
        Err(_) => None,
    }
}

/// Parses `n` names.
fn parse_names(v: &Vec<u8>, pos: usize, n: usize) -> (r: Option<(Vec<String>, usize)>)
    ensures
        match sp_names(v@, pos as int, n as nat) {
            Some((names, p)) => r matches Some((sv, pe)) && pe as int == p && sv@.len()
                == names.len() && forall|i: int|
                0 <= i < names.len() ==> (#[trigger] sv@[i])@ == names[i],
            None => r is None,
        },
{
    let mut acc: Vec<String> = Vec::new();
    let ghost mut done: Seq<Seq<char>> = Seq::empty();
    let mut cur = pos;
    let mut i: usize = 0;
    while i < n
        invariant
            i <= n,
            acc@.len() == done.len(),
            forall|j: int| 0 <= j < done.len() ==> (#[trigger] acc@[j])@ == done[j],
            match sp_names(v@, cur as int, (n - i) as nat) {
                Some((rest, p)) => sp_names(v@, pos as int, n as nat) == Some((done + rest, p)),
                None => sp_names(v@, pos as int, n as nat) is None,
            },
        decreases n - i,
    {
        let (s, p) = match parse_name(v, cur) {
            Some(x) => x,
            None => {
                return None;
            },
        };
        proof {
            let name = sp_name(v@, cur as int)->Some_0.0;
            let rest_opt = sp_names(v@, p as int, (n - i - 1) as nat);
            match rest_opt {
                Some((rest2, p2)) => {
                    assert(done + (seq![name] + rest2) =~= done.push(name) + rest2);
                },
                None => {},
            }
            done = done.push(s@);
        }
        acc.push(s);
        cur = p;
        i = i + 1;
    }
    proof {
        assert(done + Seq::<Seq<char>>::empty() =~= done);
    }
    Some((acc, cur))
}

/// Parses `n` tensors.
fn parse_tensors(v: &Vec<u8>, pos: usize, n: usize) -> (r: Option<(Vec<Tensor>, usize)>)
    ensures
        match sp_tensors(v@, pos as int, n as nat) {
            Some((recs, p)) => r matches Some((tv, pe)) && pe as int == p && tv@.len()
                == recs.len() && forall|i: int|
                0 <= i < recs.len() ==> tensor_matches(#[trigger] tv@[i], recs[i]),
            None => r is None,
        },
{
    let mut acc: Vec<Tensor> = Vec::new();
    let ghost mut done: Seq<TensorRec> = Seq::empty();
    let mut cur = pos;
    let mut i: usize = 0;
    while i < n
        invariant
            i <= n,
            acc@.len() == done.len(),
            forall|j: int| 0 <= j < done.len() ==> tensor_matches(#[trigger] acc@[j], done[j]),
            match sp_tensors(v@, cur as int, (n - i) as nat) {
                Some((rest, p)) => sp_tensors(v@, pos as int, n as nat) == Some((done + rest, p)),
                None => sp_tensors(v@, pos as int, n as nat) is None,
            },
        decreases n - i,
    {
        let (t, p) = match parse_tensor(v, cur) {
            Some(x) => x,
            None => {
                return None;
            },
        };
        proof {
            let rec = sp_tensor(v@, cur as int)->Some_0.0;
            let rest_opt = sp_tensors(v@, p as int, (n - i - 1) as nat);
            match rest_opt {
                Some((rest2, p2)) => {
                    assert(done + (seq![rec] + rest2) =~= done.push(rec) + rest2);
                },
                None => {},
            }
            done = done.push(rec);
        }
        acc.push(t);
        cur = p;
        i = i + 1;
    }
    proof {
        assert(done + Seq::<TensorRec>::empty() =~= done);
    }
    Some((acc, cur))
}

/// Decodes a parameter dictionary from its container bytes. Yields the
/// named tensors in file order. Fails with `"invalid parameters file"`
/// exactly when the grammar rejects the bytes, and with `"extra input"`
/// exactly when bytes remain after a well-formed container.
pub fn load_param_dict(bytes: &Vec<u8>) -> (r: Result<Vec<(String, Tensor)>, Error>)
    ensures
        match r {
            Ok(d) => sp_param_dict(bytes@, 0) matches Some((dict, p)) && p == bytes@.len()
                && dict_matches(d@, dict),
            Err(e) => match sp_param_dict(bytes@, 0) {
                None => e matches Error::LoadGraphParams(m) && m@ == "invalid parameters file"@,
                Some((_, p)) => p != bytes@.len() && (e matches Error::LoadGraphParams(m) && m@
                    == "extra input"@),
            },
        },
{
    match parse_param_dict(bytes) {
        None => Err(Error::LoadGraphParams(String::from_str("invalid parameters file"))),
        Some((d, p)) => {
            if p != bytes.len() {
                Err(Error::LoadGraphParams(String::from_str("extra input")))
            } else {
                Ok(d)
            }
        },
    }
}

/// Parses the whole container.
fn parse_param_dict(v: &Vec<u8>) -> (r: Option<(Vec<(String, Tensor)>, usize)>)
    ensures
        match sp_param_dict(v@, 0) {
            Some((dict, p)) => r matches Some((d, pe)) && pe as int == p && dict_matches(d@, dict),
            None => r is None,
        },
{
    let (magic, p1) = match read_u64(v, 0) {
        Some(x) => x,
        None => {
            return None;
        },
    };
    if magic != NDARRAY_LIST_MAGIC {
        return None;
    }
    let (reserved, p2) = match read_u64(v, p1) {
        Some(x) => x,
        None => {
            return None;
        },
    };
    if reserved != 0 {
        return None;
    }
    let (n_names, p3) = match read_u64(v, p2) {
        Some(x) => x,
        None => {
            return None;
        },
    };
    if n_names > usize::MAX as u64 {
        return None;
    }
    let nn = n_names as usize;
    let (mut names, p4) = match parse_names(v, p3, nn) {
        Some(x) => x,
        None => {
            return None;
        },
    };
    let (n_tensors, p5) = match read_u64(v, p4) {
        Some(x) => x,
        None => {
            return None;
        },
    };
    if n_tensors != n_names {
        return None;
    }
    let (mut tensors, p6) = match parse_tensors(v, p5, nn) {
        Some(x) => x,
        None => {
            return None;
        },
    };
    let ghost names_s = sp_names(v@, p3 as int, nn as nat)->Some_0.0;
    let ghost recs_s = sp_tensors(v@, p5 as int, nn as nat)->Some_0.0;
    let ghost dict = Seq::new(nn as nat, |i: int| (names_s[i], recs_s[i]));
    proof {
        lemma_sp_names_len(v@, p3 as int, nn as nat);
        lemma_sp_tensors_len(v@, p5 as int, nn as nat);
    }
    let mut out: Vec<(String, Tensor)> = Vec::new();
    let mut j: usize = 0;
    while j < nn
        invariant
            j <= nn,
            names@.len() == nn - j,
            tensors@.len() == nn - j,
            names_s.len() == nn,
            recs_s.len() == nn,
            dict == Seq::new(nn as nat, |i: int| (names_s[i], recs_s[i])),
            forall|i: int| 0 <= i < nn - j ==> (#[trigger] names@[i])@ == names_s[j + i],
            forall|i: int| 0 <= i < nn - j ==> tensor_matches(#[trigger] tensors@[i], recs_s[j + i]),
            out@.len() == j,
            forall|i: int|
                0 <= i < j ==> (#[trigger] out@[i].0)@ == names_s[i] && tensor_matches(
                    out@[i].1,
                    recs_s[i],
                ),
        decreases nn - j,
    {
        let nm = names.remove(0);
        let t = tensors.remove(0);
        out.push((nm, t));
        j = j + 1;
    }
    proof {
        assert(dict_matches(out@, dict));
    }
    Some((out, p6))
}

/// The names of a dictionary, in order.
pub open spec fn dict_names(d: Seq<(Seq<char>, TensorRec)>) -> Seq<Seq<char>> {
    Seq::new(d.len(), |i: int| d[i].0)
}

/// The tensors of a dictionary, in order.
pub open spec fn dict_recs(d: Seq<(Seq<char>, TensorRec)>) -> Seq<TensorRec> {
    Seq::new(d.len(), |i: int| d[i].1)
}

/// Concatenation of byte windows associates.
proof fn lemma_assoc(a: Seq<u8>, b: Seq<u8>, c: Seq<u8>)
    ensures
        (a + b) + c == a + (b + c),
{
    assert((a + b) + c =~= a + (b + c));
}

/// Parsing where a name was encoded yields that name and stops right
/// after it.
proof fn lemma_parse_enc_name(v: Seq<u8>, pos: int, name: Seq<char>, rest: Seq<u8>)
    requires
        wf_name(name),
        0 <= pos,
        pos + enc_name(name).len() + rest.len() <= v.len(),
        v.subrange(pos, pos + enc_name(name).len() + rest.len()) == enc_name(name) + rest,
    ensures
        sp_name(v, pos) == Some((name, pos + enc_name(name).len())),
        v.subrange(pos + enc_name(name).len(), pos + enc_name(name).len() + rest.len()) == rest,
{
    crate::wire::lemma_enc_lens();
    let bytes = vstd::utf8::encode_utf8(name);
    let len = bytes.len() as u64;
    lemma_assoc(enc_u64(len), bytes, rest);
    lemma_read_enc_u64(v, pos, len, bytes + rest);
    let p = pos + 8;
    lemma_split_prefix(v, p, bytes, rest);
    vstd::utf8::encode_utf8_valid_utf8(name);
    vstd::utf8::encode_utf8_decode_utf8(name);
    assert(v.subrange(p, p + bytes.len()) == bytes);
}

/// Parsing where extents were encoded yields those extents and stops
/// right after them.
proof fn lemma_parse_enc_shape(v: Seq<u8>, pos: int, shape: Seq<usize>, rest: Seq<u8>)
    requires
        0 <= pos,
        pos + enc_shape(shape).len() + rest.len() <= v.len(),
        v.subrange(pos, pos + enc_shape(shape).len() + rest.len()) == enc_shape(shape) + rest,
    ensures
        sp_shape(v, pos, shape.len()) == Some((shape, pos + enc_shape(shape).len())),
        v.subrange(pos + enc_shape(shape).len(), pos + enc_shape(shape).len() + rest.len())
            == rest,
    decreases shape.len(),
{
    crate::wire::lemma_enc_lens();
    if shape.len() == 0 {
        assert(Seq::<u8>::empty() + rest =~= rest);
        assert(sp_shape(v, pos, 0) == Some((Seq::<usize>::empty(), pos)));
        assert(shape =~= Seq::<usize>::empty());
    } else {
        let tail = enc_shape(shape.skip(1));
        lemma_assoc(enc_u64(shape[0] as u64), tail, rest);
        lemma_read_enc_u64(v, pos, shape[0] as u64, tail + rest);
        lemma_parse_enc_shape(v, pos + 8, shape.skip(1), rest);
        assert(seq![shape[0]] + shape.skip(1) =~= shape);
    }
}

/// Parsing where a tensor was encoded yields its record and stops right
/// after its payload.
proof fn lemma_parse_enc_tensor(v: Seq<u8>, pos: int, r: TensorRec, rest: Seq<u8>)
    requires
        wf_tensor_rec(r),
        0 <= pos,
        pos + enc_tensor(r).len() + rest.len() <= v.len(),
        v.subrange(pos, pos + enc_tensor(r).len() + rest.len()) == enc_tensor(r) + rest,
    ensures
        sp_tensor(v, pos) == Some((r, pos + enc_tensor(r).len())),
        v.subrange(pos + enc_tensor(r).len(), pos + enc_tensor(r).len() + rest.len()) == rest,
{
    crate::wire::lemma_enc_lens();
    let s_res = enc_u64(0) + (enc_u32(r.device_type) + (enc_u32(r.device_id) + (enc_u32(
        r.shape.len() as u32,
    ) + (enc_u8(r.code) + (enc_u8(r.bits) + (enc_u16(r.lanes) + (enc_shape(r.shape) + (enc_u64(
        r.payload.len() as u64,
    ) + r.payload))))))));
    lemma_assoc(enc_u64(NDARRAY_MAGIC), s_res, rest);
    lemma_read_enc_u64(v, pos, NDARRAY_MAGIC, s_res + rest);
    let p1 = pos + 8;
    let s_dt = enc_u32(r.device_type) + (enc_u32(r.device_id) + (enc_u32(r.shape.len() as u32) + (
    enc_u8(r.code) + (enc_u8(r.bits) + (enc_u16(r.lanes) + (enc_shape(r.shape) + (enc_u64(
        r.payload.len() as u64,
    ) + r.payload)))))));
    lemma_assoc(enc_u64(0), s_dt, rest);
    lemma_read_enc_u64(v, p1, 0, s_dt + rest);
    let p2 = p1 + 8;
    let s_did = enc_u32(r.device_id) + (enc_u32(r.shape.len() as u32) + (enc_u8(r.code) + (enc_u8(
        r.bits,
    ) + (enc_u16(r.lanes) + (enc_shape(r.shape) + (enc_u64(r.payload.len() as u64)
        + r.payload))))));
    lemma_assoc(enc_u32(r.device_type), s_did, rest);
    lemma_read_enc_u32(v, p2, r.device_type, s_did + rest);
    let p3 = p2 + 4;
    let s_nd = enc_u32(r.shape.len() as u32) + (enc_u8(r.code) + (enc_u8(r.bits) + (enc_u16(
        r.lanes,
    ) + (enc_shape(r.shape) + (enc_u64(r.payload.len() as u64) + r.payload)))));
    lemma_assoc(enc_u32(r.device_id), s_nd, rest);
    lemma_read_enc_u32(v, p3, r.device_id, s_nd + rest);
    let p4 = p3 + 4;
    let s_code = enc_u8(r.code) + (enc_u8(r.bits) + (enc_u16(r.lanes) + (enc_shape(r.shape) + (
    enc_u64(r.payload.len() as u64) + r.payload))));
    lemma_assoc(enc_u32(r.shape.len() as u32), s_code, rest);
    lemma_read_enc_u32(v, p4, r.shape.len() as u32, s_code + rest);
    let p5 = p4 + 4;
    let s_bits = enc_u8(r.bits) + (enc_u16(r.lanes) + (enc_shape(r.shape) + (enc_u64(
        r.payload.len() as u64,
    ) + r.payload)));
    lemma_assoc(enc_u8(r.code), s_bits, rest);
    lemma_read_enc_u8(v, p5, r.code, s_bits + rest);
    let p6 = p5 + 1;
    let s_lanes = enc_u16(r.lanes) + (enc_shape(r.shape) + (enc_u64(r.payload.len() as u64)
        + r.payload));
    lemma_assoc(enc_u8(r.bits), s_lanes, rest);
    lemma_read_enc_u8(v, p6, r.bits, s_lanes + rest);
    let p7 = p6 + 1;
    let s_shape = enc_shape(r.shape) + (enc_u64(r.payload.len() as u64) + r.payload);
    lemma_assoc(enc_u16(r.lanes), s_shape, rest);
    lemma_read_enc_u16(v, p7, r.lanes, s_shape + rest);
    let p8 = p7 + 2;
    let s_len = enc_u64(r.payload.len() as u64) + r.payload;
    lemma_assoc(enc_shape(r.shape), s_len, rest);
    lemma_parse_enc_shape(v, p8, r.shape, s_len + rest);
    let p9 = p8 + enc_shape(r.shape).len();
    lemma_assoc(enc_u64(r.payload.len() as u64), r.payload, rest);
    lemma_read_enc_u64(v, p9, r.payload.len() as u64, r.payload + rest);
    let p10 = p9 + 8;
    lemma_split_prefix(v, p10, r.payload, rest);
    let parsed = TensorRec {
        device_type: r.device_type,
        device_id: r.device_id,
        code: r.code,
        bits: r.bits,
        lanes: r.lanes,
        shape: r.shape,
        payload: v.subrange(p10, p10 + r.payload.len()),
    };
    assert(parsed == r);
}

/// Parsing where the name list was encoded yields the dictionary's names
/// in order.
proof fn lemma_parse_enc_names(v: Seq<u8>, pos: int, d: Seq<(Seq<char>, TensorRec)>, rest: Seq<u8>)
    requires
        wf_param_dict(d),
        0 <= pos,
        pos + enc_names(d).len() + rest.len() <= v.len(),
        v.subrange(pos, pos + enc_names(d).len() + rest.len()) == enc_names(d) + rest,
    ensures
        sp_names(v, pos, d.len()) == Some((dict_names(d), pos + enc_names(d).len())),
        v.subrange(pos + enc_names(d).len(), pos + enc_names(d).len() + rest.len()) == rest,
    decreases d.len(),
{
    crate::wire::lemma_enc_lens();
    if d.len() == 0 {
        assert(Seq::<u8>::empty() + rest =~= rest);
        assert(dict_names(d) =~= Seq::<Seq<char>>::empty());
    } else {
        let tail = enc_names(d.skip(1));
        lemma_assoc(enc_name(d[0].0), tail, rest);
        lemma_parse_enc_name(v, pos, d[0].0, tail + rest);
        let p = pos + enc_name(d[0].0).len();
        assert(wf_param_dict(d.skip(1))) by {
            assert(forall|i: int|
                0 <= i < d.skip(1).len() ==> #[trigger] d.skip(1)[i] == d[i + 1]);
        }
        lemma_parse_enc_names(v, p, d.skip(1), rest);
        assert(dict_names(d.skip(1)) =~= dict_names(d).skip(1));
        assert(seq![d[0].0] + dict_names(d).skip(1) =~= dict_names(d));
    }
}

/// Parsing where the tensor list was encoded yields the dictionary's
/// tensors in order.
proof fn lemma_parse_enc_tensors(
    v: Seq<u8>,
    pos: int,
    d: Seq<(Seq<char>, TensorRec)>,
    rest: Seq<u8>,
)
    requires
        wf_param_dict(d),
        0 <= pos,
        pos + enc_tensors(d).len() + rest.len() <= v.len(),
        v.subrange(pos, pos + enc_tensors(d).len() + rest.len()) == enc_tensors(d) + rest,
    ensures
        sp_tensors(v, pos, d.len()) == Some((dict_recs(d), pos + enc_tensors(d).len())),
        v.subrange(pos + enc_tensors(d).len(), pos + enc_tensors(d).len() + rest.len()) == rest,
    decreases d.len(),
{
    crate::wire::lemma_enc_lens();
    if d.len() == 0 {
        assert(Seq::<u8>::empty() + rest =~= rest);
        assert(dict_recs(d) =~= Seq::<TensorRec>::empty());
    } else {
        let tail = enc_tensors(d.skip(1));
        assert(wf_name(d[0].0) && wf_tensor_rec(d[0].1));
        lemma_assoc(enc_tensor(d[0].1), tail, rest);
        lemma_parse_enc_tensor(v, pos, d[0].1, tail + rest);
        let p = pos + enc_tensor(d[0].1).len();
        assert(wf_param_dict(d.skip(1))) by {
            assert(forall|i: int|
                0 <= i < d.skip(1).len() ==> #[trigger] d.skip(1)[i] == d[i + 1]);
        }
        lemma_parse_enc_tensors(v, p, d.skip(1), rest);
        assert(dict_recs(d.skip(1)) =~= dict_recs(d).skip(1));
        assert(seq![d[0].1] + dict_recs(d).skip(1) =~= dict_recs(d));
    }
}

/// Parsing where a whole container was encoded yields the dictionary and
/// stops right after the container.
proof fn lemma_parse_enc_param_dict(
    v: Seq<u8>,
    pos: int,
    d: Seq<(Seq<char>, TensorRec)>,
    rest: Seq<u8>,
)
    requires
        wf_param_dict(d),
        0 <= pos,
        pos + enc_param_dict(d).len() + rest.len() <= v.len(),
        v.subrange(pos, pos + enc_param_dict(d).len() + rest.len()) == enc_param_dict(d) + rest,
    ensures
        sp_param_dict(v, pos) == Some((d, pos + enc_param_dict(d).len())),
{
    crate::wire::lemma_enc_lens();
    let n = d.len() as u64;
    let s_res = enc_u64(0) + (enc_u64(n) + (enc_names(d) + (enc_u64(n) + enc_tensors(d))));
    lemma_assoc(enc_u64(NDARRAY_LIST_MAGIC), s_res, rest);
    lemma_read_enc_u64(v, pos, NDARRAY_LIST_MAGIC, s_res + rest);
    let p1 = pos + 8;
    let s_n1 = enc_u64(n) + (enc_names(d) + (enc_u64(n) + enc_tensors(d)));
    lemma_assoc(enc_u64(0), s_n1, rest);
    lemma_read_enc_u64(v, p1, 0, s_n1 + rest);
    let p2 = p1 + 8;
    let s_names = enc_names(d) + (enc_u64(n) + enc_tensors(d));
    lemma_assoc(enc_u64(n), s_names, rest);
    lemma_read_enc_u64(v, p2, n, s_names + rest);
    let p3 = p2 + 8;
    let s_n2 = enc_u64(n) + enc_tensors(d);
    lemma_assoc(enc_names(d), s_n2, rest);
    lemma_parse_enc_names(v, p3, d, s_n2 + rest);
    let p4 = p3 + enc_names(d).len();
    lemma_assoc(enc_u64(n), enc_tensors(d), rest);
    lemma_read_enc_u64(v, p4, n, enc_tensors(d) + rest);
    let p5 = p4 + 8;
    lemma_parse_enc_tensors(v, p5, d, rest);
    let names = dict_names(d);
    let recs = dict_recs(d);
    assert(Seq::new(n as nat, |i: int| (names[i], recs[i])) =~= d) by {
        assert forall|i: int| 0 <= i < d.len() implies (names[i], recs[i]) == d[i] by {
            assert(names[i] == d[i].0);
            assert(recs[i] == d[i].1);
        }
    }
}

/// Round trip of the container grammar: parsing an encoded dictionary,
/// with any bytes whatever appended after it, yields exactly the encoded
/// names in their order and the encoded tensors with their payload bytes,
/// and consumes exactly the encoding — so that the loader accepts the
/// bare encoding whole and reports any appended byte as extra input.
pub proof fn lemma_param_dict_round_trip(d: Seq<(Seq<char>, TensorRec)>, extra: Seq<u8>)
    requires
        wf_param_dict(d),
    ensures
        sp_param_dict(enc_param_dict(d) + extra, 0) == Some(
            (d, enc_param_dict(d).len() as int),
        ),
{
    crate::wire::lemma_enc_lens();
    let v = enc_param_dict(d) + extra;
    assert(v.subrange(0, (enc_param_dict(d).len() + extra.len()) as int) =~= enc_param_dict(d)
        + extra);
    lemma_parse_enc_param_dict(v, 0, d, extra);
}

} // verus!
