//! Tensor values: data types, device contexts, storage and tensors.

use vstd::prelude::*;

use vstd::string::StringExecFns;

use crate::allocator::spec_align_of;
use crate::allocator::spec_valid_layout;
use crate::allocator::Allocation;
use crate::errors::Error;

verus! {

/// Type code of signed integer elements.
pub const DTYPE_CODE_INT: usize = 0;

/// Type code of unsigned integer elements.
pub const DTYPE_CODE_UINT: usize = 1;

/// Type code of floating-point elements.
pub const DTYPE_CODE_FLOAT: usize = 2;

/// Device type of the CPU.
pub const DEVICE_TYPE_CPU: usize = 1;

/// An element type: a code out of `{int, uint, float}`, a width in bits and
/// a lane count (1 for scalars).
#[derive(Clone, Copy, Debug, PartialEq, Eq, Structural)]
pub struct DataType {
    pub code: usize,
    pub bits: usize,
    pub lanes: usize,
}

impl DataType {
    /// A data type as it can appear on the wire: the width fits in a byte
    /// and the lane count in sixteen bits.
    pub open spec fn wf(self) -> bool {
        self.bits <= 0xff && self.lanes <= 0xffff
    }

    /// Byte size of one element: `bits * lanes / 8`.
    pub open spec fn spec_itemsize(self) -> nat {
        ((self.bits * self.lanes) / 8) as nat
    }

    /// Byte size of one element.
    pub fn itemsize(&self) -> (r: usize)
        requires
            self.wf(),
        ensures
            r == self.spec_itemsize(),
    {
        proof {
            assert(self.bits * self.lanes <= 0xff * 0xffff) by (nonlinear_arith)
                requires
                    self.bits <= 0xff,
                    self.lanes <= 0xffff,
            ;
        }
        (self.bits * self.lanes) / 8
    }
}

/// The device a tensor lives on: a device type and an ordinal.
#[derive(Clone, Copy, Debug, PartialEq, Eq, Structural)]
pub struct TVMContext {
    pub device_type: usize,
    pub device_id: usize,
}

impl Default for TVMContext {
    /// The CPU context.
    fn default() -> (r: Self)
        ensures
            r.device_type == DEVICE_TYPE_CPU,
            r.device_id == 0,
    {
        TVMContext { device_type: DEVICE_TYPE_CPU, device_id: 0 }
    }
}

/// Number of elements of a tensor with the given shape: the product of all
/// extents (1 for a zero-dimensional shape).
pub open spec fn spec_numel(shape: Seq<usize>) -> nat
    decreases shape.len(),
{
    if shape.len() == 0 {
        1
    } else {
        (shape[0] * spec_numel(shape.skip(1))) as nat
    }
}

/// The product of the extents from position `k` on: the stride, in
/// elements, that a row-major layout gives to dimension `k - 1`.
pub open spec fn spec_suffix_numel(shape: Seq<usize>, k: int) -> nat
    recommends
        0 <= k <= shape.len(),
{
    spec_numel(shape.skip(k))
}

/// Peels one extent off the front of a suffix product.
pub proof fn lemma_suffix_numel_step(shape: Seq<usize>, k: int)
    requires
        0 <= k < shape.len(),
    ensures
        spec_suffix_numel(shape, k) == shape[k] * spec_suffix_numel(shape, k + 1),
{
    assert(shape.skip(k).skip(1) =~= shape.skip(k + 1));
    assert(shape.skip(k)[0] == shape[k]);
}

/// The bytes a tensor backs onto, either owned by it or borrowed from an
/// arena it was planned into.
pub enum Storage {
    /// The unique holder of a byte buffer.
    Owned(Allocation),
    /// A non-owning window: a byte offset into the owning arena, and a byte
    /// size.
    View(usize, usize),
}

impl Storage {
    /// Byte size of the storage.
    pub open spec fn spec_size(&self) -> nat {
        match self {
            Storage::Owned(a) => a@.len(),
            Storage::View(_, size) => *size as nat,
        }
    }

    /// A fresh owned storage of `size` zeroed bytes, aligned to `align` (or
    /// to the default). Fails exactly when the layout is invalid.
    pub fn new(size: usize, align: Option<usize>) -> (r: Result<Storage, Error>)
        ensures
            match r {
                Ok(s) => {
                    &&& spec_valid_layout(size, spec_align_of(align))
                    &&& s matches Storage::Owned(a) && a@ == Seq::new(size as nat, |i: int| 0u8)
                        && a.spec_align() == spec_align_of(align)
                },
                Err(e) => {
                    &&& !spec_valid_layout(size, spec_align_of(align))
                    &&& e is Alloc
                },
            },
    {
        Ok(Storage::Owned(Allocation::new(size, align)?))
    }

    /// Byte size of the storage.
    pub fn size(&self) -> (r: usize)
        ensures
            r == self.spec_size(),
    {
        match self {
            Storage::Owned(a) => a.size(),
            Storage::View(_, size) => *size,
        }
    }

    /// A non-owning window starting `by_bytes` into this storage.
    pub fn offset(&self, by_bytes: usize) -> (r: Storage)
        requires
            by_bytes <= self.spec_size(),
            self matches Storage::View(o, _) ==> o + by_bytes <= usize::MAX,
        ensures
            r matches Storage::View(off, size) && size == self.spec_size() - by_bytes && off == (
            match self {
                Storage::Owned(_) => by_bytes as int,
                Storage::View(o, _) => o + by_bytes,
            }),
    {
        match self {
            Storage::Owned(a) => Storage::View(by_bytes, a.size() - by_bytes),
            Storage::View(off, size) => Storage::View(*off + by_bytes, *size - by_bytes),
        }
    }

    /// A non-owning window over the same bytes: the whole buffer for an
    /// owned storage, the same window for a view.
    pub fn view(&self) -> (r: Storage)
        ensures
            r matches Storage::View(off, size) && size == self.spec_size() && off == (
            match self {
                Storage::Owned(_) => 0usize,
                Storage::View(o, _) => *o,
            }),
    {
        match self {
            Storage::Owned(a) => Storage::View(0, a.size()),
            Storage::View(off, size) => Storage::View(*off, *size),
        }
    }
}

/// A tensor: storage, device context, element type, shape, optional strides
/// (in elements), a byte offset into the storage, and the element count.
pub struct Tensor {
    pub data: Storage,
    pub ctx: TVMContext,
    pub dtype: DataType,
    pub shape: Vec<usize>,
    pub strides: Option<Vec<usize>>,
    pub byte_offset: usize,
    pub numel: usize,
}

impl Tensor {
    /// Structural validity: the data type is representable, the element
    /// count is the product of the shape, and strides (when present) pair
    /// up with the shape.
    pub open spec fn wf(&self) -> bool {
        &&& self.dtype.wf()
        &&& self.numel == spec_numel(self.shape@)
        &&& match self.strides {
            Some(st) => st@.len() == self.shape@.len(),
            None => true,
        }
    }

    /// The bytes of an owned tensor's buffer.
    pub open spec fn owned_bytes(&self) -> Seq<u8>
        recommends
            self.data is Owned,
    {
        match self.data {
            Storage::Owned(a) => a@,
            Storage::View(_, _) => Seq::empty(),
        }
    }

    /// An owned tensor whose elements lie within its buffer.
    pub open spec fn owned_in_bounds(&self) -> bool {
        &&& self.data is Owned
        &&& self.byte_offset + self.numel * self.dtype.spec_itemsize() <= self.owned_bytes().len()
    }

    /// The tensor's elements, as bytes: `numel * itemsize` bytes starting
    /// at `byte_offset`.
    pub open spec fn spec_to_vec(&self) -> Seq<u8>
        recommends
            self.owned_in_bounds(),
    {
        self.owned_bytes().subrange(
            self.byte_offset as int,
            self.byte_offset + self.numel * self.dtype.spec_itemsize(),
        )
    }

    /// True exactly when absent strides, or strides equal to the
    /// right-to-left suffix products of the shape, make the layout
    /// row-major contiguous.
    pub open spec fn spec_contiguous(&self) -> bool {
        match self.strides {
            None => true,
            Some(st) => forall|k: int|
                0 <= k < st@.len() ==> #[trigger] st@[k] as nat == spec_suffix_numel(
                    self.shape@,
                    k + 1,
                ),
        }
    }

    /// A copy of the shape.
    pub fn shape(&self) -> (r: Vec<usize>)
        ensures
            r@ == self.shape@,
    {
        let mut r: Vec<usize> = Vec::new();
        let mut k: usize = 0;
        while k < self.shape.len()
            invariant
                k <= self.shape@.len(),
                r@ == self.shape@.take(k as int),
            decreases self.shape@.len() - k,
        {
            r.push(self.shape[k]);
            proof {
                assert(r@ =~= self.shape@.take(k + 1));
            }
            k = k + 1;
        }
        proof {
            assert(r@ =~= self.shape@);
        }
        r
    }

    /// Whether the tensor's layout is row-major contiguous.
    pub fn is_contiguous(&self) -> (r: bool)
        requires
            self.wf(),
        ensures
            r == self.spec_contiguous(),
    {
        match &self.strides {
            None => true,
            Some(st) => {
                let n = st.len();
                let mut ok = true;
                // `expected` tracks the suffix product of the shape from
                // position `k` on; `None` stands for a value above
                // `usize::MAX`, which no stride can equal.
                let mut expected: Option<usize> = Some(1);
                let mut k = n;
                while k > 0
                    invariant
                        self.wf(),
                        self.strides matches Some(stv) && stv@ == st@,
                        n == st@.len(),
                        n == self.shape@.len(),
                        0 <= k <= n,
                        match expected {
                            Some(e) => e as nat == spec_suffix_numel(self.shape@, k as int),
                            None => spec_suffix_numel(self.shape@, k as int) > usize::MAX,
                        },
                        ok == forall|j: int|
                            k <= j < n ==> #[trigger] st@[j] as nat == spec_suffix_numel(
                                self.shape@,
                                j + 1,
                            ),
                    decreases k,
                {
                    k = k - 1;
                    let here_ok = match expected {
                        Some(e) => st[k] == e,
                        None => false,
                    };
                    let new_ok = ok && here_ok;
                    proof {
                        lemma_suffix_numel_step(self.shape@, k as int);
                        let shp = self.shape@;
                        if new_ok {
                            assert forall|j: int|
                                k <= j < n implies #[trigger] st@[j] as nat == spec_suffix_numel(
                                shp,
                                j + 1,
                            ) by {}
                        } else {
                            if ok {
                                // The freshly checked stride is the one out
                                // of place.
                                assert(!(st@[k as int] as nat == spec_suffix_numel(shp, k + 1)));
                            } else {
                                assert((forall|j: int|
                                    k <= j < n ==> #[trigger] st@[j] as nat == spec_suffix_numel(
                                        shp,
                                        j + 1,
                                    )) ==> (forall|j: int|
                                    k + 1 <= j < n ==> #[trigger] st@[j] as nat
                                        == spec_suffix_numel(shp, j + 1)));
                            }
                        }
                    }
                    ok = new_ok;
                    let ext = self.shape[k];
                    expected = if ext == 0 {
                        proof {
                            assert(self.shape@[k as int] == 0);
                            assert(spec_suffix_numel(self.shape@, k as int) == 0);
                        }
                        Some(0)
                    } else {
                        match expected {
                            None => {
                                proof {
                                    assert(spec_suffix_numel(self.shape@, k + 1) > usize::MAX);
                                    vstd::arithmetic::mul::lemma_mul_increases(
                                        ext as int,
                                        spec_suffix_numel(self.shape@, k + 1) as int,
                                    );
                                    assert(spec_suffix_numel(self.shape@, k as int) > usize::MAX);
                                }
                                None
                            },
                            Some(e) => {
                                proof {
                                    assert(e as nat == spec_suffix_numel(self.shape@, k + 1));
                                }
                                let next = e.checked_mul(ext);
                                proof {
                                    vstd::arithmetic::mul::lemma_mul_is_commutative(
                                        e as int,
                                        ext as int,
                                    );
                                    assert(match next {
                                        Some(v) => v as nat == spec_suffix_numel(
                                            self.shape@,
                                            k as int,
                                        ),
                                        None => spec_suffix_numel(self.shape@, k as int)
                                            > usize::MAX,
                                    });
                                }
                                next
                            },
                        }
                    };
                    proof {
                        let shp = self.shape@;
                        assert(spec_suffix_numel(shp, k as int) == shp[k as int]
                            * spec_suffix_numel(shp, k + 1));
                        match expected {
                            Some(e) => {
                                assert(e as nat == spec_suffix_numel(shp, k as int));
                            },
                            None => {
                                assert(spec_suffix_numel(shp, k as int) > usize::MAX);
                            },
                        }
                    }
                }
                ok
            },
        }
    }

    /// The tensor's elements as a byte vector: `numel * itemsize` bytes
    /// starting at `byte_offset`.
    pub fn to_vec(&self) -> (r: Vec<u8>)
        requires
            self.wf(),
            self.owned_in_bounds(),
        ensures
            r@ == self.spec_to_vec(),
    {
        match &self.data {
            Storage::Owned(a) => {
                proof {
                    a.lemma_len_fits_usize();
                }
                let itemsize = self.dtype.itemsize();
                let nbytes = self.numel * itemsize;
                let mut r: Vec<u8> = Vec::new();
                let mut k: usize = 0;
                while k < nbytes
                    invariant
                        k <= nbytes,
                        self.data matches Storage::Owned(av) && av@ == a@,
                        self.byte_offset + nbytes <= a@.len(),
                        a@.len() <= usize::MAX,
                        nbytes == self.numel * self.dtype.spec_itemsize(),
                        r@ == a@.subrange(self.byte_offset as int, self.byte_offset + k),
                    decreases nbytes - k,
                {
                    r.push(a.byte_at(self.byte_offset + k));
                    proof {
                        assert(r@ =~= a@.subrange(
                            self.byte_offset as int,
                            self.byte_offset + k + 1,
                        ));
                    }
                    k = k + 1;
                }
                r
            },
            Storage::View(_, _) => {
                proof {
                    assert(false);
                }
                Vec::new()
            },
        }
    }

    /// Overwrites this tensor's elements with `other`'s, byte for byte.
    /// Requires the element types and counts to match and both layouts to
    /// be contiguous; afterwards the two tensors hold the same bytes.
    pub fn copy(&mut self, other: &Tensor)
        requires
            old(self).wf(),
            other.wf(),
            old(self).dtype == other.dtype,
            old(self).numel == other.numel,
            old(self).spec_contiguous(),
            other.spec_contiguous(),
            old(self).owned_in_bounds(),
            other.owned_in_bounds(),
        ensures
            final(self).ctx == old(self).ctx,
            final(self).dtype == old(self).dtype,
            final(self).shape == old(self).shape,
            final(self).strides == old(self).strides,
            final(self).byte_offset == old(self).byte_offset,
            final(self).numel == old(self).numel,
            final(self).wf(),
            final(self).owned_in_bounds(),
            final(self).spec_contiguous(),
            final(self).owned_bytes() == old(self).owned_bytes().take(
                old(self).byte_offset as int,
            ) + other.spec_to_vec() + old(self).owned_bytes().skip(
                old(self).byte_offset + old(self).numel * old(self).dtype.spec_itemsize(),
            ),
            final(self).spec_to_vec() == other.spec_to_vec(),
    {
        let itemsize = self.dtype.itemsize();
        let dst_off = self.byte_offset;
        let src_off = other.byte_offset;
        match &other.data {
            Storage::Owned(src_alloc) => {
                proof {
                    src_alloc.lemma_len_fits_usize();
                }
                let nbytes = self.numel * itemsize;
                let src_bytes = src_alloc.bytes();
                match &mut self.data {
                    Storage::Owned(dst_alloc) => {
                        dst_alloc.write_bytes_at(dst_off, src_bytes, src_off, nbytes);
                        proof {
                            assert(final(self).spec_to_vec() =~= other.spec_to_vec());
                        }
                    },
                    Storage::View(_, _) => {
                        proof {
                            assert(false);
                        }
                    },
                }
            },
            Storage::View(_, _) => {
                proof {
                    assert(false);
                }
            },
        }
    }

    /// A tensor owning a copy of the given bytes, with default alignment,
    /// remembering the given context, element type and shape. Fails exactly
    /// when the element count overflows.
    pub fn from_bytes(slice: &Vec<u8>, ctx: TVMContext, dtype: DataType, shape: Vec<usize>) -> (r:
        Result<Tensor, Error>)
        requires
            dtype.wf(),
        ensures
            match r {
                Ok(t) => {
                    &&& spec_numel(shape@) <= usize::MAX
                    &&& spec_valid_layout(
                        slice@.len() as usize,
                        crate::allocator::DEFAULT_ALIGN_BYTES,
                    )
                    &&& t.wf()
                    &&& t.data is Owned
                    &&& t.owned_bytes() == slice@
                    &&& t.ctx == ctx
                    &&& t.dtype == dtype
                    &&& t.shape@ == shape@
                    &&& t.strides is None
                    &&& t.byte_offset == 0
                    &&& t.numel == spec_numel(shape@)
                },
                Err(e) => {
                    ||| spec_numel(shape@) > usize::MAX && e matches Error::Msg(_)
                    ||| !spec_valid_layout(
                        slice@.len() as usize,
                        crate::allocator::DEFAULT_ALIGN_BYTES,
                    ) && e is Alloc
                },
            },
    {
        let numel = match checked_numel(&shape) {
            Some(n) => n,
            None => {
                return Err(Error::Msg(String::from_str("tensor element count overflows")));
            },
        };
        let mut alloc = match Allocation::new(slice.len(), None) {
            Ok(a) => a,
            Err(e) => {
                return Err(e);
            },
        };
        alloc.write_bytes_at(0, slice, 0, slice.len());
        proof {
            assert(alloc@ =~= slice@);
        }
        Ok(
            Tensor {
                data: Storage::Owned(alloc),
                ctx,
                dtype,
                shape,
                strides: None,
                byte_offset: 0,
                numel,
            },
        )
    }
}

/// The product of the extents, or `None` exactly when it overflows
/// `usize`.
pub fn checked_numel(shape: &Vec<usize>) -> (r: Option<usize>)
    ensures
        match r {
            Some(n) => n == spec_numel(shape@),
            None => spec_numel(shape@) > usize::MAX,
        },
{
    let n = shape.len();
    let mut k: usize = 0;
    while k < n
        invariant
            0 <= k <= n,
            n == shape@.len(),
            forall|j: int| 0 <= j < k ==> shape@[j] != 0,
        decreases n - k,
    {
        if shape[k] == 0 {
            proof {
                lemma_suffix_numel_step(shape@, k as int);
                lemma_suffix_zero_makes_numel_zero(shape@, k as int);
            }
            return Some(0);
        }
        k = k + 1;
    }
    let mut acc: usize = 1;
    let mut k = n;
    while k > 0
        invariant
            0 <= k <= n,
            n == shape@.len(),
            forall|j: int| 0 <= j < n ==> shape@[j] != 0,
            acc as nat == spec_suffix_numel(shape@, k as int),
        decreases k,
    {
        k = k - 1;
        proof {
            lemma_suffix_numel_step(shape@, k as int);
        }
        match acc.checked_mul(shape[k]) {
            Some(next) => {
                proof {
                    vstd::arithmetic::mul::lemma_mul_is_commutative(
                        acc as int,
                        shape@[k as int] as int,
                    );
                }
                acc = next;
            },
            None => {
                proof {
                    vstd::arithmetic::mul::lemma_mul_is_commutative(
                        acc as int,
                        shape@[k as int] as int,
                    );
                    lemma_prefix_numel_grows(shape@, k as int);
                }
                return None;
            },
        }
    }
    proof {
        assert(shape@.skip(0) =~= shape@);
    }
    Some(acc)
}

/// With no zero extent in front of it, a suffix product that exceeds
/// `usize::MAX` forces the whole product to exceed it too.
pub proof fn lemma_prefix_numel_grows(shape: Seq<usize>, k: int)
    requires
        0 <= k <= shape.len(),
        spec_suffix_numel(shape, k) > usize::MAX,
        forall|j: int| 0 <= j < k ==> shape[j] != 0,
    ensures
        spec_numel(shape) > usize::MAX,
    decreases k,
{
    if k == 0 {
        assert(shape.skip(0) =~= shape);
    } else {
        lemma_suffix_numel_step(shape, k - 1);
        vstd::arithmetic::mul::lemma_mul_increases(
            shape[k - 1] as int,
            spec_suffix_numel(shape, k) as int,
        );
        vstd::arithmetic::mul::lemma_mul_is_commutative(
            shape[k - 1] as int,
            spec_suffix_numel(shape, k) as int,
        );
        lemma_prefix_numel_grows(shape, k - 1);
    }
}

/// A suffix product of zero pulls the whole product to zero.
pub proof fn lemma_suffix_zero_makes_numel_zero(shape: Seq<usize>, k: int)
    requires
        0 <= k <= shape.len(),
        spec_suffix_numel(shape, k) == 0,
    ensures
        spec_numel(shape) == 0,
    decreases k,
{
    if k == 0 {
        assert(shape.skip(0) =~= shape);
    } else {
        lemma_suffix_numel_step(shape, k - 1);
        vstd::arithmetic::mul::lemma_mul_by_zero_is_zero(shape[k - 1] as int);
        lemma_suffix_zero_makes_numel_zero(shape, k - 1);
    }
}

} // verus!
