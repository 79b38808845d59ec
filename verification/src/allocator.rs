//! Heap blocks tagged with their size and alignment.
//!
//! An [`Allocation`] owns a zero-initialized byte buffer together with the
//! alignment it was requested with; the buffer is released when the value is
//! dropped. The alignment is recorded so that the workspace pool can hand
//! out blocks of the exact alignment a kernel asked for.

use vstd::prelude::*;

use crate::errors::Error;

verus! {

/// The alignment used when a caller does not ask for one.
pub const DEFAULT_ALIGN_BYTES: usize = 4;

/// True when `n` is a power of two.
pub open spec fn spec_is_power_of_two(n: usize) -> bool {
    n > 0 && (n & (n - 1) as usize) == 0
}

/// True when a block of `size` bytes aligned to `align` is a layout the
/// allocator accepts: the alignment is a power of two and the size, once
/// rounded up to the alignment, stays within `isize::MAX`.
pub open spec fn spec_valid_layout(size: usize, align: usize) -> bool {
    spec_is_power_of_two(align) && size + align <= usize::MAX / 2 + 1
}

/// The alignment `align` asks for: its value, or the default when absent.
pub open spec fn spec_align_of(align: Option<usize>) -> usize {
    match align {
        Some(a) => a,
        None => DEFAULT_ALIGN_BYTES,
    }
}

/// An owned byte buffer with a recorded alignment.
pub struct Allocation {
    data: Vec<u8>,
    align: usize,
}

impl View for Allocation {
    type V = Seq<u8>;

    closed spec fn view(&self) -> Seq<u8> {
        self.data@
    }
}

impl Allocation {
    /// The alignment this block was made with.
    pub closed spec fn spec_align(&self) -> usize {
        self.align
    }

    /// A fresh zeroed block of `size` bytes, aligned to `align` (or to the
    /// default). Fails exactly when the layout is invalid.
    pub fn new(size: usize, align: Option<usize>) -> (r: Result<Allocation, Error>)
        ensures
            match r {
                Ok(a) => {
                    &&& spec_valid_layout(size, spec_align_of(align))
                    &&& a@ == Seq::new(size as nat, |i: int| 0u8)
                    &&& a.spec_align() == spec_align_of(align)
                },
                Err(e) => {
                    &&& !spec_valid_layout(size, spec_align_of(align))
                    &&& e is Alloc
                },
            },
    {
        let alignment: usize = match align {
            Some(a) => a,
            None => DEFAULT_ALIGN_BYTES,
        };
        if alignment == 0 || (alignment & (alignment - 1)) != 0 {
            return Err(Error::Alloc);
        }
        match size.checked_add(alignment) {
            None => {
                return Err(Error::Alloc);
            },
            Some(total) => {
                if total > usize::MAX / 2 + 1 {
                    return Err(Error::Alloc);
                }
            },
        }
        let data: Vec<u8> = alloc_zeroed_bytes(size);
        Ok(Allocation { data, align: alignment })
    }

    /// Byte size of the block.
    pub fn size(&self) -> (r: usize)
        ensures
            r == self@.len(),
    {
        self.data.len()
    }

    /// The alignment this block was made with.
    pub fn align(&self) -> (r: usize)
        ensures
            r == self.spec_align(),
    {
        self.align
    }

    /// A block's byte count always fits the machine word it was allocated
    /// with.
    pub proof fn lemma_len_fits_usize(&self)
        ensures
            self@.len() <= usize::MAX,
    {
        vstd::std_specs::vec::axiom_spec_len(&self.data);
    }

    /// The block's bytes.
    pub fn bytes(&self) -> (r: &Vec<u8>)
        ensures
            r@ == self@,
    {
        &self.data
    }

    /// The byte at `i`.
    pub fn byte_at(&self, i: usize) -> (r: u8)
        requires
            i < self@.len(),
        ensures
            r == self@[i as int],
    {
        self.data[i]
    }

    /// Writes `src[src_start .. src_start + len]` over
    /// `self[dst_start .. dst_start + len]`; every other byte keeps its
    /// value.
    pub fn write_bytes_at(&mut self, dst_start: usize, src: &Vec<u8>, src_start: usize, len: usize)
        requires
            dst_start + len <= old(self)@.len(),
            src_start + len <= src@.len(),
        ensures
            final(self)@.len() == old(self)@.len(),
            final(self)@ == old(self)@.take(dst_start as int) + src@.subrange(
                src_start as int,
                src_start + len,
            ) + old(self)@.skip(dst_start + len),
            final(self).spec_align() == old(self).spec_align(),
    {
        let src_len: usize = src.len();
        let dst_len: usize = self.data.len();
        let mut k: usize = 0;
        while k < len
            invariant
                k <= len,
                dst_start + len <= dst_len,
                src_start + len <= src_len,
                src_len == src@.len(),
                dst_len == self@.len(),
                self@.len() == old(self)@.len(),
                self.spec_align() == old(self).spec_align(),
                forall|j: int|
                    0 <= j < self@.len() && !(dst_start <= j < dst_start + k) ==> self@[j]
                        == old(self)@[j],
                forall|j: int|
                    0 <= j < k ==> #[trigger] self@[dst_start + j] == src@[src_start + j],
            decreases len - k,
        {
            let v = src[src_start + k];
            self.data.set(dst_start + k, v);
            k = k + 1;
        }
        proof {
            let expected = old(self)@.take(dst_start as int) + src@.subrange(
                src_start as int,
                src_start + len,
            ) + old(self)@.skip(dst_start + len);
            assert forall|j: int| 0 <= j < self@.len() implies self@[j] == expected[j] by {
                if dst_start <= j < dst_start + len {
                    assert(self@[dst_start + (j - dst_start)] == src@[src_start + (j
                        - dst_start)]);
                }
            }
            assert(self@ =~= expected);
        }
    }
}

/// A zeroed byte vector of the given length.
fn alloc_zeroed_bytes(size: usize) -> (r: Vec<u8>)
    ensures
        r@ == Seq::new(size as nat, |i: int| 0u8),
{
    let mut v: Vec<u8> = Vec::new();
    let mut k: usize = 0;
    while k < size
        invariant
            k <= size,
            v@.len() == k,
            forall|j: int| 0 <= j < k ==> v@[j] == 0u8,
        decreases size - k,
    {
        v.push(0u8);
        k = k + 1;
    }
    proof {
        assert(v@ =~= Seq::new(size as nat, |i: int| 0u8));
    }
    v
}

} // verus!
