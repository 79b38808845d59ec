//! A scratch-workspace pool with best-fit reuse.
//!
//! Kernels ask for short-lived buffers; the pool keeps every block it ever
//! made and moves each between *in use* and *free*. A request is served by
//! the smallest free block that is large enough and has exactly the asked
//! alignment, the earliest such block on ties; only when none fits is a
//! new block made. Blocks are named by their index into the pool.

use vstd::prelude::*;
use vstd::string::StringExecFns;

use crate::allocator::spec_valid_layout;
use crate::allocator::Allocation;
use crate::errors::Error;

verus! {

/// The byte size a scratch request falls back to when it asks for zero
/// bytes: one page.
pub const WORKSPACE_PAGE_SIZE: usize = 4096;

/// What a C-ABI scratch request asks of the pool: one page when the size
/// is zero, otherwise the size itself, and the dtype bit-width hint taken
/// as the alignment.
pub fn workspace_request(size_bytes: u64, dtype_bits_hint: i32) -> (r: (usize, usize))
    ensures
        r.0 == (if size_bytes == 0 {
            WORKSPACE_PAGE_SIZE as int
        } else {
            size_bytes as usize as int
        }),
        r.1 == dtype_bits_hint as usize,
{
    let nbytes = if size_bytes == 0 {
        WORKSPACE_PAGE_SIZE
    } else {
        #[verifier::truncate]
        (size_bytes as usize)
    };
    #[verifier::truncate]
    let align = dtype_bits_hint as usize;
    (nbytes, align)
}

/// Whether block `idx` can serve a request for `size` bytes at `align`.
pub open spec fn spec_fits(ws: Seq<Allocation>, idx: usize, size: usize, align: usize) -> bool {
    &&& idx < ws.len()
    &&& ws[idx as int]@.len() >= size
    &&& ws[idx as int].spec_align() == align
}

/// The best position among the first `k` entries of the free list: the
/// fitting block of least size, the earliest position on ties.
pub open spec fn spec_best_fit_upto(
    ws: Seq<Allocation>,
    free: Seq<usize>,
    size: usize,
    align: usize,
    k: int,
) -> Option<int>
    decreases k,
{
    if k <= 0 || k > free.len() {
        None
    } else {
        let prev = spec_best_fit_upto(ws, free, size, align, k - 1);
        if !spec_fits(ws, free[k - 1], size, align) {
            prev
        } else {
            match prev {
                None => Some(k - 1),
                Some(j) => if ws[free[k - 1] as int]@.len() < ws[free[j] as int]@.len() {
                    Some(k - 1)
                } else {
                    Some(j)
                },
            }
        }
    }
}

/// The free and in-use lists over a pool of `ws_len` blocks are sound:
/// every index names a block, none is listed twice, and none is listed on
/// both sides.
pub open spec fn wf_lists(ws_len: int, free: Seq<usize>, used: Seq<usize>) -> bool {
    &&& forall|i: int| 0 <= i < free.len() ==> (#[trigger] free[i]) < ws_len
    &&& forall|i: int| 0 <= i < used.len() ==> (#[trigger] used[i]) < ws_len
    &&& forall|i: int, j: int| 0 <= i < j < free.len() ==> #[trigger] free[i] != #[trigger] free[j]
    &&& forall|i: int, j: int| 0 <= i < j < used.len() ==> #[trigger] used[i] != #[trigger] used[j]
    &&& forall|i: int, j: int|
        0 <= i < free.len() && 0 <= j < used.len() ==> #[trigger] free[i] != #[trigger] used[j]
}

/// Handing out a brand-new block keeps the lists sound.
proof fn lemma_wf_push_fresh(ws_len: int, free: Seq<usize>, used: Seq<usize>, idx: usize)
    requires
        wf_lists(ws_len, free, used),
        idx as int == ws_len,
    ensures
        wf_lists(ws_len + 1, free, used.push(idx)),
{
    let used2 = used.push(idx);
    assert forall|i: int, j: int|
        0 <= i < j < used2.len() implies #[trigger] used2[i] != #[trigger] used2[j] by {
        assert(used2[i] == used[i]);
        if j < used.len() {
            assert(used2[j] == used[j]);
        } else {
            assert(used2[j] == idx);
            assert(used[i] < ws_len);
        }
    }
    assert forall|i: int, j: int|
        0 <= i < free.len() && 0 <= j < used2.len() implies #[trigger] free[i]
        != #[trigger] used2[j] by {
        if j < used.len() {
            assert(used2[j] == used[j]);
        } else {
            assert(used2[j] == idx);
            assert(free[i] < ws_len);
        }
    }
}

/// Moving a free block into use keeps the lists sound.
proof fn lemma_wf_move_to_used(ws_len: int, free: Seq<usize>, used: Seq<usize>, pos: int)
    requires
        wf_lists(ws_len, free, used),
        0 <= pos < free.len(),
    ensures
        wf_lists(ws_len, free.remove(pos), used.push(free[pos])),
{
    let free2 = free.remove(pos);
    let used2 = used.push(free[pos]);
    assert forall|i: int| 0 <= i < free2.len() implies (#[trigger] free2[i]) < ws_len by {
        if i < pos {
            assert(free2[i] == free[i]);
        } else {
            assert(free2[i] == free[i + 1]);
        }
    }
    assert forall|i: int, j: int|
        0 <= i < j < free2.len() implies #[trigger] free2[i] != #[trigger] free2[j] by {
        let fi = if i < pos { i } else { i + 1 };
        let fj = if j < pos { j } else { j + 1 };
        assert(free2[i] == free[fi]);
        assert(free2[j] == free[fj]);
    }
    assert forall|i: int, j: int|
        0 <= i < j < used2.len() implies #[trigger] used2[i] != #[trigger] used2[j] by {
        assert(used2[i] == used[i]);
        if j < used.len() {
            assert(used2[j] == used[j]);
        } else {
            assert(used2[j] == free[pos]);
        }
    }
    assert forall|i: int, j: int|
        0 <= i < free2.len() && 0 <= j < used2.len() implies #[trigger] free2[i]
        != #[trigger] used2[j] by {
        let fi = if i < pos { i } else { i + 1 };
        assert(free2[i] == free[fi]);
        if j < used.len() {
            assert(used2[j] == used[j]);
        } else {
            assert(used2[j] == free[pos]);
        }
    }
}

/// Returning a used block to the free list keeps the lists sound.
proof fn lemma_wf_move_to_free(ws_len: int, free: Seq<usize>, used: Seq<usize>, k: int)
    requires
        wf_lists(ws_len, free, used),
        0 <= k < used.len(),
    ensures
        wf_lists(ws_len, free.push(used[k]), used.remove(k)),
{
    let free2 = free.push(used[k]);
    let used2 = used.remove(k);
    assert forall|i: int| 0 <= i < free2.len() implies (#[trigger] free2[i]) < ws_len by {
        if i < free.len() {
            assert(free2[i] == free[i]);
        } else {
            assert(free2[i] == used[k]);
        }
    }
    assert forall|i: int| 0 <= i < used2.len() implies (#[trigger] used2[i]) < ws_len by {
        let fi = if i < k { i } else { i + 1 };
        assert(used2[i] == used[fi]);
    }
    assert forall|i: int, j: int|
        0 <= i < j < free2.len() implies #[trigger] free2[i] != #[trigger] free2[j] by {
        assert(free2[i] == free[i]);
        if j < free.len() {
            assert(free2[j] == free[j]);
        } else {
            assert(free2[j] == used[k]);
        }
    }
    assert forall|i: int, j: int|
        0 <= i < j < used2.len() implies #[trigger] used2[i] != #[trigger] used2[j] by {
        let fi = if i < k { i } else { i + 1 };
        let fj = if j < k { j } else { j + 1 };
        assert(used2[i] == used[fi]);
        assert(used2[j] == used[fj]);
    }
    assert forall|i: int, j: int|
        0 <= i < free2.len() && 0 <= j < used2.len() implies #[trigger] free2[i]
        != #[trigger] used2[j] by {
        let fj = if j < k { j } else { j + 1 };
        assert(used2[j] == used[fj]);
        if i < free.len() {
            assert(free2[i] == free[i]);
        } else {
            assert(free2[i] == used[k]);
        }
    }
}

/// The position in the free list that a request is served from.
pub open spec fn spec_best_fit(
    ws: Seq<Allocation>,
    free: Seq<usize>,
    size: usize,
    align: usize,
) -> Option<int> {
    spec_best_fit_upto(ws, free, size, align, free.len() as int)
}

/// A growing cache of scratch blocks, each either in use or free.
pub struct WorkspacePool {
    workspaces: Vec<Allocation>,
    free: Vec<usize>,
    in_use: Vec<usize>,
}

impl WorkspacePool {
    /// The blocks the pool has made so far.
    pub closed spec fn spec_workspaces(&self) -> Seq<Allocation> {
        self.workspaces@
    }

    /// Indices of the blocks that sit free, in the order they were freed.
    pub closed spec fn spec_free(&self) -> Seq<usize> {
        self.free@
    }

    /// Indices of the blocks handed out and not yet returned.
    pub closed spec fn spec_in_use(&self) -> Seq<usize> {
        self.in_use@
    }

    /// Every tracked index names a block, no index is tracked twice, and
    /// no index is both free and in use.
    pub open spec fn wf(&self) -> bool {
        wf_lists(self.spec_workspaces().len() as int, self.spec_free(), self.spec_in_use())
    }

    /// An empty pool.
    pub fn new() -> (r: WorkspacePool)
        ensures
            r.wf(),
            r.spec_workspaces().len() == 0,
            r.spec_free().len() == 0,
            r.spec_in_use().len() == 0,
    {
        WorkspacePool { workspaces: Vec::new(), free: Vec::new(), in_use: Vec::new() }
    }

    /// How many blocks the pool has made so far.
    pub fn num_workspaces(&self) -> (r: usize)
        ensures
            r == self.spec_workspaces().len(),
    {
        self.workspaces.len()
    }

    /// Makes a fresh block for the request and hands its index out as in
    /// use. Fails exactly when the layout is invalid, leaving the pool
    /// unchanged.
    pub fn alloc_new(&mut self, size: usize, align: usize) -> (r: Result<usize, Error>)
        requires
            old(self).wf(),
        ensures
            final(self).wf(),
            match r {
                Ok(idx) => {
                    &&& spec_valid_layout(size, align)
                    &&& idx == old(self).spec_workspaces().len()
                    &&& final(self).spec_workspaces().len() == old(self).spec_workspaces().len()
                        + 1
                    &&& final(self).spec_workspaces()[idx as int]@.len() == size
                    &&& final(self).spec_workspaces()[idx as int].spec_align() == align
                    &&& forall|i: int|
                        0 <= i < old(self).spec_workspaces().len()
                            ==> #[trigger] final(self).spec_workspaces()[i] == old(
                            self,
                        ).spec_workspaces()[i]
                    &&& final(self).spec_free() == old(self).spec_free()
                    &&& final(self).spec_in_use() == old(self).spec_in_use().push(idx)
                },
                Err(e) => {
                    &&& !spec_valid_layout(size, align)
                    &&& e is Alloc
                    &&& *final(self) == *old(self)
                },
            },
    {
        let a = match Allocation::new(size, Some(align)) {
            Ok(a) => a,
            Err(e) => {
                return Err(e);
            },
        };
        let idx = self.workspaces.len();
        proof {
            lemma_wf_push_fresh(
                self.spec_workspaces().len() as int,
                self.spec_free(),
                self.spec_in_use(),
                idx,
            );
        }
        self.workspaces.push(a);
        self.in_use.push(idx);
        Ok(idx)
    }

    /// Serves a request: reuses the best-fitting free block, or makes a
    /// new one when no free block fits.
    pub fn allocate(&mut self, size: usize, align: usize) -> (r: Result<usize, Error>)
        requires
            old(self).wf(),
        ensures
            final(self).wf(),
            match spec_best_fit(old(self).spec_workspaces(), old(self).spec_free(), size, align) {
                Some(pos) => {
                    &&& r == Ok::<usize, Error>(old(self).spec_free()[pos])
                    &&& final(self).spec_workspaces() == old(self).spec_workspaces()
                    &&& final(self).spec_free() == old(self).spec_free().remove(pos)
                    &&& final(self).spec_in_use() == old(self).spec_in_use().push(
                        old(self).spec_free()[pos],
                    )
                },
                None => match r {
                    Ok(idx) => {
                        &&& spec_valid_layout(size, align)
                        &&& idx == old(self).spec_workspaces().len()
                        &&& final(self).spec_workspaces().len() == old(
                            self,
                        ).spec_workspaces().len() + 1
                        &&& final(self).spec_workspaces()[idx as int]@.len() == size
                        &&& final(self).spec_workspaces()[idx as int].spec_align() == align
                        &&& forall|i: int|
                            0 <= i < old(self).spec_workspaces().len()
                                ==> #[trigger] final(self).spec_workspaces()[i] == old(
                                self,
                            ).spec_workspaces()[i]
                        &&& final(self).spec_free() == old(self).spec_free()
                        &&& final(self).spec_in_use() == old(self).spec_in_use().push(idx)
                    },
                    Err(e) => {
                        &&& !spec_valid_layout(size, align)
                        &&& e is Alloc
                        &&& *final(self) == *old(self)
                    },
                },
            },
    {
        let n = self.free.len();
        let mut best: Option<usize> = None;
        let mut k: usize = 0;
        while k < n
            invariant
                self == old(self),
                self.wf(),
                n == self.spec_free().len(),
                k <= n,
                match best {
                    Some(pos) => pos < k && spec_best_fit_upto(
                        self.spec_workspaces(),
                        self.spec_free(),
                        size,
                        align,
                        k as int,
                    ) == Some(pos as int),
                    None => spec_best_fit_upto(
                        self.spec_workspaces(),
                        self.spec_free(),
                        size,
                        align,
                        k as int,
                    ) is None,
                },
            decreases n - k,
        {
            let idx = self.free[k];
            let ws_size = self.workspaces[idx].size();
            let fits = ws_size >= size && self.workspaces[idx].align() == align;
            if fits {
                best = match best {
                    None => Some(k),
                    Some(cur) => {
                        let cur_size = self.workspaces[self.free[cur]].size();
                        if ws_size < cur_size {
                            Some(k)
                        } else {
                            Some(cur)
                        }
                    },
                };
            }
            k = k + 1;
        }
        match best {
            Some(pos) => {
                proof {
                    lemma_wf_move_to_used(
                        self.spec_workspaces().len() as int,
                        self.spec_free(),
                        self.spec_in_use(),
                        pos as int,
                    );
                }
                let idx = self.free.remove(pos);
                self.in_use.push(idx);
                Ok(idx)
            },
            None => self.alloc_new(size, align),
        }
    }

    /// Returns the block with the given index to the free list. Fails,
    /// leaving the pool unchanged, exactly when that index is not in use.
    pub fn free(&mut self, idx: usize) -> (r: Result<(), Error>)
        requires
            old(self).wf(),
        ensures
            final(self).wf(),
            match r {
                Ok(()) => {
                    &&& old(self).spec_in_use().contains(idx)
                    &&& final(self).spec_workspaces() == old(self).spec_workspaces()
                    &&& final(self).spec_free() == old(self).spec_free().push(idx)
                    &&& exists|j: int|
                        0 <= j < old(self).spec_in_use().len() && old(self).spec_in_use()[j] == idx
                            && final(self).spec_in_use() == old(self).spec_in_use().remove(j)
                },
                Err(e) => {
                    &&& !old(self).spec_in_use().contains(idx)
                    &&& e matches Error::Msg(_)
                    &&& *final(self) == *old(self)
                },
            },
    {
        let n = self.in_use.len();
        let mut k: usize = 0;
        while k < n
            invariant
                self == old(self),
                self.wf(),
                n == self.spec_in_use().len(),
                k <= n,
                forall|i: int| 0 <= i < k ==> #[trigger] self.spec_in_use()[i] != idx,
            decreases n - k,
        {
            if self.in_use[k] == idx {
                proof {
                    lemma_wf_move_to_free(
                        self.spec_workspaces().len() as int,
                        self.spec_free(),
                        self.spec_in_use(),
                        k as int,
                    );
                }
                self.in_use.remove(k);
                self.free.push(idx);
                return Ok(());
            }
            k = k + 1;
        }
        Err(Error::Msg(String::from_str("Tried to free nonexistent workspace.")))
    }
}

} // verus!
