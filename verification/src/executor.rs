//! The graph executor: storage planning, kernel binding and parameter
//! loading.
//!
//! Planning gives every tensor slot a byte range inside one owned arena:
//! tensors sharing a storage id share the slot sized for the largest of
//! them, slots stand one after another at offsets formed by a prefix sum,
//! and the arena is aligned to the widest element type. Binding resolves
//! every operator node to a kernel handle and the tensor indices of its
//! arguments. Loading parameters copies named tensors into the arena
//! ranges the plan gave them.

use vstd::prelude::*;
use vstd::string::StringExecFns;

use crate::allocator::spec_align_of;
use crate::graph::node_view;
use crate::graph::Entry;
use crate::graph::Graph;
use crate::graph::GraphV;
use crate::module::Module;
use crate::module::PackedFunc;
use crate::threading::spec_parse_usize;
use crate::dtype::spec_parse_dtype;
use crate::json::spec_obj_get;
use crate::json::Json;
use crate::json::JsonVal;
use crate::allocator::spec_valid_layout;
use crate::array::spec_numel;
use crate::array::checked_numel;
use crate::array::DataType;
use crate::array::Storage;
use crate::array::Tensor;
use crate::array::TVMContext;
use crate::array::DEVICE_TYPE_CPU;
use crate::errors::Error;

verus! {

broadcast use vstd::std_specs::vec::group_vec_axioms, vstd::seq::group_seq_axioms;

/// Byte size of one tensor: element size times element count.
pub open spec fn spec_nbytes(dtype: DataType, shape: Seq<usize>) -> nat {
    dtype.spec_itemsize() * spec_numel(shape)
}

/// Byte size of storage slot `s`, judged from the first `k` tensors: the
/// largest byte size among those that carry storage id `s`.
pub open spec fn spec_slot_size(sids: Seq<usize>, nb: Seq<nat>, s: int, k: int) -> nat
    decreases k,
{
    if k <= 0 {
        0
    } else {
        let prev = spec_slot_size(sids, nb, s, k - 1);
        if k - 1 < sids.len() && sids[k - 1] == s && nb[k - 1] > prev {
            nb[k - 1]
        } else {
            prev
        }
    }
}

/// Byte size of storage slot `s`.
pub open spec fn spec_slot_bytes(sids: Seq<usize>, nb: Seq<nat>, s: int) -> nat {
    spec_slot_size(sids, nb, s, sids.len() as int)
}

/// Byte offset of storage slot `s`: the sizes of all slots before it,
/// summed.
pub open spec fn spec_slot_offset(sids: Seq<usize>, nb: Seq<nat>, s: int) -> nat
    decreases s,
{
    if s <= 0 {
        0
    } else {
        spec_slot_offset(sids, nb, s - 1) + spec_slot_bytes(sids, nb, s - 1)
    }
}

/// The largest storage id, judged from the first `k` tensors.
pub open spec fn spec_max_sid(sids: Seq<usize>, k: int) -> int
    decreases k,
{
    if k <= 0 {
        -1
    } else {
        let prev = spec_max_sid(sids, k - 1);
        if k - 1 < sids.len() && sids[k - 1] > prev {
            sids[k - 1] as int
        } else {
            prev
        }
    }
}

/// How many storage slots the plan uses: one past the largest id.
pub open spec fn spec_num_slots(sids: Seq<usize>) -> int {
    spec_max_sid(sids, sids.len() as int) + 1
}

/// Total arena size: the offset one past the last slot.
pub open spec fn spec_total_bytes(sids: Seq<usize>, nb: Seq<nat>) -> nat {
    spec_slot_offset(sids, nb, spec_num_slots(sids))
}

/// The widest element size among the tensors' types, judged from the
/// first `k`.
pub open spec fn spec_max_itemsize(dtypes: Seq<DataType>, k: int) -> nat
    decreases k,
{
    if k <= 0 {
        0
    } else {
        let prev = spec_max_itemsize(dtypes, k - 1);
        if k - 1 < dtypes.len() && dtypes[k - 1].spec_itemsize() > prev {
            dtypes[k - 1].spec_itemsize()
        } else {
            prev
        }
    }
}

/// The alignment the pool asks for: the widest element size, or nothing
/// when there are no tensors.
pub open spec fn spec_pool_align(dtypes: Seq<DataType>) -> Option<usize> {
    if dtypes.len() == 0 {
        None
    } else {
        Some(spec_max_itemsize(dtypes, dtypes.len() as int) as usize)
    }
}

/// Every tensor's bytes fit its slot.
pub proof fn lemma_slot_holds_tensor(sids: Seq<usize>, nb: Seq<nat>, i: int, k: int)
    requires
        0 <= i < k <= sids.len(),
    ensures
        nb[i] <= spec_slot_size(sids, nb, sids[i] as int, k),
    decreases k,
{
    if i < k - 1 {
        lemma_slot_holds_tensor(sids, nb, i, k - 1);
    }
}

/// Every storage id lies below the slot count.
pub proof fn lemma_sid_below_num_slots(sids: Seq<usize>, i: int, k: int)
    requires
        0 <= i < k <= sids.len(),
    ensures
        sids[i] <= spec_max_sid(sids, k),
    decreases k,
{
    if i < k - 1 {
        lemma_sid_below_num_slots(sids, i, k - 1);
    }
}

/// Slot offsets never decrease.
pub proof fn lemma_offsets_monotone(sids: Seq<usize>, nb: Seq<nat>, s1: int, s2: int)
    requires
        s1 <= s2,
    ensures
        spec_slot_offset(sids, nb, s1) <= spec_slot_offset(sids, nb, s2),
    decreases s2 - s1,
{
    if s1 < s2 {
        lemma_offsets_monotone(sids, nb, s1, s2 - 1);
    }
}

/// The storage plan is correct: each tensor's bytes fit its slot, each
/// slot's byte range lies within the arena, and slot offsets never
/// decrease.
pub proof fn lemma_storage_plan(sids: Seq<usize>, nb: Seq<nat>)
    requires
        nb.len() == sids.len(),
    ensures
        forall|i: int|
            0 <= i < sids.len() ==> #[trigger] nb[i] <= spec_slot_bytes(sids, nb, sids[i] as int),
        forall|i: int|
            0 <= i < sids.len() ==> spec_slot_offset(sids, nb, #[trigger] sids[i] as int)
                + spec_slot_bytes(sids, nb, sids[i] as int) <= spec_total_bytes(sids, nb),
        forall|s1: int, s2: int|
            s1 <= s2 ==> #[trigger] spec_slot_offset(sids, nb, s1) <= #[trigger] spec_slot_offset(
                sids,
                nb,
                s2,
            ),
{
    let n = sids.len() as int;
    assert forall|i: int|
        0 <= i < sids.len() implies #[trigger] nb[i] <= spec_slot_bytes(
        sids,
        nb,
        sids[i] as int,
    ) by {
        lemma_slot_holds_tensor(sids, nb, i, n);
    }
    assert forall|i: int|
        0 <= i < sids.len() implies spec_slot_offset(sids, nb, #[trigger] sids[i] as int)
        + spec_slot_bytes(sids, nb, sids[i] as int) <= spec_total_bytes(sids, nb) by {
        lemma_sid_below_num_slots(sids, i, n);
        let s = sids[i] as int;
        assert(spec_slot_offset(sids, nb, s + 1) == spec_slot_offset(sids, nb, s)
            + spec_slot_bytes(sids, nb, s));
        lemma_offsets_monotone(sids, nb, s + 1, spec_num_slots(sids));
    }
    assert forall|s1: int, s2: int|
        s1 <= s2 implies #[trigger] spec_slot_offset(sids, nb, s1)
        <= #[trigger] spec_slot_offset(sids, nb, s2) by {
        lemma_offsets_monotone(sids, nb, s1, s2);
    }
}

/// The per-tensor byte sizes, as mathematics.
pub open spec fn spec_nbytes_seq(dtypes: Seq<DataType>, shapes: Seq<Vec<usize>>) -> Seq<nat> {
    Seq::new(dtypes.len(), |i: int| spec_nbytes(dtypes[i], shapes[i]@))
}

/// Whether the plan's numbers all fit the machine: every element count,
/// and the arena total, fit a machine word.
pub open spec fn spec_plan_fits(
    sids: Seq<usize>,
    dtypes: Seq<DataType>,
    shapes: Seq<Vec<usize>>,
) -> bool {
    &&& forall|i: int| 0 <= i < shapes.len() ==> spec_numel(#[trigger] shapes[i]@) <= usize::MAX
    &&& spec_num_slots(sids) <= usize::MAX
    &&& spec_total_bytes(sids, spec_nbytes_seq(dtypes, shapes)) <= usize::MAX
}

/// Plans the tensor storage: computes per-slot capacities and offsets,
/// allocates one zeroed arena of the total size aligned to the widest
/// element type, and gives every tensor a view into it at its slot's
/// offset. Succeeds exactly when every element count and the arena total
/// fit a machine word and the arena layout is valid.
pub fn setup_storages(
    storage_ids: &Vec<usize>,
    shapes: &Vec<Vec<usize>>,
    dtypes: &Vec<DataType>,
) -> (r: Result<(Storage, Vec<Tensor>), Error>)
    requires
        storage_ids@.len() == shapes@.len(),
        storage_ids@.len() == dtypes@.len(),
        forall|i: int| 0 <= i < dtypes@.len() ==> (#[trigger] dtypes@[i]).wf(),
    ensures
        ({
            let sids = storage_ids@;
            let nb = spec_nbytes_seq(dtypes@, shapes@);
            let total = spec_total_bytes(sids, nb);
            match r {
                Ok((st, ts)) => {
                    &&& spec_plan_fits(sids, dtypes@, shapes@)
                    &&& spec_valid_layout(total as usize, spec_align_of(spec_pool_align(dtypes@)))
                    &&& st matches Storage::Owned(a) && a@ == Seq::new(total, |i: int| 0u8)
                        && a.spec_align() == spec_align_of(spec_pool_align(dtypes@))
                    &&& ts@.len() == sids.len()
                    &&& forall|i: int|
                        0 <= i < sids.len() ==> {
                            let t = #[trigger] ts@[i];
                            &&& t.data matches Storage::View(off, sz) && off == 0 && sz == total
                            &&& t.ctx.device_type == DEVICE_TYPE_CPU
                            &&& t.ctx.device_id == 0
                            &&& t.dtype == dtypes@[i]
                            &&& t.shape@ == shapes@[i]@
                            &&& t.strides is None
                            &&& t.byte_offset == spec_slot_offset(sids, nb, sids[i] as int)
                            &&& t.numel == spec_numel(shapes@[i]@)
                            &&& t.wf()
                        }
                },
                Err(e) => {
                    &&& !(spec_plan_fits(sids, dtypes@, shapes@) && spec_valid_layout(
                        total as usize,
                        spec_align_of(spec_pool_align(dtypes@)),
                    ))
                    &&& (e is GraphFormat || e is Alloc)
                },
            }
        }),
{
    let n = storage_ids.len();
    let ghost sids = storage_ids@;
    let ghost nbs = spec_nbytes_seq(dtypes@, shapes@);

    // Per-tensor byte sizes, with every element count checked to fit.
    let mut nbytes: Vec<usize> = Vec::new();
    let mut i: usize = 0;
    while i < n
        invariant
            i <= n,
            n == sids.len(),
            n == shapes@.len(),
            n == dtypes@.len(),
            sids == storage_ids@,
            nbs == spec_nbytes_seq(dtypes@, shapes@),
            forall|j: int| 0 <= j < dtypes@.len() ==> (#[trigger] dtypes@[j]).wf(),
            nbytes@.len() == i,
            forall|j: int| 0 <= j < i ==> (#[trigger] nbytes@[j]) as nat == nbs[j],
            forall|j: int| 0 <= j < i ==> spec_numel((#[trigger] shapes@[j])@) <= usize::MAX,
        decreases n - i,
    {
        let numel = match checked_numel(&shapes[i]) {
            Some(v) => v,
            None => {
                return Err(
                    Error::GraphFormat(
                        String::from_str("tensor element count overflows"),
                    ),
                );
            },
        };
        let itemsize = dtypes[i].itemsize();
        let nb = match numel.checked_mul(itemsize) {
            Some(v) => v,
            None => {
                proof {
                    total_needs_tensor(sids, nbs, i as int);
                    vstd::arithmetic::mul::lemma_mul_is_commutative(
                        numel as int,
                        itemsize as int,
                    );
                }
                return Err(
                    Error::GraphFormat(
                        String::from_str("tensor byte size overflows"),
                    ),
                );
            },
        };
        proof {
            vstd::arithmetic::mul::lemma_mul_is_commutative(numel as int, itemsize as int);
        }
        nbytes.push(nb);
        i = i + 1;
    }

    // The number of slots: one past the largest storage id.
    let mut max_sid: Option<usize> = None;
    let mut i: usize = 0;
    while i < n
        invariant
            i <= n,
            n == sids.len(),
            sids == storage_ids@,
            match max_sid {
                Some(m) => m as int == spec_max_sid(sids, i as int),
                None => spec_max_sid(sids, i as int) == -1,
            },
        decreases n - i,
    {
        let sid = storage_ids[i];
        max_sid = match max_sid {
            None => Some(sid),
            Some(m) => if sid > m {
                Some(sid)
            } else {
                Some(m)
            },
        };
        i = i + 1;
    }
    let num_slots: usize = match max_sid {
        None => 0,
        Some(m) => {
            if m == usize::MAX {
                return Err(
                    Error::GraphFormat(
                        String::from_str("storage id out of range"),
                    ),
                );
            }
            m + 1
        },
    };

    // Per-slot capacities.
    let mut slot_bytes: Vec<usize> = Vec::new();
    let mut s: usize = 0;
    while s < num_slots
        invariant
            s <= num_slots,
            slot_bytes@.len() == s,
            forall|j: int| 0 <= j < s ==> (#[trigger] slot_bytes@[j]) == 0,
        decreases num_slots - s,
    {
        slot_bytes.push(0);
        s = s + 1;
    }
    let mut i: usize = 0;
    while i < n
        invariant
            i <= n,
            n == sids.len(),
            n == nbytes@.len(),
            n == shapes@.len(),
            n == dtypes@.len(),
            sids == storage_ids@,
            nbs == spec_nbytes_seq(dtypes@, shapes@),
            num_slots as int == spec_num_slots(sids),
            forall|j: int| 0 <= j < n ==> (#[trigger] nbytes@[j]) as nat == nbs[j],
            slot_bytes@.len() == num_slots,
            forall|t: int|
                0 <= t < num_slots ==> (#[trigger] slot_bytes@[t]) as nat == spec_slot_size(
                    sids,
                    nbs,
                    t,
                    i as int,
                ),
        decreases n - i,
    {
        let sid = storage_ids[i];
        proof {
            lemma_sid_below_num_slots(sids, i as int, n as int);
            assert(spec_max_sid(sids, i + 1) <= spec_max_sid(sids, n as int)) by {
                lemma_max_sid_monotone(sids, i + 1, n as int);
            }
        }
        if nbytes[i] > slot_bytes[sid] {
            let v = nbytes[i];
            slot_bytes.set(sid, v);
        }
        i = i + 1;
    }

    // Slot offsets by prefix sum, and the arena total.
    let mut offsets: Vec<usize> = Vec::new();
    let mut acc: usize = 0;
    let mut s: usize = 0;
    while s < num_slots
        invariant
            s <= num_slots,
            n == sids.len(),
            n == shapes@.len(),
            n == dtypes@.len(),
            sids == storage_ids@,
            nbs == spec_nbytes_seq(dtypes@, shapes@),
            num_slots as int == spec_num_slots(sids),
            slot_bytes@.len() == num_slots,
            forall|t: int|
                0 <= t < num_slots ==> (#[trigger] slot_bytes@[t]) as nat == spec_slot_bytes(
                    sids,
                    nbs,
                    t,
                ),
            offsets@.len() == s,
            forall|t: int|
                0 <= t < s ==> (#[trigger] offsets@[t]) as nat == spec_slot_offset(sids, nbs, t),
            acc as nat == spec_slot_offset(sids, nbs, s as int),
        decreases num_slots - s,
    {
        offsets.push(acc);
        acc = match acc.checked_add(slot_bytes[s]) {
            Some(v) => v,
            None => {
                proof {
                    lemma_offsets_monotone(sids, nbs, s + 1, spec_num_slots(sids));
                }
                return Err(
                    Error::GraphFormat(
                        String::from_str("arena size overflows"),
                    ),
                );
            },
        };
        s = s + 1;
    }
    let total = acc;

    // The arena alignment: the widest element size.
    let mut max_item: usize = 0;
    let mut i: usize = 0;
    while i < n
        invariant
            i <= n,
            n == dtypes@.len(),
            forall|j: int| 0 <= j < dtypes@.len() ==> (#[trigger] dtypes@[j]).wf(),
            max_item as nat == spec_max_itemsize(dtypes@, i as int),
        decreases n - i,
    {
        let it = dtypes[i].itemsize();
        if it > max_item {
            max_item = it;
        }
        i = i + 1;
    }
    let align: Option<usize> = if n == 0 {
        None
    } else {
        Some(max_item)
    };

    let storage = match Storage::new(total, align) {
        Ok(st) => st,
        Err(e) => {
            return Err(e);
        },
    };

    // One view tensor per slot entry, at its slot's offset.
    let mut tensors: Vec<Tensor> = Vec::new();
    let mut i: usize = 0;
    while i < n
        invariant
            i <= n,
            n == sids.len(),
            n == shapes@.len(),
            n == dtypes@.len(),
            n == nbytes@.len(),
            sids == storage_ids@,
            nbs == spec_nbytes_seq(dtypes@, shapes@),
            num_slots as int == spec_num_slots(sids),
            forall|j: int| 0 <= j < dtypes@.len() ==> (#[trigger] dtypes@[j]).wf(),
            forall|j: int| 0 <= j < n ==> spec_numel((#[trigger] shapes@[j])@) <= usize::MAX,
            offsets@.len() == num_slots,
            forall|t: int|
                0 <= t < num_slots ==> (#[trigger] offsets@[t]) as nat == spec_slot_offset(
                    sids,
                    nbs,
                    t,
                ),
            tensors@.len() == i,
            forall|j: int|
                0 <= j < i ==> {
                    let t = #[trigger] tensors@[j];
                    &&& t.data matches Storage::View(off, sz) && off == 0 && sz == total
                    &&& t.ctx.device_type == DEVICE_TYPE_CPU
                    &&& t.ctx.device_id == 0
                    &&& t.dtype == dtypes@[j]
                    &&& t.shape@ == shapes@[j]@
                    &&& t.strides is None
                    &&& t.byte_offset == spec_slot_offset(sids, nbs, sids[j] as int)
                    &&& t.numel == spec_numel(shapes@[j]@)
                    &&& t.wf()
                },
        decreases n - i,
    {
        let sid = storage_ids[i];
        proof {
            lemma_sid_below_num_slots(sids, i as int, n as int);
        }
        let numel = match checked_numel(&shapes[i]) {
            Some(v) => v,
            None => {
                proof {
                    assert(false);
                }
                return Err(Error::Alloc);
            },
        };
        let t = Tensor {
            data: Storage::View(0, total),
            ctx: TVMContext::default(),
            dtype: dtypes[i],
            shape: copy_usizes(&shapes[i]),
            strides: None,
            byte_offset: offsets[sid],
            numel,
        };
        tensors.push(t);
        i = i + 1;
    }
    Ok((storage, tensors))
}

/// The arena total covers each single tensor's bytes.
proof fn total_needs_tensor(sids: Seq<usize>, nb: Seq<nat>, i: int)
    requires
        nb.len() == sids.len(),
        0 <= i < sids.len(),
    ensures
        nb[i] <= spec_total_bytes(sids, nb),
{
    lemma_storage_plan(sids, nb);
}

/// The largest storage id never shrinks as more tensors are judged.
proof fn lemma_max_sid_monotone(sids: Seq<usize>, k1: int, k2: int)
    requires
        k1 <= k2,
    ensures
        spec_max_sid(sids, k1) <= spec_max_sid(sids, k2),
    decreases k2 - k1,
{
    if k1 < k2 {
        lemma_max_sid_monotone(sids, k1, k2 - 1);
    }
}

/// The tensor index an entry resolves to: the start of its node's output
/// row, plus the output's index.
pub open spec fn spec_entry_index(g: GraphV, e: Entry) -> Option<int> {
    match g.node_row_ptr {
        Some(nrp) => if e.id < nrp.len() {
            Some(nrp[e.id as int] + e.index)
        } else {
            None
        },
        None => None,
    }
}

impl Graph {
    /// Resolves an entry to its tensor index. Fails, with a graph-format
    /// error, exactly when the prefix-sum table is missing, the entry's
    /// node is out of its range, or the sum overflows.
    pub fn entry_index(&self, e: &Entry) -> (r: Result<usize, Error>)
        ensures
            match r {
                Ok(v) => spec_entry_index(self@, *e) == Some(v as int),
                Err(err) => (spec_entry_index(self@, *e) is None || (spec_entry_index(self@, *e)
                    matches Some(v) && v > usize::MAX)) && err is GraphFormat,
            },
    {
        let nrp = match &self.node_row_ptr {
            Some(nrp) => nrp,
            None => {
                return Err(Error::GraphFormat(String::from_str("Missing node_row_ptr.")));
            },
        };
        if e.id >= nrp.len() {
            return Err(Error::GraphFormat(String::from_str("entry out of range")));
        }
        match nrp[e.id].checked_add(e.index) {
            Some(v) => Ok(v),
            None => Err(Error::GraphFormat(String::from_str("entry index overflows"))),
        }
    }
}

/// The value under the last attribute named `key`, if any — later
/// entries shadow earlier ones, as a map built by insertion would have
/// it.
pub open spec fn spec_attr(
    attrs: Seq<(Seq<char>, Seq<char>)>,
    key: Seq<char>,
) -> Option<Seq<char>>
    decreases attrs.len(),
{
    if attrs.len() == 0 {
        None
    } else if attrs.last().0 == key {
        Some(attrs.last().1)
    } else {
        spec_attr(attrs.drop_last(), key)
    }
}

/// Looks an attribute up by key; the last entry carrying it wins.
fn attr_lookup<'a>(attrs: &'a Vec<(String, String)>, key: &str) -> (r: Option<&'a String>)
    ensures
        ({
            let av = Seq::new(attrs@.len(), |i: int| (attrs@[i].0@, attrs@[i].1@));
            match spec_attr(av, key@) {
                Some(v) => r matches Some(s) && s@ == v,
                None => r is None,
            }
        }),
{
    let ghost av = Seq::new(attrs@.len(), |i: int| (attrs@[i].0@, attrs@[i].1@));
    let key_s = String::from_str(key);
    let n = attrs.len();
    proof {
        assert(av.take(n as int) =~= av);
    }
    let mut k: usize = n;
    while k > 0
        invariant
            k <= n,
            n == attrs@.len(),
            key_s@ == key@,
            av == Seq::new(attrs@.len(), |i: int| (attrs@[i].0@, attrs@[i].1@)),
            spec_attr(av, key@) == spec_attr(av.take(k as int), key@),
        decreases k,
    {
        k = k - 1;
        proof {
            assert(av.take(k + 1).last() == av[k as int]);
            assert(av.take(k + 1).drop_last() =~= av.take(k as int));
        }
        if attrs[k].0 == key_s {
            return Some(&attrs[k].1);
        }
    }
    proof {
        assert(av.take(0) =~= Seq::<(Seq<char>, Seq<char>)>::empty());
    }
    None
}

/// One bound operator: the node it came from, the kernel resolved for it,
/// and the tensor indices of its arguments — the node's inputs first,
/// then its outputs.
pub struct OpExec {
    pub node_id: usize,
    pub func: PackedFunc,
    pub args: Vec<usize>,
}

/// Whether node `nid` can be bound: either it is a `null` input node, or
/// it is a `tvm_op` whose attributes name a kernel the module has and an
/// output count, and whose argument entries all resolve to tensor indices
/// below `tlen`.
pub open spec fn spec_node_bindable<M: Module>(g: GraphV, m: &M, tlen: int, nid: int) -> bool {
    let node = g.nodes[nid];
    node.op != "null"@ ==> {
        &&& node.op == "tvm_op"@
        &&& node.attrs is Some
        &&& spec_attr(node.attrs->Some_0, "func_name"@) is Some
        &&& m.spec_get_function(spec_attr(node.attrs->Some_0, "func_name"@)->Some_0) is Some
        &&& spec_attr(node.attrs->Some_0, "num_outputs"@) is Some
        &&& spec_parse_usize(spec_attr(node.attrs->Some_0, "num_outputs"@)->Some_0) is Some
        &&& forall|j: int|
            0 <= j < node.inputs.len() ==> (spec_entry_index(g, #[trigger] node.inputs[j])
                matches Some(v) && v < tlen)
        &&& g.node_row_ptr matches Some(nrp) && nid < nrp.len() && nrp[nid] + spec_parse_usize(
            spec_attr(node.attrs->Some_0, "num_outputs"@)->Some_0,
        )->Some_0 <= tlen
    }
}

/// Whether the whole graph can be bound against the module.
pub open spec fn spec_bindable<M: Module>(g: GraphV, m: &M, tlen: int) -> bool {
    &&& g.node_row_ptr is Some
    &&& forall|nid: int|
        0 <= nid < g.nodes.len() ==> #[trigger] spec_node_bindable(g, m, tlen, nid)
}

/// What one bound operator must look like for node `nid`.
pub open spec fn spec_op_bound<M: Module>(g: GraphV, m: &M, op: OpExec, nid: int) -> bool {
    let node = g.nodes[nid];
    let num_outputs = spec_parse_usize(spec_attr(node.attrs->Some_0, "num_outputs"@)->Some_0)
        ->Some_0;
    &&& m.spec_get_function(spec_attr(node.attrs->Some_0, "func_name"@)->Some_0) == Some(op.func)
    &&& op.args@.len() == node.inputs.len() + num_outputs
    &&& forall|j: int|
        0 <= j < node.inputs.len() ==> Some((#[trigger] op.args@[j]) as int) == spec_entry_index(
            g,
            node.inputs[j],
        )
    &&& forall|j: int|
        0 <= j < num_outputs ==> (#[trigger] op.args@[node.inputs.len() + j]) as int
            == g.node_row_ptr->Some_0[nid] + j
}

/// Binds every operator node: requires each to be a `tvm_op`, resolves
/// its kernel through the module by its `func_name` attribute, and lays
/// its argument tensor indices out as inputs followed by outputs. Yields
/// the bound operators in node order. Fails exactly when some node
/// cannot be bound.
pub fn setup_op_execs<M: Module>(graph: &Graph, lib: &M, tensors_len: usize) -> (r: Result<
    Vec<OpExec>,
    Error,
>)
    ensures
        match r {
            Ok(ops) => {
                &&& spec_bindable(graph@, lib, tensors_len as int)
                &&& forall|k1: int, k2: int|
                    0 <= k1 < k2 < ops@.len() ==> (#[trigger] ops@[k1]).node_id
                        < (#[trigger] ops@[k2]).node_id
                &&& forall|k: int|
                    0 <= k < ops@.len() ==> (#[trigger] ops@[k]).node_id < graph@.nodes.len()
                        && graph@.nodes[ops@[k].node_id as int].op != "null"@ && spec_op_bound(
                        graph@,
                        lib,
                        ops@[k],
                        ops@[k].node_id as int,
                    )
                &&& forall|nid: int|
                    0 <= nid < graph@.nodes.len() && (#[trigger] graph@.nodes[nid]).op != "null"@
                        ==> exists|k: int| 0 <= k < ops@.len() && (#[trigger] ops@[k].node_id) == nid
                &&& forall|k: int, j: int|
                    0 <= k < ops@.len() && 0 <= j < (#[trigger] ops@[k]).args@.len()
                        ==> #[trigger] ops@[k].args@[j] < tensors_len
            },
            Err(e) => {
                &&& !spec_bindable(graph@, lib, tensors_len as int)
                &&& (e is GraphFormat || e matches Error::MissingFunction(_))
            },
        },
{
    let null_s = String::from_str("null");
    let tvm_op_s = String::from_str("tvm_op");
    if graph.node_row_ptr.is_none() {
        return Err(Error::GraphFormat(String::from_str("Missing node_row_ptr.")));
    }
    let n = graph.nodes.len();
    let mut ops: Vec<OpExec> = Vec::new();
    let mut nid: usize = 0;
    while nid < n
        invariant
            nid <= n,
            n == graph@.nodes.len(),
            null_s@ == "null"@,
            tvm_op_s@ == "tvm_op"@,
            graph@.node_row_ptr is Some,
            forall|j: int| 0 <= j < nid ==> spec_node_bindable(graph@, lib, tensors_len as int, j),
            forall|k1: int, k2: int|
                0 <= k1 < k2 < ops@.len() ==> (#[trigger] ops@[k1]).node_id
                    < (#[trigger] ops@[k2]).node_id,
            forall|k: int|
                0 <= k < ops@.len() ==> (#[trigger] ops@[k]).node_id < nid
                    && graph@.nodes[ops@[k].node_id as int].op != "null"@ && spec_op_bound(
                    graph@,
                    lib,
                    ops@[k],
                    ops@[k].node_id as int,
                ),
            forall|j: int|
                0 <= j < nid && (#[trigger] graph@.nodes[j]).op != "null"@ ==> exists|k: int|
                    0 <= k < ops@.len() && (#[trigger] ops@[k].node_id) == j,
            forall|k: int, j: int|
                0 <= k < ops@.len() && 0 <= j < (#[trigger] ops@[k]).args@.len()
                    ==> #[trigger] ops@[k].args@[j] < tensors_len,
        decreases n - nid,
    {
        let node = &graph.nodes[nid];
        proof {
            assert(graph@.nodes[nid as int] == node_view(graph.nodes@[nid as int]));
        }
        if node.op == null_s {
            nid = nid + 1;
            continue ;
        }
        if !(node.op == tvm_op_s) {
            proof {
                assert(!spec_node_bindable(graph@, lib, tensors_len as int, nid as int));
            }
            return Err(Error::GraphFormat(String::from_str("Only TVM ops are supported.")));
        }
        let attrs = match &node.attrs {
            Some(a) => a,
            None => {
                proof {
                    assert(!spec_node_bindable(graph@, lib, tensors_len as int, nid as int));
                }
                return Err(Error::GraphFormat(String::from_str("missing node attrs")));
            },
        };
        proof {
            assert(graph@.nodes[nid as int].attrs->Some_0 =~= Seq::new(
                attrs@.len(),
                |i: int| (attrs@[i].0@, attrs@[i].1@),
            ));
        }
        let func_name = match attr_lookup(attrs, "func_name") {
            Some(s) => s,
            None => {
                proof {
                    assert(!spec_node_bindable(graph@, lib, tensors_len as int, nid as int));
                }
                return Err(Error::GraphFormat(String::from_str("missing func_name attr")));
            },
        };
        let func = match lib.get_function(func_name.as_str()) {
            Some(f) => f,
            None => {
                proof {
                    assert(!spec_node_bindable(graph@, lib, tensors_len as int, nid as int));
                }
                return Err(Error::MissingFunction(func_name.clone()));
            },
        };
        let num_outputs = match attr_lookup(attrs, "num_outputs") {
            Some(s) => match crate::threading::parse_usize(s.as_str()) {
                Some(v) => v,
                None => {
                    proof {
                        assert(!spec_node_bindable(graph@, lib, tensors_len as int, nid as int));
                    }
                    return Err(
                        Error::GraphFormat(String::from_str("invalid num_outputs attr")),
                    );
                },
            },
            None => {
                proof {
                    assert(!spec_node_bindable(graph@, lib, tensors_len as int, nid as int));
                }
                return Err(Error::GraphFormat(String::from_str("missing num_outputs attr")));
            },
        };
        let mut args: Vec<usize> = Vec::new();
        let n_in = node.inputs.len();
        let mut j: usize = 0;
        while j < n_in
            invariant
                j <= n_in,
                n_in == node.inputs@.len(),
                nid < n,
                n == graph@.nodes.len(),
                node_view(*node) == graph@.nodes[nid as int],
                graph@.nodes[nid as int].op != "null"@,
                args@.len() == j,
                forall|t: int|
                    0 <= t < j ==> Some((#[trigger] args@[t]) as int) == spec_entry_index(
                        graph@,
                        node.inputs@[t],
                    ) && args@[t] < tensors_len,
            decreases n_in - j,
        {
            let idx = match graph.entry_index(&node.inputs[j]) {
                Ok(v) => v,
                Err(e) => {
                    proof {
                        let nodev = graph@.nodes[nid as int];
                        assert(nodev.inputs[j as int] == node.inputs@[j as int]);
                        assert(!(spec_entry_index(graph@, #[trigger] nodev.inputs[j as int])
                            matches Some(v) && v < tensors_len));
                        assert(!spec_node_bindable(graph@, lib, tensors_len as int, nid as int));
                    }
                    return Err(e);
                },
            };
            if idx >= tensors_len {
                proof {
                    let nodev = graph@.nodes[nid as int];
                    assert(nodev.inputs[j as int] == node.inputs@[j as int]);
                    assert(!(spec_entry_index(graph@, #[trigger] nodev.inputs[j as int])
                        matches Some(v) && v < tensors_len));
                    assert(!spec_node_bindable(graph@, lib, tensors_len as int, nid as int));
                }
                return Err(Error::GraphFormat(String::from_str("argument out of range")));
            }
            args.push(idx);
            j = j + 1;
        }
        let nrp = match &graph.node_row_ptr {
            Some(v) => v,
            None => {
                proof {
                    assert(false);
                }
                return Err(Error::Alloc);
            },
        };
        proof {
            assert(graph@.node_row_ptr == Some(nrp@));
        }
        if nid >= nrp.len() {
            proof {
                assert(!spec_node_bindable(graph@, lib, tensors_len as int, nid as int));
            }
            return Err(Error::GraphFormat(String::from_str("node out of row table")));
        }
        let row = nrp[nid];
        match row.checked_add(num_outputs) {
            Some(end) => {
                if end > tensors_len {
                    proof {
                        assert(!spec_node_bindable(graph@, lib, tensors_len as int, nid as int));
                    }
                    return Err(Error::GraphFormat(String::from_str("output out of range")));
                }
            },
            None => {
                proof {
                    assert(!spec_node_bindable(graph@, lib, tensors_len as int, nid as int));
                }
                return Err(Error::GraphFormat(String::from_str("output out of range")));
            },
        }
        let mut oi: usize = 0;
        while oi < num_outputs
            invariant
                oi <= num_outputs,
                nid < n,
                n == graph@.nodes.len(),
                node_view(*node) == graph@.nodes[nid as int],
                graph@.node_row_ptr matches Some(nrpv) && nid < nrpv.len() && nrpv[nid as int]
                    == row,
                row + num_outputs <= tensors_len,
                n_in == node.inputs@.len(),
                args@.len() == n_in + oi,
                forall|t: int|
                    0 <= t < n_in ==> Some((#[trigger] args@[t]) as int) == spec_entry_index(
                        graph@,
                        node.inputs@[t],
                    ) && args@[t] < tensors_len,
                forall|t: int|
                    0 <= t < oi ==> (#[trigger] args@[n_in + t]) as int == row + t && args@[n_in
                        + t] < tensors_len,
            decreases num_outputs - oi,
        {
            args.push(row + oi);
            oi = oi + 1;
        }
        proof {
            let g = graph@;
            let tlen = tensors_len as int;
            let nodev = g.nodes[nid as int];
            assert forall|j: int|
                0 <= j < nodev.inputs.len() implies (spec_entry_index(
                g,
                #[trigger] nodev.inputs[j],
            ) matches Some(v) && v < tlen) by {
                assert(Some((args@[j]) as int) == spec_entry_index(g, node.inputs@[j]));
                assert(args@[j] < tensors_len);
            }
            assert(spec_node_bindable(g, lib, tlen, nid as int));
        }
        let ghost argsv = args@;
        let ghost n_in_g = node.inputs@.len();
        let op = OpExec { node_id: nid, func, args };
        proof {
            assert(spec_op_bound(graph@, lib, op, nid as int));
        }
        let ghost ops_old = ops@;
        ops.push(op);
        proof {
            let g = graph@;
            let opsn = ops@;
            assert(opsn[opsn.len() - 1].node_id == nid);
            assert forall|k1: int, k2: int|
                0 <= k1 < k2 < opsn.len() implies (#[trigger] opsn[k1]).node_id
                < (#[trigger] opsn[k2]).node_id by {
                if k2 < opsn.len() - 1 {
                } else {
                    assert(opsn[k1].node_id < nid);
                }
            }
            assert forall|j: int|
                0 <= j < nid + 1 && (#[trigger] g.nodes[j]).op != "null"@ implies exists|k: int|
                    0 <= k < opsn.len() && (#[trigger] opsn[k].node_id) == j by {
                if j == nid {
                    assert(opsn[opsn.len() - 1].node_id == nid as usize);
                } else {
                    let k0 = choose|k: int|
                        0 <= k < ops_old.len() && (#[trigger] ops_old[k].node_id) == j;
                    assert(opsn[k0].node_id == j);
                }
            }
            assert forall|k: int, j: int|
                0 <= k < opsn.len() && 0 <= j < (#[trigger] opsn[k]).args@.len()
                implies #[trigger] opsn[k].args@[j] < tensors_len by {
                if k == opsn.len() - 1 {
                    assert(opsn[k].args@ == argsv);
                    if j < n_in_g {
                        assert(argsv[j] < tensors_len);
                    } else {
                        assert(argsv[n_in_g + (j - n_in_g)] < tensors_len);
                    }
                }
            }
        }
        nid = nid + 1;
    }
    Ok(ops)
}

/// The payload of a tagged graph attribute: the second element of a
/// two-element array whose first element is the tag string.
pub open spec fn sp_tagged(v: JsonVal) -> Option<JsonVal> {
    match v {
        JsonVal::Arr(items) => if items.len() == 2 && items[0] is Str {
            Some(items[1])
        } else {
            None
        },
        _ => None,
    }
}

/// The word list a tagged attribute names.
pub open spec fn sp_attr_usizes(v: JsonVal) -> Option<Seq<usize>> {
    match sp_tagged(v) {
        Some(p) => crate::graph::sp_usizes_of(p),
        None => None,
    }
}

/// The shape list a tagged attribute names.
pub open spec fn sp_attr_shapes(v: JsonVal) -> Option<Seq<Seq<usize>>> {
    match sp_tagged(v) {
        Some(JsonVal::Arr(rows)) => if forall|i: int|
            0 <= i < rows.len() ==> crate::graph::sp_usizes_of(#[trigger] rows[i]) is Some {
            Some(Seq::new(rows.len(), |i: int| crate::graph::sp_usizes_of(rows[i])->Some_0))
        } else {
            None
        },
        _ => None,
    }
}

/// The data types a tagged attribute of dtype strings names.
pub open spec fn sp_attr_dtypes(v: JsonVal) -> Option<Seq<DataType>> {
    match sp_tagged(v) {
        Some(JsonVal::Arr(items)) => if forall|i: int|
            0 <= i < items.len() ==> ((#[trigger] items[i]) is Str && spec_parse_dtype(
                items[i]->Str_0,
            ) is Some) {
            Some(Seq::new(items.len(), |i: int| spec_parse_dtype(items[i]->Str_0)->Some_0))
        } else {
            None
        },
        _ => None,
    }
}

/// The planner's inputs, read out of the graph attributes: the storage
/// ids, shapes and parsed element types, which must all be present and
/// equally long.
pub open spec fn sp_plan_inputs(g: GraphV) -> Option<
    (Seq<usize>, Seq<Seq<usize>>, Seq<DataType>),
> {
    if g.attrs is None {
        None
    } else {
        let at = g.attrs->Some_0;
        let sid_v = spec_obj_get(at, "storage_id"@);
        let shape_v = spec_obj_get(at, "shape"@);
        let dtype_v = spec_obj_get(at, "dltype"@);
        if sid_v is None || shape_v is None || dtype_v is None {
            None
        } else {
            match (sp_attr_usizes(sid_v->Some_0), sp_attr_shapes(shape_v->Some_0), sp_attr_dtypes(
                dtype_v->Some_0,
            )) {
                (Some(sids), Some(shps), Some(dts)) => if sids.len() == shps.len() && sids.len()
                    == dts.len() {
                    Some((sids, shps, dts))
                } else {
                    None
                },
                _ => None,
            }
        }
    }
}

/// The parameter slots a graph offers: for each `null` input node, in
/// node order, its name and the tensor index its output row starts at.
pub open spec fn sp_param_slots(g: GraphV, i: int) -> Seq<(Seq<char>, int)>
    decreases i,
{
    if i <= 0 || g.node_row_ptr is None {
        Seq::empty()
    } else {
        sp_param_slots(g, i - 1) + (if 0 <= i - 1 < g.nodes.len() && g.nodes[i - 1].op == "null"@
            && i - 1 < g.node_row_ptr->Some_0.len() {
            seq![(g.nodes[i - 1].name, g.node_row_ptr->Some_0[i - 1] as int)]
        } else {
            Seq::empty()
        })
    }
}

/// The parameter slots, as name and index pairs.
pub open spec fn slots_named(slots: Seq<(String, usize)>) -> Seq<(Seq<char>, int)> {
    Seq::new(slots.len(), |i: int| (slots[i].0@, slots[i].1 as int))
}

/// A decoded graph bound to its kernels, ready to run: the planned
/// arena, one view tensor per slot entry, the bound operators in node
/// order, and the named parameter slots.
pub struct GraphExecutor {
    storage: Storage,
    tensors: Vec<Tensor>,
    op_execs: Vec<OpExec>,
    param_slots: Vec<(String, usize)>,
}

impl GraphExecutor {
    /// The arena's bytes.
    pub closed spec fn arena(&self) -> Seq<u8> {
        match self.storage {
            Storage::Owned(a) => a@,
            Storage::View(_, _) => Seq::empty(),
        }
    }

    /// The planned tensors.
    pub closed spec fn tensors_view(&self) -> Seq<Tensor> {
        self.tensors@
    }

    /// The bound operators.
    pub closed spec fn ops_view(&self) -> Seq<OpExec> {
        self.op_execs@
    }

    /// The parameter slots.
    pub closed spec fn slots_view(&self) -> Seq<(String, usize)> {
        self.param_slots@
    }

    /// The executor's invariant: the arena is owned; every tensor is a
    /// well-formed view whose bytes lie inside the arena; every operator
    /// argument and every parameter slot names a tensor.
    /// Whether the executor owns its arena.
    pub closed spec fn storage_owned(&self) -> bool {
        self.storage is Owned
    }

    pub open spec fn wf(&self) -> bool {
        &&& self.storage_owned()
        &&& forall|i: int|
            0 <= i < self.tensors_view().len() ==> {
                let t = #[trigger] self.tensors_view()[i];
                &&& t.wf()
                &&& t.data matches Storage::View(off, sz) && off == 0 && sz == self.arena().len()
                &&& t.byte_offset + t.numel * t.dtype.spec_itemsize() <= self.arena().len()
            }
        &&& forall|k: int, j: int|
            0 <= k < self.ops_view().len() && 0 <= j < (#[trigger] self.ops_view()[k]).args@.len()
                ==> #[trigger] self.ops_view()[k].args@[j] < self.tensors_view().len()
        &&& forall|k: int|
            0 <= k < self.slots_view().len() ==> (#[trigger] self.slots_view()[k]).1
                < self.tensors_view().len()
    }

    /// How many operators the executor runs.
    pub fn num_ops(&self) -> (r: usize)
        ensures
            r == self.ops_view().len(),
    {
        self.op_execs.len()
    }

    /// The `i`-th bound operator.
    pub fn op(&self, i: usize) -> (r: &OpExec)
        requires
            i < self.ops_view().len(),
        ensures
            *r == self.ops_view()[i as int],
    {
        &self.op_execs[i]
    }

    /// How many tensor slots the plan has.
    pub fn num_tensors(&self) -> (r: usize)
        ensures
            r == self.tensors_view().len(),
    {
        self.tensors.len()
    }

    /// The `i`-th planned tensor.
    pub fn tensor(&self, i: usize) -> (r: &Tensor)
        requires
            i < self.tensors_view().len(),
        ensures
            *r == self.tensors_view()[i as int],
    {
        &self.tensors[i]
    }

    /// Runs the graph: invokes `call` once for each bound operator, in
    /// the order they were bound. A non-zero status from a kernel aborts
    /// the run with a kernel error; with no operators, or with a kernel
    /// that can only report success, the run succeeds.
    pub fn run<F: Fn(&OpExec) -> i32>(&self, call: &F) -> (r: Result<(), Error>)
        requires
            forall|op: &OpExec| #[trigger] call.requires((op,)),
        ensures
            r matches Err(e) ==> e is Kernel,
            self.ops_view().len() == 0 ==> r is Ok,
            (forall|op: &OpExec, s: i32| #[trigger] call.ensures((op,), s) ==> s == 0) ==> r
                is Ok,
    {
        let n = self.op_execs.len();
        let mut k: usize = 0;
        while k < n
            invariant
                k <= n,
                n == self.ops_view().len(),
                forall|op: &OpExec| #[trigger] call.requires((op,)),
            decreases n - k,
        {
            let status = call(&self.op_execs[k]);
            if status != 0 {
                proof {
                    assert(call.ensures((&self.op_execs[k as int],), status));
                }
                return Err(Error::Kernel);
            }
            k = k + 1;
        }
        Ok(())
    }

    /// Overwrites the arena with the given bytes, handed back after
    /// outside work on a copy of it. Fails, leaving the arena unchanged,
    /// exactly when the lengths differ.
    pub fn store_arena_bytes(&mut self, bytes: &Vec<u8>) -> (r: Result<(), Error>)
        requires
            old(self).wf(),
        ensures
            final(self).wf(),
            final(self).tensors_view() == old(self).tensors_view(),
            final(self).ops_view() == old(self).ops_view(),
            final(self).slots_view() == old(self).slots_view(),
            final(self).arena().len() == old(self).arena().len(),
            match r {
                Ok(()) => bytes@.len() == old(self).arena().len() && final(self).arena()
                    == bytes@,
                Err(e) => bytes@.len() != old(self).arena().len() && e is GraphFormat
                    && final(self).arena() == old(self).arena(),
            },
    {
        let n = bytes.len();
        match &mut self.storage {
            Storage::Owned(a) => {
                if a.size() != n {
                    return Err(
                        Error::GraphFormat(String::from_str("arena size mismatch")),
                    );
                }
                a.write_bytes_at(0, bytes, 0, n);
                proof {
                    assert(self.arena() =~= bytes@);
                    assert(self.tensors_view() == old(self).tensors_view());
                    assert(self.arena().len() == old(self).arena().len());
                    assert forall|i: int|
                        0 <= i < self.tensors_view().len() implies {
                        let t = #[trigger] self.tensors_view()[i];
                        &&& t.wf()
                        &&& t.data matches Storage::View(off, sz) && off == 0 && sz
                            == self.arena().len()
                        &&& t.byte_offset + t.numel * t.dtype.spec_itemsize()
                            <= self.arena().len()
                    } by {
                        assert(old(self).tensors_view()[i] == self.tensors_view()[i]);
                    }
                    assert(self.storage_owned());
                    assert(self.ops_view() == old(self).ops_view());
                    assert(self.slots_view() == old(self).slots_view());
                    assert(self.wf());
                }
                Ok(())
            },
            Storage::View(_, _) => {
                proof {
                    assert(false);
                }
                Err(Error::Alloc)
            },
        }
    }

    /// The arena's bytes.
    pub fn data_bytes(&self) -> (r: Option<&Vec<u8>>)
        requires
            self.wf(),
        ensures
            match r {
                Some(b) => b@ == self.arena(),
                None => false,
            },
    {
        match &self.storage {
            Storage::Owned(a) => Some(a.bytes()),
            Storage::View(_, _) => {
                proof {
                    assert(false);
                }
                None
            },
        }
    }
}

/// Per-tensor byte sizes over mathematical shapes.
pub open spec fn spec_nbytes_seq2(dts: Seq<DataType>, shps: Seq<Seq<usize>>) -> Seq<nat> {
    Seq::new(dts.len(), |i: int| spec_nbytes(dts[i], shps[i]))
}

/// Whether the plan's numbers fit the machine, over mathematical shapes.
pub open spec fn spec_plan_fits2(
    sids: Seq<usize>,
    dts: Seq<DataType>,
    shps: Seq<Seq<usize>>,
) -> bool {
    &&& forall|i: int| 0 <= i < shps.len() ==> spec_numel(#[trigger] shps[i]) <= usize::MAX
    &&& spec_num_slots(sids) <= usize::MAX
    &&& spec_total_bytes(sids, spec_nbytes_seq2(dts, shps)) <= usize::MAX
}

/// Whether an executor can be made of the graph and module: the plan
/// inputs decode and fit, the arena layout is valid, every node binds,
/// and every parameter slot names a tensor.
pub open spec fn sp_constructible<M: Module>(g: GraphV, m: &M) -> bool {
    &&& sp_plan_inputs(g) is Some
    &&& ({
        let t = sp_plan_inputs(g)->Some_0;
        &&& spec_plan_fits2(t.0, t.2, t.1)
        &&& spec_valid_layout(
            spec_total_bytes(t.0, spec_nbytes_seq2(t.2, t.1)) as usize,
            spec_align_of(spec_pool_align(t.2)),
        )
        &&& spec_bindable(g, m, t.0.len() as int)
        &&& forall|k: int|
            0 <= k < sp_param_slots(g, g.nodes.len() as int).len() ==> 0 <= (
            #[trigger] sp_param_slots(g, g.nodes.len() as int)[k]).1 < t.0.len()
    })
}

/// Earlier slot lists are prefixes of later ones.
proof fn lemma_slots_prefix(g: GraphV, i: int, n: int)
    requires
        0 <= i <= n,
    ensures
        sp_param_slots(g, i).len() <= sp_param_slots(g, n).len(),
        forall|k: int|
            0 <= k < sp_param_slots(g, i).len() ==> #[trigger] sp_param_slots(g, n)[k]
                == sp_param_slots(g, i)[k],
    decreases n - i,
{
    if i < n {
        lemma_slots_prefix(g, i, n - 1);
    }
}

/// The payload of a tagged attribute.
fn decode_tagged<'a>(j: &'a Json) -> (r: Option<&'a Json>)
    ensures
        match sp_tagged(j@) {
            Some(p) => r matches Some(x) && x@ == p,
            None => r is None,
        },
{
    if j.arr_len() != 2 {
        return None;
    }
    let tag_ok = match j.arr_get(0) {
        Some(t) => match t.as_str() {
            Some(_) => true,
            None => false,
        },
        None => false,
    };
    if !tag_ok {
        return None;
    }
    j.arr_get(1)
}

/// Decodes a tagged word-list attribute. An ill-typed value is a
/// graph-format failure.
fn decode_attr_usizes(j: &Json) -> (r: Result<Vec<usize>, Error>)
    ensures
        match sp_attr_usizes(j@) {
            Some(us) => r matches Ok(v) && v@ == us,
            None => r matches Err(e) && e is GraphFormat,
        },
{
    let payload = match decode_tagged(j) {
        Some(p) => p,
        None => {
            return Err(ill_typed_attr_error());
        },
    };
    match crate::graph::decode_usizes(payload) {
        Ok(v) => Ok(v),
        Err(_) => Err(ill_typed_attr_error()),
    }
}

/// A fresh graph-format error for an ill-typed graph-level attribute.
fn ill_typed_attr_error() -> (r: Error)
    ensures
        r is GraphFormat,
{
    Error::GraphFormat(String::from_str("ill-typed graph attr"))
}

/// Decodes a tagged shape-list attribute.
fn decode_attr_shapes(j: &Json) -> (r: Result<Vec<Vec<usize>>, Error>)
    ensures
        match sp_attr_shapes(j@) {
            Some(shps) => r matches Ok(v) && v@.len() == shps.len() && forall|i: int|
                0 <= i < shps.len() ==> (#[trigger] v@[i])@ == shps[i],
            None => r matches Err(e) && e is GraphFormat,
        },
{
    let p = match decode_tagged(j) {
        Some(p) => p,
        None => {
            return Err(ill_typed_attr_error());
        },
    };
    let rows = match p {
        Json::Arr(rows) => rows,
        _ => {
            return Err(ill_typed_attr_error());
        },
    };
    proof {
        assert(p@ matches JsonVal::Arr(s) && s.len() == rows@.len());
    }
    let n = rows.len();
    let mut out: Vec<Vec<usize>> = Vec::new();
    let mut k: usize = 0;
    while k < n
        invariant
            k <= n,
            n == rows@.len(),
            sp_tagged(j@) == Some(p@),
            p matches Json::Arr(rv) && rv@ == rows@,
            p@ matches JsonVal::Arr(s) && s.len() == rows@.len(),
            out@.len() == k,
            forall|i: int|
                0 <= i < k ==> crate::graph::sp_usizes_of(#[trigger] p@->Arr_0[i]) == Some(
                    (#[trigger] out@[i])@,
                ),
        decreases n - k,
    {
        proof {
            assert(p@->Arr_0[k as int] == rows@[k as int]@);
        }
        match crate::graph::decode_usizes(&rows[k]) {
            Ok(v) => {
                out.push(v);
            },
            Err(_) => {
                proof {
                    assert(crate::graph::sp_usizes_of(p@->Arr_0[k as int]) is None);
                }
                return Err(ill_typed_attr_error());
            },
        }
        k = k + 1;
    }
    proof {
        let s = p@->Arr_0;
        assert forall|i: int|
            0 <= i < s.len() implies crate::graph::sp_usizes_of(#[trigger] s[i]) is Some by {
            assert(crate::graph::sp_usizes_of(s[i]) == Some(out@[i]@));
        }
        assert forall|i: int|
            0 <= i < s.len() implies (#[trigger] out@[i])@ == sp_attr_shapes(j@)->Some_0[i] by {
            assert(crate::graph::sp_usizes_of(s[i]) == Some(out@[i]@));
        }
    }
    Ok(out)
}

/// Decodes a tagged dtype-string attribute, parsing each string. An
/// ill-typed value or an unparseable dtype is a graph-format failure.
fn decode_attr_dtypes(j: &Json) -> (r: Result<Vec<DataType>, Error>)
    ensures
        match sp_attr_dtypes(j@) {
            Some(dts) => r matches Ok(v) && v@ == dts,
            None => r matches Err(e) && e is GraphFormat,
        },
{
    let p = match decode_tagged(j) {
        Some(p) => p,
        None => {
            return Err(ill_typed_attr_error());
        },
    };
    let items = match p {
        Json::Arr(items) => items,
        _ => {
            return Err(ill_typed_attr_error());
        },
    };
    proof {
        assert(p@ matches JsonVal::Arr(s) && s.len() == items@.len());
    }
    let n = items.len();
    let mut out: Vec<DataType> = Vec::new();
    let mut k: usize = 0;
    while k < n
        invariant
            k <= n,
            n == items@.len(),
            sp_tagged(j@) == Some(p@),
            p matches Json::Arr(iv) && iv@ == items@,
            p@ matches JsonVal::Arr(s) && s.len() == items@.len(),
            out@.len() == k,
            forall|i: int|
                0 <= i < k ==> ((#[trigger] p@->Arr_0[i]) is Str && spec_parse_dtype(
                    p@->Arr_0[i]->Str_0,
                ) == Some(out@[i])),
        decreases n - k,
    {
        proof {
            assert(p@->Arr_0[k as int] == items@[k as int]@);
        }
        let s = match items[k].as_str() {
            Some(s) => s,
            None => {
                proof {
                    assert(!(p@->Arr_0[k as int] is Str));
                }
                return Err(ill_typed_attr_error());
            },
        };
        match crate::dtype::tvm_str_to_type(s.as_str()) {
            Ok(dt) => {
                out.push(dt);
                proof {
                    assert(p@->Arr_0[k as int] is Str);
                    assert(s@ == p@->Arr_0[k as int]->Str_0);
                    assert(spec_parse_dtype(p@->Arr_0[k as int]->Str_0) == Some(
                        out@[k as int],
                    ));
                }
            },
            Err(e) => {
                proof {
                    assert(p@->Arr_0[k as int] is Str);
                    assert(s@ == p@->Arr_0[k as int]->Str_0);
                    assert(spec_parse_dtype(p@->Arr_0[k as int]->Str_0) is None);
                }
                return Err(e);
            },
        }
        k = k + 1;
    }
    proof {
        let s = p@->Arr_0;
        assert forall|i: int|
            0 <= i < s.len() implies ((#[trigger] s[i]) is Str && spec_parse_dtype(s[i]->Str_0)
                == Some(out@[i])) by {
            assert(spec_parse_dtype(p@->Arr_0[i]->Str_0) == Some(out@[i]));
        }
        assert(out@ =~= Seq::new(s.len(), |i: int| spec_parse_dtype(s[i]->Str_0)->Some_0));
    }
    Ok(out)
}

/// Looks a graph-level attribute up by key; the last entry carrying it
/// wins.
fn graph_attr<'a>(attrs: &'a Vec<(String, Json)>, key: &str) -> (r: Option<&'a Json>)
    ensures
        ({
            let av = Seq::new(attrs@.len(), |i: int| (attrs@[i].0@, crate::json::json_view(attrs@[i].1)));
            match spec_obj_get(av, key@) {
                Some(v) => r matches Some(x) && x@ == v,
                None => r is None,
            }
        }),
{
    let ghost av = Seq::new(
        attrs@.len(),
        |i: int| (attrs@[i].0@, crate::json::json_view(attrs@[i].1)),
    );
    let key_s = String::from_str(key);
    let n = attrs.len();
    proof {
        assert(av.take(n as int) =~= av);
    }
    let mut k: usize = n;
    while k > 0
        invariant
            k <= n,
            n == attrs@.len(),
            key_s@ == key@,
            av == Seq::new(
                attrs@.len(),
                |i: int| (attrs@[i].0@, crate::json::json_view(attrs@[i].1)),
            ),
            spec_obj_get(av, key@) == spec_obj_get(av.take(k as int), key@),
        decreases k,
    {
        k = k - 1;
        proof {
            assert(av.take(k + 1).last() == av[k as int]);
            assert(av.take(k + 1).drop_last() =~= av.take(k as int));
        }
        if attrs[k].0 == key_s {
            return Some(&attrs[k].1);
        }
    }
    proof {
        assert(av.take(0) =~= Seq::<(Seq<char>, JsonVal)>::empty());
    }
    None
}

impl GraphExecutor {
    /// Builds an executor: decodes the storage plan out of the graph
    /// attributes, allocates and assigns the arena, binds every operator
    /// to its kernel, and records the parameter slot of every `null`
    /// input node.
    pub fn new<M: Module>(graph: &Graph, lib: &M) -> (r: Result<GraphExecutor, Error>)
        ensures
            match r {
                Ok(ex) => {
                    &&& sp_constructible(graph@, lib)
                    &&& ex.wf()
                    &&& ({
                        let t = sp_plan_inputs(graph@)->Some_0;
                        let nb = spec_nbytes_seq2(t.2, t.1);
                        &&& ex.arena().len() == spec_total_bytes(t.0, nb)
                        &&& ex.tensors_view().len() == t.0.len()
                        &&& forall|i: int|
                            0 <= i < t.0.len() ==> {
                                let tn = #[trigger] ex.tensors_view()[i];
                                &&& tn.dtype == t.2[i]
                                &&& tn.shape@ == t.1[i]
                                &&& tn.strides is None
                                &&& tn.byte_offset == spec_slot_offset(t.0, nb, t.0[i] as int)
                                &&& tn.numel == spec_numel(t.1[i])
                            }
                    })
                    &&& forall|k1: int, k2: int|
                        0 <= k1 < k2 < ex.ops_view().len() ==> (#[trigger] ex.ops_view()[k1]).node_id
                            < (#[trigger] ex.ops_view()[k2]).node_id
                    &&& forall|k: int|
                        0 <= k < ex.ops_view().len() ==> (#[trigger] ex.ops_view()[k]).node_id
                            < graph@.nodes.len() && graph@.nodes[ex.ops_view()[k].node_id as int].op
                            != "null"@ && spec_op_bound(
                            graph@,
                            lib,
                            ex.ops_view()[k],
                            ex.ops_view()[k].node_id as int,
                        )
                    &&& forall|nid: int|
                        0 <= nid < graph@.nodes.len() && (#[trigger] graph@.nodes[nid]).op
                            != "null"@ ==> exists|k: int|
                            0 <= k < ex.ops_view().len() && (#[trigger] ex.ops_view()[k].node_id)
                                == nid
                    &&& slots_named(ex.slots_view()) == sp_param_slots(
                        graph@,
                        graph@.nodes.len() as int,
                    )
                },
                Err(e) => {
                    &&& !sp_constructible(graph@, lib)
                    &&& (e is GraphFormat || e is Alloc || e matches Error::MissingFunction(_))
                },
            },
    {
        let attrs = match &graph.attrs {
            Some(a) => a,
            None => {
                return Err(Error::GraphFormat(String::from_str("Missing graph attrs")));
            },
        };
        proof {
            assert(graph@.attrs->Some_0 =~= Seq::new(
                attrs@.len(),
                |i: int| (attrs@[i].0@, crate::json::json_view(attrs@[i].1)),
            ));
        }
        let sid_j = match graph_attr(attrs, "storage_id") {
            Some(x) => x,
            None => {
                return Err(Error::GraphFormat(String::from_str("Missing storage_id attr")));
            },
        };
        let shape_j = match graph_attr(attrs, "shape") {
            Some(x) => x,
            None => {
                return Err(Error::GraphFormat(String::from_str("Missing shape attr")));
            },
        };
        let dtype_j = match graph_attr(attrs, "dltype") {
            Some(x) => x,
            None => {
                return Err(Error::GraphFormat(String::from_str("Missing dltype attr")));
            },
        };
        let storage_ids = match decode_attr_usizes(sid_j) {
            Ok(v) => v,
            Err(e) => {
                return Err(e);
            },
        };
        let shapes = match decode_attr_shapes(shape_j) {
            Ok(v) => v,
            Err(e) => {
                return Err(e);
            },
        };
        let dtypes = match decode_attr_dtypes(dtype_j) {
            Ok(v) => v,
            Err(e) => {
                return Err(e);
            },
        };
        if !(storage_ids.len() == shapes.len() && storage_ids.len() == dtypes.len()) {
            return Err(Error::GraphFormat(String::from_str("mismatched graph attr lengths")));
        }
        proof {
            let t = sp_plan_inputs(graph@)->Some_0;
            assert(storage_ids@ == t.0);
            assert(dtypes@ == t.2);
            assert forall|i: int| 0 <= i < shapes@.len() implies (#[trigger] shapes@[i])@
                == t.1[i] by {}
            assert(spec_nbytes_seq(dtypes@, shapes@) =~= spec_nbytes_seq2(t.2, t.1));
        }
        let (storage, tensors) = match setup_storages(&storage_ids, &shapes, &dtypes) {
            Ok(x) => x,
            Err(e) => {
                return Err(e);
            },
        };
        let ops = match setup_op_execs(graph, lib, tensors.len()) {
            Ok(x) => x,
            Err(e) => {
                return Err(e);
            },
        };
        let nrp = match &graph.node_row_ptr {
            Some(v) => v,
            None => {
                proof {
                    assert(false);
                }
                return Err(Error::Alloc);
            },
        };
        proof {
            assert(graph@.node_row_ptr == Some(nrp@));
        }
        let null_s = String::from_str("null");
        let n = graph.nodes.len();
        let mut slots: Vec<(String, usize)> = Vec::new();
        let mut nid: usize = 0;
        while nid < n
            invariant
                nid <= n,
                n == graph@.nodes.len(),
                null_s@ == "null"@,
                graph@.node_row_ptr == Some(nrp@),
                sp_plan_inputs(graph@) matches Some(pt) && pt.0 == storage_ids@,
                tensors@.len() == storage_ids@.len(),
                slots_named(slots@) == sp_param_slots(graph@, nid as int),
                forall|k: int| 0 <= k < slots@.len() ==> (#[trigger] slots@[k]).1 < tensors@.len(),
            decreases n - nid,
        {
            let node = &graph.nodes[nid];
            proof {
                assert(graph@.nodes[nid as int] == node_view(graph.nodes@[nid as int]));
            }
            if node.op == null_s && nid < nrp.len() {
                let idx = nrp[nid];
                if idx >= tensors.len() {
                    proof {
                        let g = graph@;
                        let full = sp_param_slots(g, g.nodes.len() as int);
                        lemma_slots_prefix(g, nid + 1, g.nodes.len() as int);
                        let pos = sp_param_slots(g, nid as int).len() as int;
                        assert(sp_param_slots(g, nid + 1)[pos].1 == idx as int);
                        assert(full[pos].1 == idx as int);
                    }
                    return Err(Error::GraphFormat(String::from_str("param slot out of range")));
                }
                slots.push((node.name.clone(), idx));
                proof {
                    assert(slots_named(slots@) =~= sp_param_slots(graph@, nid + 1));
                }
            } else {
                proof {
                    assert(sp_param_slots(graph@, nid + 1) =~= sp_param_slots(graph@, nid as int));
                }
            }
            nid = nid + 1;
        }
        let ex = GraphExecutor { storage, tensors, op_execs: ops, param_slots: slots };
        proof {
            let t = sp_plan_inputs(graph@)->Some_0;
            let nb = spec_nbytes_seq2(t.2, t.1);
            lemma_storage_plan(t.0, nb);
            assert forall|i: int| 0 <= i < ex.tensors_view().len() implies {
                let tn = #[trigger] ex.tensors_view()[i];
                &&& tn.wf()
                &&& tn.data matches Storage::View(off, sz) && off == 0 && sz == ex.arena().len()
                &&& tn.byte_offset + tn.numel * tn.dtype.spec_itemsize() <= ex.arena().len()
            } by {
                let tn = ex.tensors_view()[i];
                vstd::arithmetic::mul::lemma_mul_is_commutative(
                    tn.numel as int,
                    tn.dtype.spec_itemsize() as int,
                );
                assert(nb[i] == spec_nbytes(t.2[i], t.1[i]));
            }
            assert(ex.wf());
            assert(spec_plan_fits2(t.0, t.2, t.1)) by {
                assert forall|i: int|
                    0 <= i < t.1.len() implies spec_numel(#[trigger] t.1[i]) <= usize::MAX by {
                    assert(spec_numel(shapes@[i]@) <= usize::MAX);
                    assert(shapes@[i]@ == t.1[i]);
                }
            }
            assert(sp_constructible(graph@, lib)) by {
                assert forall|k: int|
                    0 <= k < sp_param_slots(graph@, graph@.nodes.len() as int).len() implies 0 <= (
                #[trigger] sp_param_slots(graph@, graph@.nodes.len() as int)[k]).1
                    < t.0.len() by {
                    assert(sp_param_slots(graph@, graph@.nodes.len() as int)[k] == slots_named(
                        ex.slots_view(),
                    )[k]);
                }
            }
        }
        Ok(ex)
    }
}

/// The slot of the first parameter entry named `name`, if any.
pub open spec fn spec_find_slot(slots: Seq<(String, usize)>, name: Seq<char>) -> Option<usize>
    decreases slots.len(),
{
    if slots.len() == 0 {
        None
    } else if slots[0].0@ == name {
        Some(slots[0].1)
    } else {
        spec_find_slot(slots.skip(1), name)
    }
}

/// What loading the parameters leaves in the arena: each named tensor, in
/// order, written over its slot's byte range — or nothing when a name has
/// no slot, a slot is out of range, a source does not match its slot's
/// element type and count, or a source's bytes fall short.
pub open spec fn sp_load(
    tensors: Seq<Tensor>,
    slots: Seq<(String, usize)>,
    arena: Seq<u8>,
    params: Seq<(String, Tensor)>,
) -> Option<Seq<u8>>
    decreases params.len(),
{
    if params.len() == 0 {
        Some(arena)
    } else {
        let name = params[0].0;
        let src = params[0].1;
        match spec_find_slot(slots, name@) {
            None => None,
            Some(idx) => if idx >= tensors.len() {
                None
            } else {
                let dst = tensors[idx as int];
                let nb = dst.numel * dst.dtype.spec_itemsize();
                if src.dtype != dst.dtype || src.numel != dst.numel {
                    None
                } else if !(src.data is Owned) {
                    None
                } else if src.byte_offset + nb > src.owned_bytes().len() {
                    None
                } else if dst.byte_offset + nb > arena.len() {
                    None
                } else {
                    let arena2 = arena.take(dst.byte_offset as int) + src.owned_bytes().subrange(
                        src.byte_offset as int,
                        src.byte_offset + nb,
                    ) + arena.skip(dst.byte_offset + nb);
                    sp_load(tensors, slots, arena2, params.skip(1))
                }
            },
        }
    }
}

/// A found slot is one of the listed slots.
proof fn lemma_find_slot_in(slots: Seq<(String, usize)>, name: Seq<char>)
    ensures
        match spec_find_slot(slots, name) {
            Some(v) => exists|k: int| 0 <= k < slots.len() && (#[trigger] slots[k]).1 == v,
            None => true,
        },
    decreases slots.len(),
{
    if slots.len() > 0 && !(slots[0].0@ == name) {
        lemma_find_slot_in(slots.skip(1), name);
        match spec_find_slot(slots.skip(1), name) {
            Some(v) => {
                let k = choose|k: int|
                    0 <= k < slots.skip(1).len() && (#[trigger] slots.skip(1)[k]).1 == v;
                assert(slots[k + 1].1 == v);
            },
            None => {},
        }
    }
}

/// Looks a parameter slot up by name.
fn find_slot(slots: &Vec<(String, usize)>, name: &String) -> (r: Option<usize>)
    ensures
        r == spec_find_slot(slots@, name@),
{
    let n = slots.len();
    proof {
        assert(slots@.skip(0) =~= slots@);
    }
    let mut k: usize = 0;
    while k < n
        invariant
            k <= n,
            n == slots@.len(),
            spec_find_slot(slots@, name@) == spec_find_slot(slots@.skip(k as int), name@),
        decreases n - k,
    {
        proof {
            assert(slots@.skip(k as int)[0] == slots@[k as int]);
            assert(slots@.skip(k as int).skip(1) =~= slots@.skip(k + 1));
        }
        if slots[k].0 == *name {
            return Some(slots[k].1);
        }
        k = k + 1;
    }
    None
}

impl GraphExecutor {
    /// Copies each named parameter tensor, in order, into the arena range
    /// its slot was planned at. Requires each name to have a slot and
    /// each source to match its slot's element type and count; on
    /// failure, entries before the failing one are already written.
    pub fn load_params(&mut self, params: &Vec<(String, Tensor)>) -> (r: Result<(), Error>)
        requires
            old(self).wf(),
        ensures
            final(self).wf(),
            final(self).tensors_view() == old(self).tensors_view(),
            final(self).ops_view() == old(self).ops_view(),
            final(self).slots_view() == old(self).slots_view(),
            final(self).arena().len() == old(self).arena().len(),
            match r {
                Ok(()) => sp_load(
                    old(self).tensors_view(),
                    old(self).slots_view(),
                    old(self).arena(),
                    params@,
                ) == Some(final(self).arena()),
                Err(e) => sp_load(
                    old(self).tensors_view(),
                    old(self).slots_view(),
                    old(self).arena(),
                    params@,
                ) is None && e is GraphFormat,
            },
    {
        let n = params.len();
        proof {
            assert(params@.skip(0) =~= params@);
        }
        let mut i: usize = 0;
        while i < n
            invariant
                i <= n,
                n == params@.len(),
                self.wf(),
                self.tensors_view() == old(self).tensors_view(),
                self.ops_view() == old(self).ops_view(),
                self.slots_view() == old(self).slots_view(),
                self.arena().len() == old(self).arena().len(),
                match sp_load(
                    self.tensors_view(),
                    self.slots_view(),
                    self.arena(),
                    params@.skip(i as int),
                ) {
                    Some(fin) => sp_load(
                        old(self).tensors_view(),
                        old(self).slots_view(),
                        old(self).arena(),
                        params@,
                    ) == Some(fin),
                    None => sp_load(
                        old(self).tensors_view(),
                        old(self).slots_view(),
                        old(self).arena(),
                        params@,
                    ) is None,
                },
            decreases n - i,
        {
            proof {
                assert(params@.skip(i as int)[0] == params@[i as int]);
                assert(params@.skip(i as int).skip(1) =~= params@.skip(i + 1));
            }
            let pr = &params[i];
            let idx = match find_slot(&self.param_slots, &pr.0) {
                Some(idx) => idx,
                None => {
                    return Err(Error::GraphFormat(String::from_str("no slot for parameter")));
                },
            };
            proof {
                lemma_find_slot_in(self.slots_view(), pr.0@);
                assert(idx < self.tensors_view().len());
            }
            let (d_off, d_nb) = {
                let dst = &self.tensors[idx];
                proof {
                    match &self.storage {
                        Storage::Owned(a) => {
                            a.lemma_len_fits_usize();
                        },
                        Storage::View(_, _) => {},
                    }
                }
                let nb = dst.numel * dst.dtype.itemsize();
                if !(pr.1.dtype == dst.dtype) || pr.1.numel != dst.numel {
                    return Err(Error::GraphFormat(String::from_str("parameter mismatch")));
                }
                (dst.byte_offset, nb)
            };
            let src_alloc = match &pr.1.data {
                Storage::Owned(a) => a,
                Storage::View(_, _) => {
                    return Err(Error::GraphFormat(String::from_str("parameter not owned")));
                },
            };
            proof {
                src_alloc.lemma_len_fits_usize();
            }
            let cap = src_alloc.size();
            let s_off = pr.1.byte_offset;
            match s_off.checked_add(d_nb) {
                Some(end) => {
                    if end > cap {
                        return Err(
                            Error::GraphFormat(String::from_str("parameter bytes fall short")),
                        );
                    }
                },
                None => {
                    return Err(
                        Error::GraphFormat(String::from_str("parameter bytes fall short")),
                    );
                },
            }
            let src_bytes = src_alloc.bytes();
            let ghost arena_pre = self.arena();
            match &mut self.storage {
                Storage::Owned(a) => {
                    a.write_bytes_at(d_off, src_bytes, s_off, d_nb);
                },
                Storage::View(_, _) => {
                    proof {
                        assert(false);
                    }
                },
            }
            proof {
                let arena2 = arena_pre.take(d_off as int) + pr.1.owned_bytes().subrange(
                    s_off as int,
                    s_off + d_nb,
                ) + arena_pre.skip(d_off + d_nb);
                assert(self.arena() == arena2);
            }
            i = i + 1;
        }
        proof {
            assert(params@.skip(n as int) =~= Seq::<(String, Tensor)>::empty());
        }
        Ok(())
    }
}

/// A copy of a word vector.
fn copy_usizes(v: &Vec<usize>) -> (r: Vec<usize>)
    ensures
        r@ == v@,
{
    let mut r: Vec<usize> = Vec::new();
    let mut k: usize = 0;
    while k < v.len()
        invariant
            k <= v@.len(),
            r@ == v@.take(k as int),
        decreases v@.len() - k,
    {
        r.push(v[k]);
        proof {
            assert(r@ =~= v@.take(k + 1));
        }
        k = k + 1;
    }
    proof {
        assert(r@ =~= v@);
    }
    r
}

} // verus!
