//! The computation graph: nodes, edges and graph-level attributes, decoded
//! from JSON.
//!
//! A graph holds its nodes, the indices of its argument nodes, its output
//! entries, an optional prefix-sum table mapping a node to the start of
//! its outputs in the flat tensor vector, and optional graph-level
//! attributes kept as raw JSON values. Every decoding step is mirrored by
//! a spec function over the JSON value; the decoder returns exactly what
//! the mirror names.

use vstd::prelude::*;

use crate::errors::Error;
use crate::json::json_view;
use crate::json::parse_json;
use crate::json::sp_json;
use crate::json::spec_obj_get;
use crate::json::Json;
use crate::json::JsonVal;

verus! {

broadcast use vstd::std_specs::vec::group_vec_axioms, vstd::seq::group_seq_axioms;

/// One edge end: the node it comes from, which of that node's outputs,
/// and a version counter.
#[derive(Clone, Copy, Debug, PartialEq, Eq, Structural)]
pub struct Entry {
    pub id: usize,
    pub index: usize,
    pub version: usize,
}

/// One graph node: an operator name (`"null"` for graph inputs), the
/// node's own name, its input entries, optional string attributes and
/// optional control dependencies.
pub struct Node {
    pub op: String,
    pub name: String,
    pub inputs: Vec<Entry>,
    pub attrs: Option<Vec<(String, String)>>,
    pub control_deps: Option<Vec<Entry>>,
}

/// A node as mathematics.
pub struct NodeV {
    pub op: Seq<char>,
    pub name: Seq<char>,
    pub inputs: Seq<Entry>,
    pub attrs: Option<Seq<(Seq<char>, Seq<char>)>>,
    pub control_deps: Option<Seq<Entry>>,
}

/// The computation graph.
pub struct Graph {
    pub nodes: Vec<Node>,
    pub arg_nodes: Vec<usize>,
    pub heads: Vec<Entry>,
    pub node_row_ptr: Option<Vec<usize>>,
    pub attrs: Option<Vec<(String, Json)>>,
}

/// A graph as mathematics.
pub struct GraphV {
    pub nodes: Seq<NodeV>,
    pub arg_nodes: Seq<usize>,
    pub heads: Seq<Entry>,
    pub node_row_ptr: Option<Seq<usize>>,
    pub attrs: Option<Seq<(Seq<char>, JsonVal)>>,
}

/// The mathematical value of a node.
pub open spec fn node_view(n: Node) -> NodeV {
    NodeV {
        op: n.op@,
        name: n.name@,
        inputs: n.inputs@,
        attrs: match n.attrs {
            Some(v) => Some(Seq::new(v@.len(), |i: int| (v@[i].0@, v@[i].1@))),
            None => None,
        },
        control_deps: match n.control_deps {
            Some(v) => Some(v@),
            None => None,
        },
    }
}

impl View for Node {
    type V = NodeV;

    open spec fn view(&self) -> NodeV {
        node_view(*self)
    }
}

/// The mathematical value of a graph.
pub open spec fn graph_view(g: Graph) -> GraphV {
    GraphV {
        nodes: Seq::new(g.nodes@.len(), |i: int| node_view(g.nodes@[i])),
        arg_nodes: g.arg_nodes@,
        heads: g.heads@,
        node_row_ptr: match g.node_row_ptr {
            Some(v) => Some(v@),
            None => None,
        },
        attrs: match g.attrs {
            Some(v) => Some(Seq::new(v@.len(), |i: int| (v@[i].0@, json_view(v@[i].1)))),
            None => None,
        },
    }
}

impl View for Graph {
    type V = GraphV;

    open spec fn view(&self) -> GraphV {
        graph_view(*self)
    }
}

/// The entry a three-integer array names, when every integer fits a
/// machine word.
pub open spec fn sp_entry_of(v: JsonVal) -> Option<Entry> {
    match v {
        JsonVal::Arr(items) => if items.len() == 3 {
            match (items[0], items[1], items[2]) {
                (JsonVal::Int(a), JsonVal::Int(b), JsonVal::Int(c)) => if 0 <= a <= usize::MAX && 0
                    <= b <= usize::MAX && 0 <= c <= usize::MAX {
                    Some(Entry { id: a as usize, index: b as usize, version: c as usize })
                } else {
                    None
                },
                _ => None,
            }
        } else {
            None
        },
        _ => None,
    }
}

/// The entries an array of entry arrays names.
pub open spec fn sp_entry_list(items: Seq<JsonVal>) -> Option<Seq<Entry>> {
    if forall|i: int| 0 <= i < items.len() ==> sp_entry_of(#[trigger] items[i]) is Some {
        Some(Seq::new(items.len(), |i: int| sp_entry_of(items[i])->Some_0))
    } else {
        None
    }
}

/// The entries a JSON value names, when it is an array of entry arrays.
pub open spec fn sp_entries_of(v: JsonVal) -> Option<Seq<Entry>> {
    match v {
        JsonVal::Arr(items) => sp_entry_list(items),
        _ => None,
    }
}

/// The machine words an array of integers names.
pub open spec fn sp_usize_list(items: Seq<JsonVal>) -> Option<Seq<usize>> {
    if forall|i: int|
        0 <= i < items.len() ==> ((#[trigger] items[i]) matches JsonVal::Int(x) && 0 <= x
            <= usize::MAX) {
        Some(Seq::new(items.len(), |i: int| items[i]->Int_0 as usize))
    } else {
        None
    }
}

/// The machine words a JSON value names, when it is an array of integers
/// in range.
pub open spec fn sp_usizes_of(v: JsonVal) -> Option<Seq<usize>> {
    match v {
        JsonVal::Arr(items) => sp_usize_list(items),
        _ => None,
    }
}

/// The string map an object with string values names.
pub open spec fn sp_strpairs_of(v: JsonVal) -> Option<Seq<(Seq<char>, Seq<char>)>> {
    match v {
        JsonVal::Obj(fields) => if forall|i: int|
            0 <= i < fields.len() ==> (#[trigger] fields[i]).1 is Str {
            Some(Seq::new(fields.len(), |i: int| (fields[i].0, fields[i].1->Str_0)))
        } else {
            None
        },
        _ => None,
    }
}

/// The node a JSON object names: required `op`, `name` and `inputs`,
/// optional `attrs` (an object of strings) and `control_deps`; `null`
/// counts as absent.
pub open spec fn sp_node_of(v: JsonVal) -> Option<NodeV> {
    match v {
        JsonVal::Obj(nf) => {
            let op = spec_obj_get(nf, "op"@);
            let name = spec_obj_get(nf, "name"@);
            let inputs = spec_obj_get(nf, "inputs"@);
            if !(op matches Some(o) && o is Str) {
                None
            } else if !(name matches Some(nm) && nm is Str) {
                None
            } else if !(inputs matches Some(iv) && sp_entries_of(iv) is Some) {
                None
            } else {
                let attrs = match spec_obj_get(nf, "attrs"@) {
                    None => Some(None),
                    Some(JsonVal::Null) => Some(None),
                    Some(av) => match sp_strpairs_of(av) {
                        Some(ps) => Some(Some(ps)),
                        None => None,
                    },
                };
                let deps = match spec_obj_get(nf, "control_deps"@) {
                    None => Some(None),
                    Some(JsonVal::Null) => Some(None),
                    Some(dv) => match sp_entries_of(dv) {
                        Some(es) => Some(Some(es)),
                        None => None,
                    },
                };
                match (attrs, deps) {
                    (Some(a), Some(d)) => Some(
                        NodeV {
                            op: op->Some_0->Str_0,
                            name: name->Some_0->Str_0,
                            inputs: sp_entries_of(inputs->Some_0)->Some_0,
                            attrs: a,
                            control_deps: d,
                        },
                    ),
                    _ => None,
                }
            }
        },
        _ => None,
    }
}

/// The nodes an array of node objects names.
pub open spec fn sp_node_list(items: Seq<JsonVal>) -> Option<Seq<NodeV>> {
    if forall|i: int| 0 <= i < items.len() ==> sp_node_of(#[trigger] items[i]) is Some {
        Some(Seq::new(items.len(), |i: int| sp_node_of(items[i])->Some_0))
    } else {
        None
    }
}

/// The graph a JSON document names: required `nodes`, `arg_nodes` and
/// `heads`, optional `node_row_ptr` and `attrs`; `null` counts as
/// absent.
pub open spec fn sp_graph_of(v: JsonVal) -> Option<GraphV> {
    match v {
        JsonVal::Obj(gf) => {
            let nodes = spec_obj_get(gf, "nodes"@);
            let arg_nodes = spec_obj_get(gf, "arg_nodes"@);
            let heads = spec_obj_get(gf, "heads"@);
            if !(nodes matches Some(JsonVal::Arr(items)) && sp_node_list(items) is Some) {
                None
            } else if !(arg_nodes matches Some(av) && sp_usizes_of(av) is Some) {
                None
            } else if !(heads matches Some(hv) && sp_entries_of(hv) is Some) {
                None
            } else {
                let nrp = match spec_obj_get(gf, "node_row_ptr"@) {
                    None => Some(None),
                    Some(JsonVal::Null) => Some(None),
                    Some(rv) => match sp_usizes_of(rv) {
                        Some(u) => Some(Some(u)),
                        None => None,
                    },
                };
                let attrs = match spec_obj_get(gf, "attrs"@) {
                    None => Some(None),
                    Some(JsonVal::Null) => Some(None),
                    Some(JsonVal::Obj(afs)) => Some(Some(afs)),
                    Some(_) => None,
                };
                match (nrp, attrs) {
                    (Some(rp), Some(at)) => Some(
                        GraphV {
                            nodes: sp_node_list(nodes->Some_0->Arr_0)->Some_0,
                            arg_nodes: sp_usizes_of(arg_nodes->Some_0)->Some_0,
                            heads: sp_entries_of(heads->Some_0)->Some_0,
                            node_row_ptr: rp,
                            attrs: at,
                        },
                    ),
                    _ => None,
                }
            }
        },
        _ => None,
    }
}

/// The graph a JSON text names.
pub open spec fn sp_graph_json(s: Seq<char>) -> Option<GraphV> {
    match sp_json(s) {
        None => None,
        Some(v) => sp_graph_of(v),
    }
}

/// Decodes one entry from a three-integer array.
fn decode_entry(j: &Json) -> (r: Option<Entry>)
    ensures
        r == sp_entry_of(j@),
{
    if j.arr_len() != 3 {
        return None;
    }
    let a = match j.arr_get(0) {
        Some(x) => x.as_usize(),
        None => None,
    };
    let b = match j.arr_get(1) {
        Some(x) => x.as_usize(),
        None => None,
    };
    let c = match j.arr_get(2) {
        Some(x) => x.as_usize(),
        None => None,
    };
    match (a, b, c) {
        (Some(id), Some(index), Some(version)) => Some(Entry { id, index, version }),
        _ => None,
    }
}

/// Decodes a list of entries.
fn decode_entries(j: &Json) -> (r: Result<Vec<Entry>, Error>)
    ensures
        match sp_entries_of(j@) {
            Some(es) => r matches Ok(v) && v@ == es,
            None => r matches Err(e) && e is GraphDeserialize,
        },
{
    let items = match j {
        Json::Arr(items) => items,
        _ => {
            return Err(crate::json::deserialize_error());
        },
    };
    proof {
        assert(j@ matches JsonVal::Arr(s) && s.len() == items@.len());
    }
    let n = items.len();
    let mut out: Vec<Entry> = Vec::new();
    let mut k: usize = 0;
    while k < n
        invariant
            k <= n,
            n == items@.len(),
            j matches Json::Arr(iv) && iv@ == items@,
            j@ matches JsonVal::Arr(s) && s.len() == items@.len(),
            out@.len() == k,
            forall|i: int|
                0 <= i < k ==> sp_entry_of(#[trigger] j@->Arr_0[i]) == Some(out@[i]),
        decreases n - k,
    {
        proof {
            assert(j@->Arr_0[k as int] == items@[k as int]@);
        }
        match decode_entry(&items[k]) {
            Some(e) => {
                out.push(e);
            },
            None => {
                proof {
                    assert(sp_entry_of(j@->Arr_0[k as int]) is None);
                }
                return Err(crate::json::deserialize_error());
            },
        }
        k = k + 1;
    }
    proof {
        let s = j@->Arr_0;
        assert forall|i: int| 0 <= i < s.len() implies sp_entry_of(#[trigger] s[i]) is Some by {}
        assert(out@ =~= Seq::new(s.len(), |i: int| sp_entry_of(s[i])->Some_0));
    }
    Ok(out)
}

/// Decodes a list of machine words.
pub(crate) fn decode_usizes(j: &Json) -> (r: Result<Vec<usize>, Error>)
    ensures
        match sp_usizes_of(j@) {
            Some(us) => r matches Ok(v) && v@ == us,
            None => r matches Err(e) && e is GraphDeserialize,
        },
{
    let items = match j {
        Json::Arr(items) => items,
        _ => {
            return Err(crate::json::deserialize_error());
        },
    };
    proof {
        assert(j@ matches JsonVal::Arr(s) && s.len() == items@.len());
    }
    let n = items.len();
    let mut out: Vec<usize> = Vec::new();
    let mut k: usize = 0;
    while k < n
        invariant
            k <= n,
            n == items@.len(),
            j matches Json::Arr(iv) && iv@ == items@,
            j@ matches JsonVal::Arr(s) && s.len() == items@.len(),
            out@.len() == k,
            forall|i: int|
                0 <= i < k ==> ((#[trigger] j@->Arr_0[i]) matches JsonVal::Int(x) && 0 <= x
                    <= usize::MAX && out@[i] == x as usize),
        decreases n - k,
    {
        proof {
            assert(j@->Arr_0[k as int] == items@[k as int]@);
        }
        match items[k].as_usize() {
            Some(u) => {
                out.push(u);
            },
            None => {
                return Err(crate::json::deserialize_error());
            },
        }
        k = k + 1;
    }
    proof {
        let s = j@->Arr_0;
        assert(out@ =~= Seq::new(s.len(), |i: int| s[i]->Int_0 as usize));
    }
    Ok(out)
}

/// Decodes an object whose values are all strings.
fn decode_strpairs(j: &Json) -> (r: Result<Vec<(String, String)>, Error>)
    ensures
        match sp_strpairs_of(j@) {
            Some(ps) => r matches Ok(v) && v@.len() == ps.len() && forall|i: int|
                0 <= i < ps.len() ==> (#[trigger] v@[i]).0@ == ps[i].0 && v@[i].1@ == ps[i].1,
            None => r matches Err(e) && e is GraphDeserialize,
        },
{
    let fields = match j {
        Json::Obj(fields) => fields,
        _ => {
            return Err(crate::json::deserialize_error());
        },
    };
    proof {
        assert(j@ matches JsonVal::Obj(s) && s.len() == fields@.len());
    }
    let n = fields.len();
    let mut out: Vec<(String, String)> = Vec::new();
    let mut k: usize = 0;
    while k < n
        invariant
            k <= n,
            n == fields@.len(),
            j matches Json::Obj(fv) && fv@ == fields@,
            j@ matches JsonVal::Obj(s) && s.len() == fields@.len(),
            out@.len() == k,
            forall|i: int|
                0 <= i < k ==> ((#[trigger] j@->Obj_0[i]).1 is Str && out@[i].0@ == j@->Obj_0[i].0
                    && out@[i].1@ == j@->Obj_0[i].1->Str_0),
        decreases n - k,
    {
        proof {
            assert(j@->Obj_0[k as int] == (fields@[k as int].0@, json_view(fields@[k as int].1)));
        }
        match &fields[k].1 {
            Json::Str(sv) => {
                out.push((fields[k].0.clone(), sv.clone()));
            },
            _ => {
                return Err(crate::json::deserialize_error());
            },
        }
        k = k + 1;
    }
    Ok(out)
}

/// Decodes one node from its JSON object.
fn decode_node(j: &Json) -> (r: Result<Node, Error>)
    ensures
        match sp_node_of(j@) {
            Some(nv) => r matches Ok(nd) && nd@ == nv,
            None => r matches Err(e) && e is GraphDeserialize,
        },
{
    match j {
        Json::Obj(_) => {},
        _ => {
            return Err(crate::json::deserialize_error());
        },
    }
    let op = match j.obj_get("op") {
        Some(oj) => match oj.as_str() {
            Some(s) => s.clone(),
            None => {
                return Err(crate::json::deserialize_error());
            },
        },
        None => {
            return Err(crate::json::deserialize_error());
        },
    };
    let name = match j.obj_get("name") {
        Some(nj) => match nj.as_str() {
            Some(s) => s.clone(),
            None => {
                return Err(crate::json::deserialize_error());
            },
        },
        None => {
            return Err(crate::json::deserialize_error());
        },
    };
    let inputs = match j.obj_get("inputs") {
        Some(ij) => match decode_entries(ij) {
            Ok(v) => v,
            Err(e) => {
                return Err(e);
            },
        },
        None => {
            return Err(crate::json::deserialize_error());
        },
    };
    let attrs = match j.obj_get("attrs") {
        None => None,
        Some(aj) => match aj {
            Json::Null => None,
            _ => match decode_strpairs(aj) {
                Ok(v) => Some(v),
                Err(e) => {
                    return Err(e);
                },
            },
        },
    };
    let control_deps = match j.obj_get("control_deps") {
        None => None,
        Some(dj) => match dj {
            Json::Null => None,
            _ => match decode_entries(dj) {
                Ok(v) => Some(v),
                Err(e) => {
                    return Err(e);
                },
            },
        },
    };
    let nd = Node { op, name, inputs, attrs, control_deps };
    proof {
        let nv = sp_node_of(j@)->Some_0;
        assert(nd@.op == nv.op && nd@.name == nv.name && nd@.inputs == nv.inputs);
        match &nd.attrs {
            Some(av) => {
                assert(nd@.attrs matches Some(aps) && nv.attrs matches Some(vps) && aps =~= vps);
            },
            None => {},
        }
    }
    Ok(nd)
}

/// Decodes the node list.
fn decode_nodes(j: &Json) -> (r: Result<Vec<Node>, Error>)
    ensures
        match j@ {
            JsonVal::Arr(items) => match sp_node_list(items) {
                Some(ns) => r matches Ok(v) && v@.len() == ns.len() && forall|i: int|
                    0 <= i < ns.len() ==> (#[trigger] v@[i])@ == ns[i],
                None => r matches Err(e) && e is GraphDeserialize,
            },
            _ => r matches Err(e) && e is GraphDeserialize,
        },
{
    let items = match j {
        Json::Arr(items) => items,
        _ => {
            return Err(crate::json::deserialize_error());
        },
    };
    proof {
        assert(j@ matches JsonVal::Arr(s) && s.len() == items@.len());
    }
    let n = items.len();
    let mut out: Vec<Node> = Vec::new();
    let mut k: usize = 0;
    while k < n
        invariant
            k <= n,
            n == items@.len(),
            j matches Json::Arr(iv) && iv@ == items@,
            j@ matches JsonVal::Arr(s) && s.len() == items@.len(),
            out@.len() == k,
            forall|i: int|
                0 <= i < k ==> sp_node_of(#[trigger] j@->Arr_0[i]) == Some((#[trigger] out@[i])@),
        decreases n - k,
    {
        proof {
            assert(j@->Arr_0[k as int] == items@[k as int]@);
        }
        match decode_node(&items[k]) {
            Ok(nd) => {
                out.push(nd);
            },
            Err(e) => {
                proof {
                    assert(sp_node_of(j@->Arr_0[k as int]) is None);
                }
                return Err(e);
            },
        }
        k = k + 1;
    }
    proof {
        let s = j@->Arr_0;
        assert forall|i: int| 0 <= i < s.len() implies sp_node_of(#[trigger] s[i]) is Some by {
            assert(sp_node_of(s[i]) == Some(out@[i]@));
        }
        assert forall|i: int|
            0 <= i < s.len() implies (#[trigger] out@[i])@ == sp_node_list(s)->Some_0[i] by {
            assert(sp_node_of(s[i]) == Some(out@[i]@));
        }
    }
    Ok(out)
}

impl Graph {
    /// Decodes a graph from its JSON text. Fails, with a deserialize
    /// error, exactly on the texts that name no graph.
    pub fn from_json(s: &str) -> (r: Result<Graph, Error>)
        ensures
            match sp_graph_json(s@) {
                Some(gv) => r matches Ok(g) && g@ == gv,
                None => r matches Err(e) && e is GraphDeserialize,
            },
    {
        let j = match parse_json(s) {
            Ok(j) => j,
            Err(e) => {
                return Err(e);
            },
        };
        let nodes_j = j.obj_get("nodes");
        let arg_nodes_j = j.obj_get("arg_nodes");
        let heads_j = j.obj_get("heads");
        let nrp_j = j.obj_get("node_row_ptr");
        let attrs_j = j.obj_get("attrs");
        match &j {
            Json::Obj(_) => {},
            _ => {
                return Err(crate::json::deserialize_error());
            },
        }
        let nodes = match nodes_j {
            Some(nj) => match decode_nodes(nj) {
                Ok(v) => v,
                Err(e) => {
                    return Err(e);
                },
            },
            None => {
                return Err(crate::json::deserialize_error());
            },
        };
        let arg_nodes = match arg_nodes_j {
            Some(aj) => match decode_usizes(aj) {
                Ok(v) => v,
                Err(e) => {
                    return Err(e);
                },
            },
            None => {
                return Err(crate::json::deserialize_error());
            },
        };
        let heads = match heads_j {
            Some(hj) => match decode_entries(hj) {
                Ok(v) => v,
                Err(e) => {
                    return Err(e);
                },
            },
            None => {
                return Err(crate::json::deserialize_error());
            },
        };
        let node_row_ptr = match nrp_j {
            None => None,
            Some(rj) => match rj {
                Json::Null => None,
                _ => match decode_usizes(rj) {
                    Ok(v) => Some(v),
                    Err(e) => {
                        return Err(e);
                    },
                },
            },
        };
        let has_attrs_obj = match attrs_j {
            None => false,
            Some(aj) => match aj {
                Json::Null => false,
                Json::Obj(_) => true,
                _ => {
                    return Err(crate::json::deserialize_error());
                },
            },
        };
        let attrs = if has_attrs_obj {
            match extract_attrs(j) {
                Some(v) => Some(v),
                None => {
                    return Err(crate::json::deserialize_error());
                },
            }
        } else {
            None
        };
        let g = Graph { nodes, arg_nodes, heads, node_row_ptr, attrs };
        proof {
            let gv = sp_graph_of(sp_json(s@)->Some_0)->Some_0;
            assert(g@.nodes =~= gv.nodes);
            assert(g@.arg_nodes == gv.arg_nodes && g@.heads == gv.heads);
            match &g.attrs {
                Some(av) => {
                    assert(g@.attrs matches Some(aps) && gv.attrs matches Some(vps) && aps
                        =~= vps);
                },
                None => {},
            }
        }
        Ok(g)
    }
}

/// Moves the graph-level attribute object out of the decoded document.
fn extract_attrs(j: Json) -> (r: Option<Vec<(String, Json)>>)
    ensures
        match spec_obj_get(
            match j@ {
                JsonVal::Obj(gf) => gf,
                _ => Seq::empty(),
            },
            "attrs"@,
        ) {
            Some(JsonVal::Obj(afs)) => r matches Some(v) && Seq::new(
                v@.len(),
                |i: int| (v@[i].0@, json_view(v@[i].1)),
            ) == afs,
            _ => true,
        },
{
    match j {
        Json::Obj(mut gfields) => {
            let key = String::from_str("attrs");
            let ghost gf0 = Seq::new(
                gfields@.len(),
                |i: int| (gfields@[i].0@, json_view(gfields@[i].1)),
            );
            proof {
                assert(j@ matches JsonVal::Obj(gf) && gf =~= gf0);
            }
            let mut slot: Option<Json> = None;
            proof {
                assert(gf0.skip(gfields@.len() as int) =~= Seq::<(Seq<char>, JsonVal)>::empty());
            }
            while gfields.len() > 0
                invariant
                    key@ == "attrs"@,
                    gfields@.len() <= gf0.len(),
                    forall|i: int|
                        0 <= i < gfields@.len() ==> #[trigger] gf0[i] == (
                        gfields@[i].0@,
                        json_view(gfields@[i].1),
                        ),
                    match slot {
                        Some(v) => spec_obj_get(gf0.skip(gfields@.len() as int), "attrs"@)
                            == Some(json_view(v)),
                        None => spec_obj_get(gf0.skip(gfields@.len() as int), "attrs"@) is None,
                    },
                decreases gfields@.len(),
            {
                let (k, v) = match gfields.pop() {
                    Some(p) => p,
                    None => {
                        proof {
                            assert(false);
                        }
                        return None;
                    },
                };
                proof {
                    let mm = gfields@.len() as int;
                    assert(gf0[mm] == (k@, json_view(v)));
                    assert(gf0.skip(mm) =~= seq![gf0[mm]] + gf0.skip(mm + 1));
                    crate::json::lemma_obj_get_prepend(gf0.skip(mm + 1), gf0[mm], "attrs"@);
                }
                if k == key {
                    if slot.is_none() {
                        slot = Some(v);
                    }
                }
            }
            proof {
                assert(gf0.skip(0) =~= gf0);
            }
            match slot {
                Some(av) => match av {
                    Json::Obj(afs) => {
                        proof {
                            assert(json_view(Json::Obj(afs)) matches JsonVal::Obj(x) && x
                                =~= Seq::new(
                                afs@.len(),
                                |i: int| (afs@[i].0@, json_view(afs@[i].1)),
                            ));
                        }
                        Some(afs)
                    },
                    _ => None,
                },
                None => None,
            }
        },
        _ => None,
    }
}

} // verus!
