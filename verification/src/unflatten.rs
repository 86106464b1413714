//! The unflatten engine: one iterative pass over a descriptor's post-order
//! node sequence with an explicit agenda stack, rebuilding a value from a
//! fresh leaf list.
//!
//! `spec_unflatten` is the specification of the pass: a leaf node takes the
//! next input leaf, a container node takes its children back off the agenda
//! and rebuilds the value the node describes, and exactly one value with no
//! leaf left over may remain.

use vstd::prelude::*;

use crate::registry::PyTreeKind;
use crate::tree::{clone_handles, clone_tree, lemma_view_children, view_children, view_entries, TreeV, TreeValue};
use crate::treespec::{nodes_view, spec_node_wf, Node, NodeData, NodeV, PyTreeSpec};

verus! {

/// Why an unflatten call failed: the leaf input ran out before the
/// descriptor's leaves did, or the pass did not end with exactly one value
/// and an exhausted leaf input.
#[derive(Debug, Clone, Copy, PartialEq, Eq, Structural)]
pub enum UnflattenError {
    LeafCountMismatch,
    StructureMismatch,
}

/// A mapping's entries rebuilt in original key order: each original key
/// paired with the reconstructed child standing at that key's position in
/// the traversal key list.
pub open spec fn rebuild_entries(oks: Seq<u64>, ks: Seq<u64>, children: Seq<TreeV>) -> Seq<
    (u64, TreeV),
> {
    oks.map_values(|k: u64| (k, children[ks.index_of(k)]))
}

/// The value a container node rebuilds from its reconstructed children: the
/// inverse of the per-kind flatten encoding.
pub open spec fn rebuild(n: NodeV, children: Seq<TreeV>) -> TreeV {
    match n.kind {
        PyTreeKind::Leaf => TreeV::Null,
        PyTreeKind::Null => TreeV::Null,
        PyTreeKind::Tuple => TreeV::Tuple(children),
        PyTreeKind::List => TreeV::List(children),
        PyTreeKind::Dict => TreeV::Dict(
            rebuild_entries(n.original_keys->0, n.node_data->Keys_0, children),
        ),
        PyTreeKind::OrderedDict => TreeV::OrderedDict(
            rebuild_entries(n.original_keys->0, n.node_data->Keys_0, children),
        ),
        PyTreeKind::DefaultDict => TreeV::DefaultDict {
            default_factory: n.node_data->KeysWithDefault_default_factory,
            entries: rebuild_entries(
                n.original_keys->0,
                n.node_data->KeysWithDefault_keys,
                children,
            ),
        },
        PyTreeKind::NamedTuple => TreeV::NamedTuple {
            type_id: n.node_data->TypeId_0,
            fields: children,
        },
        PyTreeKind::Deque => TreeV::Deque { max_len: n.node_data->MaxLen_0, items: children },
        PyTreeKind::StructSequence => TreeV::StructSequence {
            type_id: n.node_data->TypeId_0,
            fields: children,
        },
        PyTreeKind::Custom => TreeV::Object {
            type_id: n.custom->0.type_id,
            children,
            node_data: n.node_data->Payload_0,
            entry_labels: n.node_entries,
        },
    }
}

/// The agenda pass over a node sequence: the final stack and leaf cursor,
/// or the first failure.
pub open spec fn run_agenda(
    nodes: Seq<NodeV>,
    leaves: Seq<TreeV>,
    stack: Seq<TreeV>,
    pos: int,
) -> Result<(Seq<TreeV>, int), UnflattenError>
    decreases nodes.len(),
{
    if nodes.len() == 0 {
        Ok((stack, pos))
    } else {
        let n = nodes.first();
        if n.kind == PyTreeKind::Leaf {
            if pos < leaves.len() {
                run_agenda(nodes.drop_first(), leaves, stack.push(leaves[pos]), pos + 1)
            } else {
                Err(UnflattenError::LeafCountMismatch)
            }
        } else {
            if n.arity <= stack.len() {
                let children = stack.subrange(stack.len() - n.arity, stack.len() as int);
                run_agenda(
                    nodes.drop_first(),
                    leaves,
                    stack.take(stack.len() - n.arity).push(rebuild(n, children)),
                    pos,
                )
            } else {
                Err(UnflattenError::StructureMismatch)
            }
        }
    }
}

/// What unflattening a descriptor against a leaf sequence yields: the one
/// rebuilt value, or the failure that stops the pass; ending with anything
/// but a single value over a fully consumed input is a structure mismatch.
pub open spec fn spec_unflatten(nodes: Seq<NodeV>, leaves: Seq<TreeV>) -> Result<
    TreeV,
    UnflattenError,
> {
    match run_agenda(nodes, leaves, Seq::empty(), 0) {
        Ok(sp) => if sp.0.len() == 1 && sp.1 == leaves.len() {
            Ok(sp.0[0])
        } else {
            Err(UnflattenError::StructureMismatch)
        },
        Err(e) => Err(e),
    }
}

/// The position of a key in a duplicate-free key list.
fn find_key(ks: &Vec<u64>, k: u64) -> (r: usize)
    requires
        ks@.contains(k),
        ks@.no_duplicates(),
    ensures
        r < ks@.len(),
        ks@[r as int] == k,
        r as int == ks@.index_of(k),
{
    let mut j: usize = 0;
    while j < ks.len()
        invariant
            ks@.contains(k),
            ks@.no_duplicates(),
            j <= ks@.len(),
            forall|q: int| 0 <= q < j ==> ks@[q] != k,
        decreases ks@.len() - j,
    {
        if ks[j] == k {
            proof {
                assert(ks@[ks@.index_of(k)] == k);
            }
            return j;
        }
        j = j + 1;
    }
    proof {
        assert(false);
    }
    0
}

/// The entries of a rebuilt mapping, in original key order.
fn make_entries(oks: &Vec<u64>, ks: &Vec<u64>, children: &Vec<TreeValue>) -> (r: Vec<
    (u64, TreeValue),
>)
    requires
        ks@.no_duplicates(),
        forall|x: u64| oks@.contains(x) ==> ks@.contains(x),
        ks@.len() == children@.len(),
    ensures
        view_entries(r@) == rebuild_entries(oks@, ks@, view_children(children@)),
{
    proof {
        lemma_view_children(children@);
    }
    let mut out: Vec<(u64, TreeValue)> = Vec::new();
    let mut i: usize = 0;
    while i < oks.len()
        invariant
            ks@.no_duplicates(),
            forall|x: u64| oks@.contains(x) ==> ks@.contains(x),
            ks@.len() == children@.len(),
            view_children(children@).len() == children@.len(),
            forall|q: int|
                0 <= q < children@.len() ==> view_children(children@)[q] == children@[q]@,
            i <= oks@.len(),
            out@.len() == i,
            forall|q: int|
                0 <= q < i ==> (#[trigger] out@[q]).0 == oks@[q] && 0 <= ks@.index_of(oks@[q])
                    < children@.len() && out@[q].1@ == children@[ks@.index_of(oks@[q])]@,
        decreases oks@.len() - i,
    {
        let k = oks[i];
        proof {
            assert(oks@.contains(oks@[i as int]));
        }
        let j = find_key(ks, k);
        out.push((k, clone_tree(&children[j])));
        i = i + 1;
    }
    proof {
        crate::tree::lemma_view_entries(out@);
        assert forall|q: int|
            0 <= q < out@.len() implies view_entries(out@)[q] == rebuild_entries(
            oks@,
            ks@,
            view_children(children@),
        )[q] by {
            assert(view_entries(out@)[q] == (out@[q].0, out@[q].1@));
            assert(out@[q].0 == oks@[q]);
            assert(view_children(children@)[ks@.index_of(oks@[q])] == children@[ks@.index_of(
                oks@[q],
            )]@);
        }
        assert(view_entries(out@) =~= rebuild_entries(oks@, ks@, view_children(children@)));
    }
    out
}

/// The value a container node rebuilds from its children, executably.
fn make_node(node: &Node, children: Vec<TreeValue>) -> (r: TreeValue)
    requires
        spec_node_wf(node@),
        node@.kind != PyTreeKind::Leaf,
        children@.len() == node@.arity,
    ensures
        r@ == rebuild(node@, view_children(children@)),
{
    proof {
        lemma_view_children(children@);
    }
    match node.kind {
        PyTreeKind::Leaf => {
            proof {
                assert(false);
            }
            TreeValue::Null
        },
        PyTreeKind::Null => TreeValue::Null,
        PyTreeKind::Tuple => TreeValue::Tuple(children),
        PyTreeKind::List => TreeValue::List(children),
        PyTreeKind::NamedTuple => {
            let t: u64 = match &node.node_data {
                NodeData::TypeId(t) => *t,
                _ => 0,
            };
            TreeValue::NamedTuple { type_id: t, fields: children }
        },
        PyTreeKind::StructSequence => {
            let t: u64 = match &node.node_data {
                NodeData::TypeId(t) => *t,
                _ => 0,
            };
            TreeValue::StructSequence { type_id: t, fields: children }
        },
        PyTreeKind::Deque => {
            let m: Option<u64> = match &node.node_data {
                NodeData::MaxLen(m) => *m,
                _ => None,
            };
            TreeValue::Deque { max_len: m, items: children }
        },
        PyTreeKind::Dict => {
            let ks: Vec<u64> = match &node.node_data {
                NodeData::Keys(ks) => clone_handles(ks),
                _ => Vec::new(),
            };
            let oks: Vec<u64> = match &node.original_keys {
                Some(o) => clone_handles(o),
                None => Vec::new(),
            };
            TreeValue::Dict(make_entries(&oks, &ks, &children))
        },
        PyTreeKind::OrderedDict => {
            let ks: Vec<u64> = match &node.node_data {
                NodeData::Keys(ks) => clone_handles(ks),
                _ => Vec::new(),
            };
            let oks: Vec<u64> = match &node.original_keys {
                Some(o) => clone_handles(o),
                None => Vec::new(),
            };
            TreeValue::OrderedDict(make_entries(&oks, &ks, &children))
        },
        PyTreeKind::DefaultDict => {
            let df: u64 = match &node.node_data {
                NodeData::KeysWithDefault { default_factory, .. } => *default_factory,
                _ => 0,
            };
            let ks: Vec<u64> = match &node.node_data {
                NodeData::KeysWithDefault { keys, .. } => clone_handles(keys),
                _ => Vec::new(),
            };
            let oks: Vec<u64> = match &node.original_keys {
                Some(o) => clone_handles(o),
                None => Vec::new(),
            };
            TreeValue::DefaultDict {
                default_factory: df,
                entries: make_entries(&oks, &ks, &children),
            }
        },
        PyTreeKind::Custom => {
            let t: u64 = match &node.custom {
                Some(reg) => reg.type_id,
                None => 0,
            };
            let p: u64 = match &node.node_data {
                NodeData::Payload(p) => *p,
                _ => 0,
            };
            let labels: Option<Vec<u64>> = match &node.node_entries {
                Some(e) => Some(clone_handles(e)),
                None => None,
            };
            TreeValue::Object { type_id: t, children, node_data: p, entry_labels: labels }
        },
    }
}

impl PyTreeSpec {
    /// Rebuilds a value from this descriptor and a fresh leaf list: one
    /// iterative pass over the post-order nodes with an explicit agenda.
    /// Fails `LeafCountMismatch` when the leaves run out before the
    /// descriptor's leaf nodes do, and `StructureMismatch` when the pass
    /// does not end with exactly one value over a fully consumed input.
    #[verifier::loop_isolation(false)]
    pub fn unflatten(&self, leaves: Vec<TreeValue>) -> (r: Result<TreeValue, UnflattenError>)
        requires
            self.wf(),
        ensures
            match r {
                Ok(out) => spec_unflatten(self@.nodes, view_children(leaves@)) == Ok::<
                    TreeV,
                    UnflattenError,
                >(out@),
                Err(e) => spec_unflatten(self@.nodes, view_children(leaves@)) == Err::<
                    TreeV,
                    UnflattenError,
                >(e),
            },
    {
        let ghost lv = view_children(leaves@);
        let ghost all_nodes = self@.nodes;
        proof {
            lemma_view_children(leaves@);
        }
        let nodes = self.traversal();
        let total_leaves = leaves.len();
        proof {
            assert(lv.len() == total_leaves as int);
        }
        let mut input = leaves;
        let mut rev: Vec<TreeValue> = Vec::new();
        while input.len() > 0
            invariant
                lv.len() == input@.len() + rev@.len(),
                forall|q: int| 0 <= q < input@.len() ==> lv[q] == input@[q]@,
                forall|q: int| 0 <= q < rev@.len() ==> lv[lv.len() - 1 - q] == #[trigger] rev@[q]@,
            decreases input@.len(),
        {
            let x = input.pop().unwrap();
            rev.push(x);
        }
        let mut agenda: Vec<TreeValue> = Vec::new();
        let mut num_leaves: usize = 0;
        let mut i: usize = 0;
        proof {
            assert(all_nodes.skip(0) =~= all_nodes);
            assert(view_children(agenda@) =~= Seq::<TreeV>::empty());
        }
        while i < nodes.len()
            invariant
                nodes_view(nodes@) == all_nodes,
                forall|q: int| 0 <= q < all_nodes.len() ==> spec_node_wf(#[trigger] all_nodes[q]),
                all_nodes.len() == nodes@.len(),
                i <= nodes@.len(),
                lv.len() <= usize::MAX,
                num_leaves <= lv.len(),
                rev@.len() == lv.len() - num_leaves,
                forall|q: int| 0 <= q < rev@.len() ==> lv[lv.len() - 1 - q] == #[trigger] rev@[q]@,
                run_agenda(
                    all_nodes.skip(i as int),
                    lv,
                    view_children(agenda@),
                    num_leaves as int,
                ) == run_agenda(all_nodes, lv, Seq::empty(), 0),
            decreases nodes@.len() - i,
        {
            let node = &nodes[i];
            proof {
                assert(all_nodes.skip(i as int).first() == all_nodes[i as int]);
                assert(all_nodes.skip(i as int).drop_first() =~= all_nodes.skip(i as int + 1));
                assert(all_nodes[i as int] == nodes@[i as int]@);
                lemma_view_children(agenda@);
            }
            if node.kind == PyTreeKind::Leaf {
                let ghost prestack = view_children(agenda@);
                let ghost pre_agenda = agenda@;
                match rev.pop() {
                    Some(x) => {
                        proof {
                            assert(x@ == lv[num_leaves as int]);
                        }
                        agenda.push(x);
                        num_leaves = num_leaves + 1;
                        proof {
                            lemma_view_children(agenda@);
                            assert(agenda@.drop_last() =~= pre_agenda);
                            assert(view_children(agenda@) =~= prestack.push(x@));
                            assert(run_agenda(
                                all_nodes.skip(i as int),
                                lv,
                                prestack,
                                num_leaves as int - 1,
                            ) == run_agenda(
                                all_nodes.skip(i as int + 1),
                                lv,
                                prestack.push(lv[num_leaves as int - 1]),
                                num_leaves as int,
                            ));
                        }
                    },
                    None => {
                        proof {
                            assert(num_leaves as int == lv.len());
                            assert(run_agenda(
                                all_nodes.skip(i as int),
                                lv,
                                prestack,
                                num_leaves as int,
                            ) == Err::<(Seq<TreeV>, int), UnflattenError>(
                                UnflattenError::LeafCountMismatch,
                            ));
                        }
                        return Err(UnflattenError::LeafCountMismatch);
                    },
                }
            } else {
                let arity = node.arity;
                let ghost stack = view_children(agenda@);
                if agenda.len() < arity {
                    proof {
                        assert(stack.len() == agenda@.len());
                        assert(run_agenda(all_nodes.skip(i as int), lv, stack, num_leaves as int)
                            == Err::<(Seq<TreeV>, int), UnflattenError>(
                            UnflattenError::StructureMismatch,
                        ));
                    }
                    return Err(UnflattenError::StructureMismatch);
                }
                let mut tmp: Vec<TreeValue> = Vec::new();
                let mut taken: usize = 0;
                while taken < arity
                    invariant
                        taken <= arity,
                        arity <= stack.len(),
                        agenda@.len() == stack.len() - taken,
                        tmp@.len() == taken,
                        forall|q: int|
                            0 <= q < agenda@.len() ==> stack[q] == #[trigger] agenda@[q]@,
                        forall|q: int|
                            0 <= q < taken ==> stack[stack.len() - 1 - q] == #[trigger] tmp@[q]@,
                    decreases arity - taken,
                {
                    let x = agenda.pop().unwrap();
                    tmp.push(x);
                    taken = taken + 1;
                }
                let mut children: Vec<TreeValue> = Vec::new();
                let mut back: usize = arity;
                while back > 0
                    invariant
                        back <= arity,
                        arity <= stack.len(),
                        tmp@.len() == back,
                        children@.len() == arity - back,
                        forall|q: int|
                            0 <= q < back ==> stack[stack.len() - 1 - q] == #[trigger] tmp@[q]@,
                        forall|q: int|
                            0 <= q < children@.len() ==> stack[stack.len() - arity + q] == (
                            #[trigger] children@[q])@,
                    decreases back,
                {
                    let x = tmp.pop().unwrap();
                    children.push(x);
                    back = back - 1;
                }
                proof {
                    lemma_view_children(children@);
                    assert(view_children(children@) =~= stack.subrange(
                        stack.len() - arity as int,
                        stack.len() as int,
                    ));
                }
                let obj = make_node(node, children);
                let ghost pre_agenda = agenda@;
                agenda.push(obj);
                proof {
                    lemma_view_children(agenda@);
                    assert(agenda@.drop_last() =~= pre_agenda);
                    assert(view_children(agenda@) =~= stack.take(stack.len() - arity as int).push(
                        obj@,
                    ));
                    let n = all_nodes[i as int];
                    assert(run_agenda(all_nodes.skip(i as int), lv, stack, num_leaves as int)
                        == run_agenda(
                        all_nodes.skip(i as int + 1),
                        lv,
                        stack.take(stack.len() - n.arity).push(
                            rebuild(n, stack.subrange(stack.len() - n.arity, stack.len() as int)),
                        ),
                        num_leaves as int,
                    ));
                }
            }
            i = i + 1;
        }
        proof {
            assert(all_nodes.skip(nodes@.len() as int) =~= Seq::<NodeV>::empty());
            lemma_view_children(agenda@);
        }
        if agenda.len() == 1 && rev.len() == 0 {
            let out = agenda.pop().unwrap();
            proof {
                assert(out@ == view_children(agenda@.push(out)).last());
            }
            Ok(out)
        } else {
            Err(UnflattenError::StructureMismatch)
        }
    }
}

} // verus!
