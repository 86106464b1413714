//! The library's general guarantees, proved once over every input: a
//! flattened tree rebuilds to the very tree it came from, registering and
//! then unregistering a type leaves the registry as it was, and the counts
//! a node carries add up over its children.

use vstd::prelude::*;

use crate::flatten::{
    ctx_is_leaf, ctx_resolve, flat_leaves, flat_leaves_seq, flat_nodes, flat_nodes_seq,
    lemma_children_height, lemma_children_wf, lemma_seq_height_drop_last, spec_children,
    spec_container_node, spec_dict_keys, spec_dict_values, spec_is_leaf, FlattenCtx,
};
use crate::registry::{spec_table_wf, PyTreeKind, PyTreeTypeRegistration};
use crate::sorting::{lemma_sort_perm, sort_perm};
use crate::tree::{entry_keys, entry_values, height, lemma_seq_height_bound, seq_height, wf_tree, TreeV};
use crate::treespec::NodeV;
use crate::unflatten::{rebuild, rebuild_entries, run_agenda, spec_unflatten, UnflattenError};

verus! {

/// Looking each original key up in the traversal key list returns exactly
/// the entry it came from, so a mapping's entries survive the round trip.
proof fn lemma_rebuild_entries_inverse(ctx: FlattenCtx, es: Seq<(u64, TreeV)>)
    requires
        entry_keys(es).no_duplicates(),
    ensures
        rebuild_entries(entry_keys(es), spec_dict_keys(ctx, es), spec_dict_values(ctx, es)) == es,
{
    let oks = entry_keys(es);
    let ks = spec_dict_keys(ctx, es);
    let children = spec_dict_values(ctx, es);
    let out = rebuild_entries(oks, ks, children);
    if ctx.insertion_ordered {
        assert forall|i: int| 0 <= i < es.len() implies out[i] == es[i] by {
            assert(ks[i] == oks[i]);
            assert(ks.contains(oks[i]));
            let j = ks.index_of(oks[i]);
            assert(ks[j] == oks[i]);
            assert(j == i);
            assert(children[i] == es[i].1);
            assert(out[i] == (oks[i], children[j]));
        }
        assert(out =~= es);
    } else {
        let keys = entry_keys(es);
        let p = sort_perm(keys);
        lemma_sort_perm(keys);
        assert forall|i: int| 0 <= i < es.len() implies out[i] == es[i] by {
            assert(p.contains(i));
            let j0 = choose|j0: int| 0 <= j0 < p.len() && p[j0] == i;
            assert(ks[j0] == keys[p[j0]]);
            assert(ks.contains(oks[i]));
            let j = ks.index_of(oks[i]);
            assert(ks[j] == oks[i]);
            assert(keys[p[j]] == keys[i]);
            assert(p[j] == i);
            assert(children[j] == es[p[j]].1);
            assert(out[i] == (oks[i], children[j]));
        }
        assert(out =~= es);
    }
}

/// A container's node rebuilds the container itself from its traversal
/// children: the per-kind encoding and its inverse cancel.
proof fn lemma_rebuild_inverse(ctx: FlattenCtx, v: TreeV, num_leaves: int, num_nodes: int)
    requires
        wf_tree(v),
        spec_table_wf(ctx.table),
        !ctx_is_leaf(ctx, v),
    ensures
        rebuild(spec_container_node(ctx, v, num_leaves, num_nodes), spec_children(ctx, v)) == v,
{
    let node = spec_container_node(ctx, v, num_leaves, num_nodes);
    match v {
        TreeV::Dict(es) => {
            lemma_rebuild_entries_inverse(ctx, es);
        },
        TreeV::OrderedDict(es) => {
            let octx = FlattenCtx { insertion_ordered: true, ..ctx };
            lemma_rebuild_entries_inverse(octx, es);
            assert(spec_dict_keys(octx, es) == entry_keys(es));
            assert(spec_dict_values(octx, es) == entry_values(es));
        },
        TreeV::DefaultDict { entries, .. } => {
            lemma_rebuild_entries_inverse(ctx, entries);
        },
        TreeV::Object { type_id, .. } => {
            assert(node.kind == PyTreeKind::Custom);
            assert(node.custom->0.type_id == type_id);
        },
        _ => {},
    }
}

/// Processing the nodes of one flattened value on the agenda consumes its
/// leaves from the input and leaves the value itself on the stack.
proof fn lemma_agenda_flatten(
    ctx: FlattenCtx,
    v: TreeV,
    rest: Seq<NodeV>,
    leaves: Seq<TreeV>,
    stack: Seq<TreeV>,
    pos: int,
)
    requires
        wf_tree(v),
        spec_table_wf(ctx.table),
        0 <= pos,
        pos + flat_leaves(ctx, v).len() <= leaves.len(),
        leaves.subrange(pos, pos + flat_leaves(ctx, v).len() as int) == flat_leaves(ctx, v),
    ensures
        run_agenda(flat_nodes(ctx, v) + rest, leaves, stack, pos) == run_agenda(
            rest,
            leaves,
            stack.push(v),
            pos + flat_leaves(ctx, v).len(),
        ),
    decreases height(v), 1nat, 0nat,
{
    if ctx_is_leaf(ctx, v) {
        let ns = flat_nodes(ctx, v) + rest;
        assert(ns.first() == crate::flatten::leaf_node_v());
        assert(ns.drop_first() =~= rest);
        assert(leaves[pos] == flat_leaves(ctx, v)[0]);
        assert(leaves[pos] == v);
    } else {
        lemma_children_height(ctx, v);
        let kids = spec_children(ctx, v);
        let kid_nodes = flat_nodes_seq(ctx, kids);
        let node = spec_container_node(
            ctx,
            v,
            flat_leaves(ctx, v).len() as int,
            kid_nodes.len() as int + 1,
        );
        assert(flat_nodes(ctx, v) == kid_nodes.push(node));
        assert(flat_leaves(ctx, v) == flat_leaves_seq(ctx, kids));
        lemma_children_wf(ctx, v);
        assert(flat_nodes(ctx, v) + rest =~= kid_nodes + (seq![node] + rest));
        lemma_agenda_flatten_seq(ctx, kids, seq![node] + rest, leaves, stack, pos);
        let stack2 = stack + kids;
        let pos2 = pos + flat_leaves_seq(ctx, kids).len();
        let ns2 = seq![node] + rest;
        assert(ns2.first() == node);
        assert(ns2.drop_first() =~= rest);
        assert(node.kind == ctx_resolve(ctx, v).0);
        assert(node.kind != PyTreeKind::Leaf);
        assert(node.arity == kids.len());
        assert(stack2.len() == stack.len() + kids.len());
        assert(stack2.subrange(stack2.len() - node.arity, stack2.len() as int) =~= kids);
        assert(stack2.take(stack2.len() - node.arity) =~= stack);
        lemma_rebuild_inverse(ctx, v, node.num_leaves, node.num_nodes);
        assert(rebuild(node, kids) == v);
    }
}

/// Processing the nodes of a flattened child list leaves the children on
/// the stack, in order.
proof fn lemma_agenda_flatten_seq(
    ctx: FlattenCtx,
    s: Seq<TreeV>,
    rest: Seq<NodeV>,
    leaves: Seq<TreeV>,
    stack: Seq<TreeV>,
    pos: int,
)
    requires
        forall|i: int| 0 <= i < s.len() ==> wf_tree(#[trigger] s[i]),
        spec_table_wf(ctx.table),
        0 <= pos,
        pos + flat_leaves_seq(ctx, s).len() <= leaves.len(),
        leaves.subrange(pos, pos + flat_leaves_seq(ctx, s).len() as int) == flat_leaves_seq(
            ctx,
            s,
        ),
    ensures
        run_agenda(flat_nodes_seq(ctx, s) + rest, leaves, stack, pos) == run_agenda(
            rest,
            leaves,
            stack + s,
            pos + flat_leaves_seq(ctx, s).len(),
        ),
    decreases seq_height(s), 2nat, s.len(),
{
    if s.len() == 0 {
        assert(flat_nodes_seq(ctx, s) + rest =~= rest);
        assert(stack + s =~= stack);
    } else {
        lemma_seq_height_drop_last(s);
        lemma_seq_height_bound(s, s.len() - 1);
        let dl = s.drop_last();
        let a = flat_leaves_seq(ctx, dl);
        let b = flat_leaves(ctx, s.last());
        assert(flat_leaves_seq(ctx, s) == a + b);
        assert(flat_nodes_seq(ctx, s) == flat_nodes_seq(ctx, dl) + flat_nodes(ctx, s.last()));
        assert(leaves.subrange(pos, pos + a.len() as int) =~= a) by {
            assert forall|q: int| 0 <= q < a.len() implies leaves.subrange(
                pos,
                pos + a.len() as int,
            )[q] == a[q] by {
                assert(leaves.subrange(pos, pos + flat_leaves_seq(ctx, s).len() as int)[q] == (a
                    + b)[q]);
            }
        }
        assert(leaves.subrange(pos + a.len(), pos + a.len() + b.len() as int) =~= b) by {
            assert forall|q: int| 0 <= q < b.len() implies leaves.subrange(
                pos + a.len(),
                pos + a.len() + b.len() as int,
            )[q] == b[q] by {
                assert(leaves.subrange(pos, pos + flat_leaves_seq(ctx, s).len() as int)[a.len()
                    + q] == (a + b)[a.len() + q]);
            }
        }
        assert(forall|i: int| 0 <= i < dl.len() ==> wf_tree(#[trigger] dl[i]));
        assert(flat_nodes_seq(ctx, s) + rest =~= flat_nodes_seq(ctx, dl) + (flat_nodes(
            ctx,
            s.last(),
        ) + rest));
        lemma_agenda_flatten_seq(ctx, dl, flat_nodes(ctx, s.last()) + rest, leaves, stack, pos);
        assert(wf_tree(s[s.len() - 1]));
        lemma_agenda_flatten(ctx, s.last(), rest, leaves, stack + dl, pos + a.len());
        assert((stack + dl).push(s.last()) =~= stack + s);
    }
}

/// Round trip: rebuilding from the nodes and leaves that flattening a
/// well-formed tree produced yields that tree again, whatever the registry,
/// predicate, mode, namespace and key-order policy were.
pub proof fn lemma_round_trip(ctx: FlattenCtx, v: TreeV)
    requires
        wf_tree(v),
        spec_table_wf(ctx.table),
    ensures
        spec_unflatten(flat_nodes(ctx, v), flat_leaves(ctx, v)) == Ok::<TreeV, UnflattenError>(v),
{
    let leaves = flat_leaves(ctx, v);
    assert(leaves.subrange(0, leaves.len() as int) =~= leaves);
    lemma_agenda_flatten(ctx, v, Seq::empty(), leaves, Seq::empty(), 0);
    assert(flat_nodes(ctx, v) + Seq::<NodeV>::empty() =~= flat_nodes(ctx, v));
    assert(run_agenda(
        Seq::<NodeV>::empty(),
        leaves,
        Seq::<TreeV>::empty().push(v),
        leaves.len() as int,
    ) == Ok::<(Seq<TreeV>, int), UnflattenError>((Seq::<TreeV>::empty().push(v), leaves.len() as int)));
    assert(Seq::<TreeV>::empty().push(v)[0] == v);
}

/// Registering a type under a namespace and then unregistering it restores
/// the registry's table exactly, and with it every leaf classification.
pub proof fn lemma_registration_idempotence(
    table: Map<(Seq<char>, u64), PyTreeTypeRegistration>,
    ns: Seq<char>,
    type_id: u64,
    reg: PyTreeTypeRegistration,
)
    requires
        !table.contains_key((ns, type_id)),
    ensures
        table.insert((ns, type_id), reg).remove((ns, type_id)) == table,
        forall|lt: Option<Set<u64>>, v: TreeV, mode: bool, ns2: Seq<char>|
            spec_is_leaf(
                #[trigger] table.insert((ns, type_id), reg).remove((ns, type_id)),
                lt,
                v,
                mode,
                ns2,
            ) == spec_is_leaf(table, lt, v, mode, ns2),
{
    assert(table.insert((ns, type_id), reg).remove((ns, type_id)) =~= table);
}

/// The number of leaves of a child list is the sum of its members'.
pub open spec fn sum_num_leaves(ctx: FlattenCtx, s: Seq<TreeV>) -> int
    decreases s.len(),
{
    if s.len() == 0 {
        0
    } else {
        sum_num_leaves(ctx, s.drop_last()) + flat_leaves(ctx, s.last()).len()
    }
}

/// The number of nodes of a child list is the sum of its members'.
pub open spec fn sum_num_nodes(ctx: FlattenCtx, s: Seq<TreeV>) -> int
    decreases s.len(),
{
    if s.len() == 0 {
        0
    } else {
        sum_num_nodes(ctx, s.drop_last()) + flat_nodes(ctx, s.last()).len()
    }
}

proof fn lemma_flat_seq_lens(ctx: FlattenCtx, s: Seq<TreeV>)
    ensures
        flat_leaves_seq(ctx, s).len() == sum_num_leaves(ctx, s),
        flat_nodes_seq(ctx, s).len() == sum_num_nodes(ctx, s),
    decreases s.len(),
{
    if s.len() > 0 {
        lemma_flat_seq_lens(ctx, s.drop_last());
    }
}

/// Count invariant: the node a value emits records exactly its subtree's
/// totals, a container's leaf count is the sum of its children's, and its
/// node count is one more than the sum of its children's.
pub proof fn lemma_count_invariant(ctx: FlattenCtx, v: TreeV)
    ensures
        flat_nodes(ctx, v).last().num_leaves == flat_leaves(ctx, v).len(),
        flat_nodes(ctx, v).last().num_nodes == flat_nodes(ctx, v).len(),
        !ctx_is_leaf(ctx, v) ==> flat_nodes(ctx, v).last().arity == spec_children(ctx, v).len(),
        !ctx_is_leaf(ctx, v) ==> flat_leaves(ctx, v).len() == sum_num_leaves(
            ctx,
            spec_children(ctx, v),
        ),
        !ctx_is_leaf(ctx, v) ==> flat_nodes(ctx, v).len() == 1 + sum_num_nodes(
            ctx,
            spec_children(ctx, v),
        ),
{
    if !ctx_is_leaf(ctx, v) {
        lemma_flat_seq_lens(ctx, spec_children(ctx, v));
    }
}

} // verus!
