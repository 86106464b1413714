//! The flatten engine: depth-first traversal of a tree into an ordered leaf
//! list and a post-order structural descriptor.
//!
//! The functions `flat_leaves`, `flat_nodes`, `flat_custom` and `flat_err`
//! are the specification of the traversal: what leaves it yields, what nodes
//! it emits, whether it met a custom node, and which error, if any, stops
//! it. The executable engine is proved to produce exactly these.

use vstd::prelude::*;

use crate::registry::{
    spec_lookup, spec_ns_arg, spec_table_wf, PyTreeKind, PyTreeTypeRegistration,
    PyTreeTypeRegistry, RegistryV,
};
use crate::sorting::{lemma_sort_perm, sort_perm, sorted_key_order};
use crate::tree::{
    clone_handles, clone_tree, entries_height, entry_keys, entry_values, height, lemma_entries_height_bound,
    lemma_seq_height_bound, lemma_view_children, lemma_view_entries, lemma_wf_children_index,
    lemma_wf_entries_index, seq_height, view_children, view_entries, wf_children, wf_entries,
    wf_tree, TreeV, TreeValue,
};
use crate::treespec::{nodes_view, spec_node_wf, Node, NodeData, NodeDataV, NodeV, PyTreeSpec};

verus! {

/// The hard ceiling on traversal depth, counted from zero at the root.
pub const MAX_RECURSION_DEPTH: usize = 1000;

/// Why a flatten call failed: the tree nests deeper than the ceiling, or a
/// custom decomposition pairs entry labels with a different number of
/// children.
#[derive(Debug, Clone, Copy, PartialEq, Eq, Structural)]
pub enum FlattenError {
    RecursionLimitExceeded,
    InvalidCustomFlatten,
}

/// Everything one flatten call classifies and orders by: the registry table,
/// the caller's leaf predicate (a set of type identities), the null-handling
/// mode, the namespace, and the effective key-order policy.
pub struct FlattenCtx {
    pub table: Map<(Seq<char>, u64), PyTreeTypeRegistration>,
    pub leaf_types: Option<Set<u64>>,
    pub none_is_leaf: bool,
    pub namespace: Seq<char>,
    pub insertion_ordered: bool,
}

/// The type-identity set that an optional leaf predicate argument denotes.
pub open spec fn leaf_set(leaf_types: Option<&Vec<u64>>) -> Option<Set<u64>> {
    match leaf_types {
        Some(v) => Some(v@.to_set()),
        None => None,
    }
}

/// The context of one flatten call over a given registry state; the
/// key-order policy is the namespace's flag, inheriting the global one.
pub open spec fn spec_ctx(
    reg: RegistryV,
    leaf_types: Option<Set<u64>>,
    none_is_leaf: bool,
    ns: Seq<char>,
) -> FlattenCtx {
    FlattenCtx {
        table: reg.table,
        leaf_types,
        none_is_leaf,
        namespace: ns,
        insertion_ordered: reg.ordered.contains(ns) || reg.ordered.contains(Seq::<char>::empty()),
    }
}

/// Whether the caller's predicate claims the value as a leaf; it
/// short-circuits everything else.
pub open spec fn spec_pred_hit(leaf_types: Option<Set<u64>>, v: TreeV) -> bool {
    leaf_types matches Some(s) && s.contains(v.spec_type_id())
}

/// The effective kind of a value: registry resolution, with unregistered
/// record tuples and record sequences decomposing by shape rather than
/// falling to a leaf.
pub open spec fn spec_resolve(
    table: Map<(Seq<char>, u64), PyTreeTypeRegistration>,
    v: TreeV,
    none_is_leaf: bool,
    ns: Seq<char>,
) -> (PyTreeKind, Option<PyTreeTypeRegistration>) {
    let kr = spec_lookup(table, v, none_is_leaf, ns);
    if kr.0 == PyTreeKind::Leaf && kr.1 is None {
        match v {
            TreeV::NamedTuple { .. } => (PyTreeKind::NamedTuple, None),
            TreeV::StructSequence { .. } => (PyTreeKind::StructSequence, None),
            _ => (PyTreeKind::Leaf, None),
        }
    } else {
        kr
    }
}

/// The leaf classifier: a caller predicate hit, or an effective leaf kind.
pub open spec fn spec_is_leaf(
    table: Map<(Seq<char>, u64), PyTreeTypeRegistration>,
    leaf_types: Option<Set<u64>>,
    v: TreeV,
    none_is_leaf: bool,
    ns: Seq<char>,
) -> bool {
    spec_pred_hit(leaf_types, v) || spec_resolve(table, v, none_is_leaf, ns).0 == PyTreeKind::Leaf
}

/// The classifier under a flatten context.
pub open spec fn ctx_is_leaf(ctx: FlattenCtx, v: TreeV) -> bool {
    spec_is_leaf(ctx.table, ctx.leaf_types, v, ctx.none_is_leaf, ctx.namespace)
}

/// The effective kind and registration under a flatten context.
pub open spec fn ctx_resolve(ctx: FlattenCtx, v: TreeV) -> (PyTreeKind, Option<
    PyTreeTypeRegistration,
>) {
    spec_resolve(ctx.table, v, ctx.none_is_leaf, ctx.namespace)
}

/// A mapping's values in traversal order when keys are sorted: position `j`
/// reads the entry at `sort_perm(keys)[j]`.
pub open spec fn permuted_values(es: Seq<(u64, TreeV)>) -> Seq<TreeV> {
    sort_perm(entry_keys(es)).map_values(|i: int| es[i].1)
}

/// A mapping's keys in sorted traversal order.
pub open spec fn permuted_keys(es: Seq<(u64, TreeV)>) -> Seq<u64> {
    sort_perm(entry_keys(es)).map_values(|i: int| es[i].0)
}

/// The key order a plain mapping is traversed in: insertion order under the
/// insertion-order policy, else sorted.
pub open spec fn spec_dict_keys(ctx: FlattenCtx, es: Seq<(u64, TreeV)>) -> Seq<u64> {
    if ctx.insertion_ordered {
        entry_keys(es)
    } else {
        permuted_keys(es)
    }
}

/// The value order a plain mapping is traversed in.
pub open spec fn spec_dict_values(ctx: FlattenCtx, es: Seq<(u64, TreeV)>) -> Seq<TreeV> {
    if ctx.insertion_ordered {
        entry_values(es)
    } else {
        permuted_values(es)
    }
}

/// The children a container contributes to the traversal, in order.
/// Insertion-ordered mappings and all positional containers keep their own
/// order; plain mappings follow the key-order policy; an object contributes
/// what its registered flatten callable yields.
pub open spec fn spec_children(ctx: FlattenCtx, v: TreeV) -> Seq<TreeV> {
    match v {
        TreeV::Leaf { .. } => Seq::empty(),
        TreeV::Null => Seq::empty(),
        TreeV::Tuple(cs) => cs,
        TreeV::List(cs) => cs,
        TreeV::Dict(es) => spec_dict_values(ctx, es),
        TreeV::OrderedDict(es) => entry_values(es),
        TreeV::DefaultDict { entries, .. } => spec_dict_values(ctx, entries),
        TreeV::NamedTuple { fields, .. } => fields,
        TreeV::Deque { items, .. } => items,
        TreeV::StructSequence { fields, .. } => fields,
        TreeV::Object { children, .. } => children,
    }
}

/// The per-kind reconstruction data of the node a container emits.
pub open spec fn spec_node_data(ctx: FlattenCtx, v: TreeV) -> NodeDataV {
    match v {
        TreeV::Dict(es) => NodeDataV::Keys(spec_dict_keys(ctx, es)),
        TreeV::OrderedDict(es) => NodeDataV::Keys(entry_keys(es)),
        TreeV::DefaultDict { default_factory, entries } => NodeDataV::KeysWithDefault {
            default_factory,
            keys: spec_dict_keys(ctx, entries),
        },
        TreeV::NamedTuple { type_id, .. } => NodeDataV::TypeId(type_id),
        TreeV::StructSequence { type_id, .. } => NodeDataV::TypeId(type_id),
        TreeV::Deque { max_len, .. } => NodeDataV::MaxLen(max_len),
        TreeV::Object { node_data, .. } => NodeDataV::Payload(node_data),
        _ => NodeDataV::Empty,
    }
}

/// The node a leaf emits.
pub open spec fn leaf_node_v() -> NodeV {
    NodeV {
        kind: PyTreeKind::Leaf,
        arity: 0,
        node_data: NodeDataV::Empty,
        node_entries: None,
        custom: None,
        num_leaves: 1,
        num_nodes: 1,
        original_keys: None,
    }
}

/// The node a container emits, given its subtree counts.
pub open spec fn spec_container_node(
    ctx: FlattenCtx,
    v: TreeV,
    num_leaves: int,
    num_nodes: int,
) -> NodeV {
    NodeV {
        kind: ctx_resolve(ctx, v).0,
        arity: spec_children(ctx, v).len() as int,
        node_data: spec_node_data(ctx, v),
        node_entries: match v {
            TreeV::Object { entry_labels, .. } => entry_labels,
            _ => None,
        },
        custom: if ctx_resolve(ctx, v).0 == PyTreeKind::Custom {
            ctx_resolve(ctx, v).1
        } else {
            None
        },
        num_leaves,
        num_nodes,
        original_keys: match v {
            TreeV::Dict(es) => Some(entry_keys(es)),
            TreeV::OrderedDict(es) => Some(entry_keys(es)),
            TreeV::DefaultDict { entries, .. } => Some(entry_keys(entries)),
            _ => None,
        },
    }
}

/// A non-leaf is a container variant, so its traversal children sit strictly
/// below it.
pub proof fn lemma_children_height(ctx: FlattenCtx, v: TreeV)
    requires
        !ctx_is_leaf(ctx, v),
    ensures
        seq_height(spec_children(ctx, v)) < height(v),
{
    match v {
        TreeV::Leaf { .. } => {
            assert(false);
        },
        TreeV::Null => {
            assert(seq_height(Seq::empty()) == 0);
        },
        TreeV::Tuple(cs) => {},
        TreeV::List(cs) => {},
        TreeV::Dict(es) => {
            lemma_dict_values_height(ctx, es);
        },
        TreeV::OrderedDict(es) => {
            lemma_entry_values_height(es);
        },
        TreeV::DefaultDict { entries, .. } => {
            lemma_dict_values_height(ctx, entries);
        },
        TreeV::NamedTuple { fields, .. } => {},
        TreeV::Deque { items, .. } => {},
        TreeV::StructSequence { fields, .. } => {},
        TreeV::Object { children, .. } => {},
    }
}

/// Every sequence whose members stay below a bound stays below it as a whole.
proof fn lemma_seq_height_le(s: Seq<TreeV>, b: nat)
    requires
        forall|i: int| 0 <= i < s.len() ==> height(#[trigger] s[i]) <= b,
    ensures
        seq_height(s) <= b,
    decreases s.len(),
{
    if s.len() > 0 {
        assert(height(s[0]) <= b);
        assert(forall|i: int|
            0 <= i < s.drop_first().len() ==> height(#[trigger] s.drop_first()[i]) <= b);
        lemma_seq_height_le(s.drop_first(), b);
    }
}

proof fn lemma_entry_values_height(es: Seq<(u64, TreeV)>)
    ensures
        seq_height(entry_values(es)) <= entries_height(es),
{
    assert forall|i: int|
        0 <= i < entry_values(es).len() implies height(#[trigger] entry_values(es)[i])
        <= entries_height(es) by {
        assert(entry_values(es)[i] == es[i].1);
        lemma_entries_height_bound(es, i);
    }
    lemma_seq_height_le(entry_values(es), entries_height(es));
}

proof fn lemma_permuted_values_height(es: Seq<(u64, TreeV)>)
    ensures
        seq_height(permuted_values(es)) <= entries_height(es),
{
    let p = sort_perm(entry_keys(es));
    lemma_sort_perm(entry_keys(es));
    assert forall|i: int|
        0 <= i < permuted_values(es).len() implies height(#[trigger] permuted_values(es)[i])
        <= entries_height(es) by {
        assert(permuted_values(es)[i] == es[p[i]].1);
        lemma_entries_height_bound(es, p[i]);
    }
    lemma_seq_height_le(permuted_values(es), entries_height(es));
}

proof fn lemma_dict_values_height(ctx: FlattenCtx, es: Seq<(u64, TreeV)>)
    ensures
        seq_height(spec_dict_values(ctx, es)) <= entries_height(es),
{
    if ctx.insertion_ordered {
        lemma_entry_values_height(es);
    } else {
        lemma_permuted_values_height(es);
    }
}

/// Dropping the last member cannot raise a sequence's height.
pub proof fn lemma_seq_height_drop_last(s: Seq<TreeV>)
    requires
        s.len() > 0,
    ensures
        seq_height(s.drop_last()) <= seq_height(s),
    decreases s.len(),
{
    if s.len() > 1 {
        assert(s.drop_last().drop_first() =~= s.drop_first().drop_last());
        lemma_seq_height_drop_last(s.drop_first());
        assert(s.drop_last()[0] == s[0]);
    }
}

/// The leaves one value contributes, in traversal order.
pub open spec fn flat_leaves(ctx: FlattenCtx, v: TreeV) -> Seq<TreeV>
    decreases height(v), 1nat, 0nat,
{
    if ctx_is_leaf(ctx, v) {
        seq![v]
    } else {
        proof {
            lemma_children_height(ctx, v);
        }
        flat_leaves_seq(ctx, spec_children(ctx, v))
    }
}

/// The leaves a child sequence contributes, in order.
pub open spec fn flat_leaves_seq(ctx: FlattenCtx, s: Seq<TreeV>) -> Seq<TreeV>
    decreases seq_height(s), 2nat, s.len(),
{
    if s.len() == 0 {
        Seq::empty()
    } else {
        proof {
            lemma_seq_height_drop_last(s);
            lemma_seq_height_bound(s, s.len() - 1);
        }
        flat_leaves_seq(ctx, s.drop_last()) + flat_leaves(ctx, s.last())
    }
}

/// The post-order node sequence one value contributes: all children's nodes,
/// then its own, carrying its subtree's leaf and node counts.
pub open spec fn flat_nodes(ctx: FlattenCtx, v: TreeV) -> Seq<NodeV>
    decreases height(v), 1nat, 0nat,
{
    if ctx_is_leaf(ctx, v) {
        seq![leaf_node_v()]
    } else {
        proof {
            lemma_children_height(ctx, v);
        }
        let kid_nodes = flat_nodes_seq(ctx, spec_children(ctx, v));
        kid_nodes.push(
            spec_container_node(
                ctx,
                v,
                flat_leaves(ctx, v).len() as int,
                kid_nodes.len() as int + 1,
            ),
        )
    }
}

/// The node sequences of a child list, concatenated in order.
pub open spec fn flat_nodes_seq(ctx: FlattenCtx, s: Seq<TreeV>) -> Seq<NodeV>
    decreases seq_height(s), 2nat, s.len(),
{
    if s.len() == 0 {
        Seq::empty()
    } else {
        proof {
            lemma_seq_height_drop_last(s);
            lemma_seq_height_bound(s, s.len() - 1);
        }
        flat_nodes_seq(ctx, s.drop_last()) + flat_nodes(ctx, s.last())
    }
}

/// Whether the traversal of a value meets a custom node anywhere.
pub open spec fn flat_custom(ctx: FlattenCtx, v: TreeV) -> bool
    decreases height(v), 1nat, 0nat,
{
    if ctx_is_leaf(ctx, v) {
        false
    } else {
        proof {
            lemma_children_height(ctx, v);
        }
        ctx_resolve(ctx, v).0 == PyTreeKind::Custom || flat_custom_seq(
            ctx,
            spec_children(ctx, v),
        )
    }
}

/// Whether the traversal of a child list meets a custom node.
pub open spec fn flat_custom_seq(ctx: FlattenCtx, s: Seq<TreeV>) -> bool
    decreases seq_height(s), 2nat, s.len(),
{
    if s.len() == 0 {
        false
    } else {
        proof {
            lemma_seq_height_drop_last(s);
            lemma_seq_height_bound(s, s.len() - 1);
        }
        flat_custom_seq(ctx, s.drop_last()) || flat_custom(ctx, s.last())
    }
}

/// The first failure the traversal of a value meets, if any: the depth
/// ceiling at entry, then the children's failures in order, then a label
/// count mismatch of its own custom decomposition.
pub open spec fn flat_err(ctx: FlattenCtx, v: TreeV, depth: int) -> Option<FlattenError>
    decreases height(v), 1nat, 0nat,
{
    if depth > MAX_RECURSION_DEPTH {
        Some(FlattenError::RecursionLimitExceeded)
    } else if ctx_is_leaf(ctx, v) {
        None
    } else {
        proof {
            lemma_children_height(ctx, v);
        }
        let kids_err = flat_err_seq(ctx, spec_children(ctx, v), depth + 1);
        if kids_err is Some {
            kids_err
        } else if v matches TreeV::Object { children, entry_labels: Some(e), .. } && e.len()
            != children.len() {
            Some(FlattenError::InvalidCustomFlatten)
        } else {
            None
        }
    }
}

/// The first failure among a child list, scanned front to back.
pub open spec fn flat_err_seq(ctx: FlattenCtx, s: Seq<TreeV>, depth: int) -> Option<FlattenError>
    decreases seq_height(s), 2nat, s.len(),
{
    if s.len() == 0 {
        None
    } else if flat_err(ctx, s.first(), depth) is Some {
        flat_err(ctx, s.first(), depth)
    } else {
        flat_err_seq(ctx, s.drop_first(), depth)
    }
}

/// The first failing child decides the failure of the list.
pub proof fn lemma_flat_err_seq_at(ctx: FlattenCtx, s: Seq<TreeV>, depth: int, i: int)
    requires
        0 <= i < s.len(),
        forall|j: int| 0 <= j < i ==> flat_err(ctx, #[trigger] s[j], depth) is None,
        flat_err(ctx, s[i], depth) is Some,
    ensures
        flat_err_seq(ctx, s, depth) == flat_err(ctx, s[i], depth),
    decreases i,
{
    if i > 0 {
        assert(flat_err(ctx, s[0], depth) is None);
        assert forall|j: int| 0 <= j < i - 1 implies flat_err(
            ctx,
            #[trigger] s.drop_first()[j],
            depth,
        ) is None by {
            assert(s.drop_first()[j] == s[j + 1]);
        }
        assert(s.drop_first()[i - 1] == s[i]);
        lemma_flat_err_seq_at(ctx, s.drop_first(), depth, i - 1);
    }
}

/// A list of failure-free children flattens without failure.
pub proof fn lemma_flat_err_seq_none(ctx: FlattenCtx, s: Seq<TreeV>, depth: int)
    requires
        forall|j: int| 0 <= j < s.len() ==> flat_err(ctx, #[trigger] s[j], depth) is None,
    ensures
        flat_err_seq(ctx, s, depth) is None,
    decreases s.len(),
{
    if s.len() > 0 {
        assert forall|j: int| 0 <= j < s.drop_first().len() implies flat_err(
            ctx,
            #[trigger] s.drop_first()[j],
            depth,
        ) is None by {
            assert(s.drop_first()[j] == s[j + 1]);
        }
        lemma_flat_err_seq_none(ctx, s.drop_first(), depth);
    }
}

/// A failure-free list has failure-free members.
pub proof fn lemma_flat_err_seq_each(ctx: FlattenCtx, s: Seq<TreeV>, depth: int)
    requires
        flat_err_seq(ctx, s, depth) is None,
    ensures
        forall|j: int| 0 <= j < s.len() ==> flat_err(ctx, #[trigger] s[j], depth) is None,
    decreases s.len(),
{
    if s.len() > 0 {
        lemma_flat_err_seq_each(ctx, s.drop_first(), depth);
        assert forall|j: int| 0 <= j < s.len() implies flat_err(ctx, #[trigger] s[j], depth)
            is None by {
            if j > 0 {
                assert(s.drop_first()[j - 1] == s[j]);
            }
        }
    }
}

/// Every value flattens to at least its own node.
pub proof fn lemma_flat_nodes_nonempty(ctx: FlattenCtx, v: TreeV)
    ensures
        flat_nodes(ctx, v).len() >= 1,
{
}



proof fn lemma_nodes_view_push(s: Seq<Node>, n: Node)
    ensures
        nodes_view(s.push(n)) == nodes_view(s).push(n@),
{
    assert(nodes_view(s.push(n)) =~= nodes_view(s).push(n@));
}

/// A mapping contributes one child and one traversal key per entry.
proof fn lemma_dict_children_len(ctx: FlattenCtx, es: Seq<(u64, TreeV)>)
    ensures
        spec_dict_values(ctx, es).len() == es.len(),
        spec_dict_keys(ctx, es).len() == es.len(),
        permuted_values(es).len() == es.len(),
        permuted_keys(es).len() == es.len(),
{
    lemma_sort_perm(entry_keys(es));
}

/// Whether a handle list holds a given handle.
fn contains_u64(v: &Vec<u64>, x: u64) -> (r: bool)
    ensures
        r == v@.contains(x),
{
    let mut i: usize = 0;
    while i < v.len()
        invariant
            i <= v@.len(),
            forall|j: int| 0 <= j < i ==> v@[j] != x,
        decreases v@.len() - i,
    {
        if v[i] == x {
            return true;
        }
        i = i + 1;
    }
    false
}

/// Registry resolution patched by the shape heuristics: an unregistered
/// record tuple or record sequence decomposes even though lookup reports no
/// entry for it.
fn resolve(
    registry: &PyTreeTypeRegistry,
    obj: &TreeValue,
    none_is_leaf: bool,
    namespace: &str,
) -> (r: (PyTreeKind, Option<PyTreeTypeRegistration>))
    requires
        registry.wf(),
    ensures
        r == spec_resolve(registry@.table, obj@, none_is_leaf, namespace@),
{
    let kr = registry.lookup(obj, Some(none_is_leaf), Some(namespace));
    if kr.0 == PyTreeKind::Leaf && kr.1.is_none() {
        match obj {
            TreeValue::NamedTuple { .. } => (PyTreeKind::NamedTuple, None),
            TreeValue::StructSequence { .. } => (PyTreeKind::StructSequence, None),
            _ => (PyTreeKind::Leaf, None),
        }
    } else {
        kr
    }
}

/// Appends a copy of a leaf value and its node.
fn push_leaf(traversal: &mut Vec<Node>, leaves: &mut Vec<TreeValue>, obj: &TreeValue)
    ensures
        nodes_view(final(traversal)@) == nodes_view(old(traversal)@).push(leaf_node_v()),
        view_children(final(leaves)@) == view_children(old(leaves)@).push(obj@),
{
    leaves.push(clone_tree(obj));
    traversal.push(
        Node {
            kind: PyTreeKind::Leaf,
            arity: 0,
            node_data: NodeData::Empty,
            node_entries: None,
            custom: None,
            num_leaves: 1,
            num_nodes: 1,
            original_keys: None,
        },
    );
    proof {
        assert(leaves@.drop_last() =~= old(leaves)@);
        assert(view_children(leaves@) =~= view_children(old(leaves)@).push(obj@));
        assert(nodes_view(traversal@) =~= nodes_view(old(traversal)@).push(leaf_node_v()));
    }
}

/// Appends the finished node of a container whose children have just been
/// traversed, filling in the subtree counts from how far the buffers grew;
/// the counts provably fit the machine word because the buffers themselves
/// hold that many elements.
#[allow(clippy::too_many_arguments)]
fn finish_container(
    traversal: &mut Vec<Node>,
    leaves: &Vec<TreeValue>,
    start_num_nodes: usize,
    start_num_leaves: usize,
    node: Node,
    Ghost(ctx): Ghost<FlattenCtx>,
    Ghost(v): Ghost<TreeV>,
    Ghost(base_nodes): Ghost<Seq<NodeV>>,
    Ghost(base_leaves): Ghost<Seq<TreeV>>,
)
    requires
        !ctx_is_leaf(ctx, v),
        start_num_nodes as int == base_nodes.len(),
        start_num_leaves as int == base_leaves.len(),
        nodes_view(old(traversal)@) == base_nodes + flat_nodes_seq(ctx, spec_children(ctx, v)),
        view_children(leaves@) == base_leaves + flat_leaves_seq(ctx, spec_children(ctx, v)),
        node.kind == ctx_resolve(ctx, v).0,
        node.arity as int == spec_children(ctx, v).len(),
        node.node_data@ == spec_node_data(ctx, v),
        (match node.node_entries {
            Some(e) => Some(e@),
            None => None::<Seq<u64>>,
        }) == (match v {
            TreeV::Object { entry_labels, .. } => entry_labels,
            _ => None::<Seq<u64>>,
        }),
        node.custom == (if ctx_resolve(ctx, v).0 == PyTreeKind::Custom {
            ctx_resolve(ctx, v).1
        } else {
            None::<PyTreeTypeRegistration>
        }),
        (match node.original_keys {
            Some(k) => Some(k@),
            None => None::<Seq<u64>>,
        }) == (match v {
            TreeV::Dict(es) => Some(entry_keys(es)),
            TreeV::OrderedDict(es) => Some(entry_keys(es)),
            TreeV::DefaultDict { entries, .. } => Some(entry_keys(entries)),
            _ => None::<Seq<u64>>,
        }),
    ensures
        nodes_view(final(traversal)@) == base_nodes + flat_nodes(ctx, v),
        view_children(leaves@) == base_leaves + flat_leaves(ctx, v),
{
    let ghost kids = spec_children(ctx, v);
    let ghost kid_nodes = flat_nodes_seq(ctx, kids);
    proof {
        lemma_view_children(leaves@);
        assert(nodes_view(old(traversal)@).len() == old(traversal)@.len());
        assert(view_children(leaves@).len() == leaves@.len());
        assert(old(traversal)@.len() == base_nodes.len() + kid_nodes.len());
        assert(leaves@.len() == base_leaves.len() + flat_leaves_seq(ctx, kids).len());
    }
    let mut node = node;
    node.num_leaves = leaves.len() - start_num_leaves;
    node.num_nodes = 0;
    traversal.push(node);
    let ghost mid = traversal@;
    let grown = traversal.len();
    let mut node = traversal.pop().unwrap();
    proof {
        assert(traversal@ =~= old(traversal)@);
    }
    node.num_nodes = grown - start_num_nodes;
    traversal.push(node);
    proof {
        assert(traversal@ =~= old(traversal)@.push(node));
        assert(node.num_leaves as int == flat_leaves_seq(ctx, kids).len());
        assert(node.num_nodes as int == kid_nodes.len() + 1);
        assert(flat_leaves(ctx, v) == flat_leaves_seq(ctx, kids));
        assert(node@ == spec_container_node(
            ctx,
            v,
            flat_leaves(ctx, v).len() as int,
            kid_nodes.len() as int + 1,
        ));
        assert(flat_nodes(ctx, v) == kid_nodes.push(node@));
        lemma_nodes_view_push(old(traversal)@, node);
        assert(nodes_view(traversal@) =~= base_nodes + flat_nodes(ctx, v));
    }
}


/// Flattens a positional child list in order, accumulating leaves and nodes.
#[allow(clippy::too_many_arguments)]
fn flatten_children(
    registry: &PyTreeTypeRegistry,
    cs: &Vec<TreeValue>,
    traversal: &mut Vec<Node>,
    leaves: &mut Vec<TreeValue>,
    depth: usize,
    leaf_types: Option<&Vec<u64>>,
    none_is_leaf: bool,
    namespace: &str,
    insertion_ordered: bool,
) -> (r: Result<bool, FlattenError>)
    requires
        registry.wf(),
        wf_children(view_children(cs@)),
        depth <= MAX_RECURSION_DEPTH + 1,
        insertion_ordered == (registry@.ordered.contains(namespace@) || registry@.ordered.contains(
            Seq::<char>::empty(),
        )),
    ensures
        ({
            let ctx = spec_ctx(registry@, leaf_set(leaf_types), none_is_leaf, namespace@);
            let vals = view_children(cs@);
            match r {
                Ok(found) => {
                    &&& flat_err_seq(ctx, vals, depth as int) is None
                    &&& nodes_view(final(traversal)@) == nodes_view(old(traversal)@)
                        + flat_nodes_seq(ctx, vals)
                    &&& view_children(final(leaves)@) == view_children(old(leaves)@)
                        + flat_leaves_seq(ctx, vals)
                    &&& found == flat_custom_seq(ctx, vals)
                },
                Err(e) => flat_err_seq(ctx, vals, depth as int) == Some(e),
            }
        }),
    decreases *cs, 0nat,
{
    let ghost ctx = spec_ctx(registry@, leaf_set(leaf_types), none_is_leaf, namespace@);
    let ghost vals = view_children(cs@);
    let ghost base_nodes = nodes_view(traversal@);
    let ghost base_leaves = view_children(leaves@);
    proof {
        lemma_view_children(cs@);
    }
    let mut found: bool = false;
    let mut j: usize = 0;
    while j < cs.len()
        invariant
            registry.wf(),
            wf_children(vals),
            depth <= MAX_RECURSION_DEPTH + 1,
            insertion_ordered == (registry@.ordered.contains(namespace@)
                || registry@.ordered.contains(Seq::<char>::empty())),
            ctx == spec_ctx(registry@, leaf_set(leaf_types), none_is_leaf, namespace@),
            vals == view_children(cs@),
            vals.len() == cs@.len(),
            base_nodes == nodes_view(old(traversal)@),
            base_leaves == view_children(old(leaves)@),
            forall|i: int| 0 <= i < cs@.len() ==> vals[i] == cs@[i]@,
            j <= cs@.len(),
            nodes_view(traversal@) == base_nodes + flat_nodes_seq(ctx, vals.take(j as int)),
            view_children(leaves@) == base_leaves + flat_leaves_seq(ctx, vals.take(j as int)),
            found == flat_custom_seq(ctx, vals.take(j as int)),
            forall|q: int| 0 <= q < j ==> flat_err(ctx, #[trigger] vals[q], depth as int) is None,
        decreases cs@.len() - j,
    {
        proof {
            assert(decreases_to!(*cs => cs@));
            assert(decreases_to!(cs@ => cs@[j as int]));
            lemma_wf_children_index(vals, j as int);
        }
        match flatten_into_impl(
            registry,
            &cs[j],
            traversal,
            leaves,
            depth,
            leaf_types,
            none_is_leaf,
            namespace,
            insertion_ordered,
        ) {
            Ok(f) => {
                found = found || f;
            },
            Err(e) => {
                proof {
                    lemma_flat_err_seq_at(ctx, vals, depth as int, j as int);
                }
                return Err(e);
            },
        }
        proof {
            assert(vals.take(j as int + 1).drop_last() =~= vals.take(j as int));
            assert(vals.take(j as int + 1).last() == vals[j as int]);
            assert(nodes_view(traversal@) =~= base_nodes + flat_nodes_seq(
                ctx,
                vals.take(j as int + 1),
            ));
            assert(view_children(leaves@) =~= base_leaves + flat_leaves_seq(
                ctx,
                vals.take(j as int + 1),
            ));
        }
        j = j + 1;
    }
    proof {
        assert(vals.take(cs@.len() as int) =~= vals);
        lemma_flat_err_seq_none(ctx, vals, depth as int);
    }
    Ok(found)
}

/// Flattens a mapping's entries in traversal order (sorted keys, or
/// insertion order where asked), yielding whether a custom node was met, the
/// traversal key list, and the original key list.
#[allow(clippy::too_many_arguments)]
fn flatten_entries(
    registry: &PyTreeTypeRegistry,
    es: &Vec<(u64, TreeValue)>,
    traversal: &mut Vec<Node>,
    leaves: &mut Vec<TreeValue>,
    depth: usize,
    leaf_types: Option<&Vec<u64>>,
    none_is_leaf: bool,
    namespace: &str,
    insertion_ordered: bool,
    keep_insertion_order: bool,
) -> (r: Result<(bool, Vec<u64>, Vec<u64>), FlattenError>)
    requires
        registry.wf(),
        wf_entries(view_entries(es@)),
        entry_keys(view_entries(es@)).no_duplicates(),
        depth <= MAX_RECURSION_DEPTH + 1,
        insertion_ordered == (registry@.ordered.contains(namespace@) || registry@.ordered.contains(
            Seq::<char>::empty(),
        )),
    ensures
        ({
            let ctx = spec_ctx(registry@, leaf_set(leaf_types), none_is_leaf, namespace@);
            let ves = view_entries(es@);
            let vals = if keep_insertion_order {
                entry_values(ves)
            } else {
                permuted_values(ves)
            };
            let keys = if keep_insertion_order {
                entry_keys(ves)
            } else {
                permuted_keys(ves)
            };
            match r {
                Ok(out) => {
                    &&& flat_err_seq(ctx, vals, depth as int) is None
                    &&& nodes_view(final(traversal)@) == nodes_view(old(traversal)@)
                        + flat_nodes_seq(ctx, vals)
                    &&& view_children(final(leaves)@) == view_children(old(leaves)@)
                        + flat_leaves_seq(ctx, vals)
                    &&& out.0 == flat_custom_seq(ctx, vals)
                    &&& out.1@ == keys
                    &&& out.2@ == entry_keys(ves)
                },
                Err(e) => flat_err_seq(ctx, vals, depth as int) == Some(e),
            }
        }),
    decreases *es, 0nat,
{
    let ghost ctx = spec_ctx(registry@, leaf_set(leaf_types), none_is_leaf, namespace@);
    let ghost ves = view_entries(es@);
    let ghost base_nodes = nodes_view(traversal@);
    let ghost base_leaves = view_children(leaves@);
    proof {
        lemma_view_entries(es@);
    }
    let n = es.len();
    let mut oks: Vec<u64> = Vec::new();
    let mut t: usize = 0;
    while t < n
        invariant
            n == es@.len(),
            t <= n,
            oks@.len() == t,
            forall|q: int| 0 <= q < t ==> oks@[q] == es@[q].0,
        decreases n - t,
    {
        let k = es[t].0;
        oks.push(k);
        t = t + 1;
    }
    proof {
        assert(oks@ =~= entry_keys(ves));
    }
    let order: Vec<usize> = if keep_insertion_order {
        let mut idv: Vec<usize> = Vec::new();
        let mut t2: usize = 0;
        while t2 < n
            invariant
                t2 <= n,
                idv@.len() == t2,
                forall|q: int| 0 <= q < t2 ==> idv@[q] as int == q,
            decreases n - t2,
        {
            idv.push(t2);
            t2 = t2 + 1;
        }
        idv
    } else {
        sorted_key_order(&oks)
    };
    let ghost vals = if keep_insertion_order {
        entry_values(ves)
    } else {
        permuted_values(ves)
    };
    let ghost keys = if keep_insertion_order {
        entry_keys(ves)
    } else {
        permuted_keys(ves)
    };
    proof {
        lemma_sort_perm(entry_keys(ves));
        assert(order@.len() == n);
        assert forall|q: int| 0 <= q < n implies (#[trigger] order@[q]) < n && vals[q] == ves[
            order@[q] as int
        ].1 && keys[q] == ves[order@[q] as int].0 by {
            if keep_insertion_order {
                assert(order@[q] as int == q);
            } else {
                assert(order@.map_values(|u: usize| u as int)[q] == order@[q] as int);
                assert(sort_perm(entry_keys(ves))[q] == order@[q] as int);
            }
        }
        assert(vals.len() == n);
        assert(keys.len() == n);
    }
    let mut found: bool = false;
    let mut tkeys: Vec<u64> = Vec::new();
    let mut j: usize = 0;
    while j < order.len()
        invariant
            registry.wf(),
            wf_entries(ves),
            depth <= MAX_RECURSION_DEPTH + 1,
            insertion_ordered == (registry@.ordered.contains(namespace@)
                || registry@.ordered.contains(Seq::<char>::empty())),
            ctx == spec_ctx(registry@, leaf_set(leaf_types), none_is_leaf, namespace@),
            ves == view_entries(es@),
            vals == (if keep_insertion_order {
                entry_values(ves)
            } else {
                permuted_values(ves)
            }),
            keys == (if keep_insertion_order {
                entry_keys(ves)
            } else {
                permuted_keys(ves)
            }),
            base_nodes == nodes_view(old(traversal)@),
            base_leaves == view_children(old(leaves)@),
            n == es@.len(),
            ves.len() == n,
            forall|i: int| 0 <= i < n ==> #[trigger] ves[i] == (es@[i].0, es@[i].1@),
            order@.len() == n,
            vals.len() == n,
            keys.len() == n,
            forall|q: int|
                0 <= q < n ==> (#[trigger] order@[q]) < n && vals[q] == ves[order@[q] as int].1
                    && keys[q] == ves[order@[q] as int].0,
            j <= n,
            tkeys@.len() == j,
            forall|q: int| 0 <= q < j ==> tkeys@[q] == keys[q],
            nodes_view(traversal@) == base_nodes + flat_nodes_seq(ctx, vals.take(j as int)),
            view_children(leaves@) == base_leaves + flat_leaves_seq(ctx, vals.take(j as int)),
            found == flat_custom_seq(ctx, vals.take(j as int)),
            forall|q: int| 0 <= q < j ==> flat_err(ctx, #[trigger] vals[q], depth as int) is None,
        decreases n - j,
    {
        let idx = order[j];
        proof {
            assert(decreases_to!(*es => es@));
            assert(decreases_to!(es@ => es@[idx as int]));
            assert(decreases_to!(es@[idx as int] => es@[idx as int].1));
            lemma_wf_entries_index(ves, idx as int);
            assert(es@[idx as int].1@ == vals[j as int]);
        }
        match flatten_into_impl(
            registry,
            &es[idx].1,
            traversal,
            leaves,
            depth,
            leaf_types,
            none_is_leaf,
            namespace,
            insertion_ordered,
        ) {
            Ok(f) => {
                found = found || f;
            },
            Err(e) => {
                proof {
                    lemma_flat_err_seq_at(ctx, vals, depth as int, j as int);
                }
                return Err(e);
            },
        }
        tkeys.push(es[idx].0);
        proof {
            assert(vals.take(j as int + 1).drop_last() =~= vals.take(j as int));
            assert(vals.take(j as int + 1).last() == vals[j as int]);
            assert(nodes_view(traversal@) =~= base_nodes + flat_nodes_seq(
                ctx,
                vals.take(j as int + 1),
            ));
            assert(view_children(leaves@) =~= base_leaves + flat_leaves_seq(
                ctx,
                vals.take(j as int + 1),
            ));
        }
        j = j + 1;
    }
    proof {
        assert(vals.take(n as int) =~= vals);
        assert(tkeys@ =~= keys);
        lemma_flat_err_seq_none(ctx, vals, depth as int);
    }
    Ok((found, tkeys, oks))
}

/// Flattens one positional container (fixed sequence, list, record tuple,
/// deque or record sequence): its children in order, then its node.
#[allow(clippy::too_many_arguments)]
fn flatten_positional(
    registry: &PyTreeTypeRegistry,
    cs: &Vec<TreeValue>,
    traversal: &mut Vec<Node>,
    leaves: &mut Vec<TreeValue>,
    depth: usize,
    leaf_types: Option<&Vec<u64>>,
    none_is_leaf: bool,
    namespace: &str,
    insertion_ordered: bool,
    kind: PyTreeKind,
    node_data: NodeData,
    Ghost(v): Ghost<TreeV>,
) -> (r: Result<bool, FlattenError>)
    requires
        registry.wf(),
        wf_children(view_children(cs@)),
        depth <= MAX_RECURSION_DEPTH,
        insertion_ordered == (registry@.ordered.contains(namespace@) || registry@.ordered.contains(
            Seq::<char>::empty(),
        )),
        ({
            let ctx = spec_ctx(registry@, leaf_set(leaf_types), none_is_leaf, namespace@);
            &&& !ctx_is_leaf(ctx, v)
            &&& spec_children(ctx, v) == view_children(cs@)
            &&& ctx_resolve(ctx, v).0 == kind
            &&& kind != PyTreeKind::Custom
            &&& node_data@ == spec_node_data(ctx, v)
            &&& !(v is Dict) && !(v is OrderedDict) && !(v is DefaultDict) && !(v is Object)
        }),
    ensures
        ({
            let ctx = spec_ctx(registry@, leaf_set(leaf_types), none_is_leaf, namespace@);
            match r {
                Ok(found) => {
                    &&& flat_err(ctx, v, depth as int) is None
                    &&& nodes_view(final(traversal)@) == nodes_view(old(traversal)@) + flat_nodes(
                        ctx,
                        v,
                    )
                    &&& view_children(final(leaves)@) == view_children(old(leaves)@) + flat_leaves(
                        ctx,
                        v,
                    )
                    &&& found == flat_custom(ctx, v)
                },
                Err(e) => flat_err(ctx, v, depth as int) == Some(e),
            }
        }),
    decreases *cs, 1nat,
{
    let ghost ctx = spec_ctx(registry@, leaf_set(leaf_types), none_is_leaf, namespace@);
    proof {
        lemma_view_children(leaves@);
        lemma_view_children(cs@);
    }
    let start_num_nodes = traversal.len();
    let start_num_leaves = leaves.len();
    let sub = match flatten_children(
        registry,
        cs,
        traversal,
        leaves,
        depth + 1,
        leaf_types,
        none_is_leaf,
        namespace,
        insertion_ordered,
    ) {
        Ok(f) => f,
        Err(e) => {
            return Err(e);
        },
    };
    let node = Node {
        kind,
        arity: cs.len(),
        node_data,
        node_entries: None,
        custom: None,
        num_leaves: 0,
        num_nodes: 0,
        original_keys: None,
    };
    finish_container(
        traversal,
        leaves,
        start_num_nodes,
        start_num_leaves,
        node,
        Ghost(ctx),
        Ghost(v),
        Ghost(nodes_view(old(traversal)@)),
        Ghost(view_children(old(leaves)@)),
    );
    Ok(sub)
}

/// Flattens one mapping container (plain, insertion-ordered, or with a
/// default factory): its values in traversal key order, then its node with
/// both key lists.
#[allow(clippy::too_many_arguments)]
fn flatten_mapping(
    registry: &PyTreeTypeRegistry,
    es: &Vec<(u64, TreeValue)>,
    traversal: &mut Vec<Node>,
    leaves: &mut Vec<TreeValue>,
    depth: usize,
    leaf_types: Option<&Vec<u64>>,
    none_is_leaf: bool,
    namespace: &str,
    insertion_ordered: bool,
    kind: PyTreeKind,
    keep_insertion_order: bool,
    default_factory: Option<u64>,
    Ghost(v): Ghost<TreeV>,
) -> (r: Result<bool, FlattenError>)
    requires
        registry.wf(),
        wf_entries(view_entries(es@)),
        entry_keys(view_entries(es@)).no_duplicates(),
        depth <= MAX_RECURSION_DEPTH,
        insertion_ordered == (registry@.ordered.contains(namespace@) || registry@.ordered.contains(
            Seq::<char>::empty(),
        )),
        ({
            let ctx = spec_ctx(registry@, leaf_set(leaf_types), none_is_leaf, namespace@);
            let ves = view_entries(es@);
            let keys = if keep_insertion_order {
                entry_keys(ves)
            } else {
                permuted_keys(ves)
            };
            &&& !ctx_is_leaf(ctx, v)
            &&& spec_children(ctx, v) == (if keep_insertion_order {
                entry_values(ves)
            } else {
                permuted_values(ves)
            })
            &&& ctx_resolve(ctx, v).0 == kind
            &&& kind != PyTreeKind::Custom
            &&& !(v is Object)
            &&& spec_node_data(ctx, v) == (match default_factory {
                Some(df) => NodeDataV::KeysWithDefault { default_factory: df, keys },
                None => NodeDataV::Keys(keys),
            })
            &&& (match v {
                TreeV::Dict(ds) => Some(entry_keys(ds)),
                TreeV::OrderedDict(ds) => Some(entry_keys(ds)),
                TreeV::DefaultDict { entries: ds, .. } => Some(entry_keys(ds)),
                _ => None::<Seq<u64>>,
            }) == Some(entry_keys(ves))
        }),
    ensures
        ({
            let ctx = spec_ctx(registry@, leaf_set(leaf_types), none_is_leaf, namespace@);
            match r {
                Ok(found) => {
                    &&& flat_err(ctx, v, depth as int) is None
                    &&& nodes_view(final(traversal)@) == nodes_view(old(traversal)@) + flat_nodes(
                        ctx,
                        v,
                    )
                    &&& view_children(final(leaves)@) == view_children(old(leaves)@) + flat_leaves(
                        ctx,
                        v,
                    )
                    &&& found == flat_custom(ctx, v)
                },
                Err(e) => flat_err(ctx, v, depth as int) == Some(e),
            }
        }),
    decreases *es, 1nat,
{
    let ghost ctx = spec_ctx(registry@, leaf_set(leaf_types), none_is_leaf, namespace@);
    proof {
        lemma_view_children(leaves@);
        lemma_view_entries(es@);
        lemma_dict_children_len(ctx, view_entries(es@));
        lemma_sort_perm(entry_keys(view_entries(es@)));
    }
    let start_num_nodes = traversal.len();
    let start_num_leaves = leaves.len();
    let out = match flatten_entries(
        registry,
        es,
        traversal,
        leaves,
        depth + 1,
        leaf_types,
        none_is_leaf,
        namespace,
        insertion_ordered,
        keep_insertion_order,
    ) {
        Ok(o) => o,
        Err(e) => {
            return Err(e);
        },
    };
    let (sub, tkeys, oks) = out;
    let data: NodeData = match default_factory {
        Some(df) => NodeData::KeysWithDefault { default_factory: df, keys: tkeys },
        None => NodeData::Keys(tkeys),
    };
    let node = Node {
        kind,
        arity: es.len(),
        node_data: data,
        node_entries: None,
        custom: None,
        num_leaves: 0,
        num_nodes: 0,
        original_keys: Some(oks),
    };
    finish_container(
        traversal,
        leaves,
        start_num_nodes,
        start_num_leaves,
        node,
        Ghost(ctx),
        Ghost(v),
        Ghost(nodes_view(old(traversal)@)),
        Ghost(view_children(old(leaves)@)),
    );
    Ok(sub)
}

/// One step of the traversal: classifies the value, recurses into its
/// children, and appends its leaves and its node; yields whether a custom
/// node was met.
#[allow(clippy::too_many_arguments)]
fn flatten_into_impl(
    registry: &PyTreeTypeRegistry,
    obj: &TreeValue,
    traversal: &mut Vec<Node>,
    leaves: &mut Vec<TreeValue>,
    depth: usize,
    leaf_types: Option<&Vec<u64>>,
    none_is_leaf: bool,
    namespace: &str,
    insertion_ordered: bool,
) -> (r: Result<bool, FlattenError>)
    requires
        registry.wf(),
        wf_tree(obj@),
        depth <= MAX_RECURSION_DEPTH + 1,
        insertion_ordered == (registry@.ordered.contains(namespace@) || registry@.ordered.contains(
            Seq::<char>::empty(),
        )),
    ensures
        ({
            let ctx = spec_ctx(registry@, leaf_set(leaf_types), none_is_leaf, namespace@);
            match r {
                Ok(found) => {
                    &&& flat_err(ctx, obj@, depth as int) is None
                    &&& nodes_view(final(traversal)@) == nodes_view(old(traversal)@) + flat_nodes(
                        ctx,
                        obj@,
                    )
                    &&& view_children(final(leaves)@) == view_children(old(leaves)@) + flat_leaves(
                        ctx,
                        obj@,
                    )
                    &&& found == flat_custom(ctx, obj@)
                },
                Err(e) => flat_err(ctx, obj@, depth as int) == Some(e),
            }
        }),
    decreases *obj, 2nat,
{
    let ghost ctx = spec_ctx(registry@, leaf_set(leaf_types), none_is_leaf, namespace@);
    proof {
        lemma_view_children(leaves@);
    }
    if depth > MAX_RECURSION_DEPTH {
        return Err(FlattenError::RecursionLimitExceeded);
    }
    let pred_leaf: bool = match leaf_types {
        Some(lt) => contains_u64(lt, obj.type_id()),
        None => false,
    };
    proof {
        assert(pred_leaf == spec_pred_hit(leaf_set(leaf_types), obj@));
    }
    if pred_leaf {
        push_leaf(traversal, leaves, obj);
        proof {
            assert(nodes_view(traversal@) =~= nodes_view(old(traversal)@) + flat_nodes(ctx, obj@));
            assert(view_children(leaves@) =~= view_children(old(leaves)@) + flat_leaves(ctx, obj@));
        }
        return Ok(false);
    }
    let kr = resolve(registry, obj, none_is_leaf, namespace);
    if kr.0 == PyTreeKind::Leaf {
        push_leaf(traversal, leaves, obj);
        proof {
            assert(nodes_view(traversal@) =~= nodes_view(old(traversal)@) + flat_nodes(ctx, obj@));
            assert(view_children(leaves@) =~= view_children(old(leaves)@) + flat_leaves(ctx, obj@));
        }
        return Ok(false);
    }
    match obj {
        TreeValue::Leaf { .. } => {
            proof {
                assert(false);
            }
            Ok(false)
        },
        TreeValue::Null => {
            let start_num_nodes = traversal.len();
            let start_num_leaves = leaves.len();
            proof {
                assert(nodes_view(traversal@) =~= nodes_view(old(traversal)@) + flat_nodes_seq(
                    ctx,
                    spec_children(ctx, obj@),
                ));
                assert(view_children(leaves@) =~= view_children(old(leaves)@) + flat_leaves_seq(
                    ctx,
                    spec_children(ctx, obj@),
                ));
            }
            let node = Node {
                kind: PyTreeKind::Null,
                arity: 0,
                node_data: NodeData::Empty,
                node_entries: None,
                custom: None,
                num_leaves: 0,
                num_nodes: 0,
                original_keys: None,
            };
            finish_container(
                traversal,
                leaves,
                start_num_nodes,
                start_num_leaves,
                node,
                Ghost(ctx),
                Ghost(obj@),
                Ghost(nodes_view(old(traversal)@)),
                Ghost(view_children(old(leaves)@)),
            );
            Ok(false)
        },
        TreeValue::Tuple(cs) => {
            proof {
                assert(decreases_to!(*obj => obj->Tuple_0));
                assert(obj->Tuple_0 == *cs);
                lemma_view_children(cs@);
            }
            flatten_positional(
                registry,
                cs,
                traversal,
                leaves,
                depth,
                leaf_types,
                none_is_leaf,
                namespace,
                insertion_ordered,
                PyTreeKind::Tuple,
                NodeData::Empty,
                Ghost(obj@),
            )
        },
        TreeValue::List(cs) => {
            proof {
                assert(decreases_to!(*obj => obj->List_0));
                assert(obj->List_0 == *cs);
                lemma_view_children(cs@);
            }
            flatten_positional(
                registry,
                cs,
                traversal,
                leaves,
                depth,
                leaf_types,
                none_is_leaf,
                namespace,
                insertion_ordered,
                PyTreeKind::List,
                NodeData::Empty,
                Ghost(obj@),
            )
        },
        TreeValue::NamedTuple { type_id, fields } => {
            proof {
                assert(decreases_to!(*obj => obj->NamedTuple_fields));
                assert(obj->NamedTuple_fields == *fields);
                lemma_view_children(fields@);
            }
            flatten_positional(
                registry,
                fields,
                traversal,
                leaves,
                depth,
                leaf_types,
                none_is_leaf,
                namespace,
                insertion_ordered,
                PyTreeKind::NamedTuple,
                NodeData::TypeId(*type_id),
                Ghost(obj@),
            )
        },
        TreeValue::Deque { max_len, items } => {
            proof {
                assert(decreases_to!(*obj => obj->Deque_items));
                assert(obj->Deque_items == *items);
                lemma_view_children(items@);
            }
            flatten_positional(
                registry,
                items,
                traversal,
                leaves,
                depth,
                leaf_types,
                none_is_leaf,
                namespace,
                insertion_ordered,
                PyTreeKind::Deque,
                NodeData::MaxLen(*max_len),
                Ghost(obj@),
            )
        },
        TreeValue::StructSequence { type_id, fields } => {
            proof {
                assert(decreases_to!(*obj => obj->StructSequence_fields));
                assert(obj->StructSequence_fields == *fields);
                lemma_view_children(fields@);
            }
            flatten_positional(
                registry,
                fields,
                traversal,
                leaves,
                depth,
                leaf_types,
                none_is_leaf,
                namespace,
                insertion_ordered,
                PyTreeKind::StructSequence,
                NodeData::TypeId(*type_id),
                Ghost(obj@),
            )
        },
        TreeValue::Dict(es) => {
            proof {
                assert(decreases_to!(*obj => obj->Dict_0));
                assert(obj->Dict_0 == *es);
                lemma_view_entries(es@);
            }
            flatten_mapping(
                registry,
                es,
                traversal,
                leaves,
                depth,
                leaf_types,
                none_is_leaf,
                namespace,
                insertion_ordered,
                PyTreeKind::Dict,
                insertion_ordered,
                None,
                Ghost(obj@),
            )
        },
        TreeValue::OrderedDict(es) => {
            proof {
                assert(decreases_to!(*obj => obj->OrderedDict_0));
                assert(obj->OrderedDict_0 == *es);
                lemma_view_entries(es@);
            }
            flatten_mapping(
                registry,
                es,
                traversal,
                leaves,
                depth,
                leaf_types,
                none_is_leaf,
                namespace,
                insertion_ordered,
                PyTreeKind::OrderedDict,
                true,
                None,
                Ghost(obj@),
            )
        },
        TreeValue::DefaultDict { default_factory, entries } => {
            proof {
                assert(decreases_to!(*obj => obj->DefaultDict_entries));
                assert(obj->DefaultDict_entries == *entries);
                lemma_view_entries(entries@);
            }
            flatten_mapping(
                registry,
                entries,
                traversal,
                leaves,
                depth,
                leaf_types,
                none_is_leaf,
                namespace,
                insertion_ordered,
                PyTreeKind::DefaultDict,
                insertion_ordered,
                Some(*default_factory),
                Ghost(obj@),
            )
        },
        TreeValue::Object { type_id, children, node_data, entry_labels } => {
            proof {
                assert(decreases_to!(*obj => obj->Object_children));
                assert(obj->Object_children == *children);
            }
            let start_num_nodes = traversal.len();
            let start_num_leaves = leaves.len();
            match flatten_children(
                registry,
                children,
                traversal,
                leaves,
                depth + 1,
                leaf_types,
                none_is_leaf,
                namespace,
                insertion_ordered,
            ) {
                Ok(_f) => {},
                Err(e) => {
                    return Err(e);
                },
            }
            proof {
                lemma_view_children(children@);
                assert(spec_children(ctx, obj@) == view_children(children@));
            }
            let labels: Option<Vec<u64>> = match entry_labels {
                Some(e) => {
                    if e.len() != children.len() {
                        return Err(FlattenError::InvalidCustomFlatten);
                    }
                    Some(clone_handles(e))
                },
                None => None,
            };
            proof {
                crate::registry::lemma_registry_table_wf(registry);
                assert(obj@ is Object);
                assert(kr.0 == PyTreeKind::Custom);
            }
            let node = Node {
                kind: PyTreeKind::Custom,
                arity: children.len(),
                node_data: NodeData::Payload(*node_data),
                node_entries: labels,
                custom: kr.1,
                num_leaves: 0,
                num_nodes: 0,
                original_keys: None,
            };
            finish_container(
                traversal,
                leaves,
                start_num_nodes,
                start_num_leaves,
                node,
                Ghost(ctx),
                Ghost(obj@),
                Ghost(nodes_view(old(traversal)@)),
                Ghost(view_children(old(leaves)@)),
            );
            Ok(true)
        },
    }
}


/// Each traversal child of a well-formed tree is itself well formed.
pub proof fn lemma_children_wf(ctx: FlattenCtx, v: TreeV)
    requires
        wf_tree(v),
    ensures
        forall|i: int|
            0 <= i < spec_children(ctx, v).len() ==> wf_tree(#[trigger] spec_children(ctx, v)[i]),
{
    let kids = spec_children(ctx, v);
    assert forall|i: int| 0 <= i < kids.len() implies wf_tree(#[trigger] kids[i]) by {
        match v {
            TreeV::Tuple(cs) => {
                lemma_wf_children_index(cs, i);
            },
            TreeV::List(cs) => {
                lemma_wf_children_index(cs, i);
            },
            TreeV::Dict(es) => {
                lemma_dict_value_wf(ctx, es, i);
            },
            TreeV::OrderedDict(es) => {
                lemma_wf_entries_index(es, i);
            },
            TreeV::DefaultDict { entries, .. } => {
                lemma_dict_value_wf(ctx, entries, i);
            },
            TreeV::NamedTuple { fields, .. } => {
                lemma_wf_children_index(fields, i);
            },
            TreeV::Deque { items, .. } => {
                lemma_wf_children_index(items, i);
            },
            TreeV::StructSequence { fields, .. } => {
                lemma_wf_children_index(fields, i);
            },
            TreeV::Object { children, .. } => {
                lemma_wf_children_index(children, i);
            },
            _ => {},
        }
    }
}

proof fn lemma_dict_value_wf(ctx: FlattenCtx, es: Seq<(u64, TreeV)>, i: int)
    requires
        wf_entries(es),
        0 <= i < spec_dict_values(ctx, es).len(),
    ensures
        wf_tree(spec_dict_values(ctx, es)[i]),
{
    if ctx.insertion_ordered {
        lemma_wf_entries_index(es, i);
    } else {
        lemma_sort_perm(entry_keys(es));
        let p = sort_perm(entry_keys(es));
        assert(spec_dict_values(ctx, es)[i] == es[p[i]].1);
        lemma_wf_entries_index(es, p[i]);
    }
}

/// The two key lists of a mapping node are a duplicate-free rearrangement of
/// each other.
pub proof fn lemma_dict_keys_wf(ctx: FlattenCtx, es: Seq<(u64, TreeV)>)
    requires
        entry_keys(es).no_duplicates(),
    ensures
        crate::treespec::spec_key_lists_wf(spec_dict_keys(ctx, es), entry_keys(es), es.len() as int),
{
    let keys = entry_keys(es);
    assert(keys.len() == es.len());
    if !ctx.insertion_ordered {
        let p = sort_perm(keys);
        lemma_sort_perm(keys);
        let pk = permuted_keys(es);
        assert(pk.len() == es.len());
        assert(forall|j: int| 0 <= j < pk.len() ==> #[trigger] pk[j] == keys[p[j]]);
        assert forall|a: int, b: int| 0 <= a < b < pk.len() implies pk[a] != pk[b] by {
            assert(p[a] != p[b]);
            assert(pk[a] == keys[p[a]] && pk[b] == keys[p[b]]);
        }
        assert forall|x: u64| pk.contains(x) implies keys.contains(x) by {
            let j = choose|j: int| 0 <= j < pk.len() && pk[j] == x;
            assert(keys[p[j]] == x);
        }
        assert forall|x: u64| keys.contains(x) implies pk.contains(x) by {
            let i = choose|i: int| 0 <= i < keys.len() && keys[i] == x;
            assert(p.contains(i));
            let j = choose|j: int| 0 <= j < p.len() && p[j] == i;
            assert(pk[j] == x);
        }
    }
}

/// Every node that a failure-free traversal of a well-formed tree emits is
/// well formed, provided the registry table holds complete custom
/// registrations only.
pub proof fn lemma_flat_nodes_wf(ctx: FlattenCtx, v: TreeV, depth: int)
    requires
        wf_tree(v),
        spec_table_wf(ctx.table),
        flat_err(ctx, v, depth) is None,
    ensures
        forall|i: int|
            0 <= i < flat_nodes(ctx, v).len() ==> spec_node_wf(#[trigger] flat_nodes(ctx, v)[i]),
    decreases height(v), 1nat, 0nat,
{
    if ctx_is_leaf(ctx, v) {
        assert(spec_node_wf(leaf_node_v()));
    } else {
        lemma_children_height(ctx, v);
        let kids = spec_children(ctx, v);
        lemma_children_wf(ctx, v);
        lemma_flat_err_seq_each(ctx, kids, depth + 1);
        lemma_flat_nodes_seq_wf(ctx, kids, depth + 1);
        let kid_nodes = flat_nodes_seq(ctx, kids);
        let node = spec_container_node(
            ctx,
            v,
            flat_leaves(ctx, v).len() as int,
            kid_nodes.len() as int + 1,
        );
        assert(spec_node_wf(node)) by {
            match v {
                TreeV::Dict(es) => {
                    lemma_dict_keys_wf(ctx, es);
                    lemma_dict_children_len(ctx, es);
                },
                TreeV::OrderedDict(es) => {
                    let octx = FlattenCtx { insertion_ordered: true, ..ctx };
                    lemma_dict_keys_wf(octx, es);
                },
                TreeV::DefaultDict { entries, .. } => {
                    lemma_dict_keys_wf(ctx, entries);
                    lemma_dict_children_len(ctx, entries);
                },
                _ => {},
            }
        }
        assert forall|i: int|
            0 <= i < flat_nodes(ctx, v).len() implies spec_node_wf(
            #[trigger] flat_nodes(ctx, v)[i],
        ) by {
            if i < kid_nodes.len() {
                assert(flat_nodes(ctx, v)[i] == kid_nodes[i]);
            } else {
                assert(flat_nodes(ctx, v)[i] == node);
            }
        }
    }
}

proof fn lemma_flat_nodes_seq_wf(ctx: FlattenCtx, s: Seq<TreeV>, depth: int)
    requires
        forall|j: int| 0 <= j < s.len() ==> wf_tree(#[trigger] s[j]),
        spec_table_wf(ctx.table),
        forall|j: int| 0 <= j < s.len() ==> flat_err(ctx, #[trigger] s[j], depth) is None,
    ensures
        forall|i: int|
            0 <= i < flat_nodes_seq(ctx, s).len() ==> spec_node_wf(
                #[trigger] flat_nodes_seq(ctx, s)[i],
            ),
    decreases seq_height(s), 2nat, s.len(),
{
    if s.len() > 0 {
        lemma_seq_height_drop_last(s);
        lemma_seq_height_bound(s, s.len() - 1);
        assert(forall|j: int| 0 <= j < s.drop_last().len() ==> #[trigger] s.drop_last()[j] == s[j]);
        lemma_flat_nodes_seq_wf(ctx, s.drop_last(), depth);
        lemma_flat_nodes_wf(ctx, s.last(), depth);
        let a = flat_nodes_seq(ctx, s.drop_last());
        let b = flat_nodes(ctx, s.last());
        assert forall|i: int|
            0 <= i < flat_nodes_seq(ctx, s).len() implies spec_node_wf(
            #[trigger] flat_nodes_seq(ctx, s)[i],
        ) by {
            if i < a.len() {
                assert(flat_nodes_seq(ctx, s)[i] == a[i]);
            } else {
                assert(flat_nodes_seq(ctx, s)[i] == b[i - a.len()]);
            }
        }
    }
}

impl PyTreeSpec {
    /// Flattens a tree into its leaves, in traversal order, and the
    /// structural descriptor that can rebuild it. Fails exactly when the
    /// tree nests past the depth ceiling or a custom decomposition pairs
    /// entry labels with a different number of children; the descriptor
    /// carries the caller namespace only when some custom node was found.
    pub fn flatten(
        registry: &PyTreeTypeRegistry,
        obj: &TreeValue,
        leaf_types: Option<&Vec<u64>>,
        none_is_leaf: bool,
        namespace: &str,
    ) -> (r: Result<(Vec<TreeValue>, PyTreeSpec), FlattenError>)
        requires
            registry.wf(),
            wf_tree(obj@),
        ensures
            ({
                let ctx = spec_ctx(registry@, leaf_set(leaf_types), none_is_leaf, namespace@);
                match r {
                    Ok(pair) => {
                        &&& flat_err(ctx, obj@, 0) is None
                        &&& view_children(pair.0@) == flat_leaves(ctx, obj@)
                        &&& pair.1@.nodes == flat_nodes(ctx, obj@)
                        &&& pair.1@.none_is_leaf == none_is_leaf
                        &&& pair.1@.namespace == (if flat_custom(ctx, obj@) {
                            namespace@
                        } else {
                            Seq::<char>::empty()
                        })
                        &&& pair.1.wf()
                    },
                    Err(e) => flat_err(ctx, obj@, 0) == Some(e),
                }
            }),
    {
        let ghost ctx = spec_ctx(registry@, leaf_set(leaf_types), none_is_leaf, namespace@);
        let insertion_ordered = registry.is_dict_insertion_ordered(Some(namespace), None);
        let mut traversal: Vec<Node> = Vec::new();
        let mut leaves: Vec<TreeValue> = Vec::new();
        match flatten_into_impl(
            registry,
            obj,
            &mut traversal,
            &mut leaves,
            0,
            leaf_types,
            none_is_leaf,
            namespace,
            insertion_ordered,
        ) {
            Err(e) => Err(e),
            Ok(found) => {
                proof {
                    assert(nodes_view(traversal@) =~= flat_nodes(ctx, obj@));
                    assert(view_children(leaves@) =~= flat_leaves(ctx, obj@));
                    crate::registry::lemma_registry_table_wf(registry);
                    lemma_flat_nodes_wf(ctx, obj@, 0);
                    lemma_flat_nodes_nonempty(ctx, obj@);
                }
                let namespace_string: String = if found {
                    namespace.to_owned()
                } else {
                    String::new()
                };
                let spec = PyTreeSpec::new(traversal, none_is_leaf, namespace_string);
                Ok((leaves, spec))
            },
        }
    }
}

/// Flattens a tree; the free entry point, with absent options meaning
/// nulls-are-containers and the global namespace.
pub fn flatten(
    registry: &PyTreeTypeRegistry,
    obj: &TreeValue,
    leaf_types: Option<&Vec<u64>>,
    none_is_leaf: Option<bool>,
    namespace: Option<&str>,
) -> (r: Result<(Vec<TreeValue>, PyTreeSpec), FlattenError>)
    requires
        registry.wf(),
        wf_tree(obj@),
    ensures
        ({
            let ctx = spec_ctx(
                registry@,
                leaf_set(leaf_types),
                none_is_leaf.unwrap_or(false),
                spec_ns_arg(namespace),
            );
            match r {
                Ok(pair) => {
                    &&& flat_err(ctx, obj@, 0) is None
                    &&& view_children(pair.0@) == flat_leaves(ctx, obj@)
                    &&& pair.1@.nodes == flat_nodes(ctx, obj@)
                    &&& pair.1@.none_is_leaf == none_is_leaf.unwrap_or(false)
                    &&& pair.1@.namespace == (if flat_custom(ctx, obj@) {
                        spec_ns_arg(namespace)
                    } else {
                        Seq::<char>::empty()
                    })
                    &&& pair.1.wf()
                },
                Err(e) => flat_err(ctx, obj@, 0) == Some(e),
            }
        }),
{
    let mode: bool = match none_is_leaf {
        Some(b) => b,
        None => false,
    };
    let ns: &str = match namespace {
        Some(s) => s,
        None => "",
    };
    proof {
        reveal_strlit("");
        assert(""@ =~= Seq::<char>::empty());
        assert(ns@ == spec_ns_arg(namespace));
    }
    PyTreeSpec::flatten(registry, obj, leaf_types, mode, ns)
}

/// Whether one value classifies as a leaf: a caller predicate hit, a
/// registered or built-in leaf kind, or an unregistered opaque value that is
/// neither record-tuple-like nor record-sequence-like.
pub fn is_leaf(
    registry: &PyTreeTypeRegistry,
    obj: &TreeValue,
    leaf_types: Option<&Vec<u64>>,
    none_is_leaf: Option<bool>,
    namespace: Option<&str>,
) -> (r: bool)
    requires
        registry.wf(),
    ensures
        r == spec_is_leaf(
            registry@.table,
            leaf_set(leaf_types),
            obj@,
            none_is_leaf.unwrap_or(false),
            spec_ns_arg(namespace),
        ),
{
    let mode: bool = match none_is_leaf {
        Some(b) => b,
        None => false,
    };
    let ns: &str = match namespace {
        Some(s) => s,
        None => "",
    };
    proof {
        reveal_strlit("");
        assert(""@ =~= Seq::<char>::empty());
        assert(ns@ == spec_ns_arg(namespace));
    }
    let pred_leaf: bool = match leaf_types {
        Some(lt) => contains_u64(lt, obj.type_id()),
        None => false,
    };
    if pred_leaf {
        return true;
    }
    let kr = resolve(registry, obj, mode, ns);
    kr.0 == PyTreeKind::Leaf
}

} // verus!
