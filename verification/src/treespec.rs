//! The structural descriptor that flattening produces.
//!
//! A `PyTreeSpec` is an immutable post-order sequence of nodes: the children
//! of a node are fully emitted before the node itself. Each node carries its
//! kind, its arity, per-kind reconstruction data, subtree leaf and node
//! counts and, for mapping kinds, the original key order.

use vstd::prelude::*;

use crate::registry::{PyTreeKind, PyTreeTypeRegistration};

verus! {

/// Per-kind reconstruction data of one node, a tagged variant per kind
/// instead of one untyped slot.
///
/// `Keys` holds the key order that the traversal used (sorted or insertion
/// order); `KeysWithDefault` adds the default-factory handle of a
/// mapping-with-default; `TypeId` records the concrete runtime subtype of a
/// record tuple or record sequence; `MaxLen` keeps a deque's bound;
/// `Payload` is the opaque datum a custom flatten callable returned.
#[derive(Debug, PartialEq, Eq)]
pub enum NodeData {
    Empty,
    Keys(Vec<u64>),
    KeysWithDefault { default_factory: u64, keys: Vec<u64> },
    TypeId(u64),
    MaxLen(Option<u64>),
    Payload(u64),
}

/// The mathematical shape of `NodeData`.
pub enum NodeDataV {
    Empty,
    Keys(Seq<u64>),
    KeysWithDefault { default_factory: u64, keys: Seq<u64> },
    TypeId(u64),
    MaxLen(Option<u64>),
    Payload(u64),
}

impl View for NodeData {
    type V = NodeDataV;

    open spec fn view(&self) -> NodeDataV {
        match self {
            NodeData::Empty => NodeDataV::Empty,
            NodeData::Keys(ks) => NodeDataV::Keys(ks@),
            NodeData::KeysWithDefault { default_factory, keys } => NodeDataV::KeysWithDefault {
                default_factory: *default_factory,
                keys: keys@,
            },
            NodeData::TypeId(t) => NodeDataV::TypeId(*t),
            NodeData::MaxLen(m) => NodeDataV::MaxLen(*m),
            NodeData::Payload(p) => NodeDataV::Payload(*p),
        }
    }
}

/// One node of a post-order traversal.
#[derive(Debug, PartialEq, Eq)]
pub struct Node {
    pub kind: PyTreeKind,
    pub arity: usize,
    pub node_data: NodeData,
    pub node_entries: Option<Vec<u64>>,
    pub custom: Option<PyTreeTypeRegistration>,
    pub num_leaves: usize,
    pub num_nodes: usize,
    pub original_keys: Option<Vec<u64>>,
}

/// The mathematical shape of a `Node`; counts are unbounded integers.
pub struct NodeV {
    pub kind: PyTreeKind,
    pub arity: int,
    pub node_data: NodeDataV,
    pub node_entries: Option<Seq<u64>>,
    pub custom: Option<PyTreeTypeRegistration>,
    pub num_leaves: int,
    pub num_nodes: int,
    pub original_keys: Option<Seq<u64>>,
}

impl View for Node {
    type V = NodeV;

    open spec fn view(&self) -> NodeV {
        NodeV {
            kind: self.kind,
            arity: self.arity as int,
            node_data: self.node_data@,
            node_entries: match self.node_entries {
                Some(e) => Some(e@),
                None => None,
            },
            custom: self.custom,
            num_leaves: self.num_leaves as int,
            num_nodes: self.num_nodes as int,
            original_keys: match self.original_keys {
                Some(k) => Some(k@),
                None => None,
            },
        }
    }
}

impl Node {
    /// A node assembled from its parts.
    #[allow(clippy::too_many_arguments)]
    pub fn new(
        kind: PyTreeKind,
        arity: usize,
        node_data: NodeData,
        node_entries: Option<Vec<u64>>,
        custom: Option<PyTreeTypeRegistration>,
        num_leaves: usize,
        num_nodes: usize,
        original_keys: Option<Vec<u64>>,
    ) -> (r: Node)
        ensures
            r == (Node { kind, arity, node_data, node_entries, custom, num_leaves, num_nodes, original_keys }),
    {
        Node { kind, arity, node_data, node_entries, custom, num_leaves, num_nodes, original_keys }
    }
}

impl Default for Node {
    /// A fresh leaf node with empty data and zero counts.
    fn default() -> (r: Node)
        ensures
            r@ == (NodeV {
                kind: PyTreeKind::Leaf,
                arity: 0,
                node_data: NodeDataV::Empty,
                node_entries: None,
                custom: None,
                num_leaves: 0,
                num_nodes: 0,
                original_keys: None,
            }),
    {
        Node {
            kind: PyTreeKind::Leaf,
            arity: 0,
            node_data: NodeData::Empty,
            node_entries: None,
            custom: None,
            num_leaves: 0,
            num_nodes: 0,
            original_keys: None,
        }
    }
}

/// What every node that the flatten engine emits satisfies: the per-kind
/// data matches the kind, mapping nodes pair a duplicate-free traversal key
/// list with the original keys over the same key set, and a custom node
/// carries its resolved registration and matching entry labels.
pub open spec fn spec_node_wf(n: NodeV) -> bool {
    &&& n.arity >= 0
    &&& n.num_leaves >= 0
    &&& n.num_nodes >= 0
    &&& match n.kind {
        PyTreeKind::Leaf => n.arity == 0 && n.node_data is Empty && n.custom is None
            && n.original_keys is None && n.node_entries is None,
        PyTreeKind::Null => n.arity == 0 && n.node_data is Empty && n.custom is None
            && n.original_keys is None && n.node_entries is None,
        PyTreeKind::Tuple | PyTreeKind::List => n.node_data is Empty && n.custom is None
            && n.original_keys is None && n.node_entries is None,
        PyTreeKind::Dict | PyTreeKind::OrderedDict => {
            &&& n.node_data matches NodeDataV::Keys(ks)
            &&& n.original_keys matches Some(oks)
            &&& spec_key_lists_wf(ks, oks, n.arity)
            &&& n.custom is None
            &&& n.node_entries is None
        },
        PyTreeKind::DefaultDict => {
            &&& n.node_data matches NodeDataV::KeysWithDefault { keys: ks, .. }
            &&& n.original_keys matches Some(oks)
            &&& spec_key_lists_wf(ks, oks, n.arity)
            &&& n.custom is None
            &&& n.node_entries is None
        },
        PyTreeKind::NamedTuple | PyTreeKind::StructSequence => n.node_data is TypeId && n.custom
            is None && n.original_keys is None && n.node_entries is None,
        PyTreeKind::Deque => n.node_data is MaxLen && n.custom is None && n.original_keys is None
            && n.node_entries is None,
        PyTreeKind::Custom => {
            &&& n.node_data is Payload
            &&& n.custom matches Some(reg)
            &&& reg.kind == PyTreeKind::Custom
            &&& reg.unflatten_func is Some
            &&& (n.node_entries matches Some(e) ==> e.len() == n.arity)
            &&& n.original_keys is None
        },
    }
}

/// The traversal key list and the original key list of a mapping node range
/// over the same keys, each without duplicates, and give the node's arity.
pub open spec fn spec_key_lists_wf(ks: Seq<u64>, oks: Seq<u64>, arity: int) -> bool {
    &&& ks.no_duplicates()
    &&& oks.no_duplicates()
    &&& ks.len() == arity
    &&& oks.len() == arity
    &&& forall|x: u64| ks.contains(x) <==> oks.contains(x)
}

/// The type identity that a node reconstructs, if the node stands for a
/// typed container; a leaf node has none of its own.
pub open spec fn spec_node_type(n: NodeV) -> Option<u64> {
    match n.kind {
        PyTreeKind::Leaf => None,
        PyTreeKind::Null => Some(crate::tree::TYPE_NONE),
        PyTreeKind::Tuple => Some(crate::tree::TYPE_TUPLE),
        PyTreeKind::List => Some(crate::tree::TYPE_LIST),
        PyTreeKind::Dict => Some(crate::tree::TYPE_DICT),
        PyTreeKind::OrderedDict => Some(crate::tree::TYPE_ORDERED_DICT),
        PyTreeKind::DefaultDict => Some(crate::tree::TYPE_DEFAULT_DICT),
        PyTreeKind::Deque => Some(crate::tree::TYPE_DEQUE),
        PyTreeKind::NamedTuple | PyTreeKind::StructSequence => Some(n.node_data->TypeId_0),
        PyTreeKind::Custom => Some(n.custom->0.type_id),
    }
}

impl Node {
    /// The type identity this node reconstructs.
    pub fn get_type(&self) -> (r: Option<u64>)
        requires
            spec_node_wf(self@),
        ensures
            r == spec_node_type(self@),
    {
        match self.kind {
            PyTreeKind::Leaf => None,
            PyTreeKind::Null => Some(crate::tree::TYPE_NONE),
            PyTreeKind::Tuple => Some(crate::tree::TYPE_TUPLE),
            PyTreeKind::List => Some(crate::tree::TYPE_LIST),
            PyTreeKind::Dict => Some(crate::tree::TYPE_DICT),
            PyTreeKind::OrderedDict => Some(crate::tree::TYPE_ORDERED_DICT),
            PyTreeKind::DefaultDict => Some(crate::tree::TYPE_DEFAULT_DICT),
            PyTreeKind::Deque => Some(crate::tree::TYPE_DEQUE),
            PyTreeKind::NamedTuple | PyTreeKind::StructSequence => match &self.node_data {
                NodeData::TypeId(t) => Some(*t),
                _ => None,
            },
            PyTreeKind::Custom => match &self.custom {
                Some(reg) => Some(reg.type_id),
                None => None,
            },
        }
    }
}

/// The views of a node list, elementwise.
pub open spec fn nodes_view(s: Seq<Node>) -> Seq<NodeV> {
    s.map_values(|n: Node| n@)
}

/// The structural descriptor of one flattened tree: the post-order node
/// sequence, the null-handling mode it was made under, and the namespace it
/// carries (the caller's only when a custom node was found, else global).
pub struct PyTreeSpec {
    traversal: Vec<Node>,
    none_is_leaf: bool,
    namespace: String,
}

/// The mathematical content of a `PyTreeSpec`.
pub struct TreeSpecV {
    pub nodes: Seq<NodeV>,
    pub none_is_leaf: bool,
    pub namespace: Seq<char>,
}

impl View for PyTreeSpec {
    type V = TreeSpecV;

    closed spec fn view(&self) -> TreeSpecV {
        TreeSpecV {
            nodes: nodes_view(self.traversal@),
            none_is_leaf: self.none_is_leaf,
            namespace: self.namespace@,
        }
    }
}

/// A descriptor as the flatten engine shapes it: at least the root node, and
/// every node well formed.
pub open spec fn spec_treespec_wf(t: TreeSpecV) -> bool {
    &&& t.nodes.len() > 0
    &&& forall|i: int| 0 <= i < t.nodes.len() ==> spec_node_wf(#[trigger] t.nodes[i])
}

impl PyTreeSpec {
    /// Whether this descriptor has the shape the flatten engine guarantees.
    pub open spec fn wf(&self) -> bool {
        spec_treespec_wf(self@)
    }

    /// A descriptor assembled from a post-order node list.
    pub fn new(traversal: Vec<Node>, none_is_leaf: bool, namespace: String) -> (r: Self)
        ensures
            r@ == (TreeSpecV {
                nodes: nodes_view(traversal@),
                none_is_leaf,
                namespace: namespace@,
            }),
    {
        PyTreeSpec { traversal, none_is_leaf, namespace }
    }

    /// How many leaves the flattened tree produced.
    pub fn num_leaves(&self) -> (r: usize)
        requires
            self@.nodes.len() > 0,
        ensures
            r == self@.nodes.last().num_leaves,
    {
        self.traversal[self.traversal.len() - 1].num_leaves
    }

    /// How many nodes the traversal holds.
    pub fn num_nodes(&self) -> (r: usize)
        ensures
            r == self@.nodes.len(),
    {
        self.traversal.len()
    }

    /// The arity of the root node.
    pub fn num_children(&self) -> (r: usize)
        requires
            self@.nodes.len() > 0,
        ensures
            r == self@.nodes.last().arity,
    {
        self.traversal[self.traversal.len() - 1].arity
    }

    /// The null-handling mode this descriptor was flattened under.
    pub fn none_is_leaf(&self) -> (r: bool)
        ensures
            r == self@.none_is_leaf,
    {
        self.none_is_leaf
    }

    /// The namespace this descriptor carries.
    pub fn namespace(&self) -> (r: String)
        ensures
            r@ == self@.namespace,
    {
        self.namespace.clone()
    }

    /// The kind of the root node.
    pub fn kind(&self) -> (r: PyTreeKind)
        requires
            self@.nodes.len() > 0,
        ensures
            r == self@.nodes.last().kind,
    {
        self.traversal[self.traversal.len() - 1].kind
    }

    /// The type identity of the root container, none for a single leaf.
    pub fn root_type(&self) -> (r: Option<u64>)
        requires
            self@.nodes.len() > 0,
            spec_node_wf(self@.nodes.last()),
        ensures
            r == spec_node_type(self@.nodes.last()),
    {
        self.traversal[self.traversal.len() - 1].get_type()
    }

    /// The node list, for traversal by reconstruction.
    pub(crate) fn traversal(&self) -> (r: &Vec<Node>)
        ensures
            nodes_view(r@) == self@.nodes,
    {
        &self.traversal
    }
}

} // verus!
