//! The tree values that flattening and reconstruction work on.
//!
//! A value of the host runtime is modelled by what the traversal reads of it:
//! atomic values become `Leaf` with an opaque handle, the built-in container
//! kinds carry their children directly, and an object of a registrable custom
//! type carries the decomposition that its registered flatten callable would
//! produce (children, payload, optional per-child entry labels). Opaque host
//! payloads — leaf values, dictionary keys, type identities, callables and
//! custom node data — appear as `u64` handles; keys order by the handle.

use vstd::prelude::*;

verus! {

/// Type handle of the host's null value.
pub const TYPE_NONE: u64 = 0;

/// Type handle of the host's fixed-sequence (tuple) type.
pub const TYPE_TUPLE: u64 = 1;

/// Type handle of the host's list type.
pub const TYPE_LIST: u64 = 2;

/// Type handle of the host's plain mapping type.
pub const TYPE_DICT: u64 = 3;

/// Type handle of the host's insertion-ordered mapping type.
pub const TYPE_ORDERED_DICT: u64 = 4;

/// Type handle of the host's mapping-with-default-factory type.
pub const TYPE_DEFAULT_DICT: u64 = 5;

/// Type handle of the host's double-ended queue type.
pub const TYPE_DEQUE: u64 = 6;

/// A nested host value, as the traversal sees it.
///
/// `Object` stands for a value of a type that may carry a custom registration:
/// it records the children, payload and optional entry labels that the
/// registered flatten callable yields for it. While its type is unregistered,
/// the value classifies as a leaf and the recorded decomposition is ignored.
#[derive(Debug, PartialEq, Eq)]
pub enum TreeValue {
    Leaf { type_id: u64, value: u64 },
    Null,
    Tuple(Vec<TreeValue>),
    List(Vec<TreeValue>),
    Dict(Vec<(u64, TreeValue)>),
    OrderedDict(Vec<(u64, TreeValue)>),
    DefaultDict { default_factory: u64, entries: Vec<(u64, TreeValue)> },
    NamedTuple { type_id: u64, fields: Vec<TreeValue> },
    Deque { max_len: Option<u64>, items: Vec<TreeValue> },
    StructSequence { type_id: u64, fields: Vec<TreeValue> },
    Object { type_id: u64, children: Vec<TreeValue>, node_data: u64, entry_labels: Option<Vec<u64>> },
}

/// The mathematical shape of a `TreeValue`: the same tree with sequences for
/// the child vectors. Contracts speak of this form.
pub enum TreeV {
    Leaf { type_id: u64, value: u64 },
    Null,
    Tuple(Seq<TreeV>),
    List(Seq<TreeV>),
    Dict(Seq<(u64, TreeV)>),
    OrderedDict(Seq<(u64, TreeV)>),
    DefaultDict { default_factory: u64, entries: Seq<(u64, TreeV)> },
    NamedTuple { type_id: u64, fields: Seq<TreeV> },
    Deque { max_len: Option<u64>, items: Seq<TreeV> },
    StructSequence { type_id: u64, fields: Seq<TreeV> },
    Object { type_id: u64, children: Seq<TreeV>, node_data: u64, entry_labels: Option<Seq<u64>> },
}

impl View for TreeValue {
    type V = TreeV;

    open spec fn view(&self) -> TreeV
        decreases self,
    {
        match self {
            TreeValue::Leaf { type_id, value } => TreeV::Leaf { type_id: *type_id, value: *value },
            TreeValue::Null => TreeV::Null,
            TreeValue::Tuple(cs) => TreeV::Tuple(view_children(cs@)),
            TreeValue::List(cs) => TreeV::List(view_children(cs@)),
            TreeValue::Dict(es) => TreeV::Dict(view_entries(es@)),
            TreeValue::OrderedDict(es) => TreeV::OrderedDict(view_entries(es@)),
            TreeValue::DefaultDict { default_factory, entries } => TreeV::DefaultDict {
                default_factory: *default_factory,
                entries: view_entries(entries@),
            },
            TreeValue::NamedTuple { type_id, fields } => TreeV::NamedTuple {
                type_id: *type_id,
                fields: view_children(fields@),
            },
            TreeValue::Deque { max_len, items } => TreeV::Deque {
                max_len: *max_len,
                items: view_children(items@),
            },
            TreeValue::StructSequence { type_id, fields } => TreeV::StructSequence {
                type_id: *type_id,
                fields: view_children(fields@),
            },
            TreeValue::Object { type_id, children, node_data, entry_labels } => TreeV::Object {
                type_id: *type_id,
                children: view_children(children@),
                node_data: *node_data,
                entry_labels: match entry_labels {
                    Some(e) => Some(e@),
                    None => None,
                },
            },
        }
    }
}

/// The views of a sequence of child values, elementwise.
pub open spec fn view_children(s: Seq<TreeValue>) -> Seq<TreeV>
    decreases s,
{
    if s.len() == 0 {
        Seq::empty()
    } else {
        view_children(s.drop_last()).push(s.last()@)
    }
}

/// The views of a sequence of keyed entries, elementwise on the values.
pub open spec fn view_entries(s: Seq<(u64, TreeValue)>) -> Seq<(u64, TreeV)>
    decreases s,
{
    if s.len() == 0 {
        Seq::empty()
    } else {
        view_entries(s.drop_last()).push((s.last().0, s.last().1@))
    }
}

pub proof fn lemma_view_children(s: Seq<TreeValue>)
    ensures
        view_children(s).len() == s.len(),
        forall|i: int| 0 <= i < s.len() ==> view_children(s)[i] == s[i]@,
    decreases s.len(),
{
    if s.len() > 0 {
        lemma_view_children(s.drop_last());
        assert(view_children(s) == view_children(s.drop_last()).push(s.last()@));
        assert forall|i: int| 0 <= i < s.len() implies view_children(s)[i] == s[i]@ by {
            if i < s.len() - 1 {
                assert(view_children(s)[i] == view_children(s.drop_last())[i]);
                assert(s.drop_last()[i] == s[i]);
            } else {
                assert(view_children(s)[i] == s.last()@);
            }
        }
    }
}

pub proof fn lemma_view_entries(s: Seq<(u64, TreeValue)>)
    ensures
        view_entries(s).len() == s.len(),
        forall|i: int| 0 <= i < s.len() ==> view_entries(s)[i] == (s[i].0, s[i].1@),
    decreases s.len(),
{
    if s.len() > 0 {
        lemma_view_entries(s.drop_last());
        assert forall|i: int|
            0 <= i < s.len() implies view_entries(s)[i] == (s[i].0, s[i].1@) by {
            if i < s.len() - 1 {
                assert(view_entries(s)[i] == view_entries(s.drop_last())[i]);
                assert(s.drop_last()[i] == s[i]);
            } else {
                assert(view_entries(s)[i] == (s.last().0, s.last().1@));
            }
        }
    }
}

/// The keys of an entry sequence, in order.
pub open spec fn entry_keys(es: Seq<(u64, TreeV)>) -> Seq<u64> {
    es.map_values(|e: (u64, TreeV)| e.0)
}

/// The values of an entry sequence, in order.
pub open spec fn entry_values(es: Seq<(u64, TreeV)>) -> Seq<TreeV> {
    es.map_values(|e: (u64, TreeV)| e.1)
}

/// Structural nesting depth: a leaf sits at height zero, a container one
/// above its tallest child; null counts as an empty container.
pub open spec fn height(v: TreeV) -> nat
    decreases v,
{
    match v {
        TreeV::Leaf { .. } => 0,
        TreeV::Null => 1,
        TreeV::Tuple(cs) => 1 + seq_height(cs),
        TreeV::List(cs) => 1 + seq_height(cs),
        TreeV::Dict(es) => 1 + entries_height(es),
        TreeV::OrderedDict(es) => 1 + entries_height(es),
        TreeV::DefaultDict { entries, .. } => 1 + entries_height(entries),
        TreeV::NamedTuple { fields, .. } => 1 + seq_height(fields),
        TreeV::Deque { items, .. } => 1 + seq_height(items),
        TreeV::StructSequence { fields, .. } => 1 + seq_height(fields),
        TreeV::Object { children, .. } => 1 + seq_height(children),
    }
}

/// The tallest height among a sequence of values, zero when empty.
pub open spec fn seq_height(s: Seq<TreeV>) -> nat
    decreases s,
{
    if s.len() == 0 {
        0
    } else {
        let h = height(s[0]);
        let rest = seq_height(s.drop_first());
        if h > rest {
            h
        } else {
            rest
        }
    }
}

/// The tallest height among the values of an entry sequence, zero when empty.
pub open spec fn entries_height(s: Seq<(u64, TreeV)>) -> nat
    decreases s,
{
    if s.len() == 0 {
        0
    } else {
        let h = height(s[0].1);
        let rest = entries_height(s.drop_first());
        if h > rest {
            h
        } else {
            rest
        }
    }
}

pub proof fn lemma_seq_height_bound(s: Seq<TreeV>, i: int)
    requires
        0 <= i < s.len(),
    ensures
        height(s[i]) <= seq_height(s),
    decreases s.len(),
{
    if i > 0 {
        lemma_seq_height_bound(s.drop_first(), i - 1);
    }
}

pub proof fn lemma_entries_height_bound(s: Seq<(u64, TreeV)>, i: int)
    requires
        0 <= i < s.len(),
    ensures
        height(s[i].1) <= entries_height(s),
    decreases s.len(),
{
    if i > 0 {
        lemma_entries_height_bound(s.drop_first(), i - 1);
    }
}

/// A tree value is well formed when every mapping node in it has pairwise
/// distinct keys, as a real host mapping must.
pub open spec fn wf_tree(v: TreeV) -> bool
    decreases v,
{
    match v {
        TreeV::Leaf { .. } => true,
        TreeV::Null => true,
        TreeV::Tuple(cs) => wf_children(cs),
        TreeV::List(cs) => wf_children(cs),
        TreeV::Dict(es) => entry_keys(es).no_duplicates() && wf_entries(es),
        TreeV::OrderedDict(es) => entry_keys(es).no_duplicates() && wf_entries(es),
        TreeV::DefaultDict { entries, .. } => entry_keys(entries).no_duplicates() && wf_entries(
            entries,
        ),
        TreeV::NamedTuple { fields, .. } => wf_children(fields),
        TreeV::Deque { items, .. } => wf_children(items),
        TreeV::StructSequence { fields, .. } => wf_children(fields),
        TreeV::Object { children, .. } => wf_children(children),
    }
}

/// Every value of the sequence is well formed.
pub open spec fn wf_children(s: Seq<TreeV>) -> bool
    decreases s,
{
    if s.len() == 0 {
        true
    } else {
        wf_tree(s[0]) && wf_children(s.drop_first())
    }
}

/// Every value of the entry sequence is well formed.
pub open spec fn wf_entries(s: Seq<(u64, TreeV)>) -> bool
    decreases s,
{
    if s.len() == 0 {
        true
    } else {
        wf_tree(s[0].1) && wf_entries(s.drop_first())
    }
}

pub proof fn lemma_wf_children_index(s: Seq<TreeV>, i: int)
    requires
        wf_children(s),
        0 <= i < s.len(),
    ensures
        wf_tree(s[i]),
    decreases s.len(),
{
    if i > 0 {
        lemma_wf_children_index(s.drop_first(), i - 1);
    }
}

pub proof fn lemma_wf_entries_index(s: Seq<(u64, TreeV)>, i: int)
    requires
        wf_entries(s),
        0 <= i < s.len(),
    ensures
        wf_tree(s[i].1),
    decreases s.len(),
{
    if i > 0 {
        lemma_wf_entries_index(s.drop_first(), i - 1);
    }
}

impl TreeV {
    /// The runtime type identity that registry lookup dispatches on.
    pub open spec fn spec_type_id(self) -> u64 {
        match self {
            TreeV::Leaf { type_id, .. } => type_id,
            TreeV::Null => TYPE_NONE,
            TreeV::Tuple(..) => TYPE_TUPLE,
            TreeV::List(..) => TYPE_LIST,
            TreeV::Dict(..) => TYPE_DICT,
            TreeV::OrderedDict(..) => TYPE_ORDERED_DICT,
            TreeV::DefaultDict { .. } => TYPE_DEFAULT_DICT,
            TreeV::NamedTuple { type_id, .. } => type_id,
            TreeV::Deque { .. } => TYPE_DEQUE,
            TreeV::StructSequence { type_id, .. } => type_id,
            TreeV::Object { type_id, .. } => type_id,
        }
    }
}

impl TreeValue {
    /// The runtime type identity of this value.
    pub fn type_id(&self) -> (t: u64)
        ensures
            t == self@.spec_type_id(),
    {
        match self {
            TreeValue::Leaf { type_id, .. } => *type_id,
            TreeValue::Null => TYPE_NONE,
            TreeValue::Tuple(..) => TYPE_TUPLE,
            TreeValue::List(..) => TYPE_LIST,
            TreeValue::Dict(..) => TYPE_DICT,
            TreeValue::OrderedDict(..) => TYPE_ORDERED_DICT,
            TreeValue::DefaultDict { .. } => TYPE_DEFAULT_DICT,
            TreeValue::NamedTuple { type_id, .. } => *type_id,
            TreeValue::Deque { .. } => TYPE_DEQUE,
            TreeValue::StructSequence { type_id, .. } => *type_id,
            TreeValue::Object { type_id, .. } => *type_id,
        }
    }
}

/// A structural copy of a tree value, sharing nothing with the original.
pub fn clone_tree(v: &TreeValue) -> (r: TreeValue)
    ensures
        r@ == v@,
    decreases *v,
{
    match v {
        TreeValue::Leaf { type_id, value } => TreeValue::Leaf {
            type_id: *type_id,
            value: *value,
        },
        TreeValue::Null => TreeValue::Null,
        TreeValue::Tuple(cs) => TreeValue::Tuple(clone_children(cs)),
        TreeValue::List(cs) => TreeValue::List(clone_children(cs)),
        TreeValue::Dict(es) => TreeValue::Dict(clone_entries(es)),
        TreeValue::OrderedDict(es) => TreeValue::OrderedDict(clone_entries(es)),
        TreeValue::DefaultDict { default_factory, entries } => TreeValue::DefaultDict {
            default_factory: *default_factory,
            entries: clone_entries(entries),
        },
        TreeValue::NamedTuple { type_id, fields } => TreeValue::NamedTuple {
            type_id: *type_id,
            fields: clone_children(fields),
        },
        TreeValue::Deque { max_len, items } => TreeValue::Deque {
            max_len: *max_len,
            items: clone_children(items),
        },
        TreeValue::StructSequence { type_id, fields } => TreeValue::StructSequence {
            type_id: *type_id,
            fields: clone_children(fields),
        },
        TreeValue::Object { type_id, children, node_data, entry_labels } => TreeValue::Object {
            type_id: *type_id,
            children: clone_children(children),
            node_data: *node_data,
            entry_labels: match entry_labels {
                Some(e) => Some(clone_handles(e)),
                None => None,
            },
        },
    }
}

fn clone_children(cs: &Vec<TreeValue>) -> (r: Vec<TreeValue>)
    ensures
        r@.len() == cs@.len(),
        forall|i: int| 0 <= i < cs@.len() ==> r@[i]@ == cs@[i]@,
        view_children(r@) == view_children(cs@),
    decreases *cs,
{
    let mut out: Vec<TreeValue> = Vec::new();
    let mut i: usize = 0;
    while i < cs.len()
        invariant
            i <= cs@.len(),
            out@.len() == i,
            forall|j: int| 0 <= j < i ==> out@[j]@ == cs@[j]@,
        decreases cs@.len() - i,
    {
        proof {
            assert(decreases_to!(*cs => cs@));
            assert(decreases_to!(cs@ => cs@[i as int]));
        }
        out.push(clone_tree(&cs[i]));
        i = i + 1;
    }
    proof {
        lemma_view_children(out@);
        lemma_view_children(cs@);
        assert(view_children(out@) =~= view_children(cs@));
    }
    out
}

fn clone_entries(es: &Vec<(u64, TreeValue)>) -> (r: Vec<(u64, TreeValue)>)
    ensures
        r@.len() == es@.len(),
        forall|i: int|
            0 <= i < es@.len() ==> r@[i].0 == es@[i].0 && r@[i].1@ == es@[i].1@,
        view_entries(r@) == view_entries(es@),
    decreases *es,
{
    let mut out: Vec<(u64, TreeValue)> = Vec::new();
    let mut i: usize = 0;
    while i < es.len()
        invariant
            i <= es@.len(),
            out@.len() == i,
            forall|j: int| 0 <= j < i ==> out@[j].0 == es@[j].0 && out@[j].1@ == es@[j].1@,
        decreases es@.len() - i,
    {
        proof {
            assert(decreases_to!(*es => es@));
            assert(decreases_to!(es@ => es@[i as int]));
            assert(decreases_to!(es@[i as int] => es@[i as int].1));
        }
        let key = es[i].0;
        let val = clone_tree(&es[i].1);
        out.push((key, val));
        i = i + 1;
    }
    proof {
        lemma_view_entries(out@);
        lemma_view_entries(es@);
        assert(view_entries(out@) =~= view_entries(es@));
    }
    out
}

/// A copy of a vector of opaque handles.
pub fn clone_handles(v: &Vec<u64>) -> (r: Vec<u64>)
    ensures
        r@ == v@,
{
    let mut out: Vec<u64> = Vec::new();
    let mut i: usize = 0;
    while i < v.len()
        invariant
            i <= v@.len(),
            out@ == v@.take(i as int),
        decreases v@.len() - i,
    {
        out.push(v[i]);
        i = i + 1;
    }
    proof {
        assert(v@.take(v@.len() as int) =~= v@);
    }
    out
}


pub proof fn lemma_wf_children_from_each(s: Seq<TreeV>)
    requires
        forall|i: int| 0 <= i < s.len() ==> wf_tree(#[trigger] s[i]),
    ensures
        wf_children(s),
    decreases s.len(),
{
    if s.len() > 0 {
        assert forall|i: int|
            0 <= i < s.drop_first().len() implies wf_tree(#[trigger] s.drop_first()[i]) by {
            assert(s.drop_first()[i] == s[i + 1]);
        }
        lemma_wf_children_from_each(s.drop_first());
        assert(s[0] == s.first());
    }
}

pub proof fn lemma_wf_entries_from_each(s: Seq<(u64, TreeV)>)
    requires
        forall|i: int| 0 <= i < s.len() ==> wf_tree((#[trigger] s[i]).1),
    ensures
        wf_entries(s),
    decreases s.len(),
{
    if s.len() > 0 {
        assert forall|i: int|
            0 <= i < s.drop_first().len() implies wf_tree((#[trigger] s.drop_first()[i]).1) by {
            assert(s.drop_first()[i] == s[i + 1]);
        }
        lemma_wf_entries_from_each(s.drop_first());
        assert(s[0] == s.first());
    }
}

/// Whether every mapping in the tree has pairwise distinct keys: the
/// executable test of `wf_tree`.
pub fn is_well_formed(v: &TreeValue) -> (r: bool)
    ensures
        r == wf_tree(v@),
    decreases *v,
{
    match v {
        TreeValue::Leaf { .. } => true,
        TreeValue::Null => true,
        TreeValue::Tuple(cs) => {
            proof {
                assert(decreases_to!(*v => v->Tuple_0));
                assert(v->Tuple_0 == *cs);
            }
            children_well_formed(cs)
        },
        TreeValue::List(cs) => {
            proof {
                assert(decreases_to!(*v => v->List_0));
                assert(v->List_0 == *cs);
            }
            children_well_formed(cs)
        },
        TreeValue::Dict(es) => {
            proof {
                assert(decreases_to!(*v => v->Dict_0));
                assert(v->Dict_0 == *es);
            }
            keys_distinct(es) && entries_well_formed(es)
        },
        TreeValue::OrderedDict(es) => {
            proof {
                assert(decreases_to!(*v => v->OrderedDict_0));
                assert(v->OrderedDict_0 == *es);
            }
            keys_distinct(es) && entries_well_formed(es)
        },
        TreeValue::DefaultDict { entries, .. } => {
            proof {
                assert(decreases_to!(*v => v->DefaultDict_entries));
                assert(v->DefaultDict_entries == *entries);
            }
            keys_distinct(entries) && entries_well_formed(entries)
        },
        TreeValue::NamedTuple { fields, .. } => {
            proof {
                assert(decreases_to!(*v => v->NamedTuple_fields));
                assert(v->NamedTuple_fields == *fields);
            }
            children_well_formed(fields)
        },
        TreeValue::Deque { items, .. } => {
            proof {
                assert(decreases_to!(*v => v->Deque_items));
                assert(v->Deque_items == *items);
            }
            children_well_formed(items)
        },
        TreeValue::StructSequence { fields, .. } => {
            proof {
                assert(decreases_to!(*v => v->StructSequence_fields));
                assert(v->StructSequence_fields == *fields);
            }
            children_well_formed(fields)
        },
        TreeValue::Object { children, .. } => {
            proof {
                assert(decreases_to!(*v => v->Object_children));
                assert(v->Object_children == *children);
            }
            children_well_formed(children)
        },
    }
}

fn children_well_formed(cs: &Vec<TreeValue>) -> (r: bool)
    ensures
        r == wf_children(view_children(cs@)),
    decreases *cs,
{
    proof {
        lemma_view_children(cs@);
    }
    let mut i: usize = 0;
    while i < cs.len()
        invariant
            i <= cs@.len(),
            view_children(cs@).len() == cs@.len(),
            forall|q: int| 0 <= q < cs@.len() ==> view_children(cs@)[q] == cs@[q]@,
            forall|q: int| 0 <= q < i ==> wf_tree(#[trigger] view_children(cs@)[q]),
        decreases cs@.len() - i,
    {
        proof {
            assert(decreases_to!(*cs => cs@));
            assert(decreases_to!(cs@ => cs@[i as int]));
        }
        if !is_well_formed(&cs[i]) {
            proof {
                if wf_children(view_children(cs@)) {
                    lemma_wf_children_index(view_children(cs@), i as int);
                }
            }
            return false;
        }
        i = i + 1;
    }
    proof {
        lemma_wf_children_from_each(view_children(cs@));
    }
    true
}

fn entries_well_formed(es: &Vec<(u64, TreeValue)>) -> (r: bool)
    ensures
        r == wf_entries(view_entries(es@)),
    decreases *es,
{
    proof {
        lemma_view_entries(es@);
    }
    let mut i: usize = 0;
    while i < es.len()
        invariant
            i <= es@.len(),
            view_entries(es@).len() == es@.len(),
            forall|q: int| 0 <= q < es@.len() ==> view_entries(es@)[q] == (es@[q].0, es@[q].1@),
            forall|q: int| 0 <= q < i ==> wf_tree((#[trigger] view_entries(es@)[q]).1),
        decreases es@.len() - i,
    {
        proof {
            assert(decreases_to!(*es => es@));
            assert(decreases_to!(es@ => es@[i as int]));
            assert(decreases_to!(es@[i as int] => es@[i as int].1));
        }
        if !is_well_formed(&es[i].1) {
            proof {
                if wf_entries(view_entries(es@)) {
                    lemma_wf_entries_index(view_entries(es@), i as int);
                }
            }
            return false;
        }
        i = i + 1;
    }
    proof {
        lemma_wf_entries_from_each(view_entries(es@));
    }
    true
}

fn keys_distinct(es: &Vec<(u64, TreeValue)>) -> (r: bool)
    ensures
        r == entry_keys(view_entries(es@)).no_duplicates(),
{
    proof {
        lemma_view_entries(es@);
    }
    let ghost keys = entry_keys(view_entries(es@));
    let mut i: usize = 0;
    while i < es.len()
        invariant
            i <= es@.len(),
            keys == entry_keys(view_entries(es@)),
            keys.len() == es@.len(),
            forall|q: int| 0 <= q < es@.len() ==> #[trigger] keys[q] == es@[q].0,
            forall|p: int, q: int| 0 <= p < q < i ==> keys[p] != keys[q],
        decreases es@.len() - i,
    {
        let mut j: usize = 0;
        while j < i
            invariant
                j <= i,
                i < es@.len(),
                keys == entry_keys(view_entries(es@)),
                keys.len() == es@.len(),
                forall|q: int| 0 <= q < es@.len() ==> #[trigger] keys[q] == es@[q].0,
                forall|q: int| 0 <= q < j ==> keys[q] != keys[i as int],
            decreases i - j,
        {
            if es[j].0 == es[i].0 {
                proof {
                    assert(keys[j as int] == keys[i as int]);
                    assert(!keys.no_duplicates());
                }
                return false;
            }
            j = j + 1;
        }
        i = i + 1;
    }
    true
}

} // verus!
