//! The runtime registry of container types.
//!
//! The registry maps a (namespace, type identity) pair to a registration that
//! carries the decomposition kind and, for custom types, handles of the
//! user-supplied flatten and unflatten callables. The empty namespace is the
//! global one. Built-in container types are protected: they can be neither
//! registered nor removed, and their classification is dispatched directly
//! from the value's shape, identically for the two null-handling modes, so a
//! single store serves both modes; only null's own classification branches on
//! the mode flag at lookup. The registry also keeps the per-namespace flag
//! store that selects insertion order instead of sorted order for plain
//! mapping keys.

use vstd::prelude::*;

use crate::tree::{
    TreeV, TreeValue, TYPE_DEFAULT_DICT, TYPE_DEQUE, TYPE_DICT, TYPE_LIST, TYPE_NONE,
    TYPE_ORDERED_DICT, TYPE_TUPLE,
};

verus! {

/// The decomposition kind of one node of a tree.
#[derive(Debug, Clone, Copy, PartialEq, Eq, Structural)]
pub enum PyTreeKind {
    Custom,
    Leaf,
    Null,
    Tuple,
    List,
    Dict,
    NamedTuple,
    OrderedDict,
    DefaultDict,
    Deque,
    StructSequence,
}

/// What the registry records for one container type: its kind, its type
/// identity, and, for custom kinds, the handles of the flatten and unflatten
/// callables and of the per-child path entry type.
#[derive(Debug, Clone, Copy, PartialEq, Eq)]
pub struct PyTreeTypeRegistration {
    pub kind: PyTreeKind,
    pub type_id: u64,
    pub flatten_func: Option<u64>,
    pub unflatten_func: Option<u64>,
    pub path_entry_type: Option<u64>,
}

/// Why a registry mutation was refused. The registry is unchanged whenever
/// one of these is reported.
#[derive(Debug, Clone, Copy, PartialEq, Eq, Structural)]
pub enum RegistryError {
    AlreadyRegistered,
    NotRegistered,
    ProtectedType,
}

/// True of the type identities of the built-in container types, which are
/// protected from registration and removal.
pub open spec fn spec_is_builtin_type(t: u64) -> bool {
    ||| t == TYPE_NONE
    ||| t == TYPE_TUPLE
    ||| t == TYPE_LIST
    ||| t == TYPE_DICT
    ||| t == TYPE_ORDERED_DICT
    ||| t == TYPE_DEFAULT_DICT
    ||| t == TYPE_DEQUE
}

/// Whether a type identity belongs to a protected built-in container type.
pub fn is_builtin_type(t: u64) -> (r: bool)
    ensures
        r == spec_is_builtin_type(t),
{
    t == TYPE_NONE || t == TYPE_TUPLE || t == TYPE_LIST || t == TYPE_DICT || t == TYPE_ORDERED_DICT
        || t == TYPE_DEFAULT_DICT || t == TYPE_DEQUE
}

/// The registration that lookup reports for a built-in container type.
pub open spec fn builtin_registration(type_id: u64, kind: PyTreeKind) -> PyTreeTypeRegistration {
    PyTreeTypeRegistration {
        kind,
        type_id,
        flatten_func: None,
        unflatten_func: None,
        path_entry_type: None,
    }
}

/// The registration that a successful custom registration stores.
pub open spec fn custom_registration(
    type_id: u64,
    flatten_func: u64,
    unflatten_func: u64,
    path_entry_type: u64,
) -> PyTreeTypeRegistration {
    PyTreeTypeRegistration {
        kind: PyTreeKind::Custom,
        type_id,
        flatten_func: Some(flatten_func),
        unflatten_func: Some(unflatten_func),
        path_entry_type: Some(path_entry_type),
    }
}

/// The namespace that an optional argument denotes; absent means global.
pub open spec fn spec_ns_arg(namespace: Option<&str>) -> Seq<char> {
    match namespace {
        Some(s) => s@,
        None => Seq::empty(),
    }
}

/// Classification of a value by its shape alone, used when no custom entry
/// matches its type. Null is a leaf in none-is-leaf mode and a zero-arity
/// container otherwise; unregistered record tuples, record sequences, leaves
/// and opaque objects report the leaf kind with no registration, and the leaf
/// classifier decides what that means for them.
pub open spec fn spec_builtin_lookup(v: TreeV, none_is_leaf: bool) -> (PyTreeKind, Option<
    PyTreeTypeRegistration,
>) {
    match v {
        TreeV::Null => if none_is_leaf {
            (PyTreeKind::Leaf, Some(builtin_registration(TYPE_NONE, PyTreeKind::Leaf)))
        } else {
            (PyTreeKind::Null, Some(builtin_registration(TYPE_NONE, PyTreeKind::Null)))
        },
        TreeV::Tuple(..) => (
            PyTreeKind::Tuple,
            Some(builtin_registration(TYPE_TUPLE, PyTreeKind::Tuple)),
        ),
        TreeV::List(..) => (
            PyTreeKind::List,
            Some(builtin_registration(TYPE_LIST, PyTreeKind::List)),
        ),
        TreeV::Dict(..) => (
            PyTreeKind::Dict,
            Some(builtin_registration(TYPE_DICT, PyTreeKind::Dict)),
        ),
        TreeV::OrderedDict(..) => (
            PyTreeKind::OrderedDict,
            Some(builtin_registration(TYPE_ORDERED_DICT, PyTreeKind::OrderedDict)),
        ),
        TreeV::DefaultDict { .. } => (
            PyTreeKind::DefaultDict,
            Some(builtin_registration(TYPE_DEFAULT_DICT, PyTreeKind::DefaultDict)),
        ),
        TreeV::Deque { .. } => (
            PyTreeKind::Deque,
            Some(builtin_registration(TYPE_DEQUE, PyTreeKind::Deque)),
        ),
        TreeV::Leaf { .. } => (PyTreeKind::Leaf, None),
        TreeV::NamedTuple { .. } => (PyTreeKind::Leaf, None),
        TreeV::StructSequence { .. } => (PyTreeKind::Leaf, None),
        TreeV::Object { .. } => (PyTreeKind::Leaf, None),
    }
}

/// Registry resolution for one value: the namespaced custom entry for its
/// exact runtime type first, then the global entry, then classification by
/// shape. Custom entries dispatch on opaque objects, which carry the
/// decomposition their registered callable yields; a tree renders a value of
/// a custom-registered type as `Object`, while the other variants stand for
/// values of built-in or unregistered types.
pub open spec fn spec_lookup(
    table: Map<(Seq<char>, u64), PyTreeTypeRegistration>,
    v: TreeV,
    none_is_leaf: bool,
    ns: Seq<char>,
) -> (PyTreeKind, Option<PyTreeTypeRegistration>) {
    match v {
        TreeV::Object { type_id: tid, .. } => if ns.len() > 0 && table.contains_key((ns, tid)) {
            (table[(ns, tid)].kind, Some(table[(ns, tid)]))
        } else if table.contains_key((Seq::empty(), tid)) {
            (table[(Seq::empty(), tid)].kind, Some(table[(Seq::empty(), tid)]))
        } else {
            (PyTreeKind::Leaf, None)
        },
        _ => spec_builtin_lookup(v, none_is_leaf),
    }
}

/// The key under which a stored entry stands in the table view.
pub open spec fn reg_key(e: (String, PyTreeTypeRegistration)) -> (Seq<char>, u64) {
    (e.0@, e.1.type_id)
}

/// The map that a stored entry list denotes.
pub open spec fn table_view(s: Seq<(String, PyTreeTypeRegistration)>) -> Map<
    (Seq<char>, u64),
    PyTreeTypeRegistration,
>
    decreases s,
{
    if s.len() == 0 {
        Map::empty()
    } else {
        table_view(s.drop_last()).insert(reg_key(s.last()), s.last().1)
    }
}

/// The set of namespaces that a stored namespace list denotes.
pub open spec fn ns_set_view(s: Seq<String>) -> Set<Seq<char>>
    decreases s,
{
    if s.len() == 0 {
        Set::empty()
    } else {
        ns_set_view(s.drop_last()).insert(s.last()@)
    }
}

/// Every entry of a registry's table is a complete custom registration,
/// stored under its own type identity.
pub open spec fn spec_table_wf(table: Map<(Seq<char>, u64), PyTreeTypeRegistration>) -> bool {
    forall|k: (Seq<char>, u64)|
        table.contains_key(k) ==> reg_wf(#[trigger] table[k]) && table[k].type_id == k.1
}

/// The mathematical content of the registry: the custom table and the set of
/// namespaces whose plain mappings keep insertion order.
pub struct RegistryV {
    pub table: Map<(Seq<char>, u64), PyTreeTypeRegistration>,
    pub ordered: Set<Seq<char>>,
}

/// The namespaced registry of custom container types, plus the per-namespace
/// key-order policy store.
pub struct PyTreeTypeRegistry {
    registrations: Vec<(String, PyTreeTypeRegistration)>,
    dict_insertion_ordered_namespaces: Vec<String>,
}

impl View for PyTreeTypeRegistry {
    type V = RegistryV;

    closed spec fn view(&self) -> RegistryV {
        RegistryV {
            table: table_view(self.registrations@),
            ordered: ns_set_view(self.dict_insertion_ordered_namespaces@),
        }
    }
}

/// The registration literal reported for a built-in type.
fn make_builtin_registration(type_id: u64, kind: PyTreeKind) -> (r: PyTreeTypeRegistration)
    ensures
        r == builtin_registration(type_id, kind),
{
    PyTreeTypeRegistration {
        kind,
        type_id,
        flatten_func: None,
        unflatten_func: None,
        path_entry_type: None,
    }
}

/// What every stored custom registration satisfies: custom kind, both
/// callables present, and a type that is not protected.
pub open spec fn reg_wf(r: PyTreeTypeRegistration) -> bool {
    &&& r.kind == PyTreeKind::Custom
    &&& r.flatten_func is Some
    &&& r.unflatten_func is Some
    &&& !spec_is_builtin_type(r.type_id)
}

proof fn lemma_table_view_not_contains(s: Seq<(String, PyTreeTypeRegistration)>, k: (Seq<char>, u64))
    requires
        forall|i: int| 0 <= i < s.len() ==> reg_key(#[trigger] s[i]) != k,
    ensures
        !table_view(s).contains_key(k),
    decreases s.len(),
{
    if s.len() > 0 {
        assert(reg_key(s.last()) != k);
        lemma_table_view_not_contains(s.drop_last(), k);
    }
}

proof fn lemma_table_view_contains(s: Seq<(String, PyTreeTypeRegistration)>, k: (Seq<char>, u64))
    requires
        table_view(s).contains_key(k),
    ensures
        exists|i: int| 0 <= i < s.len() && reg_key(#[trigger] s[i]) == k,
    decreases s.len(),
{
    if s.len() > 0 {
        if reg_key(s.last()) == k {
            assert(reg_key(s[s.len() - 1]) == k);
        } else {
            lemma_table_view_contains(s.drop_last(), k);
            let i = choose|i: int|
                0 <= i < s.drop_last().len() && reg_key(#[trigger] s.drop_last()[i]) == k;
            assert(reg_key(s[i]) == k);
        }
    }
}

proof fn lemma_table_view_index(s: Seq<(String, PyTreeTypeRegistration)>, i: int)
    requires
        forall|p: int, q: int| 0 <= p < q < s.len() ==> reg_key(#[trigger] s[p]) != reg_key(
            #[trigger] s[q],
        ),
        0 <= i < s.len(),
    ensures
        table_view(s).contains_key(reg_key(s[i])),
        table_view(s)[reg_key(s[i])] == s[i].1,
    decreases s.len(),
{
    if i == s.len() - 1 {
        assert(s.last() == s[i]);
    } else {
        lemma_table_view_index(s.drop_last(), i);
        assert(s.drop_last()[i] == s[i]);
        assert(reg_key(s[s.len() - 1]) != reg_key(s[i]));
    }
}

proof fn lemma_table_view_remove(s: Seq<(String, PyTreeTypeRegistration)>, i: int)
    requires
        forall|p: int, q: int| 0 <= p < q < s.len() ==> reg_key(#[trigger] s[p]) != reg_key(
            #[trigger] s[q],
        ),
        0 <= i < s.len(),
    ensures
        table_view(s.remove(i)) == table_view(s).remove(reg_key(s[i])),
    decreases s.len(),
{
    if i == s.len() - 1 {
        assert(s.remove(i) =~= s.drop_last());
        assert(forall|p: int| 0 <= p < s.drop_last().len() ==> reg_key(
            #[trigger] s.drop_last()[p],
        ) != reg_key(s[i]));
        lemma_table_view_not_contains(s.drop_last(), reg_key(s[i]));
        assert(table_view(s).remove(reg_key(s[i])) =~= table_view(s.drop_last()));
    } else {
        let t = s.remove(i);
        assert(t.drop_last() =~= s.drop_last().remove(i));
        assert(t.last() == s.last());
        assert(forall|p: int, q: int|
            0 <= p < q < s.drop_last().len() ==> reg_key(#[trigger] s.drop_last()[p]) != reg_key(
                #[trigger] s.drop_last()[q],
            ));
        lemma_table_view_remove(s.drop_last(), i);
        assert(s.drop_last()[i] == s[i]);
        assert(reg_key(s.last()) != reg_key(s[i]));
        assert(table_view(t) =~= table_view(s).remove(reg_key(s[i])));
    }
}

proof fn lemma_ns_set_view_not_contains(s: Seq<String>, k: Seq<char>)
    requires
        forall|i: int| 0 <= i < s.len() ==> (#[trigger] s[i])@ != k,
    ensures
        !ns_set_view(s).contains(k),
    decreases s.len(),
{
    if s.len() > 0 {
        assert(s.last()@ != k);
        lemma_ns_set_view_not_contains(s.drop_last(), k);
    }
}

proof fn lemma_ns_set_view_contains(s: Seq<String>, k: Seq<char>)
    requires
        ns_set_view(s).contains(k),
    ensures
        exists|i: int| 0 <= i < s.len() && (#[trigger] s[i])@ == k,
    decreases s.len(),
{
    if s.len() > 0 {
        if s.last()@ == k {
            assert(s[s.len() - 1]@ == k);
        } else {
            lemma_ns_set_view_contains(s.drop_last(), k);
            let i = choose|i: int| 0 <= i < s.drop_last().len() && (#[trigger] s.drop_last()[i])@ == k;
            assert(s[i]@ == k);
        }
    }
}

proof fn lemma_ns_set_view_index(s: Seq<String>, i: int)
    requires
        0 <= i < s.len(),
    ensures
        ns_set_view(s).contains(s[i]@),
    decreases s.len(),
{
    if i < s.len() - 1 {
        lemma_ns_set_view_index(s.drop_last(), i);
        assert(s.drop_last()[i] == s[i]);
    } else {
        assert(s.last() == s[i]);
    }
}

proof fn lemma_ns_set_view_remove(s: Seq<String>, i: int)
    requires
        forall|p: int, q: int| 0 <= p < q < s.len() ==> (#[trigger] s[p])@ != (#[trigger] s[q])@,
        0 <= i < s.len(),
    ensures
        ns_set_view(s.remove(i)) == ns_set_view(s).remove(s[i]@),
    decreases s.len(),
{
    if i == s.len() - 1 {
        assert(s.remove(i) =~= s.drop_last());
        assert(forall|p: int| 0 <= p < s.drop_last().len() ==> (#[trigger] s.drop_last()[p])@ != s[i]@);
        lemma_ns_set_view_not_contains(s.drop_last(), s[i]@);
        assert(ns_set_view(s).remove(s[i]@) =~= ns_set_view(s.drop_last()));
    } else {
        let t = s.remove(i);
        assert(t.drop_last() =~= s.drop_last().remove(i));
        assert(t.last() == s.last());
        assert(forall|p: int, q: int|
            0 <= p < q < s.drop_last().len() ==> (#[trigger] s.drop_last()[p])@ != (
            #[trigger] s.drop_last()[q])@);
        lemma_ns_set_view_remove(s.drop_last(), i);
        assert(s.drop_last()[i] == s[i]);
        assert(s.last()@ != s[i]@);
        assert(ns_set_view(t) =~= ns_set_view(s).remove(s[i]@));
    }
}

/// Whether two string slices hold the same characters.
fn str_eq(a: &str, b: &str) -> (r: bool)
    ensures
        r == (a@ == b@),
{
    let sa: String = a.to_owned();
    let sb: String = b.to_owned();
    sa == sb
}

impl PyTreeTypeRegistry {
    /// The registry's internal consistency: one entry per (namespace, type)
    /// key, every entry a complete custom registration of an unprotected
    /// type, and one entry per namespace in the key-order store.
    pub closed spec fn wf(&self) -> bool {
        &&& forall|p: int, q: int|
            0 <= p < q < self.registrations@.len() ==> reg_key(#[trigger] self.registrations@[p])
                != reg_key(#[trigger] self.registrations@[q])
        &&& forall|i: int|
            0 <= i < self.registrations@.len() ==> reg_wf((#[trigger] self.registrations@[i]).1)
        &&& forall|p: int, q: int|
            0 <= p < q < self.dict_insertion_ordered_namespaces@.len() ==> (
            #[trigger] self.dict_insertion_ordered_namespaces@[p])@ != (
            #[trigger] self.dict_insertion_ordered_namespaces@[q])@
    }

    /// A fresh registry: no custom registrations, no namespace with the
    /// insertion-order policy. The protected built-in types are recognized by
    /// identity and need no stored entries.
    pub fn new() -> (r: Self)
        ensures
            r.wf(),
            r@.table == Map::<(Seq<char>, u64), PyTreeTypeRegistration>::empty(),
            r@.ordered == Set::<Seq<char>>::empty(),
    {
        PyTreeTypeRegistry {
            registrations: Vec::new(),
            dict_insertion_ordered_namespaces: Vec::new(),
        }
    }

    /// The index of the entry stored under (namespace, type), if any.
    fn find_entry(&self, ns: &str, type_id: u64) -> (r: Option<usize>)
        requires
            self.wf(),
        ensures
            match r {
                Some(i) => i < self.registrations@.len() && reg_key(self.registrations@[i as int])
                    == (ns@, type_id),
                None => !self@.table.contains_key((ns@, type_id)),
            },
    {
        let mut i: usize = 0;
        while i < self.registrations.len()
            invariant
                self.wf(),
                i <= self.registrations@.len(),
                forall|j: int| 0 <= j < i ==> reg_key(#[trigger] self.registrations@[j]) != (
                ns@, type_id),
            decreases self.registrations@.len() - i,
        {
            let entry_ns: &String = &self.registrations[i].0;
            if self.registrations[i].1.type_id == type_id && str_eq(entry_ns.as_str(), ns) {
                return Some(i);
            }
            i = i + 1;
        }
        proof {
            lemma_table_view_not_contains(self.registrations@, (ns@, type_id));
        }
        None
    }

    /// Resolution for one value: the namespaced custom entry for its exact
    /// runtime type, else the global entry, else the built-in classification.
    /// Dispatch is by exact type identity, never by inheritance.
    pub fn lookup(&self, obj: &TreeValue, none_is_leaf: Option<bool>, namespace: Option<&str>) -> (r:
        (PyTreeKind, Option<PyTreeTypeRegistration>))
        requires
            self.wf(),
        ensures
            r == spec_lookup(
                self@.table,
                obj@,
                none_is_leaf.unwrap_or(false),
                spec_ns_arg(namespace),
            ),
    {
        let mode: bool = match none_is_leaf {
            Some(b) => b,
            None => false,
        };
        let ns: &str = match namespace {
            Some(s) => s,
            None => "",
        };
        proof {
            reveal_strlit("");
            assert(""@ =~= Seq::<char>::empty());
            assert(ns@ == spec_ns_arg(namespace));
        }
        let tid = obj.type_id();
        if let TreeValue::Object { .. } = obj {
            if !ns.is_empty() {
                if let Some(i) = self.find_entry(ns, tid) {
                    let reg = self.registrations[i].1;
                    proof {
                        lemma_table_view_index(self.registrations@, i as int);
                        assert(reg.kind == PyTreeKind::Custom);
                    }
                    return (reg.kind, Some(reg));
                }
            }
            proof {
                if ns@.len() == 0 {
                    assert(ns@ =~= Seq::<char>::empty());
                }
            }
            if let Some(i) = self.find_entry("", tid) {
                proof {
                    reveal_strlit("");
                    assert(""@ =~= Seq::<char>::empty());
                }
                let reg = self.registrations[i].1;
                proof {
                    lemma_table_view_index(self.registrations@, i as int);
                }
                return (reg.kind, Some(reg));
            }
            proof {
                reveal_strlit("");
                assert(""@ =~= Seq::<char>::empty());
            }
            return (PyTreeKind::Leaf, None);
        }
        match obj {
            TreeValue::Null => if mode {
                (PyTreeKind::Leaf, Some(make_builtin_registration(TYPE_NONE, PyTreeKind::Leaf)))
            } else {
                (PyTreeKind::Null, Some(make_builtin_registration(TYPE_NONE, PyTreeKind::Null)))
            },
            TreeValue::Tuple(..) => (
                PyTreeKind::Tuple,
                Some(make_builtin_registration(TYPE_TUPLE, PyTreeKind::Tuple)),
            ),
            TreeValue::List(..) => (
                PyTreeKind::List,
                Some(make_builtin_registration(TYPE_LIST, PyTreeKind::List)),
            ),
            TreeValue::Dict(..) => (
                PyTreeKind::Dict,
                Some(make_builtin_registration(TYPE_DICT, PyTreeKind::Dict)),
            ),
            TreeValue::OrderedDict(..) => (
                PyTreeKind::OrderedDict,
                Some(make_builtin_registration(TYPE_ORDERED_DICT, PyTreeKind::OrderedDict)),
            ),
            TreeValue::DefaultDict { .. } => (
                PyTreeKind::DefaultDict,
                Some(make_builtin_registration(TYPE_DEFAULT_DICT, PyTreeKind::DefaultDict)),
            ),
            TreeValue::Deque { .. } => (
                PyTreeKind::Deque,
                Some(make_builtin_registration(TYPE_DEQUE, PyTreeKind::Deque)),
            ),
            TreeValue::Leaf { .. } => (PyTreeKind::Leaf, None),
            TreeValue::NamedTuple { .. } => (PyTreeKind::Leaf, None),
            TreeValue::StructSequence { .. } => (PyTreeKind::Leaf, None),
            TreeValue::Object { .. } => (PyTreeKind::Leaf, None),
        }
    }

    /// Records a custom container type in one namespace. Fails
    /// `ProtectedType` for a built-in type and `AlreadyRegistered` when the
    /// (namespace, type) pair is already present; on failure the registry is
    /// unchanged. The key-order policy store is never touched.
    pub fn register(
        &mut self,
        type_id: u64,
        flatten_func: u64,
        unflatten_func: u64,
        path_entry_type: u64,
        namespace: Option<&str>,
    ) -> (r: Result<(), RegistryError>)
        requires
            old(self).wf(),
        ensures
            final(self).wf(),
            final(self)@.ordered == old(self)@.ordered,
            ({
                let ns = spec_ns_arg(namespace);
                if spec_is_builtin_type(type_id) {
                    r == Err::<(), RegistryError>(RegistryError::ProtectedType) && final(self)@.table
                        == old(self)@.table
                } else if old(self)@.table.contains_key((ns, type_id)) {
                    r == Err::<(), RegistryError>(RegistryError::AlreadyRegistered) && final(self)@.table
                        == old(self)@.table
                } else {
                    r == Ok::<(), RegistryError>(()) && final(self)@.table == old(self)@.table.insert(
                        (ns, type_id),
                        custom_registration(type_id, flatten_func, unflatten_func, path_entry_type),
                    )
                }
            }),
    {
        let ns: &str = match namespace {
            Some(s) => s,
            None => "",
        };
        proof {
            reveal_strlit("");
            assert(""@ =~= Seq::<char>::empty());
            assert(ns@ == spec_ns_arg(namespace));
        }
        if is_builtin_type(type_id) {
            return Err(RegistryError::ProtectedType);
        }
        if let Some(_i) = self.find_entry(ns, type_id) {
            proof {
                lemma_table_view_index(self.registrations@, _i as int);
            }
            return Err(RegistryError::AlreadyRegistered);
        }
        let entry = PyTreeTypeRegistration {
            kind: PyTreeKind::Custom,
            type_id,
            flatten_func: Some(flatten_func),
            unflatten_func: Some(unflatten_func),
            path_entry_type: Some(path_entry_type),
        };
        let ghost old_regs = self.registrations@;
        self.registrations.push((ns.to_owned(), entry));
        proof {
            assert(self.registrations@.drop_last() =~= old_regs);
            assert(forall|p: int, q: int|
                0 <= p < q < self.registrations@.len() ==> reg_key(
                    #[trigger] self.registrations@[p],
                ) != reg_key(#[trigger] self.registrations@[q])) by {
                assert forall|p: int|
                    0 <= p < old_regs.len() implies reg_key(#[trigger] self.registrations@[p]) != (
                ns@, type_id) by {
                    assert(self.registrations@[p] == old_regs[p]);
                    lemma_table_view_index(old_regs, p);
                }
            }
        }
        Ok(())
    }

    /// Removes the custom registration of one type from one namespace. Fails
    /// `ProtectedType` for a built-in type and `NotRegistered` when the
    /// (namespace, type) pair is absent; on failure the registry is
    /// unchanged.
    pub fn unregister(&mut self, type_id: u64, namespace: Option<&str>) -> (r: Result<
        (),
        RegistryError,
    >)
        requires
            old(self).wf(),
        ensures
            final(self).wf(),
            final(self)@.ordered == old(self)@.ordered,
            ({
                let ns = spec_ns_arg(namespace);
                if spec_is_builtin_type(type_id) {
                    r == Err::<(), RegistryError>(RegistryError::ProtectedType) && final(self)@.table
                        == old(self)@.table
                } else if !old(self)@.table.contains_key((ns, type_id)) {
                    r == Err::<(), RegistryError>(RegistryError::NotRegistered) && final(self)@.table
                        == old(self)@.table
                } else {
                    r == Ok::<(), RegistryError>(()) && final(self)@.table == old(self)@.table.remove(
                        (ns, type_id),
                    )
                }
            }),
    {
        let ns: &str = match namespace {
            Some(s) => s,
            None => "",
        };
        proof {
            reveal_strlit("");
            assert(""@ =~= Seq::<char>::empty());
            assert(ns@ == spec_ns_arg(namespace));
        }
        if is_builtin_type(type_id) {
            return Err(RegistryError::ProtectedType);
        }
        match self.find_entry(ns, type_id) {
            None => Err(RegistryError::NotRegistered),
            Some(i) => {
                proof {
                    lemma_table_view_index(self.registrations@, i as int);
                    lemma_table_view_remove(self.registrations@, i as int);
                }
                let ghost old_regs = self.registrations@;
                self.registrations.remove(i);
                proof {
                    assert(forall|p: int, q: int|
                        0 <= p < q < self.registrations@.len() ==> reg_key(
                            #[trigger] self.registrations@[p],
                        ) != reg_key(#[trigger] self.registrations@[q]));
                }
                Ok(())
            },
        }
    }

    /// Whether plain mappings flattened under this namespace keep insertion
    /// order. A namespace without a local flag inherits the global one when
    /// inheritance is requested (the default).
    pub fn is_dict_insertion_ordered(
        &self,
        namespace: Option<&str>,
        inherit_global_namespace: Option<bool>,
    ) -> (r: bool)
        requires
            self.wf(),
        ensures
            r == (self@.ordered.contains(spec_ns_arg(namespace)) || (
            inherit_global_namespace.unwrap_or(true) && self@.ordered.contains(
                Seq::<char>::empty(),
            ))),
    {
        let ns: &str = match namespace {
            Some(s) => s,
            None => "",
        };
        let inherit: bool = match inherit_global_namespace {
            Some(b) => b,
            None => true,
        };
        proof {
            reveal_strlit("");
            assert(""@ =~= Seq::<char>::empty());
            assert(ns@ == spec_ns_arg(namespace));
        }
        if self.ns_flag_present(ns) {
            return true;
        }
        inherit && self.ns_flag_present("")
    }

    /// The index of a namespace in the key-order store, if present.
    fn find_ns_flag(&self, ns: &str) -> (r: Option<usize>)
        ensures
            match r {
                Some(i) => i < self.dict_insertion_ordered_namespaces@.len()
                    && self.dict_insertion_ordered_namespaces@[i as int]@ == ns@,
                None => !self@.ordered.contains(ns@),
            },
    {
        let mut i: usize = 0;
        while i < self.dict_insertion_ordered_namespaces.len()
            invariant
                i <= self.dict_insertion_ordered_namespaces@.len(),
                forall|j: int| 0 <= j < i ==> (
                #[trigger] self.dict_insertion_ordered_namespaces@[j])@ != ns@,
            decreases self.dict_insertion_ordered_namespaces@.len() - i,
        {
            let entry: &String = &self.dict_insertion_ordered_namespaces[i];
            if str_eq(entry.as_str(), ns) {
                return Some(i);
            }
            i = i + 1;
        }
        proof {
            lemma_ns_set_view_not_contains(self.dict_insertion_ordered_namespaces@, ns@);
        }
        None
    }

    /// Whether a namespace stands in the key-order store.
    fn ns_flag_present(&self, ns: &str) -> (r: bool)
        ensures
            r == self@.ordered.contains(ns@),
    {
        match self.find_ns_flag(ns) {
            Some(i) => {
                proof {
                    lemma_ns_set_view_index(self.dict_insertion_ordered_namespaces@, i as int);
                }
                true
            },
            None => false,
        }
    }

    /// Turns the insertion-order key policy on or off for one namespace. The
    /// custom table is never touched.
    pub fn set_dict_insertion_ordered(&mut self, mode: bool, namespace: Option<&str>)
        requires
            old(self).wf(),
        ensures
            final(self).wf(),
            final(self)@.table == old(self)@.table,
            final(self)@.ordered == if mode {
                old(self)@.ordered.insert(spec_ns_arg(namespace))
            } else {
                old(self)@.ordered.remove(spec_ns_arg(namespace))
            },
    {
        let ns: &str = match namespace {
            Some(s) => s,
            None => "",
        };
        proof {
            reveal_strlit("");
            assert(""@ =~= Seq::<char>::empty());
            assert(ns@ == spec_ns_arg(namespace));
        }
        let found = self.find_ns_flag(ns);
        if mode {
            match found {
                Some(i) => {
                    proof {
                        lemma_ns_set_view_index(self.dict_insertion_ordered_namespaces@, i as int);
                        assert(self@.ordered.insert(ns@) =~= self@.ordered);
                    }
                },
                None => {
                    let ghost old_set = self.dict_insertion_ordered_namespaces@;
                    self.dict_insertion_ordered_namespaces.push(ns.to_owned());
                    proof {
                        assert(self.dict_insertion_ordered_namespaces@.drop_last() =~= old_set);
                        assert forall|p: int|
                            0 <= p < old_set.len() implies (
                        #[trigger] self.dict_insertion_ordered_namespaces@[p])@ != ns@ by {
                            assert(self.dict_insertion_ordered_namespaces@[p] == old_set[p]);
                            lemma_ns_set_view_index(old_set, p);
                        }
                    }
                },
            }
        } else {
            match found {
                Some(i) => {
                    proof {
                        lemma_ns_set_view_remove(self.dict_insertion_ordered_namespaces@, i as int);
                    }
                    self.dict_insertion_ordered_namespaces.remove(i);
                },
                None => {
                    proof {
                        assert(self@.ordered.remove(ns@) =~= self@.ordered);
                    }
                },
            }
        }
    }
}

/// A well-formed registry's table holds complete custom registrations only.
pub proof fn lemma_registry_table_wf(r: &PyTreeTypeRegistry)
    requires
        r.wf(),
    ensures
        spec_table_wf(r@.table),
{
    assert forall|k: (Seq<char>, u64)| r@.table.contains_key(k) implies reg_wf(
        #[trigger] r@.table[k],
    ) && r@.table[k].type_id == k.1 by {
        lemma_table_view_contains(r.registrations@, k);
        let i = choose|i: int|
            0 <= i < r.registrations@.len() && reg_key(#[trigger] r.registrations@[i]) == k;
        lemma_table_view_index(r.registrations@, i);
    }
}

/// Records a custom container type; the free entry point over a registry.
pub fn register_node(
    registry: &mut PyTreeTypeRegistry,
    type_id: u64,
    flatten_func: u64,
    unflatten_func: u64,
    path_entry_type: u64,
    namespace: Option<&str>,
) -> (r: Result<(), RegistryError>)
    requires
        old(registry).wf(),
    ensures
        final(registry).wf(),
        final(registry)@.ordered == old(registry)@.ordered,
        ({
            let ns = spec_ns_arg(namespace);
            if spec_is_builtin_type(type_id) {
                r == Err::<(), RegistryError>(RegistryError::ProtectedType) && final(registry)@.table
                    == old(registry)@.table
            } else if old(registry)@.table.contains_key((ns, type_id)) {
                r == Err::<(), RegistryError>(RegistryError::AlreadyRegistered) && final(registry)@.table
                    == old(registry)@.table
            } else {
                r == Ok::<(), RegistryError>(()) && final(registry)@.table == old(
                    registry,
                )@.table.insert(
                    (ns, type_id),
                    custom_registration(type_id, flatten_func, unflatten_func, path_entry_type),
                )
            }
        }),
{
    registry.register(type_id, flatten_func, unflatten_func, path_entry_type, namespace)
}

/// Removes a custom registration; the free entry point over a registry.
pub fn unregister_node(
    registry: &mut PyTreeTypeRegistry,
    type_id: u64,
    namespace: Option<&str>,
) -> (r: Result<(), RegistryError>)
    requires
        old(registry).wf(),
    ensures
        final(registry).wf(),
        final(registry)@.ordered == old(registry)@.ordered,
        ({
            let ns = spec_ns_arg(namespace);
            if spec_is_builtin_type(type_id) {
                r == Err::<(), RegistryError>(RegistryError::ProtectedType) && final(registry)@.table
                    == old(registry)@.table
            } else if !old(registry)@.table.contains_key((ns, type_id)) {
                r == Err::<(), RegistryError>(RegistryError::NotRegistered) && final(registry)@.table
                    == old(registry)@.table
            } else {
                r == Ok::<(), RegistryError>(()) && final(registry)@.table == old(
                    registry,
                )@.table.remove((ns, type_id))
            }
        }),
{
    registry.unregister(type_id, namespace)
}

/// Reads the key-order policy; the free entry point over a registry.
pub fn is_dict_insertion_ordered(
    registry: &PyTreeTypeRegistry,
    namespace: Option<&str>,
    inherit_global_namespace: Option<bool>,
) -> (r: bool)
    requires
        registry.wf(),
    ensures
        r == (registry@.ordered.contains(spec_ns_arg(namespace)) || (
        inherit_global_namespace.unwrap_or(true) && registry@.ordered.contains(
            Seq::<char>::empty(),
        ))),
{
    registry.is_dict_insertion_ordered(namespace, inherit_global_namespace)
}

/// Sets the key-order policy; the free entry point over a registry.
pub fn set_dict_insertion_ordered(
    registry: &mut PyTreeTypeRegistry,
    mode: bool,
    namespace: Option<&str>,
)
    requires
        old(registry).wf(),
    ensures
        final(registry).wf(),
        final(registry)@.table == old(registry)@.table,
        final(registry)@.ordered == if mode {
            old(registry)@.ordered.insert(spec_ns_arg(namespace))
        } else {
            old(registry)@.ordered.remove(spec_ns_arg(namespace))
        },
{
    registry.set_dict_insertion_ordered(mode, namespace)
}

} // verus!
