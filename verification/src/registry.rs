//! The registry: the process-wide directory of registered type declarations
//! together with the tree cache. Every registered declaration is stored in
//! validated form — attributes cleaned, identifiers resolved, every
//! aggregation link pointing at an earlier entry — so building a node is
//! total, and the model of the tree each entry produces is a plain recursive
//! function of the directory.

use std::rc::Rc;
use vstd::prelude::*;

use vstd::pervasive::unreached;

use crate::decl::{AggregateError, AggregateErrorView};
use crate::types::{
    Amalgamate, Attributes, Field, Fields, FieldView, NodeView, field_entries_view, field_view,
    node_view,
};

verus! {

/// One validated field (or variant field) as stored: its final map key, its
/// cleaned attributes, and, for an aggregation point, the index of the
/// entry that supplies the nested node.
pub struct RegField {
    pub key: String,
    pub attrs: Vec<String>,
    pub link: Option<usize>,
}

/// One validated enum variant as stored.
pub struct RegVariant {
    pub name: String,
    pub attrs: Vec<String>,
    pub fields: Vec<RegField>,
}

/// How an entry produces its node: from a field map (unit, tuple, record
/// and union types all reduce to this), from variants, or by forwarding to
/// an earlier entry (transparent wrappers).
pub enum RegKind {
    Fields(Vec<RegField>),
    Enum(Vec<RegVariant>),
    Transparent(usize),
}

/// One registry entry: the type's name, its own cleaned attributes, its
/// validated kind, and the cache slot for its node.
pub struct RegEntry {
    pub name: String,
    pub attrs: Vec<String>,
    pub kind: RegKind,
    pub slot: Option<Rc<Amalgamate>>,
}

/// Mathematical model of a stored field.
pub struct RegFieldView {
    pub key: Seq<char>,
    pub attrs: Seq<Seq<char>>,
    pub link: Option<int>,
}

/// Mathematical model of a stored variant.
pub struct RegVariantView {
    pub name: Seq<char>,
    pub attrs: Seq<Seq<char>>,
    pub fields: Seq<RegFieldView>,
}

/// Mathematical model of an entry's kind.
pub enum RegKindView {
    Fields(Seq<RegFieldView>),
    Enum(Seq<RegVariantView>),
    Transparent(int),
}

/// Mathematical model of one directory entry (the cache slot is modelled
/// separately).
pub struct DirEntryView {
    pub name: Seq<char>,
    pub attrs: Seq<Seq<char>>,
    pub kind: RegKindView,
}

impl View for RegField {
    type V = RegFieldView;

    open spec fn view(&self) -> RegFieldView {
        RegFieldView {
            key: self.key@,
            attrs: self.attrs.deep_view(),
            link: match self.link {
                Some(j) => Some(j as int),
                None => None,
            },
        }
    }
}

pub open spec fn reg_fields_view(s: Seq<RegField>) -> Seq<RegFieldView> {
    Seq::new(s.len(), |i: int| s[i]@)
}

impl View for RegVariant {
    type V = RegVariantView;

    open spec fn view(&self) -> RegVariantView {
        RegVariantView {
            name: self.name@,
            attrs: self.attrs.deep_view(),
            fields: reg_fields_view(self.fields@),
        }
    }
}

pub open spec fn reg_variants_view(s: Seq<RegVariant>) -> Seq<RegVariantView> {
    Seq::new(s.len(), |i: int| s[i]@)
}

impl View for RegKind {
    type V = RegKindView;

    open spec fn view(&self) -> RegKindView {
        match self {
            RegKind::Fields(fs) => RegKindView::Fields(reg_fields_view(fs@)),
            RegKind::Enum(vs) => RegKindView::Enum(reg_variants_view(vs@)),
            RegKind::Transparent(j) => RegKindView::Transparent(*j as int),
        }
    }
}

impl View for RegEntry {
    type V = DirEntryView;

    open spec fn view(&self) -> DirEntryView {
        DirEntryView { name: self.name@, attrs: self.attrs.deep_view(), kind: self.kind@ }
    }
}

/// The node a directory position would produce when it is out of range or
/// malformed; never reached under a well-formed directory.
pub open spec fn empty_node() -> NodeView {
    NodeView { attrs: Seq::empty(), fields: Seq::empty() }
}

/// The node that entry `i` of the directory produces. This is the reference
/// model of the whole aggregation engine: attributes come from the entry,
/// the field map from its stored fields or variants, and every aggregation
/// link contributes the node of the earlier entry it points at.
pub open spec fn spec_node_of(dir: Seq<DirEntryView>, i: int) -> NodeView
    decreases i, 3int, 0int,
{
    if 0 <= i < dir.len() {
        match dir[i].kind {
            RegKindView::Fields(fs) => NodeView {
                attrs: dir[i].attrs,
                fields: spec_fields_nodes(dir, i, fs),
            },
            RegKindView::Enum(vs) => NodeView {
                attrs: dir[i].attrs,
                fields: spec_variants_nodes(dir, i, vs),
            },
            RegKindView::Transparent(j) => if 0 <= j < i {
                spec_node_of(dir, j)
            } else {
                empty_node()
            },
        }
    } else {
        empty_node()
    }
}

/// The field-map entries produced from stored fields whose links all lie
/// below `bound`.
pub open spec fn spec_fields_nodes(
    dir: Seq<DirEntryView>,
    bound: int,
    fs: Seq<RegFieldView>,
) -> Seq<(Seq<char>, FieldView)>
    decreases bound, 1int, fs.len(),
{
    if fs.len() == 0 {
        Seq::empty()
    } else {
        spec_fields_nodes(dir, bound, fs.drop_last()).push(
            (
                fs.last().key,
                FieldView {
                    attrs: fs.last().attrs,
                    inner: match fs.last().link {
                        Some(j) => if 0 <= j < bound {
                            Some(Box::new(spec_node_of(dir, j)))
                        } else {
                            None
                        },
                        None => None,
                    },
                },
            ),
        )
    }
}

/// The field-map entries produced from stored variants: a variant with
/// fields contributes a nested anonymous node holding its own field map.
pub open spec fn spec_variants_nodes(
    dir: Seq<DirEntryView>,
    bound: int,
    vs: Seq<RegVariantView>,
) -> Seq<(Seq<char>, FieldView)>
    decreases bound, 2int, vs.len(),
{
    if vs.len() == 0 {
        Seq::empty()
    } else {
        spec_variants_nodes(dir, bound, vs.drop_last()).push(
            (
                vs.last().name,
                FieldView {
                    attrs: vs.last().attrs,
                    inner: if vs.last().fields.len() == 0 {
                        None
                    } else {
                        Some(
                            Box::new(
                                NodeView {
                                    attrs: Seq::empty(),
                                    fields: spec_fields_nodes(dir, bound, vs.last().fields),
                                },
                            ),
                        )
                    },
                },
            ),
        )
    }
}

/// A stored field is well-formed below `bound` when its link, if any,
/// points strictly below `bound`.
pub open spec fn field_links_wf(bound: int, fs: Seq<RegFieldView>) -> bool {
    forall|k: int|
        0 <= k < fs.len() ==> match (#[trigger] fs[k]).link {
            Some(j) => 0 <= j < bound,
            None => true,
        }
}

/// Keys of one field map are unique.
pub open spec fn field_keys_unique(fs: Seq<RegFieldView>) -> bool {
    forall|a: int, b: int| 0 <= a < b < fs.len() ==> fs[a].key != fs[b].key
}

/// Variant names of one enum are unique, and every variant's own field map
/// is well-formed below `bound`.
pub open spec fn variants_wf(bound: int, vs: Seq<RegVariantView>) -> bool {
    (forall|a: int, b: int| 0 <= a < b < vs.len() ==> vs[a].name != vs[b].name) && (forall|k: int|
        0 <= k < vs.len() ==> field_links_wf(bound, #[trigger] vs[k].fields) && field_keys_unique(
            vs[k].fields,
        ))
}

/// An entry's kind is well-formed below `bound`.
pub open spec fn kind_wf(bound: int, k: RegKindView) -> bool {
    match k {
        RegKindView::Fields(fs) => field_links_wf(bound, fs) && field_keys_unique(fs),
        RegKindView::Enum(vs) => variants_wf(bound, vs),
        RegKindView::Transparent(j) => 0 <= j < bound,
    }
}

/// The whole directory is well-formed: names are unique and every entry
/// only links below its own position, so aggregation is total and the
/// dependency graph is acyclic by construction.
pub open spec fn dir_wf(dir: Seq<DirEntryView>) -> bool {
    (forall|a: int, b: int| 0 <= a < b < dir.len() ==> dir[a].name != dir[b].name) && (forall|
        i: int,
    |
        0 <= i < dir.len() ==> kind_wf(i, #[trigger] dir[i].kind))
}

/// No attribute in the list is the aggregation marker.
pub open spec fn attrs_clean(a: Seq<Seq<char>>) -> bool {
    forall|t: int| 0 <= t < a.len() ==> a[t] != crate::classify::marker()
}

/// Every stored field's attribute list is clean.
pub open spec fn fields_attrs_clean(fs: Seq<RegFieldView>) -> bool {
    forall|k: int| 0 <= k < fs.len() ==> attrs_clean((#[trigger] fs[k]).attrs)
}

/// Every stored variant's own attributes and field attributes are clean.
pub open spec fn variants_attrs_clean(vs: Seq<RegVariantView>) -> bool {
    forall|t: int|
        0 <= t < vs.len() ==> attrs_clean((#[trigger] vs[t]).attrs) && fields_attrs_clean(
            vs[t].fields,
        )
}

/// Every attribute list reachable from a kind is clean.
pub open spec fn kind_clean(k: RegKindView) -> bool {
    match k {
        RegKindView::Fields(fs) => fields_attrs_clean(fs),
        RegKindView::Enum(vs) => variants_attrs_clean(vs),
        RegKindView::Transparent(_) => true,
    }
}

/// One variant of a clean enum kind is itself clean.
pub proof fn lemma_kind_clean_enum_elem(vs: Seq<RegVariantView>, t: int)
    requires
        kind_clean(RegKindView::Enum(vs)),
        0 <= t < vs.len(),
    ensures
        attrs_clean(vs[t].attrs),
        fields_attrs_clean(vs[t].fields),
{
}

/// Every attribute list stored anywhere in the directory is clean: the
/// aggregation marker is stripped at registration and never stored.
pub open spec fn dir_clean(dir: Seq<DirEntryView>) -> bool {
    forall|i: int|
        0 <= i < dir.len() ==> attrs_clean((#[trigger] dir[i]).attrs) && kind_clean(dir[i].kind)
}

/// The position of the entry named `nm`, if any. Under a well-formed
/// directory the position is unique.
pub open spec fn spec_lookup(dir: Seq<DirEntryView>, nm: Seq<char>) -> Option<int> {
    if exists|i: int| 0 <= i < dir.len() && dir[i].name == nm {
        Some(choose|i: int| 0 <= i < dir.len() && dir[i].name == nm)
    } else {
        None
    }
}

/// Appending an entry to the directory leaves the node of every existing
/// position unchanged: a node only ever depends on entries below it.
pub proof fn lemma_node_of_push(dir: Seq<DirEntryView>, e: DirEntryView, i: int)
    requires
        i < dir.len(),
    ensures
        spec_node_of(dir.push(e), i) == spec_node_of(dir, i),
    decreases i, 3int, 0int,
{
    if 0 <= i < dir.len() {
        assert(dir.push(e)[i] == dir[i]);
        match dir[i].kind {
            RegKindView::Fields(fs) => {
                lemma_fields_nodes_push(dir, e, i, fs);
            },
            RegKindView::Enum(vs) => {
                lemma_variants_nodes_push(dir, e, i, vs);
            },
            RegKindView::Transparent(j) => {
                if 0 <= j < i {
                    lemma_node_of_push(dir, e, j);
                }
            },
        }
    }
}

pub proof fn lemma_fields_nodes_push(
    dir: Seq<DirEntryView>,
    e: DirEntryView,
    bound: int,
    fs: Seq<RegFieldView>,
)
    requires
        bound <= dir.len(),
    ensures
        spec_fields_nodes(dir.push(e), bound, fs) == spec_fields_nodes(dir, bound, fs),
    decreases bound, 1int, fs.len(),
{
    if fs.len() > 0 {
        lemma_fields_nodes_push(dir, e, bound, fs.drop_last());
        match fs.last().link {
            Some(j) => {
                if 0 <= j < bound {
                    lemma_node_of_push(dir, e, j);
                }
            },
            None => {},
        }
    }
}

pub proof fn lemma_variants_nodes_push(
    dir: Seq<DirEntryView>,
    e: DirEntryView,
    bound: int,
    vs: Seq<RegVariantView>,
)
    requires
        bound <= dir.len(),
    ensures
        spec_variants_nodes(dir.push(e), bound, vs) == spec_variants_nodes(dir, bound, vs),
    decreases bound, 2int, vs.len(),
{
    if vs.len() > 0 {
        lemma_variants_nodes_push(dir, e, bound, vs.drop_last());
        lemma_fields_nodes_push(dir, e, bound, vs.last().fields);
    }
}

/// The directory view of a sequence of stored entries.
pub open spec fn entries_dir(entries: Seq<RegEntry>) -> Seq<DirEntryView> {
    Seq::new(entries.len(), |i: int| entries[i]@)
}

/// How many entries have a built node in their cache slot.
pub open spec fn count_built(entries: Seq<RegEntry>) -> nat
    decreases entries,
{
    if entries.len() == 0 {
        0
    } else {
        count_built(entries.drop_last()) + (if entries.last().slot is Some {
            1nat
        } else {
            0nat
        })
    }
}

pub proof fn lemma_count_built_le(entries: Seq<RegEntry>)
    ensures
        count_built(entries) <= entries.len(),
    decreases entries,
{
    if entries.len() > 0 {
        lemma_count_built_le(entries.drop_last());
    }
}

pub proof fn lemma_count_built_some_none(entries: Seq<RegEntry>, i: int)
    requires
        0 <= i < entries.len(),
        entries[i].slot is None,
    ensures
        count_built(entries) < entries.len(),
    decreases entries,
{
    lemma_count_built_le(entries.drop_last());
    if i == entries.len() - 1 {
    } else {
        lemma_count_built_some_none(entries.drop_last(), i);
    }
}

/// Replacing the slot of entry `i` (and nothing else) by a built node
/// raises the built count by one.
pub proof fn lemma_count_built_update(entries: Seq<RegEntry>, i: int, e: RegEntry)
    requires
        0 <= i < entries.len(),
        entries[i].slot is None,
        e.slot is Some,
    ensures
        count_built(entries.update(i, e)) == count_built(entries) + 1,
    decreases entries,
{
    let up = entries.update(i, e);
    if i == entries.len() - 1 {
        assert(up.drop_last() =~= entries.drop_last());
    } else {
        lemma_count_built_update(entries.drop_last(), i, e);
        assert(up.drop_last() =~= entries.drop_last().update(i, e));
        assert(up.last() == entries.last());
    }
}

/// The registry: the directory of validated entries and the build counter,
/// which counts how many cache slots have been filled.
pub struct Registry {
    entries: Vec<RegEntry>,
    builds: usize,
}

impl Registry {
    /// The directory: the model of every registered entry, in registration
    /// order, without the cache slots.
    pub closed spec fn dir(self) -> Seq<DirEntryView> {
        entries_dir(self.entries@)
    }

    /// The model of entry `i`'s cache slot.
    pub closed spec fn slot(self, i: int) -> Option<NodeView> {
        match self.entries@[i].slot {
            Some(rc) => Some(rc@),
            None => None,
        }
    }

    /// How many nodes have been built so far; a node is built at most once.
    pub closed spec fn build_count(self) -> nat {
        self.builds as nat
    }

    /// The registry invariant: the directory is well-formed, the build
    /// counter matches the filled slots, and every filled slot holds
    /// exactly the node its entry's model prescribes.
    pub closed spec fn wf(self) -> bool {
        &&& dir_wf(self.dir())
        &&& dir_clean(self.dir())
        &&& self.builds == count_built(self.entries@)
        &&& forall|i: int|
            0 <= i < self.entries@.len() ==> match #[trigger] self.slot(i) {
                Some(n) => n == spec_node_of(self.dir(), i),
                None => true,
            }
    }

    /// Whatever the registry invariant holds of the directory, exported
    /// for reasoning at the call site: the directory is well-formed and
    /// every stored attribute list is clean.
    pub proof fn lemma_wf_dir(&self)
        requires
            self.wf(),
        ensures
            dir_wf(self.dir()),
            dir_clean(self.dir()),
    {
    }

    /// A fresh registry with nothing registered.
    pub fn new() -> (r: Registry)
        ensures
            r.wf(),
            r.dir() == Seq::<DirEntryView>::empty(),
            r.build_count() == 0,
    {
        let r = Registry { entries: Vec::new(), builds: 0 };
        proof {
            assert(r.dir() =~= Seq::<DirEntryView>::empty());
        }
        r
    }

    /// How many types are registered.
    pub fn len(&self) -> (n: usize)
        ensures
            n == self.dir().len(),
    {
        self.entries.len()
    }

    /// How many trees have been built so far.
    pub fn builds_so_far(&self) -> (n: usize)
        ensures
            n == self.build_count(),
    {
        self.builds
    }

    /// The position of the entry registered under `name`, if any.
    pub fn find_index(&self, name: &str) -> (r: Option<usize>)
        requires
            self.wf(),
        ensures
            match r {
                Some(u) => spec_lookup(self.dir(), name@) == Some(u as int),
                None => spec_lookup(self.dir(), name@) is None,
            },
    {
        let key: String = name.to_owned();
        let mut i: usize = 0;
        while i < self.entries.len()
            invariant
                self.wf(),
                i <= self.entries@.len(),
                key@ == name@,
                forall|k: int| 0 <= k < i ==> (#[trigger] self.dir()[k]).name != name@,
            decreases self.entries@.len() - i,
        {
            if self.entries[i].name == key {
                proof {
                    assert(self.dir()[i as int].name == name@);
                    let w = choose|w: int|
                        0 <= w < self.dir().len() && self.dir()[w].name == name@;
                    assert(dir_wf(self.dir()));
                    if w != i {
                        assert(self.dir()[w].name == self.dir()[i as int].name);
                        if w < i {
                            assert(self.dir()[w].name != self.dir()[i as int].name);
                        } else {
                            assert(self.dir()[i as int].name != self.dir()[w].name);
                        }
                    }
                }
                return Some(i);
            }
            i += 1;
        }
        proof {
            if spec_lookup(self.dir(), name@) is Some {
                let w = choose|w: int| 0 <= w < self.dir().len() && self.dir()[w].name == name@;
                assert(self.dir()[w].name != name@);
            }
        }
        None
    }
}

impl Registry {
    /// Append a validated entry: fresh name, kind well-formed against the
    /// current directory, empty cache slot.
    pub(crate) fn push_validated(&mut self, entry: RegEntry)
        requires
            old(self).wf(),
            kind_wf(old(self).dir().len() as int, entry@.kind),
            attrs_clean(entry@.attrs),
            kind_clean(entry@.kind),
            entry.slot is None,
            spec_lookup(old(self).dir(), entry@.name) is None,
        ensures
            final(self).wf(),
            final(self).dir() == old(self).dir().push(entry@),
            final(self).build_count() == old(self).build_count(),
            forall|i: int|
                0 <= i < old(self).dir().len() ==> final(self).slot(i) == old(self).slot(i),
            final(self).slot(old(self).dir().len() as int) is None,
    {
        let ghost olddir = self.dir();
        let ghost ev = entry@;
        let ghost oldentries = self.entries@;
        self.entries.push(entry);
        proof {
            assert(self.dir() =~= olddir.push(ev)) by {
                assert forall|i: int| 0 <= i < self.entries@.len() implies self.dir()[i]
                    == olddir.push(ev)[i] by {
                    if i < oldentries.len() {
                        assert(self.entries@[i] == oldentries[i]);
                    }
                }
            }
            assert(self.entries@.drop_last() =~= oldentries);
            assert(count_built(self.entries@) == count_built(oldentries));
            let newdir = self.dir();
            assert forall|a: int, b: int|
                0 <= a < b < newdir.len() implies newdir[a].name != newdir[b].name by {
                if b < olddir.len() {
                    assert(olddir[a].name != olddir[b].name);
                } else {
                    assert(newdir[b].name == ev.name);
                    assert(!(exists|w: int|
                        0 <= w < olddir.len() && olddir[w].name == ev.name));
                    assert(olddir[a].name != ev.name);
                }
            }
            assert forall|i: int|
                0 <= i < newdir.len() implies attrs_clean((#[trigger] newdir[i]).attrs)
                && kind_clean(newdir[i].kind) by {
                if i < olddir.len() {
                    assert(newdir[i] == olddir[i]);
                    assert(attrs_clean(olddir[i].attrs) && kind_clean(olddir[i].kind));
                } else {
                    assert(newdir[i] == ev);
                }
            }
            assert forall|i: int| 0 <= i < newdir.len() implies kind_wf(
                i,
                #[trigger] newdir[i].kind,
            ) by {
                if i < olddir.len() {
                    assert(kind_wf(i, olddir[i].kind));
                    assert(newdir[i] == olddir[i]);
                } else {
                    assert(newdir[i].kind == ev.kind);
                    lemma_kind_wf_weaken(olddir.len() as int, i, ev.kind);
                }
            }
            assert forall|i: int| 0 <= i < self.entries@.len() implies match #[trigger] self.slot(
                i,
            ) {
                Some(n) => n == spec_node_of(newdir, i),
                None => true,
            } by {
                if i < oldentries.len() {
                    assert(self.entries@[i] == oldentries[i]);
                    lemma_node_of_push(olddir, ev, i);
                    assert(self.slot(i) == old(self).slot(i));
                } else {
                    assert(self.entries@[i].slot is None);
                }
            }
        }
    }
}

/// Well-formedness below a bound holds below any larger bound.
pub proof fn lemma_kind_wf_weaken(bound: int, larger: int, k: RegKindView)
    requires
        kind_wf(bound, k),
        bound <= larger,
    ensures
        kind_wf(larger, k),
{
}



/// Relies on Rc::clone: the clone is a second handle to the same
/// allocation, so its value is the very same node.
#[verifier::external_body]
fn rc_clone(rc: &Rc<Amalgamate>) -> (r: Rc<Amalgamate>)
    ensures
        r == *rc,
{
    Rc::clone(rc)
}

fn clone_strings(v: &Vec<String>) -> (r: Vec<String>)
    ensures
        r@ == v@,
{
    let mut r: Vec<String> = Vec::new();
    let mut i: usize = 0;
    proof {
        assert(r@ =~= v@.take(0));
    }
    while i < v.len()
        invariant
            i <= v@.len(),
            r@ == v@.take(i as int),
        decreases v@.len() - i,
    {
        r.push(v[i].clone());
        proof {
            assert(r@ =~= v@.take(i + 1));
        }
        i += 1;
    }
    proof {
        assert(v@.take(v@.len() as int) =~= v@);
    }
    r
}

impl Registry {
    fn entry_attrs(&self, i: usize) -> (r: Vec<String>)
        requires
            i < self.dir().len(),
        ensures
            r.deep_view() == self.dir()[i as int].attrs,
    {
        clone_strings(&self.entries[i].attrs)
    }

    fn field_parts(&self, i: usize, k: usize) -> (r: (String, Vec<String>, Option<usize>))
        requires
            i < self.dir().len(),
            self.dir()[i as int].kind is Fields,
            k < self.dir()[i as int].kind->Fields_0.len(),
        ensures
            r.0@ == self.dir()[i as int].kind->Fields_0[k as int].key,
            r.1.deep_view() == self.dir()[i as int].kind->Fields_0[k as int].attrs,
            (match r.2 {
                Some(j) => Some(j as int),
                None => None,
            }) == self.dir()[i as int].kind->Fields_0[k as int].link,
    {
        match &self.entries[i].kind {
            RegKind::Fields(fs) => {
                let f = &fs[k];
                (f.key.clone(), clone_strings(&f.attrs), f.link)
            },
            _ => unreached(),
        }
    }

    fn variant_parts(&self, i: usize, kv: usize) -> (r: (String, Vec<String>, usize))
        requires
            i < self.dir().len(),
            self.dir()[i as int].kind is Enum,
            kv < self.dir()[i as int].kind->Enum_0.len(),
        ensures
            r.0@ == self.dir()[i as int].kind->Enum_0[kv as int].name,
            r.1.deep_view() == self.dir()[i as int].kind->Enum_0[kv as int].attrs,
            r.2 == self.dir()[i as int].kind->Enum_0[kv as int].fields.len(),
    {
        match &self.entries[i].kind {
            RegKind::Enum(vs) => {
                let v = &vs[kv];
                (v.name.clone(), clone_strings(&v.attrs), v.fields.len())
            },
            _ => unreached(),
        }
    }

    fn variant_field_parts(&self, i: usize, kv: usize, kf: usize) -> (r: (
        String,
        Vec<String>,
        Option<usize>,
    ))
        requires
            i < self.dir().len(),
            self.dir()[i as int].kind is Enum,
            kv < self.dir()[i as int].kind->Enum_0.len(),
            kf < self.dir()[i as int].kind->Enum_0[kv as int].fields.len(),
        ensures
            r.0@ == self.dir()[i as int].kind->Enum_0[kv as int].fields[kf as int].key,
            r.1.deep_view() == self.dir()[i as int].kind->Enum_0[kv as int].fields[kf as int].attrs,
            (match r.2 {
                Some(j) => Some(j as int),
                None => None,
            }) == self.dir()[i as int].kind->Enum_0[kv as int].fields[kf as int].link,
    {
        match &self.entries[i].kind {
            RegKind::Enum(vs) => {
                match &vs[kv].fields {
                    fsv => {
                        let f = &fsv[kf];
                        (f.key.clone(), clone_strings(&f.attrs), f.link)
                    },
                }
            },
            _ => unreached(),
        }
    }

    fn set_slot(&mut self, i: usize, rc: Rc<Amalgamate>)
        requires
            old(self).wf(),
            i < old(self).dir().len(),
            old(self).slot(i as int) is None,
            rc@ == spec_node_of(old(self).dir(), i as int),
        ensures
            final(self).wf(),
            final(self).dir() == old(self).dir(),
            final(self).build_count() == old(self).build_count() + 1,
            final(self).slot(i as int) == Some(spec_node_of(old(self).dir(), i as int)),
            forall|k: int|
                0 <= k < old(self).dir().len() && k != i ==> final(self).slot(k) == old(
                    self,
                ).slot(k),
    {
        let ghost oldentries = self.entries@;
        let ghost olddir = self.dir();
        let n = self.entries.len();
        proof {
            lemma_count_built_some_none(oldentries, i as int);
        }
        let mut e = self.entries.remove(i);
        e.slot = Some(rc);
        let ghost enew = e;
        self.entries.insert(i, e);
        self.builds = self.builds + 1;
        proof {
            assert(self.entries@ =~= oldentries.update(i as int, enew));
            lemma_count_built_update(oldentries, i as int, enew);
            assert(enew@ == oldentries[i as int]@);
            assert(self.dir() =~= olddir);
            assert forall|k: int|
                0 <= k < self.entries@.len() implies match #[trigger] self.slot(k) {
                Some(nv) => nv == spec_node_of(self.dir(), k),
                None => true,
            } by {
                if k != i {
                    assert(self.entries@[k] == oldentries[k]);
                    assert(self.slot(k) == old(self).slot(k));
                    assert(match old(self).slot(k) {
                        Some(nv) => nv == spec_node_of(olddir, k),
                        None => true,
                    });
                    assert(self.dir() == olddir);
                } else {
                    assert(self.entries@[k] == enew);
                    assert(self.slot(k) == Some(rc@));
                    assert(self.dir() == olddir);
                }
            }
        }
    }

    fn aggregate_idx(&mut self, i: usize) -> (rc: Rc<Amalgamate>)
        requires
            old(self).wf(),
            i < old(self).dir().len(),
        ensures
            final(self).wf(),
            final(self).dir() == old(self).dir(),
            rc@ == spec_node_of(old(self).dir(), i as int),
            final(self).slot(i as int) == Some(spec_node_of(old(self).dir(), i as int)),
            forall|k: int|
                0 <= k < old(self).dir().len() ==> final(self).slot(k) == old(self).slot(k) || (
                old(self).slot(k) is None && final(self).slot(k) == Some(
                    spec_node_of(old(self).dir(), k),
                )),
            forall|k: int|
                i < k < old(self).dir().len() ==> final(self).slot(k) == old(self).slot(k),
            old(self).slot(i as int) is Some ==> *final(self) == *old(self),
        decreases i,
    {
        let ghost dir = old(self).dir();
        let hit = match &self.entries[i].slot {
            Some(rc) => Some(rc_clone(rc)),
            None => None,
        };
        if let Some(rc) = hit {
            return rc;
        }
        proof {
            assert(kind_wf(i as int, dir[i as int].kind));
        }
        let trans: Option<usize> = match &self.entries[i].kind {
            RegKind::Transparent(j) => Some(*j),
            _ => None,
        };
        if let Some(j) = trans {
            let child = self.aggregate_idx(j);
            let rc = rc_clone(&child);
            self.set_slot(i, rc_clone(&rc));
            return rc;
        }
        let nfields: Option<usize> = match &self.entries[i].kind {
            RegKind::Fields(fs) => Some(fs.len()),
            _ => None,
        };
        if let Some(n) = nfields {
            let ghost fsv = dir[i as int].kind->Fields_0;
            let mut map: Vec<(String, Field)> = Vec::new();
            let mut k: usize = 0;
            proof {
                assert(field_entries_view(map@) =~= spec_fields_nodes(dir, i as int, fsv.take(0)));
            }
            while k < n
                invariant
                    self.wf(),
                    self.dir() == dir,
                    i < dir.len(),
                    dir[i as int].kind == RegKindView::Fields(fsv),
                    kind_wf(i as int, dir[i as int].kind),
                    n == fsv.len(),
                    k <= n,
                    self.slot(i as int) is None,
                    field_entries_view(map@) == spec_fields_nodes(dir, i as int, fsv.take(k as int)),
                    forall|t: int|
                        0 <= t < dir.len() ==> self.slot(t) == old(self).slot(t) || (old(
                            self,
                        ).slot(t) is None && self.slot(t) == Some(spec_node_of(dir, t))),
                    forall|t: int| (i as int) < t < dir.len() ==> self.slot(t) == old(self).slot(t),
                decreases n - k,
            {
                let parts = self.field_parts(i, k);
                let key = parts.0;
                let attrs = parts.1;
                let inner: Option<Rc<Amalgamate>> = match parts.2 {
                    Some(j) => Some(self.aggregate_idx(j)),
                    None => None,
                };
                let ghost mv = map@;
                map.push((key, Field { attrs: Attributes(attrs), inner }));
                proof {
                    let pair = map@.last();
                    assert(map@.drop_last() =~= mv);
                    assert(fsv.take(k + 1).drop_last() =~= fsv.take(k as int));
                    assert(fsv.take(k + 1).last() == fsv[k as int]);
                    assert(match fsv[k as int].link {
                        Some(j) => 0 <= j < i as int,
                        None => true,
                    });
                    assert(field_view(pair.1).attrs == fsv[k as int].attrs);
                    assert(field_view(pair.1).inner == (match fsv[k as int].link {
                        Some(j) => Some(Box::new(spec_node_of(dir, j))),
                        None => None,
                    }));
                    assert(field_entries_view(map@) =~= spec_fields_nodes(
                        dir,
                        i as int,
                        fsv.take(k + 1),
                    ));
                }
                k += 1;
            }
            proof {
                assert(fsv.take(n as int) =~= fsv);
            }
            let tattrs = self.entry_attrs(i);
            let node = Amalgamate { attrs: Attributes(tattrs), fields: Fields(map) };
            proof {
                assert(node_view(node) == spec_node_of(dir, i as int));
            }
            let rc = Rc::new(node);
            self.set_slot(i, rc_clone(&rc));
            return rc;
        }
        let nvars: usize = match &self.entries[i].kind {
            RegKind::Enum(vs) => vs.len(),
            _ => unreached(),
        };
        let ghost vsv = dir[i as int].kind->Enum_0;
        let mut map: Vec<(String, Field)> = Vec::new();
        let mut kv: usize = 0;
        proof {
            assert(field_entries_view(map@) =~= spec_variants_nodes(dir, i as int, vsv.take(0)));
        }
        while kv < nvars
            invariant
                self.wf(),
                self.dir() == dir,
                i < dir.len(),
                dir[i as int].kind == RegKindView::Enum(vsv),
                kind_wf(i as int, dir[i as int].kind),
                nvars == vsv.len(),
                kv <= nvars,
                self.slot(i as int) is None,
                field_entries_view(map@) == spec_variants_nodes(dir, i as int, vsv.take(kv as int)),
                forall|t: int|
                    0 <= t < dir.len() ==> self.slot(t) == old(self).slot(t) || (old(
                        self,
                    ).slot(t) is None && self.slot(t) == Some(spec_node_of(dir, t))),
                forall|t: int| (i as int) < t < dir.len() ==> self.slot(t) == old(self).slot(t),
            decreases nvars - kv,
        {
            let vparts = self.variant_parts(i, kv);
            let vname = vparts.0;
            let vattrs = vparts.1;
            let nvf = vparts.2;
            let ghost vfsv = vsv[kv as int].fields;
            let inner: Option<Rc<Amalgamate>> = if nvf == 0 {
                None
            } else {
                let mut vmap: Vec<(String, Field)> = Vec::new();
                let mut kf: usize = 0;
                proof {
                    assert(field_entries_view(vmap@) =~= spec_fields_nodes(
                        dir,
                        i as int,
                        vfsv.take(0),
                    ));
                }
                while kf < nvf
                    invariant
                        self.wf(),
                        self.dir() == dir,
                        i < dir.len(),
                        dir[i as int].kind == RegKindView::Enum(vsv),
                        kind_wf(i as int, dir[i as int].kind),
                        kv < vsv.len(),
                        vfsv == vsv[kv as int].fields,
                        nvf == vfsv.len(),
                        kf <= nvf,
                        self.slot(i as int) is None,
                        field_entries_view(vmap@) == spec_fields_nodes(
                            dir,
                            i as int,
                            vfsv.take(kf as int),
                        ),
                        forall|t: int|
                            0 <= t < dir.len() ==> self.slot(t) == old(self).slot(t) || (old(
                                self,
                            ).slot(t) is None && self.slot(t) == Some(spec_node_of(dir, t))),
                        forall|t: int|
                            (i as int) < t < dir.len() ==> self.slot(t) == old(self).slot(t),
                    decreases nvf - kf,
                {
                    let parts = self.variant_field_parts(i, kv, kf);
                    let key = parts.0;
                    let attrs = parts.1;
                    let finner: Option<Rc<Amalgamate>> = match parts.2 {
                        Some(j) => Some(self.aggregate_idx(j)),
                        None => None,
                    };
                    let ghost vmv = vmap@;
                    vmap.push((key, Field { attrs: Attributes(attrs), inner: finner }));
                    proof {
                        let pair = vmap@.last();
                        assert(vmap@.drop_last() =~= vmv);
                        assert(vfsv.take(kf + 1).drop_last() =~= vfsv.take(kf as int));
                        assert(vfsv.take(kf + 1).last() == vfsv[kf as int]);
                        assert(match vfsv[kf as int].link {
                            Some(j) => 0 <= j < i as int,
                            None => true,
                        });
                        assert(field_view(pair.1).attrs == vfsv[kf as int].attrs);
                        assert(field_view(pair.1).inner == (match vfsv[kf as int].link {
                            Some(j) => Some(Box::new(spec_node_of(dir, j))),
                            None => None,
                        }));
                        assert(field_entries_view(vmap@) =~= spec_fields_nodes(
                            dir,
                            i as int,
                            vfsv.take(kf + 1),
                        ));
                    }
                    kf += 1;
                }
                proof {
                    assert(vfsv.take(nvf as int) =~= vfsv);
                }
                let no_attrs: Vec<String> = Vec::new();
                proof {
                    assert(no_attrs.deep_view() =~= Seq::<Seq<char>>::empty());
                }
                let vnode = Amalgamate { attrs: Attributes(no_attrs), fields: Fields(vmap) };
                proof {
                    assert(node_view(vnode) == NodeView {
                        attrs: Seq::empty(),
                        fields: spec_fields_nodes(dir, i as int, vfsv),
                    });
                }
                Some(Rc::new(vnode))
            };
            let ghost mv = map@;
            map.push((vname, Field { attrs: Attributes(vattrs), inner }));
            proof {
                let pair = map@.last();
                assert(map@.drop_last() =~= mv);
                assert(vsv.take(kv + 1).drop_last() =~= vsv.take(kv as int));
                assert(vsv.take(kv + 1).last() == vsv[kv as int]);
                assert(field_view(pair.1).attrs == vsv[kv as int].attrs);
                assert(field_view(pair.1).inner == (if vsv[kv as int].fields.len() == 0 {
                    None
                } else {
                    Some(
                        Box::new(
                            NodeView {
                                attrs: Seq::empty(),
                                fields: spec_fields_nodes(dir, i as int, vsv[kv as int].fields),
                            },
                        ),
                    )
                }));
                assert(field_entries_view(map@) =~= spec_variants_nodes(
                    dir,
                    i as int,
                    vsv.take(kv + 1),
                ));
            }
            kv += 1;
        }
        proof {
            assert(vsv.take(nvars as int) =~= vsv);
        }
        let tattrs = self.entry_attrs(i);
        let node = Amalgamate { attrs: Attributes(tattrs), fields: Fields(map) };
        proof {
            assert(node_view(node) == spec_node_of(dir, i as int));
        }
        let rc = Rc::new(node);
        self.set_slot(i, rc_clone(&rc));
        rc
    }

    /// Request the aggregated tree of the type registered under `name`. The
    /// first request builds the node — and, recursively, the node of every
    /// aggregation target that is not built yet — and caches it; every
    /// later request returns the same cached node without rebuilding
    /// anything.
    pub fn aggregate(&mut self, name: &str) -> (r: Result<Rc<Amalgamate>, AggregateError>)
        requires
            old(self).wf(),
        ensures
            final(self).wf(),
            final(self).dir() == old(self).dir(),
            match spec_lookup(old(self).dir(), name@) {
                Some(i) => {
                    &&& r matches Ok(rc) && rc@ == spec_node_of(old(self).dir(), i)
                    &&& final(self).slot(i) == Some(spec_node_of(old(self).dir(), i))
                    &&& (old(self).slot(i) is Some ==> *final(self) == *old(self))
                },
                None => {
                    &&& r matches Err(e) && e@ == (AggregateErrorView::NotRegistered {
                        ty: name@,
                    })
                    &&& *final(self) == *old(self)
                },
            },
            forall|k: int|
                0 <= k < old(self).dir().len() ==> final(self).slot(k) == old(self).slot(k) || (
                old(self).slot(k) is None && final(self).slot(k) == Some(
                    spec_node_of(old(self).dir(), k),
                )),
    {
        match self.find_index(name) {
            Some(i) => {
                let rc = self.aggregate_idx(i);
                Ok(rc)
            },
            None => Err(AggregateError::NotRegistered { ty: name.to_owned() }),
        }
    }
}


} // verus!
