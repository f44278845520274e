//! The aggregated tree: `Amalgamate` is one node of the output tree, holding
//! the type's own attributes and an ordered map from field (or variant)
//! identifier to `Field`. A `Field` carries its own attributes and, where the
//! field was marked as an aggregation point, a shared reference to the nested
//! type's node.

use std::rc::Rc;
use vstd::prelude::*;

verus! {

/// An ordered list of opaque attribute values, in declaration order,
/// duplicates permitted. The library carries attributes; it does not
/// interpret their content (except for the reserved aggregation marker,
/// which never reaches an `Attributes` value).
#[derive(Debug, PartialEq, Eq)]
pub struct Attributes(pub Vec<String>);

/// One entry of a node's field map: the field's (or variant's) own cleaned
/// attributes, and the nested node for aggregation points.
#[derive(Debug, PartialEq, Eq)]
pub struct Field {
    pub attrs: Attributes,
    pub inner: Option<Rc<Amalgamate>>,
}

/// An ordered map from field (or variant) identifier to `Field`. Insertion
/// order is declaration order; keys are unique in every map the registry
/// builds.
#[derive(Debug, PartialEq, Eq)]
pub struct Fields(pub Vec<(String, Field)>);

/// One node of the aggregated tree: a type's (or an enum variant's) own
/// attributes together with its field map.
#[derive(Debug, PartialEq, Eq)]
pub struct Amalgamate {
    pub attrs: Attributes,
    pub fields: Fields,
}

/// Mathematical model of a `Field`.
pub struct FieldView {
    pub attrs: Seq<Seq<char>>,
    pub inner: Option<Box<NodeView>>,
}

/// Mathematical model of an `Amalgamate` node: attribute contents and the
/// ordered association list of field models.
pub struct NodeView {
    pub attrs: Seq<Seq<char>>,
    pub fields: Seq<(Seq<char>, FieldView)>,
}

pub open spec fn node_view(a: Amalgamate) -> NodeView
    decreases a,
{
    NodeView { attrs: a.attrs.0.deep_view(), fields: field_entries_view(a.fields.0@) }
}

pub open spec fn field_entries_view(s: Seq<(String, Field)>) -> Seq<(Seq<char>, FieldView)>
    decreases s,
{
    if s.len() == 0 {
        Seq::empty()
    } else {
        field_entries_view(s.drop_last()).push((s.last().0@, field_view(s.last().1)))
    }
}

pub open spec fn field_view(f: Field) -> FieldView
    decreases f,
{
    FieldView {
        attrs: f.attrs.0.deep_view(),
        inner: match f.inner {
            Some(n) => Some(Box::new(node_view(*n))),
            None => None,
        },
    }
}

impl View for Field {
    type V = FieldView;

    open spec fn view(&self) -> FieldView {
        field_view(*self)
    }
}

impl View for Amalgamate {
    type V = NodeView;

    open spec fn view(&self) -> NodeView {
        node_view(*self)
    }
}

impl View for Attributes {
    type V = Seq<Seq<char>>;

    open spec fn view(&self) -> Seq<Seq<char>> {
        self.0.deep_view()
    }
}

impl View for Fields {
    type V = Seq<(Seq<char>, FieldView)>;

    open spec fn view(&self) -> Seq<(Seq<char>, FieldView)> {
        field_entries_view(self.0@)
    }
}

/// The first field stored under `key`, if any; in every map the registry
/// builds, keys are unique and the first match is the only one.
pub open spec fn spec_field_lookup(s: Seq<(Seq<char>, FieldView)>, key: Seq<char>) -> Option<
    FieldView,
>
    decreases s.len(),
{
    if s.len() == 0 {
        None
    } else if s[0].0 == key {
        Some(s[0].1)
    } else {
        spec_field_lookup(s.drop_first(), key)
    }
}

pub proof fn lemma_field_lookup_at(s: Seq<(Seq<char>, FieldView)>, key: Seq<char>, i: int)
    requires
        0 <= i < s.len(),
        s[i].0 == key,
        forall|t: int| 0 <= t < i ==> (#[trigger] s[t]).0 != key,
    ensures
        spec_field_lookup(s, key) == Some(s[i].1),
    decreases i,
{
    if i > 0 {
        assert(s[0].0 != key);
        assert forall|t: int| 0 <= t < i - 1 implies (#[trigger] s.drop_first()[t]).0 != key by {
            assert(s.drop_first()[t] == s[t + 1]);
        }
        assert(s.drop_first()[i - 1] == s[i]);
        lemma_field_lookup_at(s.drop_first(), key, i - 1);
    }
}

pub proof fn lemma_field_lookup_none(s: Seq<(Seq<char>, FieldView)>, key: Seq<char>)
    requires
        forall|t: int| 0 <= t < s.len() ==> (#[trigger] s[t]).0 != key,
    ensures
        spec_field_lookup(s, key) is None,
    decreases s.len(),
{
    if s.len() > 0 {
        assert(s[0].0 != key);
        assert forall|t: int|
            0 <= t < s.drop_first().len() implies (#[trigger] s.drop_first()[t]).0 != key by {
            assert(s.drop_first()[t] == s[t + 1]);
        }
        lemma_field_lookup_none(s.drop_first(), key);
    }
}

pub proof fn lemma_field_entries_view_len(s: Seq<(String, Field)>)
    ensures
        field_entries_view(s).len() == s.len(),
    decreases s,
{
    if s.len() > 0 {
        lemma_field_entries_view_len(s.drop_last());
    }
}

pub proof fn lemma_field_entries_view_index(s: Seq<(String, Field)>, t: int)
    requires
        0 <= t < s.len(),
    ensures
        field_entries_view(s)[t] == (s[t].0@, field_view(s[t].1)),
    decreases s,
{
    lemma_field_entries_view_len(s);
    if t < s.len() - 1 {
        lemma_field_entries_view_len(s.drop_last());
        lemma_field_entries_view_index(s.drop_last(), t);
        assert(s.drop_last()[t] == s[t]);
    }
}

impl Attributes {
    /// How many attributes the list holds.
    pub fn len(&self) -> (n: usize)
        ensures
            n == self@.len(),
    {
        self.0.len()
    }

    /// The attribute at `index`, in declaration order.
    pub fn get(&self, index: usize) -> (r: Option<&String>)
        ensures
            match r {
                Some(a) => index < self@.len() && a@ == self@[index as int],
                None => index >= self@.len(),
            },
    {
        if index < self.0.len() {
            Some(&self.0[index])
        } else {
            None
        }
    }
}

impl Fields {
    /// How many fields the map holds.
    pub fn len(&self) -> (n: usize)
        ensures
            n == self@.len(),
    {
        proof {
            lemma_field_entries_view_len(self.0@);
        }
        self.0.len()
    }

    /// The identifier at position `index`, in declaration order.
    pub fn key_at(&self, index: usize) -> (r: &String)
        requires
            index < self@.len(),
        ensures
            r@ == self@[index as int].0,
    {
        proof {
            lemma_field_entries_view_len(self.0@);
            lemma_field_entries_view_index(self.0@, index as int);
        }
        &self.0[index].0
    }

    /// The field at position `index`, in declaration order.
    pub fn field_at(&self, index: usize) -> (r: &Field)
        requires
            index < self@.len(),
        ensures
            r@ == self@[index as int].1,
    {
        proof {
            lemma_field_entries_view_len(self.0@);
            lemma_field_entries_view_index(self.0@, index as int);
        }
        &self.0[index].1
    }

    /// Look a field up by its identifier.
    pub fn get(&self, k: &str) -> (r: Option<&Field>)
        ensures
            match r {
                Some(f) => spec_field_lookup(self@, k@) == Some(f@),
                None => spec_field_lookup(self@, k@) is None,
            },
    {
        let key: String = k.to_owned();
        proof {
            lemma_field_entries_view_len(self.0@);
        }
        let mut i: usize = 0;
        while i < self.0.len()
            invariant
                i <= self.0@.len(),
                key@ == k@,
                self@.len() == self.0@.len(),
                forall|t: int| 0 <= t < i ==> (#[trigger] self@[t]).0 != k@,
            decreases self.0@.len() - i,
        {
            proof {
                lemma_field_entries_view_index(self.0@, i as int);
            }
            if self.0[i].0 == key {
                proof {
                    lemma_field_lookup_at(self@, k@, i as int);
                }
                return Some(&self.0[i].1);
            }
            i += 1;
        }
        proof {
            lemma_field_lookup_none(self@, k@);
        }
        None
    }
}

} // verus!
