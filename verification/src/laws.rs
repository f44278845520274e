//! The library's laws, stated and proved over the registry's mathematical
//! model. Together with the engine's own contracts (every aggregation
//! result equals `spec_node_of` of the directory — a pure function — and
//! the cache clauses of `aggregate`), these pin down key fidelity, marker
//! stripping, and transparent pass-through for every registered type.

use vstd::prelude::*;

use crate::decl::{DeclView, ShapeView};
use crate::registry::{
    DirEntryView, RegFieldView, RegKindView, RegVariantView, attrs_clean, dir_clean, dir_wf,
    empty_node, fields_attrs_clean, kind_wf, lemma_kind_clean_enum_elem, spec_fields_nodes,
    spec_node_of, spec_variants_nodes, variants_attrs_clean,
};
use crate::types::{FieldView, NodeView};
use crate::validate::{
    KeyRule, spec_key_of, spec_validate_decl, spec_validate_fields, spec_validate_variants,
};

verus! {

/// No attribute of this node, of any of its fields, or of any node nested
/// below it is the aggregation marker.
pub open spec fn node_clean(n: NodeView) -> bool
    decreases n,
{
    attrs_clean(n.attrs) && fields_entries_clean(n.fields)
}

/// Cleanliness of a field map, every nested node included.
pub open spec fn fields_entries_clean(s: Seq<(Seq<char>, FieldView)>) -> bool
    decreases s,
{
    if s.len() == 0 {
        true
    } else {
        fields_entries_clean(s.drop_last()) && attrs_clean(s.last().1.attrs) && (match s.last().1.inner {
            Some(b) => node_clean(*b),
            None => true,
        })
    }
}

/// Marker stripping, over field maps: the maps built from clean stored
/// fields are clean, nested nodes included.
pub proof fn lemma_fields_nodes_clean(dir: Seq<DirEntryView>, bound: int, fs: Seq<RegFieldView>)
    requires
        dir_clean(dir),
        fields_attrs_clean(fs),
    ensures
        fields_entries_clean(spec_fields_nodes(dir, bound, fs)),
    decreases bound, 1int, fs.len(),
{
    if fs.len() > 0 {
        assert(fields_attrs_clean(fs.drop_last())) by {
            assert forall|k: int| 0 <= k < fs.drop_last().len() implies attrs_clean(
                (#[trigger] fs.drop_last()[k]).attrs,
            ) by {
                assert(fs.drop_last()[k] == fs[k]);
            }
        }
        lemma_fields_nodes_clean(dir, bound, fs.drop_last());
        match fs.last().link {
            Some(j) => {
                if 0 <= j < bound {
                    lemma_marker_stripping(dir, j);
                }
            },
            None => {},
        }
        assert(attrs_clean(fs[fs.len() - 1].attrs));
        assert(spec_fields_nodes(dir, bound, fs).drop_last() =~= spec_fields_nodes(
            dir,
            bound,
            fs.drop_last(),
        ));
    }
}

/// Marker stripping, over variant maps.
pub proof fn lemma_variants_nodes_clean(
    dir: Seq<DirEntryView>,
    bound: int,
    vs: Seq<RegVariantView>,
)
    requires
        dir_clean(dir),
        variants_attrs_clean(vs),
    ensures
        fields_entries_clean(spec_variants_nodes(dir, bound, vs)),
    decreases bound, 2int, vs.len(),
{
    if vs.len() > 0 {
        assert(variants_attrs_clean(vs.drop_last())) by {
            assert forall|k: int|
                0 <= k < vs.drop_last().len() implies attrs_clean(
                (#[trigger] vs.drop_last()[k]).attrs,
            ) && fields_attrs_clean(vs.drop_last()[k].fields) by {
                assert(vs.drop_last()[k] == vs[k]);
                lemma_kind_clean_enum_elem(vs, k);
            }
        }
        lemma_variants_nodes_clean(dir, bound, vs.drop_last());
        lemma_kind_clean_enum_elem(vs, vs.len() - 1);
        if vs.last().fields.len() > 0 {
            lemma_fields_nodes_clean(dir, bound, vs.last().fields);
            assert(node_clean(
                NodeView {
                    attrs: Seq::empty(),
                    fields: spec_fields_nodes(dir, bound, vs.last().fields),
                },
            ));
        }
        let full = spec_variants_nodes(dir, bound, vs);
        assert(full.drop_last() =~= spec_variants_nodes(dir, bound, vs.drop_last()));
        assert(full.last().1.attrs == vs.last().attrs);
        assert(fields_entries_clean(full));
    }
}

/// Marker stripping: the aggregation marker never appears in any attribute
/// list of any node the directory produces — not in the node's own
/// attributes, not in any field's, not in any nested node's.
pub proof fn lemma_marker_stripping(dir: Seq<DirEntryView>, i: int)
    requires
        dir_clean(dir),
    ensures
        node_clean(spec_node_of(dir, i)),
    decreases i, 3int, 0int,
{
    if 0 <= i < dir.len() {
        assert(attrs_clean(dir[i].attrs));
        match dir[i].kind {
            RegKindView::Fields(fs) => {
                lemma_fields_nodes_clean(dir, i, fs);
            },
            RegKindView::Enum(vs) => {
                lemma_variants_nodes_clean(dir, i, vs);
            },
            RegKindView::Transparent(j) => {
                if 0 <= j < i {
                    lemma_marker_stripping(dir, j);
                } else {
                    assert(node_clean(empty_node()));
                }
            },
        }
    } else {
        assert(node_clean(empty_node()));
    }
}

/// The field map built from stored fields carries their keys, in order.
pub proof fn lemma_fields_nodes_keys(dir: Seq<DirEntryView>, bound: int, fs: Seq<RegFieldView>)
    ensures
        spec_fields_nodes(dir, bound, fs).len() == fs.len(),
        forall|k: int|
            0 <= k < fs.len() ==> (#[trigger] spec_fields_nodes(dir, bound, fs)[k]).0
                == fs[k].key,
    decreases bound, 1int, fs.len(),
{
    if fs.len() > 0 {
        lemma_fields_nodes_keys(dir, bound, fs.drop_last());
        assert forall|k: int| 0 <= k < fs.len() implies (#[trigger] spec_fields_nodes(
            dir,
            bound,
            fs,
        )[k]).0 == fs[k].key by {
            if k < fs.len() - 1 {
                assert(spec_fields_nodes(dir, bound, fs)[k] == spec_fields_nodes(
                    dir,
                    bound,
                    fs.drop_last(),
                )[k]);
                assert(fs.drop_last()[k] == fs[k]);
            }
        }
    }
}

/// The variant map built from stored variants carries their names, in order.
pub proof fn lemma_variants_nodes_keys(
    dir: Seq<DirEntryView>,
    bound: int,
    vs: Seq<RegVariantView>,
)
    ensures
        spec_variants_nodes(dir, bound, vs).len() == vs.len(),
        forall|k: int|
            0 <= k < vs.len() ==> (#[trigger] spec_variants_nodes(dir, bound, vs)[k]).0
                == vs[k].name,
    decreases bound, 2int, vs.len(),
{
    if vs.len() > 0 {
        lemma_variants_nodes_keys(dir, bound, vs.drop_last());
        assert forall|k: int| 0 <= k < vs.len() implies (#[trigger] spec_variants_nodes(
            dir,
            bound,
            vs,
        )[k]).0 == vs[k].name by {
            if k < vs.len() - 1 {
                assert(spec_variants_nodes(dir, bound, vs)[k] == spec_variants_nodes(
                    dir,
                    bound,
                    vs.drop_last(),
                )[k]);
                assert(vs.drop_last()[k] == vs[k]);
            }
        }
    }
}

/// A validated field list keeps the declared identifiers: the stored key of
/// field `k` is its declared name, or its position rendered in decimal.
pub proof fn lemma_validate_fields_keys(
    dir: Seq<DirEntryView>,
    ty: Seq<char>,
    rule: KeyRule,
    fs: Seq<crate::decl::FieldDeclView>,
)
    requires
        spec_validate_fields(dir, ty, rule, fs) is Ok,
    ensures
        spec_validate_fields(dir, ty, rule, fs)->Ok_0.len() == fs.len(),
        forall|k: int|
            0 <= k < fs.len() ==> (#[trigger] spec_validate_fields(dir, ty, rule, fs)->Ok_0[k]).key
                == spec_key_of(fs[k], k),
    decreases fs.len(),
{
    if fs.len() > 0 {
        lemma_validate_fields_keys(dir, ty, rule, fs.drop_last());
        let acc = spec_validate_fields(dir, ty, rule, fs.drop_last())->Ok_0;
        let full = spec_validate_fields(dir, ty, rule, fs)->Ok_0;
        assert(full.drop_last() =~= acc);
        assert forall|k: int| 0 <= k < fs.len() implies (#[trigger] full[k]).key == spec_key_of(
            fs[k],
            k,
        ) by {
            if k < fs.len() - 1 {
                assert(full[k] == acc[k]);
                assert(fs.drop_last()[k] == fs[k]);
            } else {
                assert(full[k] == full.last());
            }
        }
    }
}

/// A validated variant list keeps the declared variant names.
pub proof fn lemma_validate_variants_names(
    dir: Seq<DirEntryView>,
    ty: Seq<char>,
    vs: Seq<crate::decl::VariantDeclView>,
)
    requires
        spec_validate_variants(dir, ty, vs) is Ok,
    ensures
        spec_validate_variants(dir, ty, vs)->Ok_0.len() == vs.len(),
        forall|k: int|
            0 <= k < vs.len() ==> (#[trigger] spec_validate_variants(dir, ty, vs)->Ok_0[k]).name
                == vs[k].name,
    decreases vs.len(),
{
    if vs.len() > 0 {
        lemma_validate_variants_names(dir, ty, vs.drop_last());
        let acc = spec_validate_variants(dir, ty, vs.drop_last())->Ok_0;
        let full = spec_validate_variants(dir, ty, vs)->Ok_0;
        assert(full.drop_last() =~= acc);
        assert forall|k: int| 0 <= k < vs.len() implies (#[trigger] full[k]).name == vs[k].name by {
            if k < vs.len() - 1 {
                assert(full[k] == acc[k]);
                assert(vs.drop_last()[k] == vs[k]);
            } else {
                assert(full[k] == full.last());
            }
        }
    }
}

/// Key fidelity: once a declaration is accepted, the field map of the node
/// it produces (at its position at the end of the directory) has exactly
/// the declared field or variant identifiers as keys, in declaration
/// order, with unnamed fields numbered by position.
pub proof fn lemma_key_fidelity(dir: Seq<DirEntryView>, d: DeclView)
    requires
        spec_validate_decl(dir, d) is Ok,
    ensures
        ({
            let e = spec_validate_decl(dir, d)->Ok_0;
            let n = spec_node_of(dir.push(e), dir.len() as int);
            match d.shape {
                ShapeView::Unit => n.fields.len() == 0,
                ShapeView::Tuple(fs) => n.fields.len() == fs.len() && forall|k: int|
                    0 <= k < fs.len() ==> (#[trigger] n.fields[k]).0 == spec_key_of(fs[k], k),
                ShapeView::Record(fs) => n.fields.len() == fs.len() && forall|k: int|
                    0 <= k < fs.len() ==> (#[trigger] n.fields[k]).0 == spec_key_of(fs[k], k),
                ShapeView::Union(fs) => n.fields.len() == fs.len() && forall|k: int|
                    0 <= k < fs.len() ==> (#[trigger] n.fields[k]).0 == spec_key_of(fs[k], k),
                ShapeView::Enum(vs) => n.fields.len() == vs.len() && forall|k: int|
                    0 <= k < vs.len() ==> (#[trigger] n.fields[k]).0 == vs[k].name,
            }
        }),
{
    let e = spec_validate_decl(dir, d)->Ok_0;
    let newdir = dir.push(e);
    let i = dir.len() as int;
    assert(newdir[i] == e);
    let n = spec_node_of(newdir, i);
    match d.shape {
        ShapeView::Unit => {
            assert(e.kind == RegKindView::Fields(Seq::<RegFieldView>::empty()));
            assert(n.fields == spec_fields_nodes(newdir, i, Seq::<RegFieldView>::empty()));
        },
        ShapeView::Tuple(fs) => {
            lemma_validate_fields_keys(dir, d.name, KeyRule::RequirePositional, fs);
            let acc = spec_validate_fields(dir, d.name, KeyRule::RequirePositional, fs)->Ok_0;
            assert(e.kind == RegKindView::Fields(acc));
            assert(n.fields == spec_fields_nodes(newdir, i, acc));
            lemma_fields_nodes_keys(newdir, i, acc);
        },
        ShapeView::Record(fs) => {
            lemma_validate_fields_keys(dir, d.name, KeyRule::RequireNamed, fs);
            let acc = spec_validate_fields(dir, d.name, KeyRule::RequireNamed, fs)->Ok_0;
            assert(e.kind == RegKindView::Fields(acc));
            assert(n.fields == spec_fields_nodes(newdir, i, acc));
            lemma_fields_nodes_keys(newdir, i, acc);
        },
        ShapeView::Union(fs) => {
            lemma_validate_fields_keys(dir, d.name, KeyRule::RequireNamed, fs);
            let acc = spec_validate_fields(dir, d.name, KeyRule::RequireNamed, fs)->Ok_0;
            assert(e.kind == RegKindView::Fields(acc));
            assert(n.fields == spec_fields_nodes(newdir, i, acc));
            lemma_fields_nodes_keys(newdir, i, acc);
        },
        ShapeView::Enum(vs) => {
            lemma_validate_variants_names(dir, d.name, vs);
            let acc = spec_validate_variants(dir, d.name, vs)->Ok_0;
            assert(e.kind == RegKindView::Enum(acc));
            assert(n.fields == spec_variants_nodes(newdir, i, acc));
            lemma_variants_nodes_keys(newdir, i, acc);
        },
    }
}

/// Determinism: the node an entry produces is a function of the directory
/// alone. Two registries whose directories agree — however they were
/// populated, and whatever their caches hold — produce structurally
/// identical nodes for every position; the engine's own contract ties
/// every aggregation result to this function.
pub proof fn lemma_build_deterministic(dir1: Seq<DirEntryView>, dir2: Seq<DirEntryView>, i: int)
    requires
        dir1 == dir2,
    ensures
        spec_node_of(dir1, i) == spec_node_of(dir2, i),
{
}

/// Transparent pass-through: a wrapper entry produces exactly the node of
/// the type it forwards to — no wrapping node, no added attributes.
pub proof fn lemma_transparent_pass_through(dir: Seq<DirEntryView>, i: int)
    requires
        dir_wf(dir),
        0 <= i < dir.len(),
        dir[i].kind is Transparent,
    ensures
        spec_node_of(dir, i) == spec_node_of(dir, dir[i].kind->Transparent_0),
{
    assert(kind_wf(i, dir[i].kind));
}

} // verus!
