//! The field classifier: inspects one field's (or variant's, or the type's
//! own) raw attribute list, decides whether the aggregation marker is
//! present, and produces the cleaned list with every marker occurrence
//! stripped and everything else kept in declaration order.

use vstd::prelude::*;

verus! {

/// The reserved marker attribute. An attribute whose content is exactly this
/// word requests aggregation for the field it is attached to; it is stripped
/// from every attribute list before the list reaches the output tree.
pub open spec fn marker() -> Seq<char> {
    "aggregate"@
}

/// Whether some attribute in the list is the aggregation marker.
pub open spec fn spec_is_marked(attrs: Seq<Seq<char>>) -> bool {
    exists|i: int| 0 <= i < attrs.len() && attrs[i] == marker()
}

/// The attribute list with every occurrence of the aggregation marker
/// removed; all other attributes pass through unchanged, order preserved.
pub open spec fn spec_cleaned(attrs: Seq<Seq<char>>) -> Seq<Seq<char>>
    decreases attrs,
{
    if attrs.len() == 0 {
        Seq::empty()
    } else if attrs.last() == marker() {
        spec_cleaned(attrs.drop_last())
    } else {
        spec_cleaned(attrs.drop_last()).push(attrs.last())
    }
}

/// The marker never survives cleaning.
pub proof fn lemma_cleaned_has_no_marker(attrs: Seq<Seq<char>>)
    ensures
        forall|i: int|
            0 <= i < spec_cleaned(attrs).len() ==> spec_cleaned(attrs)[i] != marker(),
    decreases attrs,
{
    if attrs.len() > 0 {
        lemma_cleaned_has_no_marker(attrs.drop_last());
        if attrs.last() != marker() {
            assert forall|i: int| 0 <= i < spec_cleaned(attrs).len() implies spec_cleaned(
                attrs,
            )[i] != marker() by {
                if i < spec_cleaned(attrs.drop_last()).len() {
                    assert(spec_cleaned(attrs)[i] == spec_cleaned(attrs.drop_last())[i]);
                } else {
                    assert(spec_cleaned(attrs)[i] == attrs.last());
                }
            }
        }
    }
}

/// Classify one attribute list: report aggregation intent and return the
/// cleaned list.
pub fn classify_attrs(attrs: &Vec<String>) -> (r: (bool, Vec<String>))
    ensures
        r.0 == spec_is_marked(attrs.deep_view()),
        r.1.deep_view() == spec_cleaned(attrs.deep_view()),
{
    let m: String = "aggregate".to_owned();
    let mut marked = false;
    let mut cleaned: Vec<String> = Vec::new();
    let mut i: usize = 0;
    while i < attrs.len()
        invariant
            i <= attrs.len(),
            m@ == marker(),
            marked == spec_is_marked(attrs.deep_view().take(i as int)),
            cleaned.deep_view() == spec_cleaned(attrs.deep_view().take(i as int)),
        decreases attrs.len() - i,
    {
        proof {
            assert(attrs.deep_view().take(i + 1).drop_last() =~= attrs.deep_view().take(
                i as int,
            ));
            assert(attrs.deep_view().take(i + 1).last() == attrs@[i as int].deep_view());
        }
        let ghost prefix = attrs.deep_view().take(i as int);
        let ghost prefix1 = attrs.deep_view().take(i + 1);
        if attrs[i] == m {
            marked = true;
            proof {
                assert(prefix1[i as int] == marker());
                assert(spec_is_marked(prefix1));
            }
        } else {
            cleaned.push(attrs[i].clone());
            proof {
                assert(cleaned.deep_view() =~= spec_cleaned(prefix).push(
                    attrs@[i as int].deep_view(),
                ));
                assert forall|j: int| 0 <= j < prefix1.len() && prefix1[j] == marker()
                    implies spec_is_marked(prefix) by {
                    assert(j < prefix.len() && prefix[j] == marker());
                }
                assert(spec_is_marked(prefix1) == spec_is_marked(prefix));
            }
        }
        i += 1;
    }
    proof {
        assert(attrs.deep_view().take(attrs@.len() as int) =~= attrs.deep_view());
    }
    (marked, cleaned)
}

} // verus!
