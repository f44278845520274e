//! The formatting collaborator: a pure, indented textual rendering of a
//! node. Each level prints its attributes one per line, then a header
//! line, then each field's attributes and identifier, recursing into
//! nested nodes at four more spaces of indentation.

use vstd::prelude::*;
use vstd::string::StringExecFns;

use crate::registry::{
    DirEntryView, RegFieldView, RegVariantView, RegKindView, spec_fields_nodes, spec_node_of,
    spec_variants_nodes,
};
use crate::types::{Amalgamate, Attributes, Field, Fields, FieldView, NodeView};

verus! {

/// A run of spaces.
pub open spec fn spaces(n: nat) -> Seq<char> {
    Seq::new(n, |i: int| ' ')
}

/// The rendering of an attribute list: each attribute on its own indented
/// line.
pub open spec fn spec_render_attrs(attrs: Seq<Seq<char>>, ind: nat) -> Seq<char>
    decreases attrs.len(),
{
    if attrs.len() == 0 {
        Seq::empty()
    } else {
        spec_render_attrs(attrs.drop_last(), ind) + spaces(ind) + attrs.last() + "\n"@
    }
}

/// The rendering of one node: its attributes, a header line, then its
/// fields at four more spaces.
pub open spec fn spec_render_node(n: NodeView, ind: nat) -> Seq<char>
    decreases n,
{
    spec_render_attrs(n.attrs, ind) + spaces(ind) + "amalgamate:\n"@ + spec_render_fields(
        n.fields,
        ind + 4,
    )
}

/// The rendering of a field map: per field its attributes, its identifier
/// line, and its nested node, if any, at four more spaces.
pub open spec fn spec_render_fields(s: Seq<(Seq<char>, FieldView)>, ind: nat) -> Seq<char>
    decreases s,
{
    if s.len() == 0 {
        Seq::empty()
    } else {
        spec_render_fields(s.drop_last(), ind) + spec_render_attrs(s.last().1.attrs, ind) + spaces(
            ind,
        ) + s.last().0 + ":\n"@ + (match s.last().1.inner {
            Some(b) => spec_render_node(*b, (ind + 4) as nat),
            None => Seq::empty(),
        })
    }
}

/// How deeply nodes nest below this node, this node included.
pub open spec fn node_height(n: NodeView) -> nat
    decreases n,
{
    1 + fields_height(n.fields)
}

/// The deepest nesting among the nested nodes of a field map.
pub open spec fn fields_height(s: Seq<(Seq<char>, FieldView)>) -> nat
    decreases s,
{
    if s.len() == 0 {
        0
    } else {
        let rest = fields_height(s.drop_last());
        let last = match s.last().1.inner {
            Some(b) => node_height(*b),
            None => 0,
        };
        if rest >= last {
            rest
        } else {
            last
        }
    }
}

/// A nested node never nests deeper than its field map.
pub proof fn lemma_fields_height_bound(s: Seq<(Seq<char>, FieldView)>, i: int)
    requires
        0 <= i < s.len(),
        s[i].1.inner is Some,
    ensures
        node_height(*s[i].1.inner->0) <= fields_height(s),
    decreases s.len(),
{
    if i == s.len() - 1 {
    } else {
        lemma_fields_height_bound(s.drop_last(), i);
        assert(s.drop_last()[i] == s[i]);
    }
}

/// Append `indentation` spaces.
pub fn indent(buf: &mut String, indentation: usize)
    ensures
        final(buf)@ == old(buf)@ + spaces(indentation as nat),
{
    let mut i: usize = 0;
    proof {
        assert(buf@ =~= old(buf)@ + spaces(0));
    }
    while i < indentation
        invariant
            i <= indentation,
            buf@ == old(buf)@ + spaces(i as nat),
        decreases indentation - i,
    {
        buf.append(" ");
        proof {
            reveal_strlit(" ");
            assert(buf@ =~= old(buf)@ + spaces((i + 1) as nat));
        }
        i += 1;
    }
}

/// Append the rendering of an attribute list.
pub fn debug_attrs(buf: &mut String, attrs: &Attributes, indentation: usize)
    ensures
        final(buf)@ == old(buf)@ + spec_render_attrs(attrs@, indentation as nat),
{
    let mut i: usize = 0;
    proof {
        assert(attrs@.take(0) =~= Seq::<Seq<char>>::empty());
        assert(buf@ =~= old(buf)@ + spec_render_attrs(attrs@.take(0), indentation as nat));
    }
    while i < attrs.len()
        invariant
            i <= attrs@.len(),
            buf@ == old(buf)@ + spec_render_attrs(attrs@.take(i as int), indentation as nat),
        decreases attrs@.len() - i,
    {
        indent(buf, indentation);
        match attrs.get(i) {
            Some(a) => {
                let s: &String = a;
                buf.append(s.as_str());
            },
            None => {},
        }
        buf.append("\n");
        proof {
            reveal_strlit("\n");
            assert(attrs@.take(i + 1).drop_last() =~= attrs@.take(i as int));
            assert(attrs@.take(i + 1).last() == attrs@[i as int]);
            assert(buf@ =~= old(buf)@ + spec_render_attrs(attrs@.take(i + 1), indentation as nat));
        }
        i += 1;
    }
    proof {
        assert(attrs@.take(attrs@.len() as int) =~= attrs@);
    }
}

/// Append the rendering of one node.
pub fn debug_amalgamate(buf: &mut String, amalgamate: &Amalgamate, indentation: usize)
    requires
        indentation + 8 * node_height(amalgamate@) <= usize::MAX,
    ensures
        final(buf)@ == old(buf)@ + spec_render_node(amalgamate@, indentation as nat),
    decreases node_height(amalgamate@), 0nat, 0nat,
{
    debug_attrs(buf, &amalgamate.attrs, indentation);
    indent(buf, indentation);
    buf.append("amalgamate:\n");
    debug_fields(buf, &amalgamate.fields, indentation + 4);
    proof {
        reveal_strlit("amalgamate:\n");
        assert(buf@ =~= old(buf)@ + spec_render_node(amalgamate@, indentation as nat));
    }
}

/// Append the rendering of a field map.
pub fn debug_fields(buf: &mut String, fields: &Fields, indentation: usize)
    requires
        indentation + 8 * fields_height(fields@) + 4 <= usize::MAX,
    ensures
        final(buf)@ == old(buf)@ + spec_render_fields(fields@, indentation as nat),
    decreases fields_height(fields@), 1nat, fields@.len(),
{
    let n = fields.len();
    let mut i: usize = 0;
    proof {
        assert(fields@.take(0) =~= Seq::<(Seq<char>, FieldView)>::empty());
        assert(buf@ =~= old(buf)@ + spec_render_fields(fields@.take(0), indentation as nat));
    }
    while i < n
        invariant
            i <= fields@.len(),
            n == fields@.len(),
            indentation + 8 * fields_height(fields@) + 4 <= usize::MAX,
            buf@ == old(buf)@ + spec_render_fields(fields@.take(i as int), indentation as nat),
        decreases fields@.len() - i,
    {
        let field: &Field = fields.field_at(i);
        debug_attrs(buf, &field.attrs, indentation);
        indent(buf, indentation);
        let key: &String = fields.key_at(i);
        buf.append(key.as_str());
        buf.append(":\n");
        match &field.inner {
            Some(rc) => {
                proof {
                    lemma_fields_height_bound(fields@, i as int);
                }
                let child: &Amalgamate = &*rc;
                debug_amalgamate(buf, child, indentation + 4);
            },
            None => {},
        }
        proof {
            reveal_strlit(":\n");
            assert(fields@.take(i + 1).drop_last() =~= fields@.take(i as int));
            assert(fields@.take(i + 1).last() == fields@[i as int]);
            assert(buf@ =~= old(buf)@ + spec_render_fields(fields@.take(i + 1), indentation as nat));
        }
        i += 1;
    }
    proof {
        assert(fields@.take(fields@.len() as int) =~= fields@);
    }
}

impl Amalgamate {
    /// The whole indented rendering of this node, from column zero.
    pub fn render(&self) -> (r: String)
        requires
            8 * node_height(self@) <= usize::MAX,
        ensures
            r@ == spec_render_node(self@, 0),
    {
        let mut buf = String::new();
        debug_amalgamate(&mut buf, self, 0);
        proof {
            assert(buf@ =~= spec_render_node(self@, 0));
        }
        buf
    }
}

/// Every node the directory produces nests only boundedly deep: position
/// `i` nests at most `2 * i + 2` levels.
pub proof fn lemma_node_height_le(dir: Seq<DirEntryView>, i: int)
    requires
        0 <= i,
    ensures
        node_height(spec_node_of(dir, i)) <= 2 * i + 2,
    decreases i, 3int, 0int,
{
    if i < dir.len() {
        match dir[i].kind {
            RegKindView::Fields(fs) => {
                lemma_fields_nodes_height(dir, i, fs);
            },
            RegKindView::Enum(vs) => {
                lemma_variants_nodes_height(dir, i, vs);
            },
            RegKindView::Transparent(j) => {
                if 0 <= j < i {
                    lemma_node_height_le(dir, j);
                }
            },
        }
    }
}

pub proof fn lemma_fields_nodes_height(dir: Seq<DirEntryView>, bound: int, fs: Seq<RegFieldView>)
    requires
        0 <= bound,
    ensures
        fields_height(spec_fields_nodes(dir, bound, fs)) <= 2 * bound,
    decreases bound, 1int, fs.len(),
{
    if fs.len() > 0 {
        lemma_fields_nodes_height(dir, bound, fs.drop_last());
        match fs.last().link {
            Some(j) => {
                if 0 <= j < bound {
                    lemma_node_height_le(dir, j);
                }
            },
            None => {},
        }
        assert(spec_fields_nodes(dir, bound, fs).drop_last() =~= spec_fields_nodes(
            dir,
            bound,
            fs.drop_last(),
        ));
    }
}

pub proof fn lemma_variants_nodes_height(
    dir: Seq<DirEntryView>,
    bound: int,
    vs: Seq<RegVariantView>,
)
    requires
        0 <= bound,
    ensures
        fields_height(spec_variants_nodes(dir, bound, vs)) <= 2 * bound + 1,
    decreases bound, 2int, vs.len(),
{
    if vs.len() > 0 {
        lemma_variants_nodes_height(dir, bound, vs.drop_last());
        let full = spec_variants_nodes(dir, bound, vs);
        assert(full.drop_last() =~= spec_variants_nodes(dir, bound, vs.drop_last()));
        if vs.last().fields.len() > 0 {
            lemma_fields_nodes_height(dir, bound, vs.last().fields);
            let inner = NodeView {
                attrs: Seq::empty(),
                fields: spec_fields_nodes(dir, bound, vs.last().fields),
            };
            assert(full.last().1.inner == Some(Box::new(inner)));
            assert(node_height(inner) <= 2 * bound + 1);
        } else {
            assert(full.last().1.inner is None);
        }
    }
}

} // verus!
