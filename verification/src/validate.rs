//! Validation: the tree-builder front half. A declaration descriptor is
//! checked and lowered to a stored entry at registration time — attributes
//! cleaned, every field and variant given its final map key, duplicate
//! identifiers and naming-rule breaches rejected, and every aggregation
//! marker resolved to the registry position of its target type. Because a
//! target must already be registered, every stored link points at an
//! earlier entry and the aggregation graph is acyclic by construction.

use vstd::prelude::*;

use crate::classify::{classify_attrs, lemma_cleaned_has_no_marker, spec_cleaned, spec_is_marked};
use crate::decl::{
    DeclDescriptor, DeclView, FieldDeclView, RegisterError, RegisterErrorView, ShapeView,
    VariantDeclView, field_decls_view,
};
use crate::keys::{fmt_index, spec_udec};
use crate::registry::{
    DirEntryView, RegEntry, RegField, RegFieldView, RegKind, RegKindView, RegVariant,
    RegVariantView, Registry, attrs_clean, field_keys_unique, field_links_wf,
    fields_attrs_clean, kind_clean, reg_fields_view, reg_variants_view, spec_lookup,
    variants_wf,
};

verus! {

/// Which identifiers a context admits: record and union fields must be
/// named, tuple fields must be positional, and an enum variant's own fields
/// take each field's declared name or, failing that, its position.
#[derive(Clone, Copy)]
pub enum KeyRule {
    RequireNamed,
    RequirePositional,
    Either,
}

/// The final map key of one field: its declared name, or its position
/// rendered in decimal.
pub open spec fn spec_key_of(f: FieldDeclView, pos: int) -> Seq<char> {
    match f.name {
        Some(n) => n,
        None => spec_udec(pos as nat),
    }
}

/// Validate and lower a field list, left to right. The first offence wins:
/// for each field, first the naming rule of the context, then key
/// uniqueness, then — for a marked field — resolution of its declared type
/// against the directory.
pub open spec fn spec_validate_fields(
    dir: Seq<DirEntryView>,
    ty: Seq<char>,
    rule: KeyRule,
    fs: Seq<FieldDeclView>,
) -> Result<Seq<RegFieldView>, RegisterErrorView>
    decreases fs.len(),
{
    if fs.len() == 0 {
        Ok(Seq::empty())
    } else {
        match spec_validate_fields(dir, ty, rule, fs.drop_last()) {
            Err(e) => Err(e),
            Ok(acc) => {
                let f = fs.last();
                let pos = fs.len() - 1;
                if (rule is RequireNamed && f.name is None) {
                    Err(
                        RegisterErrorView::UnsupportedShape {
                            ty,
                            ident: spec_udec(pos as nat),
                        },
                    )
                } else if (rule is RequirePositional && f.name is Some) {
                    Err(RegisterErrorView::UnsupportedShape { ty, ident: f.name->0 })
                } else {
                    let key = spec_key_of(f, pos);
                    if exists|t: int| 0 <= t < acc.len() && (#[trigger] acc[t]).key == key {
                        Err(RegisterErrorView::DuplicateIdentifier { ty, ident: key })
                    } else if spec_is_marked(f.attrs) {
                        match f.ty {
                            None => Err(
                                RegisterErrorView::NotCapable { ty, field: key, target: None },
                            ),
                            Some(t) => match spec_lookup(dir, t) {
                                None => Err(
                                    RegisterErrorView::NotCapable {
                                        ty,
                                        field: key,
                                        target: Some(t),
                                    },
                                ),
                                Some(j) => Ok(
                                    acc.push(
                                        RegFieldView {
                                            key,
                                            attrs: spec_cleaned(f.attrs),
                                            link: Some(j),
                                        },
                                    ),
                                ),
                            },
                        }
                    } else {
                        Ok(
                            acc.push(
                                RegFieldView { key, attrs: spec_cleaned(f.attrs), link: None },
                            ),
                        )
                    }
                }
            },
        }
    }
}

/// Validate and lower an enum's variants, left to right: variant names must
/// be unique, and each variant's own fields are validated as a standalone
/// anonymous field list.
pub open spec fn spec_validate_variants(
    dir: Seq<DirEntryView>,
    ty: Seq<char>,
    vs: Seq<VariantDeclView>,
) -> Result<Seq<RegVariantView>, RegisterErrorView>
    decreases vs.len(),
{
    if vs.len() == 0 {
        Ok(Seq::empty())
    } else {
        match spec_validate_variants(dir, ty, vs.drop_last()) {
            Err(e) => Err(e),
            Ok(acc) => {
                let v = vs.last();
                if exists|t: int| 0 <= t < acc.len() && (#[trigger] acc[t]).name == v.name {
                    Err(RegisterErrorView::DuplicateIdentifier { ty, ident: v.name })
                } else {
                    match spec_validate_fields(dir, ty, KeyRule::Either, v.fields) {
                        Err(e) => Err(e),
                        Ok(fr) => Ok(
                            acc.push(
                                RegVariantView {
                                    name: v.name,
                                    attrs: spec_cleaned(v.attrs),
                                    fields: fr,
                                },
                            ),
                        ),
                    }
                }
            },
        }
    }
}

/// Validate and lower one declaration descriptor against the directory.
pub open spec fn spec_validate_decl(dir: Seq<DirEntryView>, d: DeclView) -> Result<
    DirEntryView,
    RegisterErrorView,
> {
    if spec_lookup(dir, d.name) is Some {
        Err(RegisterErrorView::DuplicateType { ty: d.name })
    } else {
        let attrs = spec_cleaned(d.attrs);
        match d.shape {
            ShapeView::Unit => Ok(
                DirEntryView { name: d.name, attrs, kind: RegKindView::Fields(Seq::empty()) },
            ),
            ShapeView::Tuple(fs) => match spec_validate_fields(
                dir,
                d.name,
                KeyRule::RequirePositional,
                fs,
            ) {
                Err(e) => Err(e),
                Ok(r) => Ok(DirEntryView { name: d.name, attrs, kind: RegKindView::Fields(r) }),
            },
            ShapeView::Record(fs) => match spec_validate_fields(
                dir,
                d.name,
                KeyRule::RequireNamed,
                fs,
            ) {
                Err(e) => Err(e),
                Ok(r) => Ok(DirEntryView { name: d.name, attrs, kind: RegKindView::Fields(r) }),
            },
            ShapeView::Union(fs) => match spec_validate_fields(
                dir,
                d.name,
                KeyRule::RequireNamed,
                fs,
            ) {
                Err(e) => Err(e),
                Ok(r) => Ok(DirEntryView { name: d.name, attrs, kind: RegKindView::Fields(r) }),
            },
            ShapeView::Enum(vs) => match spec_validate_variants(dir, d.name, vs) {
                Err(e) => Err(e),
                Ok(r) => Ok(DirEntryView { name: d.name, attrs, kind: RegKindView::Enum(r) }),
            },
        }
    }
}

/// Validate a transparent-wrapper registration: the wrapper's name must be
/// fresh and the wrapped type already registered.
pub open spec fn spec_validate_transparent(
    dir: Seq<DirEntryView>,
    name: Seq<char>,
    target: Seq<char>,
) -> Result<DirEntryView, RegisterErrorView> {
    if spec_lookup(dir, name) is Some {
        Err(RegisterErrorView::DuplicateType { ty: name })
    } else {
        match spec_lookup(dir, target) {
            None => Err(RegisterErrorView::UnknownTarget { ty: name, target }),
            Some(j) => Ok(
                DirEntryView {
                    name,
                    attrs: Seq::empty(),
                    kind: RegKindView::Transparent(j),
                },
            ),
        }
    }
}

/// An error on a prefix settles the whole list.
pub proof fn lemma_validate_fields_err_ext(
    dir: Seq<DirEntryView>,
    ty: Seq<char>,
    rule: KeyRule,
    fs: Seq<FieldDeclView>,
    m: int,
)
    requires
        0 <= m <= fs.len(),
        spec_validate_fields(dir, ty, rule, fs.take(m)) is Err,
    ensures
        spec_validate_fields(dir, ty, rule, fs) == spec_validate_fields(
            dir,
            ty,
            rule,
            fs.take(m),
        ),
    decreases fs.len() - m,
{
    if m == fs.len() {
        assert(fs.take(m) =~= fs);
    } else {
        assert(fs.take(m + 1).drop_last() =~= fs.take(m));
        lemma_validate_fields_err_ext(dir, ty, rule, fs, m + 1);
    }
}

/// An error on a variant prefix settles the whole list.
pub proof fn lemma_validate_variants_err_ext(
    dir: Seq<DirEntryView>,
    ty: Seq<char>,
    vs: Seq<VariantDeclView>,
    m: int,
)
    requires
        0 <= m <= vs.len(),
        spec_validate_variants(dir, ty, vs.take(m)) is Err,
    ensures
        spec_validate_variants(dir, ty, vs) == spec_validate_variants(dir, ty, vs.take(m)),
    decreases vs.len() - m,
{
    if m == vs.len() {
        assert(vs.take(m) =~= vs);
    } else {
        assert(vs.take(m + 1).drop_last() =~= vs.take(m));
        lemma_validate_variants_err_ext(dir, ty, vs, m + 1);
    }
}

/// A successfully validated field list is well-formed: keys unique, every
/// link resolved strictly below the directory length.
pub proof fn lemma_validate_fields_ok_wf(
    dir: Seq<DirEntryView>,
    ty: Seq<char>,
    rule: KeyRule,
    fs: Seq<FieldDeclView>,
)
    requires
        spec_validate_fields(dir, ty, rule, fs) is Ok,
    ensures
        field_keys_unique(spec_validate_fields(dir, ty, rule, fs)->Ok_0),
        field_links_wf(dir.len() as int, spec_validate_fields(dir, ty, rule, fs)->Ok_0),
        fields_attrs_clean(spec_validate_fields(dir, ty, rule, fs)->Ok_0),
    decreases fs.len(),
{
    if fs.len() > 0 {
        lemma_validate_fields_ok_wf(dir, ty, rule, fs.drop_last());
        let acc = spec_validate_fields(dir, ty, rule, fs.drop_last())->Ok_0;
        let full = spec_validate_fields(dir, ty, rule, fs)->Ok_0;
        assert(full.drop_last() =~= acc);
        lemma_cleaned_has_no_marker(fs.last().attrs);
        assert forall|k: int| 0 <= k < full.len() implies attrs_clean(
            (#[trigger] full[k]).attrs,
        ) by {
            if k < acc.len() {
                assert(full[k] == acc[k]);
            } else {
                assert(full[k] == full.last());
            }
        }
    }
}

/// A successfully validated variant list is well-formed.
pub proof fn lemma_validate_variants_ok_wf(
    dir: Seq<DirEntryView>,
    ty: Seq<char>,
    vs: Seq<VariantDeclView>,
)
    requires
        spec_validate_variants(dir, ty, vs) is Ok,
    ensures
        variants_wf(dir.len() as int, spec_validate_variants(dir, ty, vs)->Ok_0),
        kind_clean(RegKindView::Enum(spec_validate_variants(dir, ty, vs)->Ok_0)),
    decreases vs.len(),
{
    if vs.len() > 0 {
        lemma_validate_variants_ok_wf(dir, ty, vs.drop_last());
        let acc = spec_validate_variants(dir, ty, vs.drop_last())->Ok_0;
        let full = spec_validate_variants(dir, ty, vs)->Ok_0;
        assert(full.drop_last() =~= acc);
        lemma_validate_fields_ok_wf(dir, ty, KeyRule::Either, vs.last().fields);
        lemma_cleaned_has_no_marker(vs.last().attrs);
        assert forall|t: int|
            0 <= t < full.len() implies attrs_clean((#[trigger] full[t]).attrs)
            && fields_attrs_clean(full[t].fields) by {
            if t < acc.len() {
                assert(full[t] == acc[t]);
                crate::registry::lemma_kind_clean_enum_elem(acc, t);
            } else {
                let fr = spec_validate_fields(dir, ty, KeyRule::Either, vs.last().fields)->Ok_0;
                assert(full == acc.push(
                    RegVariantView {
                        name: vs.last().name,
                        attrs: spec_cleaned(vs.last().attrs),
                        fields: fr,
                    },
                ));
                assert(full[t] == full.last());
            }
        }
    }
}

fn key_in_regfields(acc: &Vec<RegField>, key: &String) -> (b: bool)
    ensures
        b == exists|t: int|
            0 <= t < reg_fields_view(acc@).len() && (#[trigger] reg_fields_view(acc@)[t]).key
                == key@,
{
    let mut i: usize = 0;
    while i < acc.len()
        invariant
            i <= acc@.len(),
            forall|t: int| 0 <= t < i ==> (#[trigger] reg_fields_view(acc@)[t]).key != key@,
        decreases acc@.len() - i,
    {
        if acc[i].key == *key {
            proof {
                assert(reg_fields_view(acc@)[i as int].key == key@);
            }
            return true;
        }
        i += 1;
    }
    false
}

fn name_in_regvariants(acc: &Vec<RegVariant>, name: &String) -> (b: bool)
    ensures
        b == exists|t: int|
            0 <= t < reg_variants_view(acc@).len() && (#[trigger] reg_variants_view(acc@)[t]).name
                == name@,
{
    let mut i: usize = 0;
    while i < acc.len()
        invariant
            i <= acc@.len(),
            forall|t: int| 0 <= t < i ==> (#[trigger] reg_variants_view(acc@)[t]).name != name@,
        decreases acc@.len() - i,
    {
        if acc[i].name == *name {
            proof {
                assert(reg_variants_view(acc@)[i as int].name == name@);
            }
            return true;
        }
        i += 1;
    }
    false
}

impl Registry {
    fn validate_fields(&self, ty: &String, rule: KeyRule, fs: &Vec<crate::decl::FieldDecl>) -> (r:
        Result<Vec<RegField>, RegisterError>)
        requires
            self.wf(),
        ensures
            match r {
                Ok(v) => spec_validate_fields(self.dir(), ty@, rule, field_decls_view(fs@)) == Ok::<
                    Seq<RegFieldView>,
                    RegisterErrorView,
                >(reg_fields_view(v@)),
                Err(e) => spec_validate_fields(self.dir(), ty@, rule, field_decls_view(fs@))
                    == Err::<Seq<RegFieldView>, RegisterErrorView>(e@),
            },
    {
        let ghost fsv = field_decls_view(fs@);
        let ghost dir = self.dir();
        let mut acc: Vec<RegField> = Vec::new();
        let mut k: usize = 0;
        proof {
            assert(fsv.take(0) =~= Seq::<FieldDeclView>::empty());
            assert(reg_fields_view(acc@) =~= Seq::<RegFieldView>::empty());
        }
        while k < fs.len()
            invariant
                self.wf(),
                dir == self.dir(),
                fsv == field_decls_view(fs@),
                k <= fs@.len(),
                fsv.len() == fs@.len(),
                spec_validate_fields(dir, ty@, rule, fsv.take(k as int)) == Ok::<
                    Seq<RegFieldView>,
                    RegisterErrorView,
                >(reg_fields_view(acc@)),
            decreases fs@.len() - k,
        {
            proof {
                assert(fsv.take(k + 1).drop_last() =~= fsv.take(k as int));
                assert(fsv.take(k + 1).last() == fsv[k as int]);
                assert(fsv[k as int] == fs@[k as int]@);
            }
            let ghost accv = reg_fields_view(acc@);
            let f = &fs[k];
            match rule {
                KeyRule::RequireNamed => {
                    if f.name.is_none() {
                        let e = RegisterError::UnsupportedShape {
                            ty: ty.clone(),
                            ident: fmt_index(k),
                        };
                        proof {
                            lemma_validate_fields_err_ext(dir, ty@, rule, fsv, k + 1);
                        }
                        return Err(e);
                    }
                },
                KeyRule::RequirePositional => {
                    if let Some(n) = &f.name {
                        let e = RegisterError::UnsupportedShape {
                            ty: ty.clone(),
                            ident: n.clone(),
                        };
                        proof {
                            lemma_validate_fields_err_ext(dir, ty@, rule, fsv, k + 1);
                        }
                        return Err(e);
                    }
                },
                KeyRule::Either => {},
            }
            let key: String = match &f.name {
                Some(n) => n.clone(),
                None => fmt_index(k),
            };
            if key_in_regfields(&acc, &key) {
                let e = RegisterError::DuplicateIdentifier { ty: ty.clone(), ident: key };
                proof {
                    lemma_validate_fields_err_ext(dir, ty@, rule, fsv, k + 1);
                }
                return Err(e);
            }
            let (marked, cleaned) = classify_attrs(&f.attrs);
            let link: Option<usize> = if marked {
                match &f.ty {
                    None => {
                        let e = RegisterError::NotCapable {
                            ty: ty.clone(),
                            field: key,
                            target: None,
                        };
                        proof {
                            lemma_validate_fields_err_ext(dir, ty@, rule, fsv, k + 1);
                        }
                        return Err(e);
                    },
                    Some(t) => match self.find_index(t.as_str()) {
                        None => {
                            let e = RegisterError::NotCapable {
                                ty: ty.clone(),
                                field: key,
                                target: Some(t.clone()),
                            };
                            proof {
                                lemma_validate_fields_err_ext(dir, ty@, rule, fsv, k + 1);
                            }
                            return Err(e);
                        },
                        Some(j) => Some(j),
                    },
                }
            } else {
                None
            };
            acc.push(RegField { key, attrs: cleaned, link });
            proof {
                assert(reg_fields_view(acc@) =~= accv.push(acc@.last()@));
            }
            k += 1;
        }
        proof {
            assert(fsv.take(fs@.len() as int) =~= fsv);
        }
        Ok(acc)
    }

    fn validate_variants(&self, ty: &String, vs: &Vec<crate::decl::VariantDecl>) -> (r: Result<
        Vec<RegVariant>,
        RegisterError,
    >)
        requires
            self.wf(),
        ensures
            match r {
                Ok(v) => spec_validate_variants(
                    self.dir(),
                    ty@,
                    crate::decl::variant_decls_view(vs@),
                ) == Ok::<Seq<RegVariantView>, RegisterErrorView>(reg_variants_view(v@)),
                Err(e) => spec_validate_variants(
                    self.dir(),
                    ty@,
                    crate::decl::variant_decls_view(vs@),
                ) == Err::<Seq<RegVariantView>, RegisterErrorView>(e@),
            },
    {
        let ghost vsv = crate::decl::variant_decls_view(vs@);
        let ghost dir = self.dir();
        let mut acc: Vec<RegVariant> = Vec::new();
        let mut k: usize = 0;
        proof {
            assert(vsv.take(0) =~= Seq::<VariantDeclView>::empty());
            assert(reg_variants_view(acc@) =~= Seq::<RegVariantView>::empty());
        }
        while k < vs.len()
            invariant
                self.wf(),
                dir == self.dir(),
                vsv == crate::decl::variant_decls_view(vs@),
                k <= vs@.len(),
                vsv.len() == vs@.len(),
                spec_validate_variants(dir, ty@, vsv.take(k as int)) == Ok::<
                    Seq<RegVariantView>,
                    RegisterErrorView,
                >(reg_variants_view(acc@)),
            decreases vs@.len() - k,
        {
            proof {
                assert(vsv.take(k + 1).drop_last() =~= vsv.take(k as int));
                assert(vsv.take(k + 1).last() == vsv[k as int]);
                assert(vsv[k as int] == vs@[k as int]@);
            }
            let ghost accv = reg_variants_view(acc@);
            let v = &vs[k];
            if name_in_regvariants(&acc, &v.name) {
                let e = RegisterError::DuplicateIdentifier { ty: ty.clone(), ident: v.name.clone() };
                proof {
                    lemma_validate_variants_err_ext(dir, ty@, vsv, k + 1);
                }
                return Err(e);
            }
            let fr = match self.validate_fields(ty, KeyRule::Either, &v.fields) {
                Ok(x) => x,
                Err(e) => {
                    proof {
                        lemma_validate_variants_err_ext(dir, ty@, vsv, k + 1);
                    }
                    return Err(e);
                },
            };
            let (_, vattrs) = classify_attrs(&v.attrs);
            acc.push(RegVariant { name: v.name.clone(), attrs: vattrs, fields: fr });
            proof {
                assert(reg_variants_view(acc@) =~= accv.push(acc@.last()@));
            }
            k += 1;
        }
        proof {
            assert(vsv.take(vs@.len() as int) =~= vsv);
        }
        Ok(acc)
    }

    /// Register one declaration descriptor. On success the validated entry
    /// is appended to the directory; every error is reported here, as early
    /// as possible, and leaves the registry unchanged.
    pub fn register(&mut self, d: &DeclDescriptor) -> (r: Result<(), RegisterError>)
        requires
            old(self).wf(),
        ensures
            final(self).wf(),
            match spec_validate_decl(old(self).dir(), d@) {
                Ok(e) => {
                    &&& r is Ok
                    &&& final(self).dir() == old(self).dir().push(e)
                    &&& final(self).build_count() == old(self).build_count()
                    &&& forall|i: int|
                        0 <= i < old(self).dir().len() ==> final(self).slot(i) == old(self).slot(i)
                    &&& final(self).slot(old(self).dir().len() as int) is None
                },
                Err(ev) => {
                    &&& r matches Err(er) && er@ == ev
                    &&& *final(self) == *old(self)
                },
            },
    {
        let ghost dir = self.dir();
        let ghost dv = d@;
        if let Some(_) = self.find_index(d.name.as_str()) {
            return Err(RegisterError::DuplicateType { ty: d.name.clone() });
        }
        let kind: RegKind = match &d.shape {
            crate::decl::TypeShape::Unit => {
                let k = RegKind::Fields(Vec::new());
                proof {
                    assert(reg_fields_view(Seq::<RegField>::empty()) =~= Seq::<
                        RegFieldView,
                    >::empty());
                }
                k
            },
            crate::decl::TypeShape::Tuple(fs) => {
                match self.validate_fields(&d.name, KeyRule::RequirePositional, fs) {
                    Ok(v) => RegKind::Fields(v),
                    Err(e) => {
                        return Err(e);
                    },
                }
            },
            crate::decl::TypeShape::Record(fs) => {
                match self.validate_fields(&d.name, KeyRule::RequireNamed, fs) {
                    Ok(v) => RegKind::Fields(v),
                    Err(e) => {
                        return Err(e);
                    },
                }
            },
            crate::decl::TypeShape::Union(fs) => {
                match self.validate_fields(&d.name, KeyRule::RequireNamed, fs) {
                    Ok(v) => RegKind::Fields(v),
                    Err(e) => {
                        return Err(e);
                    },
                }
            },
            crate::decl::TypeShape::Enum(vs) => {
                match self.validate_variants(&d.name, vs) {
                    Ok(v) => RegKind::Enum(v),
                    Err(e) => {
                        return Err(e);
                    },
                }
            },
        };
        let (_, tattrs) = classify_attrs(&d.attrs);
        let entry = RegEntry { name: d.name.clone(), attrs: tattrs, kind, slot: None };
        let ghost ev = entry@;
        proof {
            assert(spec_validate_decl(dir, dv) == Ok::<DirEntryView, RegisterErrorView>(ev));
            match dv.shape {
                ShapeView::Unit => {},
                ShapeView::Tuple(fsv) => {
                    lemma_validate_fields_ok_wf(dir, dv.name, KeyRule::RequirePositional, fsv);
                },
                ShapeView::Record(fsv) => {
                    lemma_validate_fields_ok_wf(dir, dv.name, KeyRule::RequireNamed, fsv);
                },
                ShapeView::Union(fsv) => {
                    lemma_validate_fields_ok_wf(dir, dv.name, KeyRule::RequireNamed, fsv);
                },
                ShapeView::Enum(vsv) => {
                    lemma_validate_variants_ok_wf(dir, dv.name, vsv);
                },
            }
            lemma_cleaned_has_no_marker(dv.attrs);
            assert(attrs_clean(ev.attrs));
            assert(kind_clean(ev.kind));
        }
        self.push_validated(entry);
        Ok(())
    }

    /// Register a transparent wrapper: requests for `name` forward to the
    /// node of the already-registered `target`.
    pub fn register_transparent(&mut self, name: &str, target: &str) -> (r: Result<
        (),
        RegisterError,
    >)
        requires
            old(self).wf(),
        ensures
            final(self).wf(),
            match spec_validate_transparent(old(self).dir(), name@, target@) {
                Ok(e) => {
                    &&& r is Ok
                    &&& final(self).dir() == old(self).dir().push(e)
                    &&& final(self).build_count() == old(self).build_count()
                    &&& forall|i: int|
                        0 <= i < old(self).dir().len() ==> final(self).slot(i) == old(self).slot(i)
                    &&& final(self).slot(old(self).dir().len() as int) is None
                },
                Err(ev) => {
                    &&& r matches Err(er) && er@ == ev
                    &&& *final(self) == *old(self)
                },
            },
    {
        if let Some(_) = self.find_index(name) {
            return Err(RegisterError::DuplicateType { ty: name.to_owned() });
        }
        let j = match self.find_index(target) {
            Some(j) => j,
            None => {
                return Err(
                    RegisterError::UnknownTarget { ty: name.to_owned(), target: target.to_owned() },
                );
            },
        };
        let entry = RegEntry {
            name: name.to_owned(),
            attrs: Vec::new(),
            kind: RegKind::Transparent(j),
            slot: None,
        };
        proof {
            assert(entry@.attrs =~= Seq::<Seq<char>>::empty());
        }
        self.push_validated(entry);
        Ok(())
    }
}

} // verus!
