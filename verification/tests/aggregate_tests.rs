use aggregate::decl::{DeclDescriptor, FieldDecl, RegisterError, TypeShape, VariantDecl};
use aggregate::registry::Registry;
use std::rc::Rc;

fn strings(xs: &[&str]) -> Vec<String> {
    xs.iter().map(|s| s.to_string()).collect()
}

fn field(name: Option<&str>, attrs: &[&str], ty: Option<&str>) -> FieldDecl {
    FieldDecl {
        name: name.map(|s| s.to_string()),
        attrs: strings(attrs),
        ty: ty.map(|s| s.to_string()),
    }
}

fn variant(name: &str, attrs: &[&str], fields: Vec<FieldDecl>) -> VariantDecl {
    VariantDecl { name: name.to_string(), attrs: strings(attrs), fields }
}

fn decl(name: &str, attrs: &[&str], shape: TypeShape) -> DeclDescriptor {
    DeclDescriptor { name: name.to_string(), attrs: strings(attrs), shape }
}

fn register_unit_struct(r: &mut Registry) {
    r.register(&decl("UnitStruct", &["UnitStruct"], TypeShape::Unit)).unwrap();
}

fn register_struct_with_option(r: &mut Registry) {
    register_unit_struct(r);
    r.register_transparent("Option<UnitStruct>", "UnitStruct").unwrap();
    r.register(&decl(
        "StructWithOption",
        &["StructWithOption"],
        TypeShape::Tuple(vec![field(None, &["aggregate"], Some("Option<UnitStruct>"))]),
    ))
    .unwrap();
}

fn register_struct_with_fields(r: &mut Registry) {
    register_struct_with_option(r);
    r.register(&decl(
        "StructWithFields",
        &["StructWithFields"],
        TypeShape::Record(vec![
            field(Some("field_1"), &["StructWithFields.field_1"], None),
            field(
                Some("field_2"),
                &["StructWithFields.field_2", "aggregate"],
                Some("StructWithOption"),
            ),
        ]),
    ))
    .unwrap();
}

fn register_tuple_struct(r: &mut Registry) {
    register_struct_with_fields(r);
    r.register(&decl(
        "TupleStruct",
        &["TupleStruct"],
        TypeShape::Tuple(vec![
            field(None, &[], None),
            field(None, &["aggregate"], Some("StructWithFields")),
        ]),
    ))
    .unwrap();
}

fn register_unit_enum(r: &mut Registry) {
    r.register(&decl(
        "UnitEnum",
        &["UnitEnum"],
        TypeShape::Enum(vec![
            variant("Unit1", &["UnitEnum.Unit1"], vec![]),
            variant("Unit2", &["UnitEnum.Unit2"], vec![]),
        ]),
    ))
    .unwrap();
}

fn register_enum_with_field_variants(r: &mut Registry) {
    register_struct_with_option(r);
    r.register(&decl(
        "EnumWithFieldVariants",
        &["EnumWithFieldVariants"],
        TypeShape::Enum(vec![
            variant(
                "FieldOne",
                &["EnumWithFieldVariants.FieldOne"],
                vec![field(
                    Some("field_1"),
                    &["EnumWithFieldVariants.FieldOne.field_1", "aggregate"],
                    Some("UnitStruct"),
                )],
            ),
            variant(
                "FieldTwo",
                &["EnumWithFieldVariants.FieldTwo"],
                vec![field(
                    Some("field_2"),
                    &["EnumWithFieldVariants.FieldTwo.field_2", "aggregate"],
                    Some("StructWithOption"),
                )],
            ),
        ]),
    ))
    .unwrap();
}

fn register_enum_with_tuples(r: &mut Registry) {
    register_tuple_struct(r);
    r.register(&decl(
        "EnumWithTuples",
        &["EnumWithTuples"],
        TypeShape::Enum(vec![
            variant(
                "TupleOne",
                &["EnumWithTuples.TupleOne"],
                vec![field(None, &["aggregate"], Some("TupleStruct"))],
            ),
            variant("TupleTwo", &["EnumWithTuples.TupleTwo"], vec![field(None, &[], None)]),
        ]),
    ))
    .unwrap();
}

fn register_mixed_enum(r: &mut Registry) {
    register_enum_with_tuples(r);
    r.register_transparent("Option<EnumWithTuples>", "EnumWithTuples").unwrap();
    r.register(&decl(
        "MixedEnum",
        &["MixedEnum"],
        TypeShape::Enum(vec![
            variant("Unit", &["MixedEnum.Unit"], vec![]),
            variant(
                "Fields",
                &["MixedEnum.Fields"],
                vec![field(
                    Some("field_1"),
                    &["MixedEnum.Fields.field_1", "aggregate"],
                    Some("Option<EnumWithTuples>"),
                )],
            ),
            variant(
                "Tuples",
                &["MixedEnum.Tuples"],
                vec![field(None, &["aggregate"], Some("StructWithOption"))],
            ),
        ]),
    ))
    .unwrap();
}

fn register_basic_union(r: &mut Registry) {
    r.register(&decl(
        "BasicUnion",
        &["BasicUnion"],
        TypeShape::Union(vec![
            field(Some("field_1"), &["BasicUnion.field_1"], None),
            field(Some("field_2"), &["BasicUnion.field_2"], None),
        ]),
    ))
    .unwrap();
}

#[test]
fn struct_unit() {
    let mut r = Registry::new();
    register_unit_struct(&mut r);
    r.aggregate("UnitStruct").unwrap();
}

#[test]
fn struct_tuple() {
    let mut r = Registry::new();
    register_tuple_struct(&mut r);
    r.aggregate("TupleStruct").unwrap();
}

#[test]
fn struct_fields() {
    let mut r = Registry::new();
    register_struct_with_fields(&mut r);
    r.aggregate("StructWithFields").unwrap();
}

#[test]
fn struct_optional() {
    let mut r = Registry::new();
    register_struct_with_option(&mut r);
    r.aggregate("StructWithOption").unwrap();
}

#[test]
fn enum_unit() {
    let mut r = Registry::new();
    register_unit_enum(&mut r);
    r.aggregate("UnitEnum").unwrap();
}

#[test]
fn enum_fields() {
    let mut r = Registry::new();
    register_enum_with_field_variants(&mut r);
    r.aggregate("EnumWithFieldVariants").unwrap();
}

#[test]
fn enum_tuples() {
    let mut r = Registry::new();
    register_enum_with_tuples(&mut r);
    r.aggregate("EnumWithTuples").unwrap();
}

#[test]
fn enum_mixed() {
    let mut r = Registry::new();
    register_mixed_enum(&mut r);
    r.aggregate("MixedEnum").unwrap();
}

#[test]
fn union_basic() {
    let mut r = Registry::new();
    register_basic_union(&mut r);
    r.aggregate("BasicUnion").unwrap();
}

#[test]
fn unit_struct_attrs_and_empty_fields() {
    let mut r = Registry::new();
    register_unit_struct(&mut r);
    let n = r.aggregate("UnitStruct").unwrap();
    assert_eq!(n.attrs.0, strings(&["UnitStruct"]));
    assert!(n.fields.0.is_empty());
}

#[test]
fn tuple_struct_positional_keys_and_nested_record() {
    let mut r = Registry::new();
    r.register(&decl(
        "Inner",
        &[],
        TypeShape::Record(vec![
            field(Some("a"), &[], None),
            field(Some("b"), &[], None),
        ]),
    ))
    .unwrap();
    r.register(&decl(
        "Outer",
        &[],
        TypeShape::Tuple(vec![
            field(None, &[], None),
            field(None, &["aggregate"], Some("Inner")),
        ]),
    ))
    .unwrap();
    let n = r.aggregate("Outer").unwrap();
    assert_eq!(n.fields.len(), 2);
    assert_eq!(n.fields.key_at(0).as_str(), "0");
    assert_eq!(n.fields.key_at(1).as_str(), "1");
    let f0 = n.fields.get("0").unwrap();
    assert!(f0.attrs.0.is_empty());
    assert!(f0.inner.is_none());
    let f1 = n.fields.get("1").unwrap();
    assert!(f1.attrs.0.is_empty());
    let inner = f1.inner.as_ref().unwrap();
    assert_eq!(inner.fields.len(), 2);
    assert!(inner.fields.get("a").is_some());
    assert!(inner.fields.get("b").is_some());
}

#[test]
fn enum_variants_unit_and_nested() {
    let mut r = Registry::new();
    register_unit_struct(&mut r);
    r.register(&decl(
        "E",
        &[],
        TypeShape::Enum(vec![
            variant("Unit", &[], vec![]),
            variant(
                "Data",
                &[],
                vec![field(Some("x"), &["aggregate"], Some("UnitStruct"))],
            ),
        ]),
    ))
    .unwrap();
    let n = r.aggregate("E").unwrap();
    let unit = n.fields.get("Unit").unwrap();
    assert!(unit.inner.is_none());
    let data = n.fields.get("Data").unwrap();
    let data_node = data.inner.as_ref().unwrap();
    let x = data_node.fields.get("x").unwrap();
    let x_node = x.inner.as_ref().unwrap();
    assert_eq!(x_node.attrs.0, strings(&["UnitStruct"]));
}

#[test]
fn marked_field_with_unregistered_target_fails_naming_both() {
    let mut r = Registry::new();
    let e = r
        .register(&decl(
            "Bad",
            &[],
            TypeShape::Record(vec![field(Some("x"), &["aggregate"], Some("Missing"))]),
        ))
        .unwrap_err();
    assert_eq!(
        e,
        RegisterError::NotCapable {
            ty: "Bad".to_string(),
            field: "x".to_string(),
            target: Some("Missing".to_string()),
        }
    );
}

#[test]
fn marked_field_without_declared_type_fails() {
    let mut r = Registry::new();
    let e = r
        .register(&decl(
            "Bad",
            &[],
            TypeShape::Record(vec![field(Some("x"), &["aggregate"], None)]),
        ))
        .unwrap_err();
    assert_eq!(
        e,
        RegisterError::NotCapable { ty: "Bad".to_string(), field: "x".to_string(), target: None }
    );
}

#[test]
fn building_twice_from_equal_declarations_is_identical() {
    let mut r1 = Registry::new();
    register_mixed_enum(&mut r1);
    let mut r2 = Registry::new();
    register_mixed_enum(&mut r2);
    let n1 = r1.aggregate("MixedEnum").unwrap();
    let n2 = r2.aggregate("MixedEnum").unwrap();
    assert_eq!(*n1, *n2);
}

#[test]
fn cache_returns_same_reference_without_rebuild() {
    let mut r = Registry::new();
    register_struct_with_fields(&mut r);
    let first = r.aggregate("StructWithFields").unwrap();
    let builds_after_first = r.builds_so_far();
    let second = r.aggregate("StructWithFields").unwrap();
    assert!(Rc::ptr_eq(&first, &second));
    assert_eq!(r.builds_so_far(), builds_after_first);
    let third = r.aggregate("UnitStruct").unwrap();
    let fourth = r.aggregate("UnitStruct").unwrap();
    assert!(Rc::ptr_eq(&third, &fourth));
    assert_eq!(r.builds_so_far(), builds_after_first);
}

#[test]
fn nested_nodes_are_shared_with_the_cache() {
    let mut r = Registry::new();
    register_struct_with_fields(&mut r);
    let outer = r.aggregate("StructWithFields").unwrap();
    let cached = r.aggregate("StructWithOption").unwrap();
    let linked = outer.fields.get("field_2").unwrap().inner.as_ref().unwrap();
    assert!(Rc::ptr_eq(linked, &cached));
}

#[test]
fn transparent_wrapper_yields_the_wrapped_tree() {
    let mut r = Registry::new();
    register_struct_with_option(&mut r);
    let wrapped = r.aggregate("UnitStruct").unwrap();
    let wrapper = r.aggregate("Option<UnitStruct>").unwrap();
    assert!(Rc::ptr_eq(&wrapper, &wrapped));
    assert_eq!(*wrapper, *wrapped);
}

#[test]
fn optional_field_reports_declared_type_tree() {
    let mut r = Registry::new();
    register_struct_with_option(&mut r);
    let node = r.aggregate("StructWithOption").unwrap();
    let unit = r.aggregate("UnitStruct").unwrap();
    let inner = node.fields.get("0").unwrap().inner.as_ref().unwrap();
    assert!(Rc::ptr_eq(inner, &unit));
    assert_eq!(inner.attrs.0, strings(&["UnitStruct"]));
}

#[test]
fn marker_never_reaches_any_attribute_list() {
    let mut r = Registry::new();
    register_tuple_struct(&mut r);
    r.register(&decl("Marked", &["Marked", "aggregate"], TypeShape::Unit)).unwrap();
    let marked = r.aggregate("Marked").unwrap();
    assert_eq!(marked.attrs.0, strings(&["Marked"]));
    let tuple = r.aggregate("TupleStruct").unwrap();
    let f1 = tuple.fields.get("1").unwrap();
    assert!(f1.attrs.0.iter().all(|a| a != "aggregate"));
    assert!(f1.attrs.0.is_empty());
    let swf = r.aggregate("StructWithFields").unwrap();
    let f2 = swf.fields.get("field_2").unwrap();
    assert_eq!(f2.attrs.0, strings(&["StructWithFields.field_2"]));
}

#[test]
fn duplicate_type_name_is_rejected() {
    let mut r = Registry::new();
    register_unit_struct(&mut r);
    let e = r.register(&decl("UnitStruct", &[], TypeShape::Unit)).unwrap_err();
    assert_eq!(e, RegisterError::DuplicateType { ty: "UnitStruct".to_string() });
}

#[test]
fn duplicate_field_name_is_rejected() {
    let mut r = Registry::new();
    let e = r
        .register(&decl(
            "Twice",
            &[],
            TypeShape::Record(vec![
                field(Some("x"), &[], None),
                field(Some("x"), &[], None),
            ]),
        ))
        .unwrap_err();
    assert_eq!(
        e,
        RegisterError::DuplicateIdentifier { ty: "Twice".to_string(), ident: "x".to_string() }
    );
}

#[test]
fn duplicate_variant_name_is_rejected() {
    let mut r = Registry::new();
    let e = r
        .register(&decl(
            "Twice",
            &[],
            TypeShape::Enum(vec![variant("V", &[], vec![]), variant("V", &[], vec![])]),
        ))
        .unwrap_err();
    assert_eq!(
        e,
        RegisterError::DuplicateIdentifier { ty: "Twice".to_string(), ident: "V".to_string() }
    );
}

#[test]
fn record_with_unnamed_field_is_rejected() {
    let mut r = Registry::new();
    let e = r
        .register(&decl("R", &[], TypeShape::Record(vec![field(None, &[], None)])))
        .unwrap_err();
    assert_eq!(
        e,
        RegisterError::UnsupportedShape { ty: "R".to_string(), ident: "0".to_string() }
    );
}

#[test]
fn tuple_with_named_field_is_rejected() {
    let mut r = Registry::new();
    let e = r
        .register(&decl("T", &[], TypeShape::Tuple(vec![field(Some("x"), &[], None)])))
        .unwrap_err();
    assert_eq!(
        e,
        RegisterError::UnsupportedShape { ty: "T".to_string(), ident: "x".to_string() }
    );
}

#[test]
fn transparent_wrapper_over_unknown_target_is_rejected() {
    let mut r = Registry::new();
    let e = r.register_transparent("Wrapper", "Nowhere").unwrap_err();
    assert_eq!(
        e,
        RegisterError::UnknownTarget { ty: "Wrapper".to_string(), target: "Nowhere".to_string() }
    );
}

#[test]
fn aggregating_an_unknown_type_fails() {
    let mut r = Registry::new();
    let e = r.aggregate("Nowhere").unwrap_err();
    assert_eq!(
        e,
        aggregate::decl::AggregateError::NotRegistered { ty: "Nowhere".to_string() }
    );
}

#[test]
fn field_order_follows_declaration_order() {
    let mut r = Registry::new();
    register_struct_with_fields(&mut r);
    let n = r.aggregate("StructWithFields").unwrap();
    assert_eq!(n.fields.len(), 2);
    assert_eq!(n.fields.key_at(0).as_str(), "field_1");
    assert_eq!(n.fields.key_at(1).as_str(), "field_2");
    assert!(n.fields.get("field_3").is_none());
}

#[test]
fn union_fields_are_keyed_by_name() {
    let mut r = Registry::new();
    register_basic_union(&mut r);
    let n = r.aggregate("BasicUnion").unwrap();
    assert_eq!(n.fields.len(), 2);
    let f1 = n.fields.get("field_1").unwrap();
    assert_eq!(f1.attrs.0, strings(&["BasicUnion.field_1"]));
    assert!(f1.inner.is_none());
    assert!(n.fields.get("field_2").is_some());
}

#[test]
fn mixed_enum_structure() {
    let mut r = Registry::new();
    register_mixed_enum(&mut r);
    let n = r.aggregate("MixedEnum").unwrap();
    assert_eq!(n.attrs.0, strings(&["MixedEnum"]));
    assert_eq!(n.fields.len(), 3);
    assert!(n.fields.get("Unit").unwrap().inner.is_none());
    let fields_variant = n.fields.get("Fields").unwrap().inner.as_ref().unwrap();
    let f1 = fields_variant.fields.get("field_1").unwrap();
    let linked = f1.inner.as_ref().unwrap();
    let ewt = r.aggregate("EnumWithTuples").unwrap();
    assert!(Rc::ptr_eq(linked, &ewt));
    let tuples_variant = n.fields.get("Tuples").unwrap().inner.as_ref().unwrap();
    assert!(tuples_variant.fields.get("0").unwrap().inner.is_some());
}

#[test]
fn attribute_list_read_api() {
    let mut r = Registry::new();
    register_unit_struct(&mut r);
    let n = r.aggregate("UnitStruct").unwrap();
    assert_eq!(n.attrs.len(), 1);
    assert_eq!(n.attrs.get(0).map(|s| s.as_str()), Some("UnitStruct"));
    assert!(n.attrs.get(1).is_none());
}

#[test]
fn field_map_indexed_read_api() {
    let mut r = Registry::new();
    register_basic_union(&mut r);
    let n = r.aggregate("BasicUnion").unwrap();
    assert_eq!(n.fields.len(), 2);
    let f = n.fields.field_at(1);
    assert_eq!(f.attrs.get(0).map(|s| s.as_str()), Some("BasicUnion.field_2"));
}

#[test]
fn registering_a_type_that_links_itself_is_rejected() {
    let mut r = Registry::new();
    let e = r
        .register(&decl(
            "Cyclic",
            &[],
            TypeShape::Record(vec![field(Some("next"), &["aggregate"], Some("Cyclic"))]),
        ))
        .unwrap_err();
    assert_eq!(
        e,
        RegisterError::NotCapable {
            ty: "Cyclic".to_string(),
            field: "next".to_string(),
            target: Some("Cyclic".to_string()),
        }
    );
}
