use aggregate::decl::{DeclDescriptor, FieldDecl, TypeShape};
use aggregate::keys::fmt_index;
use aggregate::registry::Registry;

fn plain(name: &str, attrs: &[&str], shape: TypeShape) -> DeclDescriptor {
    DeclDescriptor {
        name: name.to_string(),
        attrs: attrs.iter().map(|s| s.to_string()).collect(),
        shape,
    }
}

#[test]
fn positional_identifiers_render_in_decimal() {
    assert_eq!(fmt_index(0), "0");
    assert_eq!(fmt_index(7), "7");
    assert_eq!(fmt_index(10), "10");
    assert_eq!(fmt_index(123), "123");
    assert_eq!(fmt_index(90210), "90210");
}

#[test]
fn render_unit_node() {
    let mut r = Registry::new();
    r.register(&plain("UnitStruct", &["UnitStruct"], TypeShape::Unit)).unwrap();
    let n = r.aggregate("UnitStruct").unwrap();
    assert_eq!(n.render(), "UnitStruct\namalgamate:\n");
}

#[test]
fn render_nested_node_indents_by_four() {
    let mut r = Registry::new();
    r.register(&plain("UnitStruct", &["UnitStruct"], TypeShape::Unit)).unwrap();
    r.register(&plain(
        "Wrapper",
        &["Wrapper"],
        TypeShape::Tuple(vec![FieldDecl {
            name: None,
            attrs: vec!["aggregate".to_string()],
            ty: Some("UnitStruct".to_string()),
        }]),
    ))
    .unwrap();
    let n = r.aggregate("Wrapper").unwrap();
    let expected = "Wrapper\namalgamate:\n    0:\n        UnitStruct\n        amalgamate:\n";
    assert_eq!(n.render(), expected);
}

#[test]
fn render_prints_field_attributes_above_the_field() {
    let mut r = Registry::new();
    r.register(&plain(
        "Doc",
        &["Doc"],
        TypeShape::Record(vec![FieldDecl {
            name: Some("x".to_string()),
            attrs: vec!["Doc.x".to_string()],
            ty: None,
        }]),
    ))
    .unwrap();
    let n = r.aggregate("Doc").unwrap();
    let expected = "Doc\namalgamate:\n    Doc.x\n    x:\n";
    assert_eq!(n.render(), expected);
}
