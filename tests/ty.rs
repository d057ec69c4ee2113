use vanth::ty::{declared_ty, parse_ty};
use vanth::{Ty, Vanth};

#[test]
fn joins_segments_with_double_colons() {
    let ty = Ty { path: vec!["a".to_string(), "b".to_string(), "Foo<a::b::Bar>".to_string()] };
    assert_eq!(ty.to_string(), "a::b::Foo<a::b::Bar>");
    assert_eq!(Ty { path: vec![] }.to_string(), "");
}

#[test]
fn splits_at_each_double_colon() {
    assert_eq!(parse_ty("pkg::Foo").path, vec!["pkg".to_string(), "Foo".to_string()]);
    assert_eq!(parse_ty("Foo").path, vec!["Foo".to_string()]);
    assert_eq!(parse_ty("").path, vec!["".to_string()]);
    assert_eq!(parse_ty("a:::b").path, vec!["a".to_string(), ":b".to_string()]);
    assert_eq!(parse_ty("a::::b").path, vec!["a".to_string(), "".to_string(), "b".to_string()]);
    assert_eq!(parse_ty("pkg::Foo").to_string(), "pkg::Foo");
}

#[test]
fn equal_by_text() {
    assert!(parse_ty("a::b") == Ty { path: vec!["a".into(), "b".into()] });
    assert!(Ty { path: vec!["a::b".into()] } == Ty { path: vec!["a".into(), "b".into()] });
    assert!(parse_ty("a::b") != parse_ty("a::c"));
    assert!(parse_ty("a::b") != parse_ty("a"));
}

#[allow(dead_code)]
struct Foo<T: Vanth> {
    field_a: i32,
    field_b: String,
    inner: T,
}

impl<T: Vanth> Vanth for Foo<T> {
    fn ty() -> Ty {
        declared_ty("integration::derive", "Foo", &vec![T::ty()])
    }
}

#[allow(dead_code)]
struct Bar {
    field_a: i32,
}

impl Vanth for Bar {
    fn ty() -> Ty {
        declared_ty("integration::derive", "Bar", &vec![])
    }
}

#[allow(dead_code)]
struct Qux<T: Vanth, S: Vanth> {
    field_a: i32,
    field_b: String,
    inner: T,
    inner_2: S,
}

impl<T: Vanth, S: Vanth> Vanth for Qux<T, S> {
    fn ty() -> Ty {
        declared_ty("integration::derive", "Qux", &vec![T::ty(), S::ty()])
    }
}

#[test]
fn test_derive() {
    let base = "integration::derive::";

    assert_eq!(Bar::ty().to_string(), format!("{base}Bar"));
    assert_eq!(Foo::<Bar>::ty().to_string(), format!("{base}Foo<{base}Bar>"));
    assert_eq!(Qux::<Bar, Foo<Bar>>::ty().to_string(), format!("{base}Qux<{base}Bar,{base}Foo<{base}Bar>>"));
}

#[test]
fn declared_names_keep_segments() {
    let ty = Foo::<Bar>::ty();
    assert_eq!(
        ty.path,
        vec![
            "integration".to_string(),
            "derive".to_string(),
            "Foo<integration::derive::Bar>".to_string()
        ]
    );
}

#[test]
fn declared_and_parsed_names_are_equal() {
    let declared = Foo::<Bar>::ty();
    let parsed = parse_ty(&declared.to_string());
    assert_ne!(declared.path.len(), parsed.path.len());
    assert!(declared == parsed);
}
