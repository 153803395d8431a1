use displaydoc_lite::binding::Shape;
use displaydoc_lite::doc::Meta;
use displaydoc_lite::table::{DisplayTable, Instance, VariantDecl};
use displaydoc_lite::value::Value;

fn doc(line: &str) -> Meta {
    Meta::Doc(line.to_string())
}

fn variant(name: &str, shape: Shape, attrs: Vec<Meta>) -> VariantDecl {
    VariantDecl { name: name.to_string(), shape, attrs }
}

fn fields(names: &[&str]) -> Shape {
    Shape::Named(names.iter().map(|n| n.to_string()).collect())
}

fn instance(name: &str, slots: Vec<Value>) -> Instance {
    Instance { variant: name.to_string(), slots }
}

fn text(s: &str) -> Value {
    Value::Text(s.to_string())
}

fn error_table() -> DisplayTable {
    DisplayTable::new(vec![
        variant("Foo", Shape::Unit, vec![doc(" Hello"), doc(""), doc(" How are you")]),
        variant("Bar", fields(&["s", "x"]), vec![doc(" {s} is {x}")]),
        variant("Baz", Shape::Positional(3), vec![doc(" {_0} tuple {_2} works too {_1}")]),
        variant("Debug", Shape::Positional(1), vec![doc(" debug: {_0:?}")]),
    ])
    .unwrap()
}

fn data_store_table() -> DisplayTable {
    DisplayTable::new(vec![
        variant(
            "Disconnect",
            Shape::Unit,
            vec![Meta::Other("allow(dead_code)".to_string()), doc(" data store disconnected")],
        ),
        variant(
            "Redaction",
            Shape::Positional(1),
            vec![doc(" the data for key `{_0}` is not available")],
        ),
        variant(
            "InvalidHeader",
            fields(&["expected", "found"]),
            vec![doc(" invalid header (expected {expected}, found {found})")],
        ),
        variant("Unknown", Shape::Unit, vec![doc(" unknown data store error")]),
    ])
    .unwrap()
}

#[test]
fn it_works() {
    let t = error_table();
    assert_eq!(t.render(&instance("Foo", vec![])), "Hello");
    assert_eq!(
        t.render(&instance("Bar", vec![Value::Unsigned(0), text("hello")])),
        "0 is hello"
    );
    assert_eq!(
        t.render(&instance(
            "Baz",
            vec![Value::Unsigned(0), Value::Unsigned(1), Value::Unsigned(2)]
        )),
        "0 tuple 2 works too 1"
    );
    assert_eq!(t.render(&instance("Debug", vec![text("hallo")])), "debug: \"hallo\"");
}

#[test]
fn unit_variant_renders_its_doc() {
    let t = data_store_table();
    assert_eq!(t.render(&instance("Disconnect", vec![])), "data store disconnected");
    assert_eq!(t.render(&instance("Unknown", vec![])), "unknown data store error");
}

#[test]
fn positional_variant_renders_slot() {
    let t = data_store_table();
    assert_eq!(
        t.render(&instance("Redaction", vec![text("foo")])),
        "the data for key `foo` is not available"
    );
}

#[test]
fn named_variant_renders_fields() {
    let t = data_store_table();
    assert_eq!(
        t.render(&instance("InvalidHeader", vec![text("foo"), text("bar")])),
        "invalid header (expected foo, found bar)"
    );
}
