use displaydoc_lite::binding::{lookup, slot_count, slot_names_of, Shape};
use displaydoc_lite::doc::{doc_template, Meta};
use displaydoc_lite::table::{BuildError, DisplayTable, Instance, VariantDecl};
use displaydoc_lite::template::{compile, fill_markers, Mode};
use displaydoc_lite::text::{chars_of, is_white_char, push_decimal, trimmed};
use displaydoc_lite::value::{render_value, Value};

fn doc(line: &str) -> Meta {
    Meta::Doc(line.to_string())
}

fn variant(name: &str, shape: Shape, attrs: Vec<Meta>) -> VariantDecl {
    VariantDecl { name: name.to_string(), shape, attrs }
}

fn instance(name: &str, slots: Vec<Value>) -> Instance {
    Instance { variant: name.to_string(), slots }
}

fn names_of(template: &str) -> Vec<(String, Mode)> {
    compile(template).refs.into_iter().map(|p| (p.name, p.mode)).collect()
}

fn strings(items: &[&str]) -> Vec<String> {
    items.iter().map(|s| s.to_string()).collect()
}

#[test]
fn compile_replaces_placeholders_with_markers() {
    let c = compile(" invalid header (expected {expected}, found {found:?}) ");
    assert_eq!(c.literal, "invalid header (expected {}, found {:?})");
    assert_eq!(
        names_of(" invalid header (expected {expected}, found {found:?}) "),
        vec![("expected".to_string(), Mode::Plain), ("found".to_string(), Mode::Debug)]
    );
}

#[test]
fn compile_without_placeholders_is_trimmed_text() {
    let c = compile("  \t plain text \n");
    assert_eq!(c.literal, "plain text");
    assert!(c.refs.is_empty());
    let e = compile("");
    assert_eq!(e.literal, "");
    assert!(e.refs.is_empty());
}

#[test]
fn compile_is_lenient_with_a_colon_not_followed_by_question_mark() {
    let c = compile("{x:y}");
    assert_eq!(c.literal, "{}y}");
    assert_eq!(names_of("{x:y}"), vec![("x".to_string(), Mode::Plain)]);
}

#[test]
fn compile_takes_the_character_after_debug_mark() {
    assert_eq!(compile("{x:?}z").literal, "{:?}z");
    assert_eq!(compile("{x:?yz").literal, "{:?}z");
    assert_eq!(compile("{x:?").literal, "{:?}");
    assert_eq!(names_of("{x:?"), vec![("x".to_string(), Mode::Debug)]);
}

#[test]
fn compile_reads_an_unclosed_or_empty_placeholder() {
    assert_eq!(compile("a {b").literal, "a {}");
    assert_eq!(names_of("a {b"), vec![("b".to_string(), Mode::Plain)]);
    assert_eq!(compile("{{").literal, "{}{}");
    assert_eq!(
        names_of("{}"),
        vec![(String::new(), Mode::Plain)]
    );
    assert_eq!(compile("{a-b}").literal, "{}-b}");
}

#[test]
fn compile_keeps_placeholder_order() {
    assert_eq!(
        names_of("{_2} and {_0}"),
        vec![("_2".to_string(), Mode::Plain), ("_0".to_string(), Mode::Plain)]
    );
}

#[test]
fn fill_markers_substitutes_in_order() {
    assert_eq!(fill_markers("a{}b{:?}c", &strings(&["1", "2"])), "a1b2c");
    assert_eq!(fill_markers("{}{}", &strings(&["x"])), "x");
    assert_eq!(fill_markers("x}y", &strings(&[])), "x}y");
    assert_eq!(fill_markers("", &strings(&["unused"])), "");
}

#[test]
fn doc_template_takes_first_doc_entry() {
    let attrs = vec![
        Meta::Other("derive(Debug)".to_string()),
        doc(" first"),
        Meta::Other("allow(unused)".to_string()),
        doc(" second"),
    ];
    assert_eq!(doc_template(&attrs), Some(" first".to_string()));
    assert_eq!(doc_template(&vec![Meta::Other("x".to_string())]), None);
    assert_eq!(doc_template(&vec![]), None);
}

#[test]
fn trimmed_removes_unicode_white_space() {
    assert_eq!(trimmed("\u{3000} a b \u{2029}\r\n"), "a b");
    assert_eq!(trimmed("   "), "");
    assert!(is_white_char('\u{85}'));
    assert!(!is_white_char('x'));
    assert_eq!(chars_of("h\u{e9}"), vec!['h', '\u{e9}']);
}

#[test]
fn decimal_rendering() {
    let mut s = String::from("n=");
    push_decimal(&mut s, 1234567890);
    assert_eq!(s, "n=1234567890");
    let mut z = String::new();
    push_decimal(&mut z, 0);
    assert_eq!(z, "0");
    let mut m = String::new();
    push_decimal(&mut m, u64::MAX);
    assert_eq!(m, "18446744073709551615");
}

#[test]
fn render_value_in_both_modes() {
    assert_eq!(render_value(&Value::Unsigned(42), Mode::Plain), "42");
    assert_eq!(render_value(&Value::Unsigned(42), Mode::Debug), "42");
    assert_eq!(render_value(&Value::Signed(-17), Mode::Plain), "-17");
    assert_eq!(render_value(&Value::Signed(i64::MIN), Mode::Plain), "-9223372036854775808");
    assert_eq!(render_value(&Value::Signed(5), Mode::Debug), "5");
    assert_eq!(render_value(&Value::Bool(true), Mode::Plain), "true");
    assert_eq!(render_value(&Value::Bool(false), Mode::Debug), "false");
    assert_eq!(render_value(&Value::Text("hallo".to_string()), Mode::Plain), "hallo");
    assert_eq!(render_value(&Value::Text("hallo".to_string()), Mode::Debug), "\"hallo\"");
    assert_eq!(render_value(&Value::Text("a\"b\n".to_string()), Mode::Debug), "\"a\\\"b\\n\"");
}

#[test]
fn slot_names_for_each_shape() {
    assert!(slot_names_of(&Shape::Unit).is_empty());
    assert_eq!(slot_names_of(&Shape::Positional(12))[11], "_11");
    assert_eq!(slot_names_of(&Shape::Positional(3)), strings(&["_0", "_1", "_2"]));
    assert_eq!(slot_names_of(&Shape::Named(strings(&["a", "b"]))), strings(&["a", "b"]));
    assert_eq!(slot_count(&Shape::Positional(4)), 4);
    assert_eq!(slot_count(&Shape::Named(strings(&["a"]))), 1);
    assert_eq!(slot_count(&Shape::Unit), 0);
}

#[test]
fn lookup_finds_first_matching_name() {
    let names = strings(&["a", "b", "a"]);
    assert_eq!(lookup(&names, &"a".to_string()), Some(0));
    assert_eq!(lookup(&names, &"b".to_string()), Some(1));
    assert_eq!(lookup(&names, &"c".to_string()), None);
    assert_eq!(lookup(&names, &String::new()), None);
}

#[test]
fn duplicate_variant_is_rejected() {
    let r = DisplayTable::new(vec![
        variant("A", Shape::Unit, vec![]),
        variant("B", Shape::Unit, vec![]),
        variant("A", Shape::Positional(1), vec![doc("{_0}")]),
    ]);
    match r {
        Err(BuildError::DuplicateVariant { name }) => assert_eq!(name, "A"),
        other => panic!("unexpected: {:?}", other),
    }
}

#[test]
fn unresolved_field_name_is_rejected() {
    let r = DisplayTable::new(vec![variant(
        "Header",
        Shape::Named(strings(&["expected", "found"])),
        vec![doc("expected {expected}, found {fuond}")],
    )]);
    match r {
        Err(BuildError::UnresolvedName { variant, name }) => {
            assert_eq!(variant, "Header");
            assert_eq!(name, "fuond");
        },
        other => panic!("unexpected: {:?}", other),
    }
}

#[test]
fn unresolved_positional_name_is_rejected() {
    for template in ["{_1}", "{_01}", "{}", "{x}"] {
        let r = DisplayTable::new(vec![variant("P", Shape::Positional(1), vec![doc(template)])]);
        assert!(matches!(r, Err(BuildError::UnresolvedName { .. })), "{}", template);
    }
}

#[test]
fn unit_variant_placeholders_are_not_read() {
    let t = DisplayTable::new(vec![variant("U", Shape::Unit, vec![doc("  literal {x} text  ")])])
        .unwrap();
    assert_eq!(t.render(&instance("U", vec![])), "literal {x} text");
}

#[test]
fn variants_without_doc_render_empty() {
    let t = DisplayTable::new(vec![
        variant("U", Shape::Unit, vec![Meta::Other("derive(Debug)".to_string())]),
        variant("P", Shape::Positional(2), vec![]),
    ])
    .unwrap();
    assert_eq!(t.render(&instance("U", vec![])), "");
    assert_eq!(
        t.render(&instance("P", vec![Value::Unsigned(1), Value::Unsigned(2)])),
        ""
    );
}

#[test]
fn multi_line_doc_uses_first_line_only() {
    let t = DisplayTable::new(vec![variant(
        "M",
        Shape::Positional(1),
        vec![doc(" first {_0}"), doc(""), doc(" second {_0}")],
    )])
    .unwrap();
    assert_eq!(t.render(&instance("M", vec![Value::Bool(true)])), "first true");
}

#[test]
fn positional_slots_resolve_regardless_of_order() {
    let t = DisplayTable::new(vec![variant(
        "T",
        Shape::Positional(3),
        vec![doc("{_2} and {_0}")],
    )])
    .unwrap();
    let slots = vec![Value::Text("zero".into()), Value::Text("one".into()), Value::Text("two".into())];
    assert_eq!(t.render(&instance("T", slots)), "two and zero");
}

#[test]
fn debug_placeholder_quotes_strings_in_named_variant() {
    let t = DisplayTable::new(vec![variant(
        "N",
        Shape::Named(strings(&["key", "count"])),
        vec![doc("key {key:?} seen {count:?} times, {key}")],
    )])
    .unwrap();
    assert_eq!(
        t.render(&instance("N", vec![Value::Text("k".into()), Value::Signed(-3)])),
        "key \"k\" seen -3 times, k"
    );
}

#[test]
fn accepts_checks_variant_and_slot_count() {
    let t = DisplayTable::new(vec![
        variant("U", Shape::Unit, vec![]),
        variant("P", Shape::Positional(2), vec![doc("{_0}{_1}")]),
    ])
    .unwrap();
    assert!(t.accepts(&instance("U", vec![])));
    assert!(t.accepts(&instance("P", vec![Value::Unsigned(1), Value::Unsigned(2)])));
    assert!(!t.accepts(&instance("P", vec![Value::Unsigned(1)])));
    assert!(!t.accepts(&instance("Q", vec![])));
    assert_eq!(t.variants().len(), 2);
    assert_eq!(t.variants()[1].name, "P");
}

#[test]
fn empty_union_builds() {
    let t = DisplayTable::new(vec![]).unwrap();
    assert!(!t.accepts(&instance("A", vec![])));
}
