use argocd_diff_preview::tree::Node;
use argocd_diff_preview::yaml::{parse_document, render_document};
use serde_yaml::value::Tag;
use serde_yaml::Number;

fn text(s: &str) -> Node {
    Node::String(s.to_string())
}

fn table(entries: Vec<(&str, Node)>) -> Node {
    Node::Mapping(entries.into_iter().map(|(k, v)| (text(k), v)).collect())
}

#[test]
fn a_mapping_is_read_in_document_order() {
    let node = parse_document("b: 1\na: text\nc:\n  - true\n  - null\n");
    assert_eq!(
        node,
        table(vec![
            ("b", Node::Number(Number::from(1))),
            ("a", text("text")),
            ("c", Node::Sequence(vec![Node::Bool(true), Node::Null])),
        ])
    );
}

#[test]
fn scalars_are_read() {
    assert_eq!(parse_document("hello"), text("hello"));
    assert_eq!(parse_document("42"), Node::Number(Number::from(42)));
    assert_eq!(parse_document("-7"), Node::Number(Number::from(-7)));
    assert_eq!(parse_document("true"), Node::Bool(true));
    assert_eq!(parse_document("~"), Node::Null);
    assert_eq!(parse_document("'42'"), text("42"));
}

#[test]
fn a_tagged_value_keeps_its_tag() {
    assert_eq!(
        parse_document("!thing\na: 1\n"),
        Node::Tagged(Tag::new("thing"), Box::new(table(vec![("a", Node::Number(Number::from(1)))])))
    );
}

#[test]
fn keys_that_are_no_strings_are_kept() {
    assert_eq!(
        parse_document("1: one\ntrue: yes\n"),
        Node::Mapping(vec![
            (Node::Number(Number::from(1)), text("one")),
            (Node::Bool(true), text("yes")),
        ])
    );
}

#[test]
fn an_empty_text_gives_null() {
    assert_eq!(parse_document(""), Node::Null);
    assert_eq!(parse_document("\n"), Node::Null);
    assert_eq!(parse_document("# only a comment\n"), Node::Null);
}

#[test]
fn a_text_that_is_no_yaml_gives_null() {
    assert_eq!(parse_document("a: [1, 2"), Node::Null);
    assert_eq!(parse_document("a: b: c"), Node::Null);
    assert_eq!(parse_document("\tkey: value"), Node::Null);
    assert_eq!(parse_document("a: 1\na: 2\n"), Node::Null);
}

#[test]
fn a_mapping_is_written_in_its_order() {
    let node = table(vec![
        ("b", Node::Number(Number::from(1))),
        ("a", text("text")),
        ("c", Node::Sequence(vec![Node::Bool(true), Node::Null])),
        ("d", table(vec![("e", text("f"))])),
    ]);
    assert_eq!(render_document(node).unwrap(), "b: 1\na: text\nc:\n- true\n- null\nd:\n  e: f\n");
}

#[test]
fn scalars_are_written() {
    assert_eq!(render_document(Node::Null).unwrap(), "null\n");
    assert_eq!(render_document(Node::Bool(false)).unwrap(), "false\n");
    assert_eq!(render_document(text("hello")).unwrap(), "hello\n");
    assert_eq!(render_document(text("42")).unwrap(), "'42'\n");
    assert_eq!(render_document(Node::Number(Number::from(42))).unwrap(), "42\n");
}

#[test]
fn a_tag_is_written() {
    let node = table(vec![("a", Node::Tagged(Tag::new("thing"), Box::new(text("x"))))]);
    assert_eq!(render_document(node).unwrap(), "a: !thing x\n");
}

#[test]
fn what_is_written_reads_back_the_same() {
    let text = "kind: Application\nmetadata:\n  name: app\n  labels:\n    env: prod\nspec:\n  sources:\n  - repoURL: a\n  - chart: c\n";
    let written = render_document(parse_document(text)).unwrap();
    assert_eq!(written, text);
    assert_eq!(parse_document(&written), parse_document(text));
}

#[test]
fn a_key_given_twice_is_written_once() {
    let node = table(vec![("a", text("1")), ("b", text("2")), ("a", text("3"))]);
    assert_eq!(render_document(node).unwrap(), "a: '3'\nb: '2'\n");
}

#[test]
fn a_tag_inside_a_tag_is_refused() {
    let node = Node::Tagged(
        Tag::new("outer"),
        Box::new(Node::Tagged(Tag::new("inner"), Box::new(text("x")))),
    );
    let error = render_document(node).unwrap_err();
    assert!(!error.cause.to_string().is_empty());
}
