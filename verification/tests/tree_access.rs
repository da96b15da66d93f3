use argocd_diff_preview::tree::{child, same_text, text_is, text_of, Node};
use serde_yaml::value::Tag;
use serde_yaml::Number;

fn text(s: &str) -> Node {
    Node::String(s.to_string())
}

fn table(entries: Vec<(&str, Node)>) -> Node {
    Node::Mapping(entries.into_iter().map(|(k, v)| (text(k), v)).collect())
}

fn tagged(tag: &str, node: Node) -> Node {
    Node::Tagged(Tag::new(tag), Box::new(node))
}

#[test]
fn get_finds_the_value_under_a_key() {
    let node = table(vec![("a", Node::Bool(true)), ("b", text("x"))]);
    assert_eq!(node.get("a"), Some(&Node::Bool(true)));
    assert_eq!(node.get("b"), Some(&text("x")));
    assert_eq!(node.get("c"), None);
    assert!(node.contains_key("a"));
    assert!(!node.contains_key("c"));
}

#[test]
fn get_on_what_is_no_mapping_finds_nothing() {
    assert_eq!(Node::Null.get("a"), None);
    assert_eq!(text("a").get("a"), None);
    assert_eq!(Node::Sequence(vec![text("a")]).get("a"), None);
    assert_eq!(Node::Number(Number::from(1)).get("a"), None);
}

#[test]
fn get_matches_string_keys_only() {
    let node = Node::Mapping(vec![
        (Node::Number(Number::from(1)), text("number")),
        (tagged("t", text("a")), text("tagged")),
        (text("a"), text("plain")),
    ]);
    assert_eq!(node.get("a"), Some(&text("plain")));
    assert_eq!(node.get("1"), None);
}

#[test]
fn access_looks_through_tags() {
    let node = tagged("outer", tagged("inner", table(vec![("a", tagged("t", text("x")))])));
    assert_eq!(node.get("a"), Some(&tagged("t", text("x"))));
    assert_eq!(node.get("a").unwrap().as_str(), Some("x"));
    assert!(node.as_mapping().is_some());
    assert_eq!(tagged("t", Node::Sequence(vec![Node::Null])).as_sequence(), Some(&vec![Node::Null]));
    assert_eq!(node.untagged(), &table(vec![("a", tagged("t", text("x")))]));
}

#[test]
fn as_str_is_for_strings_only() {
    assert_eq!(text("x").as_str(), Some("x"));
    assert_eq!(Node::Null.as_str(), None);
    assert_eq!(Node::Bool(true).as_str(), None);
    assert_eq!(Node::Number(Number::from(7)).as_str(), None);
    assert_eq!(table(vec![]).as_str(), None);
}

#[test]
fn set_replaces_a_value_where_it_stands() {
    let mut node = table(vec![("a", text("1")), ("b", text("2")), ("c", text("3"))]);
    node.set("b", text("new"));
    assert_eq!(node, table(vec![("a", text("1")), ("b", text("new")), ("c", text("3"))]));
}

#[test]
fn set_puts_a_new_key_at_the_end() {
    let mut node = table(vec![("a", text("1"))]);
    node.set("z", text("26"));
    assert_eq!(node, table(vec![("a", text("1")), ("z", text("26"))]));
}

#[test]
fn set_turns_what_is_no_mapping_into_one() {
    let mut node = Node::Null;
    node.set("a", text("1"));
    assert_eq!(node, table(vec![("a", text("1"))]));
    let mut node = text("scalar");
    node.set("a", text("1"));
    assert_eq!(node, table(vec![("a", text("1"))]));
    let mut node = Node::Sequence(vec![text("x")]);
    node.set("a", text("1"));
    assert_eq!(node, table(vec![("a", text("1"))]));
}

#[test]
fn set_keeps_tags() {
    let mut node = tagged("t", table(vec![("a", text("1"))]));
    node.set("b", text("2"));
    assert_eq!(node, tagged("t", table(vec![("a", text("1")), ("b", text("2"))])));
    let mut node = tagged("t", Node::Null);
    node.set("b", text("2"));
    assert_eq!(node, tagged("t", table(vec![("b", text("2"))])));
}

#[test]
fn remove_moves_the_last_entry_into_the_gap() {
    let mut node = table(vec![("a", text("1")), ("b", text("2")), ("c", text("3")), ("d", text("4"))]);
    node.remove("b");
    assert_eq!(node, table(vec![("a", text("1")), ("d", text("4")), ("c", text("3"))]));
}

#[test]
fn remove_of_the_last_entry_keeps_the_order() {
    let mut node = table(vec![("a", text("1")), ("b", text("2"))]);
    node.remove("b");
    assert_eq!(node, table(vec![("a", text("1"))]));
    node.remove("a");
    assert_eq!(node, table(vec![]));
}

#[test]
fn remove_of_a_missing_key_changes_nothing() {
    let mut node = table(vec![("a", text("1"))]);
    node.remove("b");
    assert_eq!(node, table(vec![("a", text("1"))]));
    let mut node = text("scalar");
    node.remove("a");
    assert_eq!(node, text("scalar"));
    let mut node = Node::Null;
    node.remove("a");
    assert_eq!(node, Node::Null);
}

#[test]
fn remove_looks_through_tags() {
    let mut node = tagged("t", table(vec![("a", text("1")), ("b", text("2"))]));
    node.remove("a");
    assert_eq!(node, tagged("t", table(vec![("b", text("2"))])));
}

#[test]
fn get_mut_changes_a_value_where_it_stands() {
    let mut node = table(vec![("a", text("1")), ("b", table(vec![("c", text("3"))]))]);
    node.get_mut("b").unwrap().set("c", text("new"));
    assert_eq!(node, table(vec![("a", text("1")), ("b", table(vec![("c", text("new"))]))]));
    assert!(node.get_mut("missing").is_none());
    assert!(Node::Null.get_mut("a").is_none());
}

#[test]
fn helpers_treat_a_missing_node_as_null() {
    let node = table(vec![("a", table(vec![("b", text("x"))]))]);
    assert_eq!(text_of(child(child(Some(&node), "a"), "b")), Some("x"));
    assert_eq!(text_of(child(child(Some(&node), "n"), "b")), None);
    assert_eq!(child(None, "a"), None);
    assert!(text_is(child(child(Some(&node), "a"), "b"), "x"));
    assert!(!text_is(child(child(Some(&node), "a"), "b"), "y"));
    assert!(!text_is(None, ""));
}

#[test]
fn same_text_compares_whole_strings() {
    assert!(same_text("Application", "Application"));
    assert!(!same_text("Application", "ApplicationSet"));
    assert!(!same_text("application", "Application"));
    assert!(same_text("", ""));
}
