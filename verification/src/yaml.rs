//! Reading a document tree from YAML text and writing one back, through
//! `serde_yaml`.

use crate::tree::{distinct_keys, docs, pairs, Doc, Node};
use serde_yaml::value::{Tag, TaggedValue};
use serde_yaml::{Number, Value};
use vstd::prelude::*;

verus! {

/// `serde_yaml::Value`: the tree that `serde_yaml` reads and writes.
#[verifier::external_type_specification]
#[verifier::external_body]
pub struct ExValue(serde_yaml::Value);

/// `serde_yaml::Error`: why `serde_yaml` refused a text or a value.
#[verifier::external_type_specification]
#[verifier::external_body]
pub struct ExError(serde_yaml::Error);

/// The tree that a `serde_yaml::Value` holds.
pub uninterp spec fn value_doc(value: Value) -> Doc;

/// The entries that a `serde_yaml::Mapping` holds after the given entries
/// have been inserted into an empty one, in order.
pub uninterp spec fn collected(entries: Seq<(Doc, Doc)>) -> Seq<(Doc, Doc)>;

/// The tree that `serde_yaml::from_str` reads from a text, `None` where it
/// refuses the text.
pub uninterp spec fn yaml_parse(text: Seq<char>) -> Option<Doc>;

/// The text that `serde_yaml::to_string` writes for a value that holds the
/// given tree, `None` where it refuses the value.
pub uninterp spec fn yaml_text(doc: Doc) -> Option<Seq<char>>;

/// A tree that `serde_yaml` refused to write.
#[derive(Debug)]
pub struct RenderError {
    /// What `serde_yaml` said.
    pub cause: serde_yaml::Error,
}

/// One level of a `serde_yaml::Value`: its variant, with what the variant
/// holds.
enum Shape {
    Null,
    Bool(bool),
    Number(Number),
    String(String),
    Sequence(Vec<Value>),
    Mapping(Vec<(Value, Value)>),
    Tagged(Tag, Value),
}

/// The trees of a sequence of values.
pub open spec fn value_docs(items: Seq<Value>) -> Seq<Doc> {
    Seq::new(items.len(), |i: int| value_doc(items[i]))
}

/// The trees of a sequence of entries.
pub open spec fn value_pairs(entries: Seq<(Value, Value)>) -> Seq<(Doc, Doc)> {
    Seq::new(entries.len(), |i: int| (value_doc(entries[i].0), value_doc(entries[i].1)))
}

impl Shape {
    /// The tree that this shape describes, one level deep.
    closed spec fn opened(self) -> Doc {
        match self {
            Shape::Null => Doc::Null,
            Shape::Bool(b) => Doc::Bool(b),
            Shape::Number(n) => Doc::Number(n),
            Shape::String(s) => Doc::Text(s@),
            Shape::Sequence(items) => Doc::List(value_docs(items@)),
            Shape::Mapping(entries) => Doc::Table(value_pairs(entries@)),
            Shape::Tagged(tag, inner) => Doc::Tagged(tag, Box::new(value_doc(inner))),
        }
    }
}

/// `serde_yaml::from_str::<serde_yaml::Value>`: the value read is the one
/// that `yaml_parse` names for the text, and the call fails exactly where
/// `yaml_parse` names none.
#[verifier::external_body]
fn read_value(text: &str) -> (r: Result<Value, serde_yaml::Error>)
    ensures
        match r {
            Ok(value) => yaml_parse(text@) == Some(value_doc(value)),
            Err(_) => yaml_parse(text@) is None,
        },
{
    serde_yaml::from_str::<Value>(text)
}

/// `serde_yaml::to_string` on a `serde_yaml::Value`: the text written is the
/// one that `yaml_text` names for the value's tree, and the call fails
/// exactly where `yaml_text` names none.
#[verifier::external_body]
fn write_value(value: &Value) -> (r: Result<String, serde_yaml::Error>)
    ensures
        match r {
            Ok(text) => yaml_text(value_doc(*value)) == Some(text@),
            Err(_) => yaml_text(value_doc(*value)) is None,
        },
{
    serde_yaml::to_string(value)
}

/// The variants of `serde_yaml::Value`, and `serde_yaml::Mapping::into_iter`:
/// the shape is the value's variant with what it holds, moved out; the
/// entries of a mapping come in the mapping's order, and no two of them have
/// the same string as key.
#[verifier::external_body]
fn open_value(value: Value) -> (shape: Shape)
    ensures
        shape.opened() == value_doc(value),
        shape matches Shape::Mapping(entries) ==> distinct_keys(value_pairs(entries@)),
{
    match value {
        Value::Null => Shape::Null,
        Value::Bool(b) => Shape::Bool(b),
        Value::Number(n) => Shape::Number(n),
        Value::String(s) => Shape::String(s),
        Value::Sequence(items) => Shape::Sequence(items),
        Value::Mapping(entries) => Shape::Mapping(entries.into_iter().collect()),
        Value::Tagged(tagged) => Shape::Tagged(tagged.tag, tagged.value),
    }
}

/// The variants of `serde_yaml::Value`, and `serde_yaml::Mapping::from_iter`:
/// the value is of the shape's variant and holds what the shape holds; a
/// mapping holds what `collected` names for the entries.
#[verifier::external_body]
fn close_value(shape: Shape) -> (value: Value)
    ensures
        match shape {
            Shape::Mapping(entries) => value_doc(value) == Doc::Table(
                collected(value_pairs(entries@)),
            ),
            _ => value_doc(value) == shape.opened(),
        },
{
    match shape {
        Shape::Null => Value::Null,
        Shape::Bool(b) => Value::Bool(b),
        Shape::Number(n) => Value::Number(n),
        Shape::String(s) => Value::String(s),
        Shape::Sequence(items) => Value::Sequence(items),
        Shape::Mapping(entries) => Value::Mapping(entries.into_iter().collect()),
        Shape::Tagged(tag, value) => Value::Tagged(Box::new(TaggedValue { tag, value })),
    }
}

/// The tree as `serde_yaml` holds it once it has been built: every table
/// collected anew from its entries.
pub open spec fn settled(doc: Doc) -> Doc
    decreases doc,
{
    match doc {
        Doc::List(items) => Doc::List(settled_items(items)),
        Doc::Table(entries) => Doc::Table(collected(settled_pairs(entries))),
        Doc::Tagged(tag, inner) => Doc::Tagged(tag, Box::new(settled(*inner))),
        _ => doc,
    }
}

/// The items of a list, each as `serde_yaml` holds it.
pub open spec fn settled_items(items: Seq<Doc>) -> Seq<Doc>
    decreases items,
{
    Seq::new(
        items.len(),
        |i: int|
            if 0 <= i < items.len() {
                settled(items[i])
            } else {
                Doc::Null
            },
    )
}

/// The entries of a table, key and value each as `serde_yaml` holds it.
pub open spec fn settled_pairs(entries: Seq<(Doc, Doc)>) -> Seq<(Doc, Doc)>
    decreases entries,
{
    Seq::new(
        entries.len(),
        |i: int|
            if 0 <= i < entries.len() {
                (settled(entries[i].0), settled(entries[i].1))
            } else {
                (Doc::Null, Doc::Null)
            },
    )
}

/// The text of a tree: what `serde_yaml` writes for it, `None` where it
/// refuses it.
pub open spec fn rendered(doc: Doc) -> Option<Seq<char>> {
    yaml_text(settled(doc))
}

/// The tree read from a text: what `serde_yaml` reads, and `Null` where it
/// refuses the text.
pub open spec fn parsed(text: Seq<char>) -> Doc {
    match yaml_parse(text) {
        Some(doc) => doc,
        None => Doc::Null,
    }
}

/// Builds the node that holds what `value` holds.
fn node_from_value(value: Value) -> (node: Node)
    ensures
        node@ == value_doc(value),
        node@.well_formed(),
    decreases value_doc(value),
{
    let ghost whole = value_doc(value);
    match open_value(value) {
        Shape::Null => Node::Null,
        Shape::Bool(b) => Node::Bool(b),
        Shape::Number(n) => Node::Number(n),
        Shape::String(s) => Node::String(s),
        Shape::Sequence(items) => {
            let ghost all = items@;
            let mut out: Vec<Node> = Vec::new();
            for item in it: items
                invariant
                    it.seq() == all,
                    whole == value_doc(value),
                    whole == Doc::List(value_docs(all)),
                    out.len() == it.index(),
                    forall|j: int|
                        0 <= j < out.len() ==> (#[trigger] out[j])@ == value_doc(all[j]) && out[j]@.well_formed(),
            {
                assert(value_docs(all)[it.index() as int] == value_doc(item));
                assert(decreases_to!(whole => whole->List_0[it.index() as int]));
                let node = node_from_value(item);
                out.push(node);
            }
            assert(docs(out@) =~= value_docs(all));
            Node::Sequence(out)
        },
        Shape::Mapping(entries) => {
            let ghost all = entries@;
            let mut out: Vec<(Node, Node)> = Vec::new();
            for entry in it: entries
                invariant
                    it.seq() == all,
                    whole == value_doc(value),
                    whole == Doc::Table(value_pairs(all)),
                    out.len() == it.index(),
                    forall|j: int|
                        0 <= j < out.len() ==> {
                            &&& (#[trigger] out[j]).0@ == value_doc(all[j].0)
                            &&& out[j].1@ == value_doc(all[j].1)
                            &&& out[j].0@.well_formed()
                            &&& out[j].1@.well_formed()
                        },
            {
                assert(value_pairs(all)[it.index() as int] == (
                    value_doc(entry.0),
                    value_doc(entry.1),
                ));
                assert(decreases_to!(whole => whole->Table_0[it.index() as int].0));
                assert(decreases_to!(whole => whole->Table_0[it.index() as int].1));
                let key = node_from_value(entry.0);
                let value = node_from_value(entry.1);
                out.push((key, value));
            }
            assert(pairs(out@) =~= value_pairs(all));
            Node::Mapping(out)
        },
        Shape::Tagged(tag, inner) => {
            assert(decreases_to!(whole => *whole->Tagged_1));
            Node::Tagged(tag, Box::new(node_from_value(inner)))
        },
    }
}

/// Builds the value that `serde_yaml` makes of what `node` holds.
fn value_from_node(node: Node) -> (value: Value)
    ensures
        value_doc(value) == settled(node@),
    decreases node,
{
    match node {
        Node::Null => close_value(Shape::Null),
        Node::Bool(b) => close_value(Shape::Bool(b)),
        Node::Number(n) => close_value(Shape::Number(n)),
        Node::String(s) => close_value(Shape::String(s)),
        Node::Sequence(items) => {
            let ghost all = items@;
            let mut out: Vec<Value> = Vec::new();
            for item in it: items
                invariant
                    it.seq() == all,
                    node == Node::Sequence(items),
                    items@ == all,
                    out.len() == it.index(),
                    forall|j: int|
                        0 <= j < out.len() ==> value_doc(#[trigger] out[j]) == settled(all[j]@),
            {
                assert(decreases_to!(node => node->Sequence_0@[it.index() as int]));
                let value = value_from_node(item);
                out.push(value);
            }
            assert(value_docs(out@) =~= settled_items(docs(all)));
            close_value(Shape::Sequence(out))
        },
        Node::Mapping(entries) => {
            let ghost all = entries@;
            let mut out: Vec<(Value, Value)> = Vec::new();
            for entry in it: entries
                invariant
                    it.seq() == all,
                    node == Node::Mapping(entries),
                    entries@ == all,
                    out.len() == it.index(),
                    forall|j: int|
                        0 <= j < out.len() ==> {
                            &&& value_doc((#[trigger] out[j]).0) == settled(all[j].0@)
                            &&& value_doc(out[j].1) == settled(all[j].1@)
                        },
            {
                assert(decreases_to!(node => node->Mapping_0@[it.index() as int].0));
                assert(decreases_to!(node => node->Mapping_0@[it.index() as int].1));
                let key = value_from_node(entry.0);
                let value = value_from_node(entry.1);
                out.push((key, value));
            }
            assert(value_pairs(out@) =~= settled_pairs(pairs(all)));
            close_value(Shape::Mapping(out))
        },
        Node::Tagged(tag, inner) => {
            let value = value_from_node(*inner);
            close_value(Shape::Tagged(tag, value))
        },
    }
}

/// Writes one document as YAML text: what `serde_yaml` writes for the tree
/// once it holds it, and the error where it refuses the tree.
pub fn render_document(node: Node) -> (r: Result<String, RenderError>)
    ensures
        match r {
            Ok(text) => rendered(node@) == Some(text@),
            Err(_) => rendered(node@) is None,
        },
{
    let value = value_from_node(node);
    match write_value(&value) {
        Ok(text) => Ok(text),
        Err(cause) => Err(RenderError { cause }),
    }
}

/// Reads one document. A text that is no YAML document gives `Null`.
pub fn parse_document(text: &str) -> (node: Node)
    ensures
        node@ == parsed(text@),
        node@.well_formed(),
{
    match read_value(text) {
        Ok(value) => node_from_value(value),
        Err(_) => Node::Null,
    }
}

} // verus!
