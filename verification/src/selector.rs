//! Label selectors: equality and inequality clauses over a resource's labels.

use crate::tree::{child, pairs, text_is, Doc, Node};
use vstd::prelude::*;

verus! {

/// How a selector clause compares a label.
#[derive(Debug, Clone, Copy, PartialEq, Eq)]
pub enum Operator {
    Eq,
    Ne,
}

/// One clause of a selector: a label key, an operator and a value.
#[derive(Debug)]
pub struct Selector {
    pub key: String,
    pub value: String,
    pub operator: Operator,
}

/// The model of a [`Selector`].
pub struct Clause {
    pub key: Seq<char>,
    pub value: Seq<char>,
    pub operator: Operator,
}

impl View for Selector {
    type V = Clause;

    open spec fn view(&self) -> Clause {
        Clause { key: self.key@, value: self.value@, operator: self.operator }
    }
}

/// The models of the clauses of a selector, `None` where no selector is set.
pub open spec fn clauses(selector: Option<Vec<Selector>>) -> Option<Seq<Clause>> {
    match selector {
        Some(list) => Some(Seq::new(list.len() as nat, |i: int| list[i]@)),
        None => None,
    }
}

/// Whether the entries label something with `key` and `value`. An entry
/// whose key or value is no string labels nothing.
pub open spec fn labelled(entries: Seq<(Doc, Doc)>, key: Seq<char>, value: Seq<char>) -> bool {
    exists|i: int|
        0 <= i < entries.len() && (#[trigger] entries[i]).0.text() == Some(key) && entries[i].1.text()
            == Some(value)
}

/// The labels of a resource: the entries of `metadata.labels`, none where
/// that is no mapping.
pub open spec fn labels(doc: Doc) -> Seq<(Doc, Doc)> {
    match doc.field("metadata"@).field("labels"@).entries() {
        Some(entries) => entries,
        None => Seq::empty(),
    }
}

/// Whether the resource carries the label `key` with the value `value`.
pub open spec fn has_label(doc: Doc, key: Seq<char>, value: Seq<char>) -> bool {
    labelled(labels(doc), key, value)
}

/// Whether the resource satisfies one clause.
pub open spec fn satisfies(doc: Doc, clause: Clause) -> bool {
    match clause.operator {
        Operator::Eq => has_label(doc, clause.key, clause.value),
        Operator::Ne => !has_label(doc, clause.key, clause.value),
    }
}

/// The selector that is made of one clause.
pub open spec fn single(key: Seq<char>, value: Seq<char>, operator: Operator) -> Option<Seq<Clause>> {
    Some(seq![Clause { key, value, operator }])
}

/// Whether the resource satisfies every one of the clauses.
pub open spec fn satisfies_all(doc: Doc, list: Seq<Clause>) -> bool {
    forall|i: int| 0 <= i < list.len() ==> satisfies(doc, #[trigger] list[i])
}

/// Whether the resource is selected: it satisfies every clause. Without a
/// selector every resource is selected.
pub open spec fn selected(doc: Doc, selector: Option<Seq<Clause>>) -> bool {
    match selector {
        Some(list) => satisfies_all(doc, list),
        None => true,
    }
}

/// Whether the entries label something with `key` and `value`.
fn entries_label(entries: &Vec<(Node, Node)>, key: &str, value: &str) -> (r: bool)
    ensures
        r == labelled(pairs(entries@), key@, value@),
{
    let mut i: usize = 0;
    while i < entries.len()
        invariant
            i <= entries.len(),
            forall|j: int|
                0 <= j < i ==> !((#[trigger] pairs(entries@)[j]).0.text() == Some(key@) && pairs(
                    entries@,
                )[j].1.text() == Some(value@)),
        decreases entries.len() - i,
    {
        if text_is(Some(&entries[i].0), key) && text_is(Some(&entries[i].1), value) {
            assert(pairs(entries@)[i as int].0.text() == Some(key@));
            return true;
        }
        i += 1;
    }
    false
}

/// Whether the resource carries the label `key` with the value `value`.
pub fn node_has_label(doc: &Node, key: &str, value: &str) -> (r: bool)
    ensures
        r == has_label(doc@, key@, value@),
{
    let found = child(child(Some(doc), "metadata"), "labels");
    match found {
        Some(node) => match node.as_mapping() {
            Some(entries) => entries_label(entries, key, value),
            None => false,
        },
        None => false,
    }
}

/// Whether the resource satisfies one clause.
pub fn node_satisfies(doc: &Node, clause: &Selector) -> (r: bool)
    ensures
        r == satisfies(doc@, clause@),
{
    let found = node_has_label(doc, clause.key.as_str(), clause.value.as_str());
    match clause.operator {
        Operator::Eq => found,
        Operator::Ne => !found,
    }
}

/// Whether the resource satisfies every clause of the selector, if one is
/// set.
pub fn node_selected(doc: &Node, selector: &Option<Vec<Selector>>) -> (r: bool)
    ensures
        r == selected(doc@, clauses(*selector)),
{
    match selector {
        Some(list) => {
            let ghost all = Seq::new(list.len() as nat, |k: int| list[k]@);
            let mut i: usize = 0;
            while i < list.len()
                invariant
                    i <= list.len(),
                    all == Seq::new(list.len() as nat, |k: int| list[k]@),
                    clauses(*selector) == Some(all),
                    forall|j: int| 0 <= j < i ==> satisfies(doc@, #[trigger] all[j]),
                decreases list.len() - i,
            {
                if !node_satisfies(doc, &list[i]) {
                    assert(!satisfies(doc@, all[i as int]));
                    return false;
                }
                i += 1;
            }
            true
        },
        None => true,
    }
}

} // verus!
