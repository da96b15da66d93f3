//! The schema-less document tree: its mathematical model, the executable
//! tree, and field access that never assumes a key exists.

use vstd::prelude::*;

verus! {

/// `serde_yaml::Number`: a YAML number. The library only carries numbers
/// through, it never looks inside one.
#[verifier::external_type_specification]
#[verifier::external_body]
pub struct ExNumber(serde_yaml::Number);

/// `serde_yaml::value::Tag`: the `!tag` in front of a tagged YAML value. The
/// library only carries tags through.
#[verifier::external_type_specification]
#[verifier::external_body]
pub struct ExTag(serde_yaml::value::Tag);

/// A document tree as a mathematical value: the model of [`Node`].
pub enum Doc {
    Null,
    Bool(bool),
    Number(serde_yaml::Number),
    Text(Seq<char>),
    List(Seq<Doc>),
    /// Entries in document order; a key may be any tree.
    Table(Seq<(Doc, Doc)>),
    Tagged(serde_yaml::value::Tag, Box<Doc>),
}

/// Where the first entry keyed by the text `key` stands in `entries`;
/// `entries.len()` when there is none.
pub open spec fn key_index(entries: Seq<(Doc, Doc)>, key: Seq<char>) -> int
    decreases entries.len(),
{
    if entries.len() == 0 {
        0
    } else if entries[0].0 == Doc::Text(key) {
        0
    } else {
        1 + key_index(entries.drop_first(), key)
    }
}

/// Whether some entry is keyed by the text `key`.
pub open spec fn has_key(entries: Seq<(Doc, Doc)>, key: Seq<char>) -> bool {
    key_index(entries, key) < entries.len()
}

/// The entries with `key` bound to `value`: an existing entry keeps its place,
/// a new one goes to the end.
pub open spec fn put(entries: Seq<(Doc, Doc)>, key: Seq<char>, value: Doc) -> Seq<(Doc, Doc)> {
    let i = key_index(entries, key);
    if i < entries.len() {
        entries.update(i, (entries[i].0, value))
    } else {
        entries.push((Doc::Text(key), value))
    }
}

/// The entries without the first one keyed by `key`: the last entry takes the
/// place of the one that leaves.
pub open spec fn cut(entries: Seq<(Doc, Doc)>, key: Seq<char>) -> Seq<(Doc, Doc)> {
    let i = key_index(entries, key);
    if i < entries.len() {
        entries.update(i, entries.last()).drop_last()
    } else {
        entries
    }
}

/// No two entries are keyed by the same text.
pub open spec fn distinct_keys(entries: Seq<(Doc, Doc)>) -> bool {
    forall|i: int, j: int|
        0 <= i < j < entries.len() && entries[i].0 is Text ==> #[trigger] entries[i].0
            != #[trigger] entries[j].0
}

impl Doc {
    /// The tree under any tags.
    pub open spec fn untagged(self) -> Doc
        decreases self,
    {
        match self {
            Doc::Tagged(_, inner) => inner.untagged(),
            _ => self,
        }
    }

    /// The text of a (possibly tagged) string.
    pub open spec fn text(self) -> Option<Seq<char>> {
        match self.untagged() {
            Doc::Text(s) => Some(s),
            _ => None,
        }
    }

    /// The entries of a (possibly tagged) table.
    pub open spec fn entries(self) -> Option<Seq<(Doc, Doc)>> {
        match self.untagged() {
            Doc::Table(entries) => Some(entries),
            _ => None,
        }
    }

    /// The items of a (possibly tagged) list.
    pub open spec fn items(self) -> Option<Seq<Doc>> {
        match self.untagged() {
            Doc::List(items) => Some(items),
            _ => None,
        }
    }

    /// The value under `key` in a (possibly tagged) table.
    pub open spec fn lookup(self, key: Seq<char>) -> Option<Doc> {
        match self.untagged() {
            Doc::Table(entries) => if has_key(entries, key) {
                Some(entries[key_index(entries, key)].1)
            } else {
                None
            },
            _ => None,
        }
    }

    /// The value under `key`, or `Null` where there is none.
    pub open spec fn field(self, key: Seq<char>) -> Doc {
        match self.lookup(key) {
            Some(value) => value,
            None => Doc::Null,
        }
    }

    /// The tree with `key` bound to `value`. Tags are kept, a table gets the
    /// binding, and anything else gives way to a table of that one entry.
    pub open spec fn with_field(self, key: Seq<char>, value: Doc) -> Doc
        decreases self,
    {
        match self {
            Doc::Tagged(tag, inner) => Doc::Tagged(tag, Box::new(inner.with_field(key, value))),
            Doc::Table(entries) => Doc::Table(put(entries, key, value)),
            _ => Doc::Table(seq![(Doc::Text(key), value)]),
        }
    }

    /// The tree with the entry under `key` taken out of a (possibly tagged)
    /// table; any other tree is left as it is.
    pub open spec fn without_field(self, key: Seq<char>) -> Doc
        decreases self,
    {
        match self {
            Doc::Tagged(tag, inner) => Doc::Tagged(tag, Box::new(inner.without_field(key))),
            Doc::Table(entries) => Doc::Table(cut(entries, key)),
            _ => self,
        }
    }

    /// Every table in the tree, at any depth, has distinct text keys.
    pub open spec fn well_formed(self) -> bool
        decreases self,
    {
        match self {
            Doc::List(items) => forall|i: int|
                0 <= i < items.len() ==> (#[trigger] items[i]).well_formed(),
            Doc::Table(entries) => {
                &&& distinct_keys(entries)
                &&& forall|i: int|
                    0 <= i < entries.len() ==> {
                        &&& (#[trigger] entries[i]).0.well_formed()
                        &&& entries[i].1.well_formed()
                    }
            },
            Doc::Tagged(_, inner) => inner.well_formed(),
            _ => true,
        }
    }
}

/// A document tree: mapping, sequence, scalar or null, with YAML tags kept.
#[derive(Debug, PartialEq)]
pub enum Node {
    Null,
    Bool(bool),
    Number(serde_yaml::Number),
    String(String),
    Sequence(Vec<Node>),
    /// Entries in document order.
    Mapping(Vec<(Node, Node)>),
    Tagged(serde_yaml::value::Tag, Box<Node>),
}

impl Node {
    /// The model of the node.
    pub open spec fn doc(&self) -> Doc
        decreases self,
    {
        match self {
            Node::Null => Doc::Null,
            Node::Bool(b) => Doc::Bool(*b),
            Node::Number(n) => Doc::Number(*n),
            Node::String(s) => Doc::Text(s@),
            Node::Sequence(items) => Doc::List(docs(items@)),
            Node::Mapping(entries) => Doc::Table(pairs(entries@)),
            Node::Tagged(tag, inner) => Doc::Tagged(*tag, Box::new(inner.doc())),
        }
    }
}

/// The models of a sequence of nodes.
pub open spec fn docs(items: Seq<Node>) -> Seq<Doc>
    decreases items,
{
    Seq::new(
        items.len(),
        |i: int|
            if 0 <= i < items.len() {
                items[i].doc()
            } else {
                Doc::Null
            },
    )
}

/// The models of a sequence of entries.
pub open spec fn pairs(entries: Seq<(Node, Node)>) -> Seq<(Doc, Doc)>
    decreases entries,
{
    Seq::new(
        entries.len(),
        |i: int|
            if 0 <= i < entries.len() {
                (entries[i].0.doc(), entries[i].1.doc())
            } else {
                (Doc::Null, Doc::Null)
            },
    )
}

impl View for Node {
    type V = Doc;

    open spec fn view(&self) -> Doc {
        self.doc()
    }
}

/// `key_index` is the first place where the key stands, and stays within the
/// entries.
pub proof fn lemma_key_index(entries: Seq<(Doc, Doc)>, key: Seq<char>)
    ensures
        0 <= key_index(entries, key) <= entries.len(),
        has_key(entries, key) ==> entries[key_index(entries, key)].0 == Doc::Text(key),
        forall|j: int| 0 <= j < key_index(entries, key) ==> (#[trigger] entries[j]).0 != Doc::Text(key),
    decreases entries.len(),
{
    if entries.len() > 0 && entries[0].0 != Doc::Text(key) {
        let rest = entries.drop_first();
        lemma_key_index(rest, key);
        assert forall|j: int| 0 <= j < key_index(entries, key) implies (#[trigger] entries[j]).0
            != Doc::Text(key) by {
            if j > 0 {
                assert(entries[j] == rest[j - 1]);
            }
        }
    }
}

/// A place before which the key does not stand, and at which it stands or
/// the entries end, is `key_index`.
pub proof fn lemma_key_index_is(entries: Seq<(Doc, Doc)>, key: Seq<char>, i: int)
    requires
        0 <= i <= entries.len(),
        forall|j: int| 0 <= j < i ==> (#[trigger] entries[j]).0 != Doc::Text(key),
        i < entries.len() ==> entries[i].0 == Doc::Text(key),
    ensures
        key_index(entries, key) == i,
    decreases entries.len(),
{
    if entries.len() > 0 && i > 0 {
        let rest = entries.drop_first();
        assert forall|j: int| 0 <= j < i - 1 implies (#[trigger] rest[j]).0 != Doc::Text(key) by {
            assert(rest[j] == entries[j + 1]);
        }
        assert(entries[0].0 != Doc::Text(key));
        lemma_key_index_is(rest, key, i - 1);
    }
}

/// After `put`, the key is bound to the value, at the place where it stood
/// or at the end.
pub proof fn lemma_put_same(entries: Seq<(Doc, Doc)>, key: Seq<char>, value: Doc)
    ensures
        has_key(put(entries, key, value), key),
        key_index(put(entries, key, value), key) == key_index(entries, key),
        put(entries, key, value)[key_index(entries, key)].1 == value,
{
    lemma_key_index(entries, key);
    lemma_key_index_is(put(entries, key, value), key, key_index(entries, key));
}

/// `put` leaves every other key where it stood, with its value.
pub proof fn lemma_put_other(entries: Seq<(Doc, Doc)>, key: Seq<char>, value: Doc, other: Seq<char>)
    requires
        key != other,
    ensures
        has_key(put(entries, key, value), other) == has_key(entries, other),
        has_key(entries, other) ==> {
            &&& key_index(put(entries, key, value), other) == key_index(entries, other)
            &&& put(entries, key, value)[key_index(entries, other)].1 == entries[key_index(
                entries,
                other,
            )].1
        },
{
    let after = put(entries, key, value);
    lemma_key_index(entries, key);
    lemma_key_index(entries, other);
    assert(Doc::Text(key) != Doc::Text(other));
    if has_key(entries, other) {
        lemma_key_index_is(after, other, key_index(entries, other));
    } else {
        lemma_key_index_is(after, other, after.len() as int);
    }
}

/// With distinct keys, `cut` leaves no entry under the key.
pub proof fn lemma_cut_same(entries: Seq<(Doc, Doc)>, key: Seq<char>)
    requires
        distinct_keys(entries),
    ensures
        !has_key(cut(entries, key), key),
{
    let after = cut(entries, key);
    lemma_key_index(entries, key);
    let i = key_index(entries, key);
    if i < entries.len() {
        assert forall|j: int| 0 <= j < after.len() implies (#[trigger] after[j]).0 != Doc::Text(
            key,
        ) by {
            let from = if j == i {
                entries.len() - 1
            } else {
                j
            };
            assert(after[j] == entries[from]);
            if from < i {
                assert(entries[from].0 != Doc::Text(key));
            } else {
                assert(entries[i].0 != entries[from].0);
            }
        }
    }
    lemma_key_index_is(after, key, after.len() as int);
}

/// With distinct keys, `cut` leaves every other key bound to its value.
pub proof fn lemma_cut_other(entries: Seq<(Doc, Doc)>, key: Seq<char>, other: Seq<char>)
    requires
        key != other,
        distinct_keys(entries),
    ensures
        has_key(cut(entries, key), other) == has_key(entries, other),
        has_key(entries, other) ==> cut(entries, key)[key_index(cut(entries, key), other)].1
            == entries[key_index(entries, other)].1,
{
    let after = cut(entries, key);
    lemma_key_index(entries, key);
    lemma_key_index(entries, other);
    let i = key_index(entries, key);
    let j = key_index(entries, other);
    let last = entries.len() - 1;
    assert(Doc::Text(key) != Doc::Text(other));
    if i < entries.len() {
        if j < entries.len() {
            let to = if j == last {
                i
            } else {
                j
            };
            assert(after[to] == entries[j]);
            assert forall|m: int| 0 <= m < to implies (#[trigger] after[m]).0 != Doc::Text(
                other,
            ) by {
                if m == i {
                    assert(after[m] == entries[last]);
                    assert(entries[j].0 != entries[last].0);
                } else {
                    assert(after[m] == entries[m]);
                }
            }
            lemma_key_index_is(after, other, to);
        } else {
            assert forall|m: int| 0 <= m < after.len() implies (#[trigger] after[m]).0
                != Doc::Text(other) by {
                if m == i {
                    assert(after[m] == entries[last]);
                } else {
                    assert(after[m] == entries[m]);
                }
            }
            lemma_key_index_is(after, other, after.len() as int);
        }
    }
}

/// `put` keeps the keys distinct.
pub proof fn lemma_put_distinct(entries: Seq<(Doc, Doc)>, key: Seq<char>, value: Doc)
    requires
        distinct_keys(entries),
    ensures
        distinct_keys(put(entries, key, value)),
{
    let after = put(entries, key, value);
    lemma_key_index(entries, key);
    let i = key_index(entries, key);
    assert forall|a: int, b: int| 0 <= a < b < after.len() && after[a].0 is Text implies (
    #[trigger] after[a].0) != (#[trigger] after[b].0) by {
        if i < entries.len() {
            assert(after[a].0 == entries[a].0);
            assert(after[b].0 == entries[b].0);
        } else if b < entries.len() {
            assert(after[a].0 == entries[a].0);
            assert(after[b].0 == entries[b].0);
        } else {
            assert(after[a] == entries[a]);
            assert(entries[a].0 != Doc::Text(key));
        }
    }
}

/// `cut` keeps the keys distinct.
pub proof fn lemma_cut_distinct(entries: Seq<(Doc, Doc)>, key: Seq<char>)
    requires
        distinct_keys(entries),
    ensures
        distinct_keys(cut(entries, key)),
{
    let after = cut(entries, key);
    lemma_key_index(entries, key);
    let i = key_index(entries, key);
    let last = entries.len() - 1;
    if i < entries.len() {
        assert forall|a: int, b: int| 0 <= a < b < after.len() && after[a].0 is Text implies (
        #[trigger] after[a].0) != (#[trigger] after[b].0) by {
            let from_a = if a == i {
                last
            } else {
                a
            };
            let from_b = if b == i {
                last
            } else {
                b
            };
            assert(after[a] == entries[from_a]);
            assert(after[b] == entries[from_b]);
            if from_a < from_b {
                assert(entries[from_a].0 != entries[from_b].0);
            } else if entries[from_b].0 is Text {
                assert(entries[from_b].0 != entries[from_a].0);
            }
        }
    }
}

impl Doc {
    /// A key that was bound is found, with the value it was bound to.
    pub proof fn lemma_with_field_same(self, key: Seq<char>, value: Doc)
        ensures
            self.with_field(key, value).lookup(key) == Some(value),
        decreases self,
    {
        match self {
            Doc::Tagged(_, inner) => {
                inner.lemma_with_field_same(key, value);
            },
            Doc::Table(entries) => {
                lemma_put_same(entries, key, value);
            },
            _ => {
                lemma_put_same(Seq::empty(), key, value);
                assert(put(Seq::empty(), key, value) =~= seq![(Doc::Text(key), value)]);
            },
        }
    }

    /// Binding one key leaves what is found under another.
    pub proof fn lemma_with_field_other(self, key: Seq<char>, value: Doc, other: Seq<char>)
        requires
            key != other,
        ensures
            self.with_field(key, value).lookup(other) == self.lookup(other),
        decreases self,
    {
        match self {
            Doc::Tagged(_, inner) => {
                inner.lemma_with_field_other(key, value, other);
            },
            Doc::Table(entries) => {
                lemma_put_other(entries, key, value, other);
            },
            _ => {
                lemma_put_other(Seq::empty(), key, value, other);
                assert(put(Seq::empty(), key, value) =~= seq![(Doc::Text(key), value)]);
            },
        }
    }

    /// In a well-formed tree, a key that was taken out is not found.
    pub proof fn lemma_without_field_same(self, key: Seq<char>)
        requires
            self.well_formed(),
        ensures
            self.without_field(key).lookup(key) is None,
        decreases self,
    {
        match self {
            Doc::Tagged(_, inner) => {
                inner.lemma_without_field_same(key);
            },
            Doc::Table(entries) => {
                lemma_cut_same(entries, key);
            },
            _ => {},
        }
    }

    /// In a well-formed tree, taking one key out leaves what is found under
    /// another.
    pub proof fn lemma_without_field_other(self, key: Seq<char>, other: Seq<char>)
        requires
            key != other,
            self.well_formed(),
        ensures
            self.without_field(key).lookup(other) == self.lookup(other),
        decreases self,
    {
        match self {
            Doc::Tagged(_, inner) => {
                inner.lemma_without_field_other(key, other);
            },
            Doc::Table(entries) => {
                lemma_cut_other(entries, key, other);
            },
            _ => {},
        }
    }

    /// What is found in a well-formed tree is well formed.
    pub proof fn lemma_field_well_formed(self, key: Seq<char>)
        requires
            self.well_formed(),
        ensures
            self.field(key).well_formed(),
        decreases self,
    {
        match self {
            Doc::Tagged(_, inner) => {
                inner.lemma_field_well_formed(key);
            },
            Doc::Table(entries) => {
                lemma_key_index(entries, key);
                if has_key(entries, key) {
                    assert(entries[key_index(entries, key)].1.well_formed());
                }
            },
            _ => {},
        }
    }

    /// Binding a key to a well-formed value keeps the tree well formed.
    pub proof fn lemma_with_field_well_formed(self, key: Seq<char>, value: Doc)
        requires
            self.well_formed(),
            value.well_formed(),
        ensures
            self.with_field(key, value).well_formed(),
        decreases self,
    {
        match self {
            Doc::Tagged(_, inner) => {
                inner.lemma_with_field_well_formed(key, value);
            },
            Doc::Table(entries) => {
                let after = put(entries, key, value);
                lemma_put_distinct(entries, key, value);
                lemma_key_index(entries, key);
                assert forall|i: int| 0 <= i < after.len() implies {
                    &&& (#[trigger] after[i]).0.well_formed()
                    &&& after[i].1.well_formed()
                } by {
                    if i < entries.len() {
                        assert(entries[i].0.well_formed());
                        assert(entries[i].1.well_formed());
                    }
                }
            },
            _ => {
                let after = seq![(Doc::Text(key), value)];
                assert(distinct_keys(after));
                assert forall|i: int| 0 <= i < after.len() implies {
                    &&& (#[trigger] after[i]).0.well_formed()
                    &&& after[i].1.well_formed()
                } by {}
            },
        }
    }

    /// Taking a key out keeps the tree well formed.
    pub proof fn lemma_without_field_well_formed(self, key: Seq<char>)
        requires
            self.well_formed(),
        ensures
            self.without_field(key).well_formed(),
        decreases self,
    {
        match self {
            Doc::Tagged(_, inner) => {
                inner.lemma_without_field_well_formed(key);
            },
            Doc::Table(entries) => {
                let after = cut(entries, key);
                lemma_cut_distinct(entries, key);
                lemma_key_index(entries, key);
                assert forall|i: int| 0 <= i < after.len() implies {
                    &&& (#[trigger] after[i]).0.well_formed()
                    &&& after[i].1.well_formed()
                } by {
                    let from = if after[i] == entries[i] {
                        i
                    } else {
                        entries.len() - 1
                    };
                    assert(after[i] == entries[from]);
                    assert(entries[from].0.well_formed());
                    assert(entries[from].1.well_formed());
                }
            },
            _ => {},
        }
    }

    /// Binding a key to the value it already has changes nothing.
    pub proof fn lemma_with_field_again(self, key: Seq<char>)
        requires
            self.lookup(key) is Some,
        ensures
            self.with_field(key, self.lookup(key)->0) == self,
        decreases self,
    {
        match self {
            Doc::Tagged(_, inner) => {
                inner.lemma_with_field_again(key);
            },
            Doc::Table(entries) => {
                lemma_key_index(entries, key);
                assert(put(entries, key, self.lookup(key)->0) =~= entries);
            },
            _ => {},
        }
    }
}

/// Where the first entry keyed by the string `key` stands; the length when
/// there is none.
fn find_key(entries: &Vec<(Node, Node)>, key: &str) -> (i: usize)
    ensures
        i == key_index(pairs(entries@), key@),
        i <= entries.len(),
{
    let wanted = key.to_owned();
    let mut i: usize = 0;
    while i < entries.len()
        invariant
            i <= entries.len(),
            wanted@ == key@,
            forall|j: int| 0 <= j < i ==> (#[trigger] pairs(entries@)[j]).0 != Doc::Text(key@),
        decreases entries.len() - i,
    {
        let hit = match &entries[i].0 {
            Node::String(s) => *s == wanted,
            _ => false,
        };
        if hit {
            proof {
                lemma_key_index_is(pairs(entries@), key@, i as int);
            }
            return i;
        }
        i += 1;
    }
    proof {
        lemma_key_index_is(pairs(entries@), key@, i as int);
    }
    i
}

impl Node {
    /// The node under any tags.
    pub fn untagged(&self) -> (r: &Node)
        ensures
            r@ == self@.untagged(),
            !(r@ is Tagged),
        decreases self,
    {
        match self {
            Node::Tagged(_, inner) => inner.untagged(),
            _ => self,
        }
    }

    /// The text of a (possibly tagged) string node.
    pub fn as_str(&self) -> (r: Option<&str>)
        ensures
            match r {
                Some(s) => self@.text() == Some(s@),
                None => self@.text() is None,
            },
    {
        match self.untagged() {
            Node::String(s) => Some(s.as_str()),
            _ => None,
        }
    }

    /// The entries of a (possibly tagged) mapping node.
    pub fn as_mapping(&self) -> (r: Option<&Vec<(Node, Node)>>)
        ensures
            match r {
                Some(entries) => self@.entries() == Some(pairs(entries@)),
                None => self@.entries() is None,
            },
    {
        match self.untagged() {
            Node::Mapping(entries) => Some(entries),
            _ => None,
        }
    }

    /// The items of a (possibly tagged) sequence node.
    pub fn as_sequence(&self) -> (r: Option<&Vec<Node>>)
        ensures
            match r {
                Some(items) => self@.items() == Some(docs(items@)),
                None => self@.items() is None,
            },
    {
        match self.untagged() {
            Node::Sequence(items) => Some(items),
            _ => None,
        }
    }

    /// The value under `key`, if this is a (possibly tagged) mapping that has
    /// the key.
    pub fn get(&self, key: &str) -> (r: Option<&Node>)
        ensures
            match r {
                Some(value) => self@.lookup(key@) == Some(value@),
                None => self@.lookup(key@) is None,
            },
    {
        match self.as_mapping() {
            Some(entries) => {
                let i = find_key(entries, key);
                if i < entries.len() {
                    Some(&entries[i].1)
                } else {
                    None
                }
            },
            None => None,
        }
    }

    /// Whether this is a (possibly tagged) mapping that has the key.
    pub fn contains_key(&self, key: &str) -> (r: bool)
        ensures
            r == self@.lookup(key@) is Some,
    {
        self.get(key).is_some()
    }

    /// Binds `key` to `value`: under the tags, in the mapping; a node that is
    /// no mapping becomes a mapping of that one entry.
    pub fn set(&mut self, key: &str, value: Node)
        ensures
            final(self)@ == old(self)@.with_field(key@, value@),
            old(self)@.well_formed() && value@.well_formed() ==> final(self)@.well_formed(),
        decreases *old(self),
    {
        proof {
            if self@.well_formed() && value@.well_formed() {
                self@.lemma_with_field_well_formed(key@, value@);
            }
        }
        match self {
            Node::Tagged(_, inner) => {
                inner.set(key, value);
            },
            Node::Mapping(entries) => {
                let ghost before = *entries;
                let i = find_key(entries, key);
                if i < entries.len() {
                    entries[i].1 = value;
                } else {
                    entries.push((Node::String(key.to_owned()), value));
                }
                assert(pairs(entries@) =~= put(pairs(before@), key@, value@));
            },
            _ => {
                let mut entries: Vec<(Node, Node)> = Vec::new();
                entries.push((Node::String(key.to_owned()), value));
                assert(pairs(entries@) =~= seq![(Doc::Text(key@), value@)]);
                *self = Node::Mapping(entries);
            },
        }
    }

    /// Takes the entry under `key` out of a (possibly tagged) mapping; the
    /// last entry moves into its place.
    pub fn remove(&mut self, key: &str)
        ensures
            final(self)@ == old(self)@.without_field(key@),
            old(self)@.well_formed() ==> final(self)@.well_formed(),
        decreases *old(self),
    {
        proof {
            if self@.well_formed() {
                self@.lemma_without_field_well_formed(key@);
            }
        }
        match self {
            Node::Tagged(_, inner) => {
                inner.remove(key);
            },
            Node::Mapping(entries) => {
                let ghost before = *entries;
                let i = find_key(entries, key);
                if i < entries.len() {
                    let _ = entries.swap_remove(i);
                }
                assert(pairs(entries@) =~= cut(pairs(before@), key@));
            },
            _ => {},
        }
    }

    /// The place of the value under `key`, for changing it where it stands.
    pub fn get_mut(&mut self, key: &str) -> (r: Option<&mut Node>)
        ensures
            match r {
                Some(slot) => {
                    &&& old(self)@.lookup(key@) == Some((*slot)@)
                    &&& final(self)@ == old(self)@.with_field(key@, (*final(slot))@)
                },
                None => old(self)@.lookup(key@) is None && final(self)@ == old(self)@,
            },
        decreases *old(self),
    {
        match self {
            Node::Tagged(_, inner) => inner.get_mut(key),
            Node::Mapping(entries) => {
                let i = find_key(entries, key);
                let ghost before = *entries;
                if i < entries.len() {
                    let ghost after = *final(entries);
                    let slot = &mut entries[i].1;
                    assert(pairs(after@) =~= put(pairs(before@), key@, (*final(slot))@));
                    Some(slot)
                } else {
                    None
                }
            },
            _ => None,
        }
    }
}

/// Whether two strings hold the same text.
pub fn same_text(a: &str, b: &str) -> (r: bool)
    ensures
        r == (a@ == b@),
{
    a.to_owned() == b.to_owned()
}

/// What an optional node stands for: a missing one for `Null`.
pub open spec fn doc_of(node: Option<&Node>) -> Doc {
    match node {
        Some(n) => n@,
        None => Doc::Null,
    }
}

/// The field `key` of an optional node; a missing node has no fields.
pub fn child<'a>(node: Option<&'a Node>, key: &str) -> (r: Option<&'a Node>)
    ensures
        match r {
            Some(value) => doc_of(node).lookup(key@) == Some(value@),
            None => doc_of(node).lookup(key@) is None,
        },
        doc_of(r) == doc_of(node).field(key@),
{
    match node {
        Some(n) => n.get(key),
        None => None,
    }
}

/// The text of an optional node, if it is a string.
pub fn text_of<'a>(node: Option<&'a Node>) -> (r: Option<&'a str>)
    ensures
        match r {
            Some(s) => doc_of(node).text() == Some(s@),
            None => doc_of(node).text() is None,
        },
{
    match node {
        Some(n) => n.as_str(),
        None => None,
    }
}

/// Whether the node is a string with exactly the text `wanted`.
pub fn text_is(node: Option<&Node>, wanted: &str) -> (r: bool)
    ensures
        r == (doc_of(node).text() == Some(wanted@)),
{
    match text_of(node) {
        Some(s) => same_text(s, wanted),
        None => false,
    }
}

} // verus!
