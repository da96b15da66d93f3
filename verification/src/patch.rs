//! The rewrite rules: what is changed in a kept resource before it is
//! written out.

use crate::classify::ApplicationKind;
use crate::laws::{law_patched_basics, law_patched_well_formed};
use crate::tree::{docs, Doc, Node};
use vstd::prelude::*;

verus! {

/// Whether `part` occurs in `text` as a run of consecutive characters.
pub open spec fn contains(text: Seq<char>, part: Seq<char>) -> bool {
    exists|i: int| occurs_at(text, part, i)
}

/// Whether `part` stands in `text` at the place `i`.
pub open spec fn occurs_at(text: Seq<char>, part: Seq<char>, i: int) -> bool {
    0 <= i && i + part.len() <= text.len() && text.subrange(i, i + part.len()) == part
}

/// The resource with `metadata.namespace` set to `argocd`.
pub open spec fn namespaced(doc: Doc) -> Doc {
    doc.with_field(
        "metadata"@,
        doc.field("metadata"@).with_field("namespace"@, Doc::Text("argocd"@)),
    )
}

/// Where the spec of a resource stands: under `spec` for an Application,
/// under `spec.template.spec` for an ApplicationSet.
pub open spec fn spec_of(doc: Doc, kind: ApplicationKind) -> Doc {
    match kind {
        ApplicationKind::Application => doc.field("spec"@),
        ApplicationKind::ApplicationSet => doc.field("spec"@).field("template"@).field("spec"@),
    }
}

/// Whether the resource has a spec to rewrite: a mapping stands at the place
/// of its spec.
pub open spec fn resolves(doc: Doc, kind: ApplicationKind) -> bool {
    spec_of(doc, kind).entries() is Some
}

/// The resource with `spec` in the place of its spec.
pub open spec fn with_spec(doc: Doc, kind: ApplicationKind, spec: Doc) -> Doc {
    match kind {
        ApplicationKind::Application => doc.with_field("spec"@, spec),
        ApplicationKind::ApplicationSet => {
            let outer = doc.field("spec"@);
            let template = outer.field("template"@);
            doc.with_field(
                "spec"@,
                outer.with_field("template"@, template.with_field("spec"@, spec)),
            )
        },
    }
}

/// A destination that points to the cluster Argo CD runs in: named
/// `in-cluster`, with no server.
pub open spec fn in_cluster(destination: Doc) -> Doc {
    destination.with_field("name"@, Doc::Text("in-cluster"@)).without_field("server"@)
}

/// The spec with its destination, if it has one, pointing in-cluster.
pub open spec fn with_local_destination(spec: Doc) -> Doc {
    match spec.lookup("destination"@) {
        Some(destination) => spec.with_field("destination"@, in_cluster(destination)),
        None => spec,
    }
}

/// Whether a source is redirected: it has no `chart` field, and its
/// `repoURL` is a string in which `repo` occurs.
pub open spec fn follows(source: Doc, repo: Seq<char>) -> bool {
    &&& source.lookup("chart"@) is None
    &&& match source.field("repoURL"@).text() {
        Some(url) => contains(url, repo),
        None => false,
    }
}

/// The source with `targetRevision` set to `branch`, if it is redirected.
pub open spec fn redirected(source: Doc, branch: Seq<char>, repo: Seq<char>) -> Doc {
    if follows(source, repo) {
        source.with_field("targetRevision"@, Doc::Text(branch))
    } else {
        source
    }
}

/// A (possibly tagged) list of sources, each redirected by itself; anything
/// but a list is left as it is.
pub open spec fn redirected_each(list: Doc, branch: Seq<char>, repo: Seq<char>) -> Doc
    decreases list,
{
    match list {
        Doc::Tagged(tag, inner) => Doc::Tagged(
            tag,
            Box::new(redirected_each(*inner, branch, repo)),
        ),
        Doc::List(items) => Doc::List(items.map_values(|source: Doc| redirected(source, branch, repo))),
        _ => list,
    }
}

/// The spec with its sources redirected: `source` where there is one, else
/// the entries of `sources`.
pub open spec fn with_redirected_sources(spec: Doc, branch: Seq<char>, repo: Seq<char>) -> Doc {
    match spec.lookup("source"@) {
        Some(source) => spec.with_field("source"@, redirected(source, branch, repo)),
        None => match spec.lookup("sources"@) {
            Some(list) => spec.with_field("sources"@, redirected_each(list, branch, repo)),
            None => spec,
        },
    }
}

/// The spec after the four rules, in their order: no sync policy, the
/// default project, an in-cluster destination, redirected sources.
pub open spec fn patched_spec(spec: Doc, branch: Seq<char>, repo: Seq<char>) -> Doc {
    let cleaned = spec.without_field("syncPolicy"@);
    let defaulted = cleaned.with_field("project"@, Doc::Text("default"@));
    let local = with_local_destination(defaulted);
    with_redirected_sources(local, branch, repo)
}

/// The resource after patching, `None` where it has no spec to rewrite and
/// is dropped.
pub open spec fn patched(doc: Doc, kind: ApplicationKind, branch: Seq<char>, repo: Seq<char>) -> Option<Doc> {
    let named = namespaced(doc);
    if resolves(named, kind) {
        Some(with_spec(named, kind, patched_spec(spec_of(named, kind), branch, repo)))
    } else {
        None
    }
}

/// What every patched resource shows: the namespace `argocd`, no sync
/// policy, and the project `default`.
pub open spec fn has_basics(doc: Doc, kind: ApplicationKind) -> bool {
    &&& doc.field("metadata"@).field("namespace"@).text() == Some("argocd"@)
    &&& spec_of(doc, kind).lookup("syncPolicy"@) is None
    &&& spec_of(doc, kind).field("project"@).text() == Some("default"@)
}

/// The characters of a string.
fn chars_of(text: &str) -> (out: Vec<char>)
    ensures
        out@ == text@,
{
    let mut out: Vec<char> = Vec::new();
    for c in it: text.chars()
        invariant
            it.seq() == text@,
            out@ == text@.take(it.index() as int),
    {
        out.push(c);
        assert(out@ =~= text@.take(it.index() + 1));
    }
    assert(text@.take(text@.len() as int) =~= text@);
    out
}

/// Whether `part` stands in `text` at the place `at`.
fn stands_at(text: &Vec<char>, part: &Vec<char>, at: usize) -> (r: bool)
    requires
        at + part.len() <= text.len(),
    ensures
        r == occurs_at(text@, part@, at as int),
{
    let mut k: usize = 0;
    while k < part.len()
        invariant
            k <= part.len(),
            at + part.len() <= text.len(),
            forall|j: int| 0 <= j < k ==> text@[at + j] == part@[j],
        decreases part.len() - k,
    {
        if text[at + k] != part[k] {
            assert(text@.subrange(at as int, at + part.len())[k as int] == text@[at + k]);
            return false;
        }
        k += 1;
    }
    assert(text@.subrange(at as int, at + part.len()) =~= part@);
    true
}

/// Whether `part` occurs in `text`.
pub fn contains_text(text: &str, part: &str) -> (r: bool)
    ensures
        r == contains(text@, part@),
{
    let hay = chars_of(text);
    let needle = chars_of(part);
    if needle.len() == 0 {
        assert(occurs_at(text@, part@, 0)) by {
            assert(text@.subrange(0, 0) =~= part@);
        }
        return true;
    }
    if needle.len() > hay.len() {
        return false;
    }
    let last: usize = hay.len() - needle.len();
    let mut at: usize = 0;
    while at <= last
        invariant
            at <= last + 1,
            last == hay.len() - needle.len(),
            needle.len() > 0,
            hay@ == text@,
            needle@ == part@,
            forall|j: int| 0 <= j < at ==> !occurs_at(text@, part@, j),
        decreases last + 1 - at,
    {
        if stands_at(&hay, &needle, at) {
            assert(occurs_at(text@, part@, at as int));
            return true;
        }
        at += 1;
    }
    false
}

/// A string node with the given text.
fn text_node(text: &str) -> (node: Node)
    ensures
        node@ == Doc::Text(text@),
{
    Node::String(text.to_owned())
}

/// Sets `metadata.namespace` to `argocd`.
pub fn set_namespace(doc: &mut Node)
    ensures
        final(doc)@ == namespaced(old(doc)@),
{
    match doc.get_mut("metadata") {
        Some(metadata) => {
            metadata.set("namespace", text_node("argocd"));
        },
        None => {
            let mut metadata = Node::Null;
            metadata.set("namespace", text_node("argocd"));
            doc.set("metadata", metadata);
        },
    }
}

/// Points a destination to the cluster Argo CD runs in.
pub fn point_destination_to_in_cluster(spec: &mut Node)
    ensures
        final(spec)@ == with_local_destination(old(spec)@),
{
    match spec.get_mut("destination") {
        Some(destination) => {
            destination.set("name", text_node("in-cluster"));
            destination.remove("server");
        },
        None => {},
    }
}

/// Whether a source is redirected.
pub fn source_follows(source: &Node, repo: &str) -> (r: bool)
    ensures
        r == follows(source@, repo@),
{
    if source.contains_key("chart") {
        return false;
    }
    match source.get("repoURL") {
        Some(url) => match url.as_str() {
            Some(url) => contains_text(url, repo),
            None => false,
        },
        None => false,
    }
}

/// Sets `targetRevision` to `branch` on a source that is redirected.
pub fn redirect_source(source: &mut Node, branch: &str, repo: &str)
    ensures
        final(source)@ == redirected(old(source)@, branch@, repo@),
{
    if source_follows(source, repo) {
        source.set("targetRevision", text_node(branch));
    }
}

/// Redirects each entry of a (possibly tagged) list of sources.
pub fn redirect_each(list: &mut Node, branch: &str, repo: &str)
    ensures
        final(list)@ == redirected_each(old(list)@, branch@, repo@),
    decreases *old(list),
{
    match list {
        Node::Tagged(_, inner) => {
            redirect_each(inner, branch, repo);
        },
        Node::Sequence(items) => {
            let ghost before = docs(items@);
            let mut i: usize = 0;
            while i < items.len()
                invariant
                    i <= items.len(),
                    items.len() == before.len(),
                    forall|j: int|
                        0 <= j < i ==> (#[trigger] docs(items@)[j]) == redirected(
                            before[j],
                            branch@,
                            repo@,
                        ),
                    forall|j: int| i <= j < items.len() ==> (#[trigger] docs(items@)[j]) == before[j],
                decreases items.len() - i,
            {
                let ghost held = items@;
                redirect_source(&mut items[i], branch, repo);
                assert forall|j: int| 0 <= j < items.len() && j != i implies #[trigger] docs(items@)[j]
                    == docs(held)[j] by {
                    assert(items@[j] == held[j]);
                }
                assert(docs(items@)[i as int] == redirected(docs(held)[i as int], branch@, repo@));
                i += 1;
            }
            assert(docs(items@) =~= before.map_values(
                |source: Doc| redirected(source, branch@, repo@),
            ));
        },
        _ => {},
    }
}

/// Redirects the sources of a spec: `source` where there is one, else the
/// entries of `sources`.
pub fn redirect_sources(spec: &mut Node, branch: &str, repo: &str)
    ensures
        final(spec)@ == with_redirected_sources(old(spec)@, branch@, repo@),
{
    if spec.contains_key("source") {
        match spec.get_mut("source") {
            Some(source) => {
                redirect_source(source, branch, repo);
            },
            None => {},
        }
    } else {
        match spec.get_mut("sources") {
            Some(list) => {
                redirect_each(list, branch, repo);
            },
            None => {},
        }
    }
}

/// Takes the sync policy out of a spec.
pub fn remove_sync_policy(spec: &mut Node)
    ensures
        final(spec)@ == old(spec)@.without_field("syncPolicy"@),
{
    spec.remove("syncPolicy");
}

/// Puts a spec into the project `default`.
pub fn set_project_to_default(spec: &mut Node)
    ensures
        final(spec)@ == old(spec)@.with_field("project"@, Doc::Text("default"@)),
{
    spec.set("project", text_node("default"));
}

/// Applies the four rules to a spec, in their order.
pub fn patch_spec(spec: &mut Node, branch: &str, repo: &str)
    ensures
        final(spec)@ == patched_spec(old(spec)@, branch@, repo@),
{
    remove_sync_policy(spec);
    set_project_to_default(spec);
    point_destination_to_in_cluster(spec);
    redirect_sources(spec, branch, repo);
}

/// Applies the rules to the spec where it is a mapping; says whether it was.
fn patch_spec_at(place: &mut Node, branch: &str, repo: &str) -> (done: bool)
    ensures
        done == old(place)@.entries() is Some,
        done ==> final(place)@ == patched_spec(old(place)@, branch@, repo@),
        !done ==> final(place)@ == old(place)@,
{
    if place.as_mapping().is_some() {
        patch_spec(place, branch, repo);
        true
    } else {
        false
    }
}

/// Patches one resource: sets its namespace, then rewrites its spec. Says
/// whether the resource has a spec; one that has none is to be dropped.
pub fn patch_document(doc: &mut Node, kind: ApplicationKind, branch: &str, repo: &str) -> (kept: bool)
    ensures
        kept == patched(old(doc)@, kind, branch@, repo@) is Some,
        kept ==> Some(final(doc)@) == patched(old(doc)@, kind, branch@, repo@),
        !kept ==> final(doc)@ == namespaced(old(doc)@),
        kept && old(doc)@.well_formed() ==> final(doc)@.well_formed() && has_basics(
            final(doc)@,
            kind,
        ),
{
    proof {
        if doc@.well_formed() && patched(doc@, kind, branch@, repo@) is Some {
            law_patched_well_formed(doc@, kind, branch@, repo@);
            law_patched_basics(doc@, kind, branch@, repo@);
        }
    }
    set_namespace(doc);
    proof {
        let named = doc@;
        if named.lookup("spec"@) is Some {
            named.lemma_with_field_again("spec"@);
            let outer = named.field("spec"@);
            if outer.lookup("template"@) is Some {
                outer.lemma_with_field_again("template"@);
                let template = outer.field("template"@);
                if template.lookup("spec"@) is Some {
                    template.lemma_with_field_again("spec"@);
                }
            }
        }
    }
    match kind {
        ApplicationKind::Application => match doc.get_mut("spec") {
            Some(spec) => patch_spec_at(spec, branch, repo),
            None => false,
        },
        ApplicationKind::ApplicationSet => match doc.get_mut("spec") {
            Some(outer) => match outer.get_mut("template") {
                Some(template) => match template.get_mut("spec") {
                    Some(spec) => patch_spec_at(spec, branch, repo),
                    None => false,
                },
                None => false,
            },
            None => false,
        },
    }
}

} // verus!
