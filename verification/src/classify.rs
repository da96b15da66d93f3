//! Telling Application and ApplicationSet resources from the rest, and
//! keeping the ones that are selected and not marked to be ignored.

use crate::laws::law_applications_are_well_formed;
use crate::selector::{clauses, node_selected, selected, Clause, Selector};
use crate::tree::{child, text_is, Doc, Node};
use vstd::prelude::*;

verus! {

/// One document of a manifest file.
#[derive(Debug)]
pub struct K8sResource {
    pub file_name: String,
    /// The parsed document; `Null` where the text was no YAML document.
    pub yaml: Node,
}

/// The two kinds of resource that are kept.
#[derive(Debug, Clone, Copy, PartialEq, Eq)]
pub enum ApplicationKind {
    Application,
    ApplicationSet,
}

/// A resource of one of the two kinds.
#[derive(Debug)]
pub struct Application {
    pub file_name: String,
    pub yaml: Node,
    pub kind: ApplicationKind,
}

/// The model of a [`K8sResource`].
pub struct Resource {
    pub file_name: Seq<char>,
    pub document: Doc,
}

/// The model of an [`Application`].
pub struct App {
    pub file_name: Seq<char>,
    pub document: Doc,
    pub kind: ApplicationKind,
}

impl View for K8sResource {
    type V = Resource;

    open spec fn view(&self) -> Resource {
        Resource { file_name: self.file_name@, document: self.yaml@ }
    }
}

impl View for Application {
    type V = App;

    open spec fn view(&self) -> App {
        App { file_name: self.file_name@, document: self.yaml@, kind: self.kind }
    }
}

/// The models of a sequence of resources.
pub open spec fn resources(list: Seq<K8sResource>) -> Seq<Resource> {
    Seq::new(list.len(), |i: int| list[i]@)
}

/// The models of a sequence of applications.
pub open spec fn apps(list: Seq<Application>) -> Seq<App> {
    Seq::new(list.len(), |i: int| list[i]@)
}

/// Every resource holds a well-formed document.
pub open spec fn resources_well_formed(list: Seq<Resource>) -> bool {
    forall|i: int| 0 <= i < list.len() ==> (#[trigger] list[i]).document.well_formed()
}

/// Every application holds a well-formed document.
pub open spec fn apps_well_formed(list: Seq<App>) -> bool {
    forall|i: int| 0 <= i < list.len() ==> (#[trigger] list[i]).document.well_formed()
}

/// The kind of a resource: its `kind` field, where that is exactly
/// `Application` or `ApplicationSet`.
pub open spec fn kind_of(doc: Doc) -> Option<ApplicationKind> {
    let kind = doc.field("kind"@).text();
    if kind == Some("Application"@) {
        Some(ApplicationKind::Application)
    } else if kind == Some("ApplicationSet"@) {
        Some(ApplicationKind::ApplicationSet)
    } else {
        None
    }
}

/// Whether the resource asks to be left out: its annotation
/// `argocd-diff-preview/ignore` is the string `true`.
pub open spec fn ignored(doc: Doc) -> bool {
    doc.field("metadata"@).field("annotations"@).field("argocd-diff-preview/ignore"@).text()
        == Some("true"@)
}

/// Whether a resource is kept: it is of one of the two kinds, does not ask to
/// be left out, and is selected.
pub open spec fn retained(doc: Doc, selector: Option<Seq<Clause>>) -> bool {
    &&& kind_of(doc) is Some
    &&& !ignored(doc)
    &&& selected(doc, selector)
}

/// The application that a kept resource becomes.
pub open spec fn as_app(resource: Resource) -> App {
    App {
        file_name: resource.file_name,
        document: resource.document,
        kind: kind_of(resource.document)->0,
    }
}

/// The applications among the resources: the kept ones, in order.
pub open spec fn applications(list: Seq<Resource>, selector: Option<Seq<Clause>>) -> Seq<App>
    decreases list.len(),
{
    if list.len() == 0 {
        Seq::empty()
    } else {
        let before = applications(list.drop_last(), selector);
        if retained(list.last().document, selector) {
            before.push(as_app(list.last()))
        } else {
            before
        }
    }
}

/// The kind of a resource, if it is of one of the two kinds.
pub fn classify(doc: &Node) -> (r: Option<ApplicationKind>)
    ensures
        r == kind_of(doc@),
{
    let kind = child(Some(doc), "kind");
    if text_is(kind, "Application") {
        Some(ApplicationKind::Application)
    } else if text_is(kind, "ApplicationSet") {
        Some(ApplicationKind::ApplicationSet)
    } else {
        None
    }
}

/// Whether the resource asks to be left out.
pub fn is_ignored(doc: &Node) -> (r: bool)
    ensures
        r == ignored(doc@),
{
    let metadata = child(Some(doc), "metadata");
    let annotations = child(metadata, "annotations");
    text_is(child(annotations, "argocd-diff-preview/ignore"), "true")
}

/// The kind under which a resource is kept, `None` where it is dropped.
pub fn keep(doc: &Node, selector: &Option<Vec<Selector>>) -> (r: Option<ApplicationKind>)
    ensures
        r is Some == retained(doc@, clauses(*selector)),
        r is Some ==> r == kind_of(doc@),
{
    match classify(doc) {
        Some(kind) => {
            if is_ignored(doc) {
                None
            } else if node_selected(doc, selector) {
                Some(kind)
            } else {
                None
            }
        },
        None => None,
    }
}

/// Keeps the Application and ApplicationSet resources that do not ask to be
/// left out and that the selector selects, in their order.
pub fn get_applications(k8s_resources: Vec<K8sResource>, selector: &Option<Vec<Selector>>) -> (out:
    Vec<Application>)
    ensures
        apps(out@) == applications(resources(k8s_resources@), clauses(*selector)),
        resources_well_formed(resources(k8s_resources@)) ==> apps_well_formed(apps(out@)),
{
    let ghost all = resources(k8s_resources@);
    let mut out: Vec<Application> = Vec::new();
    assert(all.take(0) =~= Seq::empty());
    assert(apps(out@) =~= Seq::empty());
    for resource in it: k8s_resources
        invariant
            it.seq() == k8s_resources@,
            all == resources(k8s_resources@),
            apps(out@) == applications(all.take(it.index() as int), clauses(*selector)),
    {
        let ghost i = it.index() as int;
        let ghost before = apps(out@);
        assert(all.take(i + 1).drop_last() =~= all.take(i));
        assert(all.take(i + 1).last() == resource@);
        match keep(&resource.yaml, selector) {
            Some(kind) => {
                out.push(Application { file_name: resource.file_name, yaml: resource.yaml, kind });
                assert(apps(out@) =~= before.push(as_app(resource@)));
            },
            None => {},
        }
    }
    assert(all.take(all.len() as int) =~= all);
    proof {
        if resources_well_formed(all) {
            law_applications_are_well_formed(all, clauses(*selector));
        }
    }
    out
}

} // verus!
