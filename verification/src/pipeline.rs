//! The whole run: from the texts of manifest files to one stream of patched
//! documents.

use crate::classify::{
    applications, apps, apps_well_formed, get_applications, resources, resources_well_formed, App,
    Application, K8sResource, Resource,
};
use crate::laws::law_patched_apps_are_sound;
use crate::patch::{has_basics, patch_document, patched};
use crate::selector::{clauses, Clause, Selector};
use crate::split::{documents, split_documents};
use crate::yaml::{parse_document, parsed, render_document, rendered};
use vstd::prelude::*;
use vstd::string::StringExecFns;

verus! {

/// A manifest file: its path and the text it holds.
#[derive(Debug)]
pub struct SourceFile {
    pub name: String,
    pub text: String,
}

/// The model of a [`SourceFile`].
pub struct FileText {
    pub name: Seq<char>,
    pub text: Seq<char>,
}

impl View for SourceFile {
    type V = FileText;

    open spec fn view(&self) -> FileText {
        FileText { name: self.name@, text: self.text@ }
    }
}

/// The models of a sequence of files.
pub open spec fn file_texts(files: Seq<SourceFile>) -> Seq<FileText> {
    Seq::new(files.len(), |i: int| files[i]@)
}

/// A patched document that could not be written out.
#[derive(Debug)]
pub struct SerializationError {
    /// Which of the patched documents was refused, counted from 0.
    pub index: usize,
    /// Why `serde_yaml` refused it.
    pub cause: serde_yaml::Error,
}

/// The resources of one file: one for each of its documents, in order.
pub open spec fn file_resources(file: FileText) -> Seq<Resource> {
    let chunks = documents(file.text);
    Seq::new(
        chunks.len(),
        |i: int| Resource { file_name: file.name, document: parsed(chunks[i]) },
    )
}

/// The resources of all files, file after file.
pub open spec fn all_resources(files: Seq<FileText>) -> Seq<Resource>
    decreases files.len(),
{
    if files.len() == 0 {
        Seq::empty()
    } else {
        all_resources(files.drop_last()) + file_resources(files.last())
    }
}

/// The applications after patching: those that have a spec, in order.
pub open spec fn patched_apps(list: Seq<App>, branch: Seq<char>, repo: Seq<char>) -> Seq<App>
    decreases list.len(),
{
    if list.len() == 0 {
        Seq::empty()
    } else {
        let before = patched_apps(list.drop_last(), branch, repo);
        let app = list.last();
        match patched(app.document, app.kind, branch, repo) {
            Some(document) => before.push(
                App { file_name: app.file_name, document, kind: app.kind },
            ),
            None => before,
        }
    }
}

/// The texts of the applications, each followed by the separator line.
pub open spec fn joined(list: Seq<App>) -> Seq<char>
    decreases list.len(),
{
    if list.len() == 0 {
        Seq::empty()
    } else {
        let text = match rendered(list.last().document) {
            Some(text) => text,
            None => Seq::empty(),
        };
        joined(list.drop_last()) + text + "---\n"@
    }
}

/// The stream that holds the applications: their texts, each followed by
/// the separator line; `None` where one of them cannot be written.
pub open spec fn stream(list: Seq<App>) -> Option<Seq<char>> {
    if forall|i: int| 0 <= i < list.len() ==> rendered((#[trigger] list[i]).document) is Some {
        Some(joined(list))
    } else {
        None
    }
}

/// Whether the application at `index` is the first that cannot be written.
pub open spec fn first_refused(list: Seq<App>, index: int) -> bool {
    &&& 0 <= index < list.len()
    &&& rendered(list[index].document) is None
    &&& forall|j: int| 0 <= j < index ==> rendered((#[trigger] list[j]).document) is Some
}

/// The applications that a run writes out: the kept resources of the files,
/// patched.
pub open spec fn output_apps(
    files: Seq<FileText>,
    branch: Seq<char>,
    selector: Option<Seq<Clause>>,
    repo: Seq<char>,
) -> Seq<App> {
    patched_apps(applications(all_resources(files), selector), branch, repo)
}

/// What a run gives: the stream of the applications it writes out.
pub open spec fn output(
    files: Seq<FileText>,
    branch: Seq<char>,
    selector: Option<Seq<Clause>>,
    repo: Seq<char>,
) -> Option<Seq<char>> {
    stream(output_apps(files, branch, selector, repo))
}

/// Reads the documents of one file. A document that is no YAML gives a
/// resource that holds `Null`, and the ones after it are still read.
pub fn parse_file(file: &SourceFile) -> (out: Vec<K8sResource>)
    ensures
        resources(out@) == file_resources(file@),
        resources_well_formed(resources(out@)),
{
    let chunks = split_documents(file.text.as_str());
    let mut out: Vec<K8sResource> = Vec::new();
    let mut i: usize = 0;
    while i < chunks.len()
        invariant
            i <= chunks.len(),
            out.len() == i,
            chunks.len() == documents(file.text@).len(),
            forall|j: int| 0 <= j < chunks.len() ==> (#[trigger] chunks[j])@ == documents(file.text@)[j],
            forall|j: int| 0 <= j < i ==> (#[trigger] out[j])@ == file_resources(file@)[j],
            forall|j: int| 0 <= j < i ==> (#[trigger] out[j]).yaml@.well_formed(),
        decreases chunks.len() - i,
    {
        let yaml = parse_document(chunks[i].as_str());
        out.push(K8sResource { file_name: file.name.clone(), yaml });
        i += 1;
    }
    assert(resources(out@) =~= file_resources(file@));
    out
}

/// Reads the documents of all files, file after file.
pub fn parse_yaml(files: &Vec<SourceFile>) -> (out: Vec<K8sResource>)
    ensures
        resources(out@) == all_resources(file_texts(files@)),
        resources_well_formed(resources(out@)),
{
    let ghost all = file_texts(files@);
    let mut out: Vec<K8sResource> = Vec::new();
    let mut i: usize = 0;
    assert(all.take(0) =~= Seq::empty());
    assert(resources(out@) =~= Seq::empty());
    while i < files.len()
        invariant
            i <= files.len(),
            all == file_texts(files@),
            resources(out@) == all_resources(all.take(i as int)),
            resources_well_formed(resources(out@)),
        decreases files.len() - i,
    {
        let ghost before = resources(out@);
        let mut found = parse_file(&files[i]);
        let ghost added = resources(found@);
        out.append(&mut found);
        proof {
            assert(all.take(i + 1).drop_last() =~= all.take(i as int));
            assert(all.take(i + 1).last() == files[i as int]@);
            assert(resources(out@) =~= before + added);
        }
        i += 1;
    }
    assert(all.take(all.len() as int) =~= all);
    out
}

/// Patches every application and drops the ones without a spec.
pub fn patch(applications: Vec<Application>, branch: &str, repo: &str) -> (out: Vec<Application>)
    ensures
        apps(out@) == patched_apps(apps(applications@), branch@, repo@),
        apps_well_formed(apps(applications@)) ==> {
            &&& apps_well_formed(apps(out@))
            &&& forall|k: int| 0 <= k < out.len() ==> has_basics((#[trigger] out[k]).yaml@, out[k].kind)
        },
{
    let ghost all = apps(applications@);
    let mut out: Vec<Application> = Vec::new();
    assert(all.take(0) =~= Seq::empty());
    assert(apps(out@) =~= Seq::empty());
    for app in it: applications
        invariant
            it.seq() == applications@,
            all == apps(applications@),
            apps(out@) == patched_apps(all.take(it.index() as int), branch@, repo@),
    {
        let ghost i = it.index() as int;
        let ghost before = apps(out@);
        assert(all.take(i + 1).drop_last() =~= all.take(i));
        assert(all.take(i + 1).last() == app@);
        let mut app = app;
        let ghost old_doc = app.yaml@;
        if patch_document(&mut app.yaml, app.kind, branch, repo) {
            out.push(app);
            assert(apps(out@) =~= before.push(
                App {
                    file_name: all[i].file_name,
                    document: patched(old_doc, all[i].kind, branch@, repo@)->0,
                    kind: all[i].kind,
                },
            ));
        }
    }
    assert(all.take(all.len() as int) =~= all);
    proof {
        if apps_well_formed(all) {
            law_patched_apps_are_sound(all, branch@, repo@);
            assert forall|k: int| 0 <= k < out.len() implies has_basics(
                (#[trigger] out[k]).yaml@,
                out[k].kind,
            ) by {
                assert(apps(out@)[k] == out[k]@);
            }
        }
    }
    out
}

/// Writes the applications out, each followed by the separator line. Fails
/// at the first one that cannot be written, and then gives no text at all.
pub fn render(applications: Vec<Application>) -> (r: Result<String, SerializationError>)
    ensures
        match r {
            Ok(text) => stream(apps(applications@)) == Some(text@),
            Err(e) => {
                &&& stream(apps(applications@)) is None
                &&& first_refused(apps(applications@), e.index as int)
            },
        },
{
    let ghost all = apps(applications@);
    let mut out = String::new();
    let mut index: usize = 0;
    assert(all.take(0) =~= Seq::empty());
    for app in it: applications
        invariant
            it.seq() == applications@,
            all == apps(applications@),
            index == it.index(),
            index <= applications.len(),
            out@ == joined(all.take(index as int)),
            forall|j: int| 0 <= j < index ==> rendered((#[trigger] all[j]).document) is Some,
    {
        let ghost i = it.index() as int;
        assert(all.take(i + 1).drop_last() =~= all.take(i));
        assert(all.take(i + 1).last() == app@);
        match render_document(app.yaml) {
            Ok(text) => {
                out.append(text.as_str());
                out.append("---\n");
            },
            Err(error) => {
                assert(rendered(all[i].document) is None);
                return Err(SerializationError { index, cause: error.cause });
            },
        }
        index += 1;
    }
    assert(all.take(all.len() as int) =~= all);
    Ok(out)
}

/// Patches the applications and writes them out as one stream.
pub fn patch_applications(applications: Vec<Application>, branch: &str, repo: &str) -> (r: Result<
    String,
    SerializationError,
>)
    ensures
        match r {
            Ok(text) => stream(patched_apps(apps(applications@), branch@, repo@)) == Some(text@),
            Err(e) => {
                &&& stream(patched_apps(apps(applications@), branch@, repo@)) is None
                &&& first_refused(patched_apps(apps(applications@), branch@, repo@), e.index as int)
            },
        },
{
    render(patch(applications, branch, repo))
}

/// Reads the files, keeps the selected Application and ApplicationSet
/// resources, patches them for `branch` and writes them out as one stream.
pub fn get_applications_as_string(
    files: &Vec<SourceFile>,
    branch: &str,
    selector: &Option<Vec<Selector>>,
    repo: &str,
) -> (r: Result<String, SerializationError>)
    ensures
        match r {
            Ok(text) => output(file_texts(files@), branch@, clauses(*selector), repo@) == Some(text@),
            Err(e) => {
                &&& output(file_texts(files@), branch@, clauses(*selector), repo@) is None
                &&& first_refused(
                    output_apps(file_texts(files@), branch@, clauses(*selector), repo@),
                    e.index as int,
                )
            },
        },
{
    let k8s_resources = parse_yaml(files);
    let applications = get_applications(k8s_resources, selector);
    patch_applications(applications, branch, repo)
}

} // verus!
