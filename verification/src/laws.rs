//! What holds of every run: which resources reach the output, and what a
//! patched resource holds.

use crate::classify::{
    applications, apps_well_formed, as_app, ignored, kind_of, resources_well_formed, retained, App,
    ApplicationKind, Resource,
};
use crate::patch::{
    follows, has_basics, in_cluster, namespaced, patched, patched_spec, redirected,
    redirected_each, spec_of, with_local_destination, with_redirected_sources,
};
use crate::pipeline::{all_resources, file_resources, output_apps, patched_apps, FileText};
use crate::selector::{has_label, satisfies, selected, single, Clause, Operator};
use crate::split::documents;
use crate::tree::Doc;
use crate::yaml::{parsed, yaml_parse};
use vstd::prelude::*;

verus! {

/// The keys that the rules name are different texts.
proof fn lemma_keys_differ()
    ensures
        "metadata"@ != "spec"@,
        "syncPolicy"@ != "project"@,
        "syncPolicy"@ != "destination"@,
        "syncPolicy"@ != "source"@,
        "syncPolicy"@ != "sources"@,
        "project"@ != "destination"@,
        "project"@ != "source"@,
        "project"@ != "sources"@,
        "destination"@ != "source"@,
        "destination"@ != "sources"@,
        "source"@ != "sources"@,
        "name"@ != "server"@,
{
    reveal_strlit("metadata");
    reveal_strlit("spec");
    reveal_strlit("syncPolicy");
    reveal_strlit("project");
    reveal_strlit("destination");
    reveal_strlit("source");
    reveal_strlit("sources");
    reveal_strlit("name");
    reveal_strlit("server");
    assert("metadata"@.len() != "spec"@.len());
    assert("syncPolicy"@.len() == 10);
    assert("destination"@.len() == 11);
    assert("source"@.len() == 6);
    assert("sources"@.len() == 7);
    assert("project"@[0] != "sources"@[0]);
    assert("name"@.len() != "server"@.len());
}

/// A resource is kept only if its `kind` is exactly `Application` or
/// `ApplicationSet`.
pub proof fn law_kept_kind(doc: Doc, selector: Option<Seq<Clause>>)
    requires
        retained(doc, selector),
    ensures
        doc.field("kind"@).text() == Some("Application"@) || doc.field("kind"@).text() == Some(
            "ApplicationSet"@,
        ),
{
}

/// A resource whose annotation `argocd-diff-preview/ignore` is `true` is not
/// kept, whatever the selector.
pub proof fn law_ignored_is_dropped(doc: Doc, selector: Option<Seq<Clause>>)
    requires
        ignored(doc),
    ensures
        !retained(doc, selector),
{
}

/// A selector of one equality clause selects exactly the resources that
/// carry the label; one of one inequality clause exactly those that do not,
/// among them every resource without any label of that key.
pub proof fn law_single_clause(doc: Doc, key: Seq<char>, value: Seq<char>)
    ensures
        selected(doc, single(key, value, Operator::Eq)) <==> has_label(doc, key, value),
        selected(doc, single(key, value, Operator::Ne)) <==> !has_label(doc, key, value),
        (forall|any: Seq<char>| !has_label(doc, key, any)) ==> selected(
            doc,
            single(key, value, Operator::Ne),
        ),
{
    let eq = single(key, value, Operator::Eq)->0;
    let ne = single(key, value, Operator::Ne)->0;
    assert(satisfies(doc, eq[0]) <==> has_label(doc, key, value));
    assert(satisfies(doc, ne[0]) <==> !has_label(doc, key, value));
    assert(selected(doc, Some(eq)) <==> satisfies(doc, eq[0]));
    assert(selected(doc, Some(ne)) <==> satisfies(doc, ne[0]));
}

/// A resource that is kept satisfies every clause of the selector.
pub proof fn law_kept_is_selected(doc: Doc, list: Seq<Clause>, i: int)
    requires
        retained(doc, Some(list)),
        0 <= i < list.len(),
    ensures
        list[i].operator == Operator::Eq ==> has_label(doc, list[i].key, list[i].value),
        list[i].operator == Operator::Ne ==> !has_label(doc, list[i].key, list[i].value),
{
    assert(satisfies(doc, list[i]));
}

/// A text that is no YAML document gives a resource that is not kept.
pub proof fn law_malformed_is_dropped(text: Seq<char>, selector: Option<Seq<Clause>>)
    requires
        yaml_parse(text) is None,
    ensures
        parsed(text) == Doc::Null,
        !retained(parsed(text), selector),
{
}

/// Every document of every file is read by itself: what it gives does not
/// depend on the documents and files around it.
pub proof fn law_every_document_is_read(files: Seq<FileText>, f: int, i: int)
    requires
        0 <= f < files.len(),
        0 <= i < documents(files[f].text).len(),
    ensures
        exists|p: int|
            0 <= p < all_resources(files).len() && #[trigger] all_resources(files)[p] == (Resource {
                file_name: files[f].name,
                document: parsed(documents(files[f].text)[i]),
            }),
    decreases files.len(),
{
    let before = all_resources(files.drop_last());
    let wanted = Resource {
        file_name: files[f].name,
        document: parsed(documents(files[f].text)[i]),
    };
    if f == files.len() - 1 {
        assert(file_resources(files.last())[i] == wanted);
        assert(all_resources(files)[before.len() + i] == wanted);
    } else {
        law_every_document_is_read(files.drop_last(), f, i);
        let p = choose|p: int|
            0 <= p < before.len() && #[trigger] before[p] == wanted;
        assert(all_resources(files)[p] == wanted);
    }
}

/// Every application comes from a resource that is kept.
pub proof fn law_applications_are_kept_resources(
    list: Seq<Resource>,
    selector: Option<Seq<Clause>>,
    k: int,
)
    requires
        0 <= k < applications(list, selector).len(),
    ensures
        exists|i: int|
            0 <= i < list.len() && retained(list[i].document, selector) && applications(
                list,
                selector,
            )[k] == as_app(#[trigger] list[i]),
    decreases list.len(),
{
    let before = applications(list.drop_last(), selector);
    if k < before.len() {
        law_applications_are_kept_resources(list.drop_last(), selector, k);
        let i = choose|i: int|
            0 <= i < list.drop_last().len() && retained(list.drop_last()[i].document, selector)
                && before[k] == as_app(#[trigger] list.drop_last()[i]);
        assert(list[i] == list.drop_last()[i]);
    } else {
        assert(applications(list, selector)[k] == as_app(list[list.len() - 1]));
    }
}

/// Every resource that is kept becomes an application.
pub proof fn law_kept_resources_are_applications(
    list: Seq<Resource>,
    selector: Option<Seq<Clause>>,
    i: int,
)
    requires
        0 <= i < list.len(),
        retained(list[i].document, selector),
    ensures
        exists|k: int|
            0 <= k < applications(list, selector).len() && #[trigger] applications(list, selector)[k]
                == as_app(list[i]),
    decreases list.len(),
{
    let before = applications(list.drop_last(), selector);
    if i < list.len() - 1 {
        law_kept_resources_are_applications(list.drop_last(), selector, i);
        let k = choose|k: int|
            0 <= k < before.len() && #[trigger] before[k] == as_app(list.drop_last()[i]);
        assert(applications(list, selector)[k] == as_app(list[i]));
    } else {
        assert(applications(list, selector)[before.len() as int] == as_app(list[i]));
    }
}

/// Every patched application comes from an application that has a spec, and
/// holds what patching makes of it.
pub proof fn law_patched_come_from_applications(
    list: Seq<App>,
    branch: Seq<char>,
    repo: Seq<char>,
    k: int,
)
    requires
        0 <= k < patched_apps(list, branch, repo).len(),
    ensures
        exists|i: int|
            0 <= i < list.len() && patched(
                (#[trigger] list[i]).document,
                list[i].kind,
                branch,
                repo,
            ) == Some(patched_apps(list, branch, repo)[k].document) && patched_apps(
                list,
                branch,
                repo,
            )[k].kind == list[i].kind && patched_apps(list, branch, repo)[k].file_name
                == list[i].file_name,
    decreases list.len(),
{
    let before = patched_apps(list.drop_last(), branch, repo);
    if k < before.len() {
        law_patched_come_from_applications(list.drop_last(), branch, repo, k);
        let i = choose|i: int|
            0 <= i < list.drop_last().len() && patched(
                (#[trigger] list.drop_last()[i]).document,
                list.drop_last()[i].kind,
                branch,
                repo,
            ) == Some(before[k].document) && before[k].kind == list.drop_last()[i].kind
                && before[k].file_name == list.drop_last()[i].file_name;
        assert(list[i] == list.drop_last()[i]);
    } else {
        assert(list[list.len() - 1] == list.last());
    }
}

/// The applications among well-formed resources are well formed.
pub proof fn law_applications_are_well_formed(list: Seq<Resource>, selector: Option<Seq<Clause>>)
    requires
        resources_well_formed(list),
    ensures
        apps_well_formed(applications(list, selector)),
{
    let kept = applications(list, selector);
    assert forall|k: int| 0 <= k < kept.len() implies (#[trigger] kept[k]).document.well_formed() by {
        law_applications_are_kept_resources(list, selector, k);
        let i = choose|i: int|
            0 <= i < list.len() && retained(list[i].document, selector) && kept[k] == as_app(
                #[trigger] list[i],
            );
        assert(list[i].document.well_formed());
    }
}

/// Well-formed applications are well formed after patching, and each of them
/// is in the namespace `argocd`, has no sync policy and belongs to the
/// project `default`.
pub proof fn law_patched_apps_are_sound(list: Seq<App>, branch: Seq<char>, repo: Seq<char>)
    requires
        apps_well_formed(list),
    ensures
        apps_well_formed(patched_apps(list, branch, repo)),
        forall|k: int|
            0 <= k < patched_apps(list, branch, repo).len() ==> has_basics(
                (#[trigger] patched_apps(list, branch, repo)[k]).document,
                patched_apps(list, branch, repo)[k].kind,
            ),
{
    let out = patched_apps(list, branch, repo);
    assert forall|k: int| 0 <= k < out.len() implies (#[trigger] out[k]).document.well_formed()
        && has_basics(out[k].document, out[k].kind) by {
        law_patched_come_from_applications(list, branch, repo, k);
        let i = choose|i: int|
            0 <= i < list.len() && patched((#[trigger] list[i]).document, list[i].kind, branch, repo)
                == Some(out[k].document) && out[k].kind == list[i].kind && out[k].file_name
                == list[i].file_name;
        assert(list[i].document.well_formed());
        law_patched_well_formed(list[i].document, list[i].kind, branch, repo);
        law_patched_basics(list[i].document, list[i].kind, branch, repo);
    }
}

/// Every application that has a spec is among the patched ones, patched.
pub proof fn law_applications_with_spec_are_patched(
    list: Seq<App>,
    branch: Seq<char>,
    repo: Seq<char>,
    i: int,
)
    requires
        0 <= i < list.len(),
        patched(list[i].document, list[i].kind, branch, repo) is Some,
    ensures
        exists|k: int|
            0 <= k < patched_apps(list, branch, repo).len() && #[trigger] patched_apps(
                list,
                branch,
                repo,
            )[k] == (App {
                file_name: list[i].file_name,
                document: patched(list[i].document, list[i].kind, branch, repo)->0,
                kind: list[i].kind,
            }),
    decreases list.len(),
{
    let before = patched_apps(list.drop_last(), branch, repo);
    let wanted = App {
        file_name: list[i].file_name,
        document: patched(list[i].document, list[i].kind, branch, repo)->0,
        kind: list[i].kind,
    };
    if i < list.len() - 1 {
        law_applications_with_spec_are_patched(list.drop_last(), branch, repo, i);
        let k = choose|k: int| 0 <= k < before.len() && #[trigger] before[k] == wanted;
        assert(patched_apps(list, branch, repo)[k] == wanted);
    } else {
        assert(patched_apps(list, branch, repo)[before.len() as int] == wanted);
    }
}

/// Every document that a run writes out comes from a resource that is kept,
/// and holds what patching makes of that resource.
pub proof fn law_output_comes_from_kept_resources(
    files: Seq<FileText>,
    branch: Seq<char>,
    selector: Option<Seq<Clause>>,
    repo: Seq<char>,
    k: int,
)
    requires
        0 <= k < output_apps(files, branch, selector, repo).len(),
    ensures
        exists|p: int|
            0 <= p < all_resources(files).len() && retained(
                (#[trigger] all_resources(files)[p]).document,
                selector,
            ) && patched(
                all_resources(files)[p].document,
                kind_of(all_resources(files)[p].document)->0,
                branch,
                repo,
            ) == Some(output_apps(files, branch, selector, repo)[k].document) && output_apps(
                files,
                branch,
                selector,
                repo,
            )[k].file_name == all_resources(files)[p].file_name,
{
    let found = all_resources(files);
    let kept = applications(found, selector);
    let out = output_apps(files, branch, selector, repo);
    law_patched_come_from_applications(kept, branch, repo, k);
    let i = choose|i: int|
        0 <= i < kept.len() && patched((#[trigger] kept[i]).document, kept[i].kind, branch, repo)
            == Some(out[k].document) && out[k].kind == kept[i].kind && out[k].file_name
            == kept[i].file_name;
    law_applications_are_kept_resources(found, selector, i);
    let p = choose|p: int|
        0 <= p < found.len() && retained(found[p].document, selector) && kept[i] == as_app(
            #[trigger] found[p],
        );
    assert(retained(all_resources(files)[p].document, selector));
}

/// Every document of every file that is kept and has a spec is written out,
/// patched, whatever stands in the documents and files around it.
pub proof fn law_kept_documents_are_written(
    files: Seq<FileText>,
    branch: Seq<char>,
    selector: Option<Seq<Clause>>,
    repo: Seq<char>,
    f: int,
    i: int,
)
    requires
        0 <= f < files.len(),
        0 <= i < documents(files[f].text).len(),
        retained(parsed(documents(files[f].text)[i]), selector),
        patched(
            parsed(documents(files[f].text)[i]),
            kind_of(parsed(documents(files[f].text)[i]))->0,
            branch,
            repo,
        ) is Some,
    ensures
        exists|k: int|
            0 <= k < output_apps(files, branch, selector, repo).len() && #[trigger] output_apps(
                files,
                branch,
                selector,
                repo,
            )[k] == (App {
                file_name: files[f].name,
                document: patched(
                    parsed(documents(files[f].text)[i]),
                    kind_of(parsed(documents(files[f].text)[i]))->0,
                    branch,
                    repo,
                )->0,
                kind: kind_of(parsed(documents(files[f].text)[i]))->0,
            }),
{
    let found = all_resources(files);
    let kept = applications(found, selector);
    let doc = parsed(documents(files[f].text)[i]);
    let resource = Resource { file_name: files[f].name, document: doc };
    law_every_document_is_read(files, f, i);
    let p = choose|p: int| 0 <= p < found.len() && #[trigger] found[p] == resource;
    law_kept_resources_are_applications(found, selector, p);
    let a = choose|a: int| 0 <= a < kept.len() && #[trigger] kept[a] == as_app(found[p]);
    law_applications_with_spec_are_patched(kept, branch, repo, a);
    let out = output_apps(files, branch, selector, repo);
    let wanted = App {
        file_name: kept[a].file_name,
        document: patched(kept[a].document, kept[a].kind, branch, repo)->0,
        kind: kept[a].kind,
    };
    let k = choose|k: int| 0 <= k < out.len() && #[trigger] out[k] == wanted;
    assert(out[k] == wanted);
}

/// What a patched resource holds at the place of its spec is the patched
/// spec of the resource, and its metadata is the resource's with the
/// namespace set.
pub proof fn lemma_patched_parts(doc: Doc, kind: ApplicationKind, branch: Seq<char>, repo: Seq<char>)
    requires
        patched(doc, kind, branch, repo) is Some,
    ensures
        spec_of(doc, kind).entries() is Some,
        spec_of(patched(doc, kind, branch, repo)->0, kind) == patched_spec(
            spec_of(doc, kind),
            branch,
            repo,
        ),
        patched(doc, kind, branch, repo)->0.field("metadata"@) == doc.field("metadata"@).with_field(
            "namespace"@,
            Doc::Text("argocd"@),
        ),
{
    lemma_keys_differ();
    let named = namespaced(doc);
    let meta = doc.field("metadata"@).with_field("namespace"@, Doc::Text("argocd"@));
    doc.lemma_with_field_other("metadata"@, meta, "spec"@);
    doc.lemma_with_field_same("metadata"@, meta);
    let fresh = patched_spec(spec_of(named, kind), branch, repo);
    match kind {
        ApplicationKind::Application => {
            named.lemma_with_field_same("spec"@, fresh);
            named.lemma_with_field_other("spec"@, fresh, "metadata"@);
        },
        ApplicationKind::ApplicationSet => {
            let outer = named.field("spec"@);
            let template = outer.field("template"@);
            let inner = template.with_field("spec"@, fresh);
            let middle = outer.with_field("template"@, inner);
            template.lemma_with_field_same("spec"@, fresh);
            outer.lemma_with_field_same("template"@, inner);
            named.lemma_with_field_same("spec"@, middle);
            named.lemma_with_field_other("spec"@, middle, "metadata"@);
        },
    }
}

/// A well-formed resource has a well-formed spec.
proof fn lemma_spec_well_formed(doc: Doc, kind: ApplicationKind)
    requires
        doc.well_formed(),
    ensures
        spec_of(doc, kind).well_formed(),
{
    doc.lemma_field_well_formed("spec"@);
    doc.field("spec"@).lemma_field_well_formed("template"@);
    doc.field("spec"@).field("template"@).lemma_field_well_formed("spec"@);
}

/// What the first two rules leave of a key they do not name.
proof fn lemma_first_rules_keep(spec: Doc, key: Seq<char>)
    requires
        spec.well_formed(),
        key != "syncPolicy"@,
        key != "project"@,
    ensures
        spec.without_field("syncPolicy"@).with_field("project"@, Doc::Text("default"@)).lookup(key)
            == spec.lookup(key),
{
    let cleaned = spec.without_field("syncPolicy"@);
    spec.lemma_without_field_other("syncPolicy"@, key);
    cleaned.lemma_with_field_other("project"@, Doc::Text("default"@), key);
}

/// Every patched resource is in the namespace `argocd`, has no sync policy
/// and belongs to the project `default`.
pub proof fn law_patched_basics(doc: Doc, kind: ApplicationKind, branch: Seq<char>, repo: Seq<char>)
    requires
        doc.well_formed(),
        patched(doc, kind, branch, repo) is Some,
    ensures
        has_basics(patched(doc, kind, branch, repo)->0, kind),
        patched(doc, kind, branch, repo)->0.field("metadata"@).field("namespace"@).text() == Some(
            "argocd"@,
        ),
        spec_of(patched(doc, kind, branch, repo)->0, kind).lookup("syncPolicy"@) is None,
        spec_of(patched(doc, kind, branch, repo)->0, kind).field("project"@).text() == Some(
            "default"@,
        ),
{
    lemma_keys_differ();
    lemma_patched_parts(doc, kind, branch, repo);
    lemma_spec_well_formed(doc, kind);
    doc.field("metadata"@).lemma_with_field_same("namespace"@, Doc::Text("argocd"@));
    let spec = spec_of(doc, kind);
    let cleaned = spec.without_field("syncPolicy"@);
    let defaulted = cleaned.with_field("project"@, Doc::Text("default"@));
    let local = with_local_destination(defaulted);
    let last = with_redirected_sources(local, branch, repo);
    spec.lemma_without_field_same("syncPolicy"@);
    cleaned.lemma_with_field_other("project"@, Doc::Text("default"@), "syncPolicy"@);
    cleaned.lemma_with_field_same("project"@, Doc::Text("default"@));
    if defaulted.lookup("destination"@) is Some {
        let to = in_cluster(defaulted.lookup("destination"@)->0);
        defaulted.lemma_with_field_other("destination"@, to, "syncPolicy"@);
        defaulted.lemma_with_field_other("destination"@, to, "project"@);
    }
    if local.lookup("source"@) is Some {
        let to = redirected(local.lookup("source"@)->0, branch, repo);
        local.lemma_with_field_other("source"@, to, "syncPolicy"@);
        local.lemma_with_field_other("source"@, to, "project"@);
    } else if local.lookup("sources"@) is Some {
        let to = redirected_each(local.lookup("sources"@)->0, branch, repo);
        local.lemma_with_field_other("sources"@, to, "syncPolicy"@);
        local.lemma_with_field_other("sources"@, to, "project"@);
    }
}

/// A patched resource that had a destination has one named `in-cluster`,
/// with no server.
pub proof fn law_patched_destination(doc: Doc, kind: ApplicationKind, branch: Seq<char>, repo: Seq<char>)
    requires
        doc.well_formed(),
        patched(doc, kind, branch, repo) is Some,
        spec_of(doc, kind).lookup("destination"@) is Some,
    ensures
        spec_of(patched(doc, kind, branch, repo)->0, kind).lookup("destination"@) == Some(
            in_cluster(spec_of(doc, kind).lookup("destination"@)->0),
        ),
        spec_of(patched(doc, kind, branch, repo)->0, kind).field("destination"@).field(
            "name"@,
        ).text() == Some("in-cluster"@),
        spec_of(patched(doc, kind, branch, repo)->0, kind).field("destination"@).lookup("server"@)
            is None,
{
    lemma_keys_differ();
    lemma_patched_parts(doc, kind, branch, repo);
    lemma_spec_well_formed(doc, kind);
    let spec = spec_of(doc, kind);
    let defaulted = spec.without_field("syncPolicy"@).with_field("project"@, Doc::Text("default"@));
    lemma_first_rules_keep(spec, "destination"@);
    let from = spec.lookup("destination"@)->0;
    let to = in_cluster(from);
    let local = defaulted.with_field("destination"@, to);
    defaulted.lemma_with_field_same("destination"@, to);
    if local.lookup("source"@) is Some {
        local.lemma_with_field_other(
            "source"@,
            redirected(local.lookup("source"@)->0, branch, repo),
            "destination"@,
        );
    } else if local.lookup("sources"@) is Some {
        local.lemma_with_field_other(
            "sources"@,
            redirected_each(local.lookup("sources"@)->0, branch, repo),
            "destination"@,
        );
    }
    spec.lemma_field_well_formed("destination"@);
    let named = from.with_field("name"@, Doc::Text("in-cluster"@));
    from.lemma_with_field_well_formed("name"@, Doc::Text("in-cluster"@));
    from.lemma_with_field_same("name"@, Doc::Text("in-cluster"@));
    named.lemma_without_field_other("server"@, "name"@);
    named.lemma_without_field_same("server"@);
}

/// The `source` of a patched resource is the resource's, redirected: its
/// `targetRevision` is the branch if the source has no `chart` and its
/// `repoURL` holds the repository, and else the source is as it was.
pub proof fn law_patched_source(doc: Doc, kind: ApplicationKind, branch: Seq<char>, repo: Seq<char>)
    requires
        doc.well_formed(),
        patched(doc, kind, branch, repo) is Some,
        spec_of(doc, kind).lookup("source"@) is Some,
    ensures
        ({
            let before = spec_of(doc, kind).lookup("source"@)->0;
            let after = spec_of(patched(doc, kind, branch, repo)->0, kind).lookup("source"@);
            &&& after == Some(redirected(before, branch, repo))
            &&& follows(before, repo) ==> after->0.lookup("targetRevision"@) == Some(Doc::Text(branch))
            &&& !follows(before, repo) ==> after->0 == before
        }),
{
    lemma_keys_differ();
    lemma_patched_parts(doc, kind, branch, repo);
    lemma_spec_well_formed(doc, kind);
    let spec = spec_of(doc, kind);
    let before = spec.lookup("source"@)->0;
    let defaulted = spec.without_field("syncPolicy"@).with_field("project"@, Doc::Text("default"@));
    lemma_first_rules_keep(spec, "source"@);
    let local = with_local_destination(defaulted);
    if defaulted.lookup("destination"@) is Some {
        defaulted.lemma_with_field_other(
            "destination"@,
            in_cluster(defaulted.lookup("destination"@)->0),
            "source"@,
        );
    }
    local.lemma_with_field_same("source"@, redirected(before, branch, repo));
    before.lemma_with_field_same("targetRevision"@, Doc::Text(branch));
}

/// The items of a list of sources, redirected, are the items, each
/// redirected by itself.
proof fn lemma_redirected_each_items(list: Doc, branch: Seq<char>, repo: Seq<char>)
    ensures
        match list.items() {
            Some(items) => redirected_each(list, branch, repo).items() == Some(
                items.map_values(|source: Doc| redirected(source, branch, repo)),
            ),
            None => redirected_each(list, branch, repo) == list,
        },
    decreases list,
{
    match list {
        Doc::Tagged(_, inner) => {
            lemma_redirected_each_items(*inner, branch, repo);
        },
        _ => {},
    }
}

/// Where a resource has no `source`, each entry of its `sources` is
/// redirected by itself, by the rule that holds for `source`.
pub proof fn law_patched_sources(doc: Doc, kind: ApplicationKind, branch: Seq<char>, repo: Seq<char>)
    requires
        doc.well_formed(),
        patched(doc, kind, branch, repo) is Some,
        spec_of(doc, kind).lookup("source"@) is None,
        spec_of(doc, kind).field("sources"@).items() is Some,
    ensures
        ({
            let before = spec_of(doc, kind).field("sources"@).items()->0;
            let after = spec_of(patched(doc, kind, branch, repo)->0, kind).field("sources"@).items();
            &&& after is Some
            &&& after->0.len() == before.len()
            &&& forall|i: int|
                0 <= i < before.len() ==> (#[trigger] after->0[i]) == redirected(
                    before[i],
                    branch,
                    repo,
                )
        }),
{
    lemma_keys_differ();
    lemma_patched_parts(doc, kind, branch, repo);
    lemma_spec_well_formed(doc, kind);
    let spec = spec_of(doc, kind);
    let list = spec.field("sources"@);
    let defaulted = spec.without_field("syncPolicy"@).with_field("project"@, Doc::Text("default"@));
    lemma_first_rules_keep(spec, "source"@);
    lemma_first_rules_keep(spec, "sources"@);
    let local = with_local_destination(defaulted);
    if defaulted.lookup("destination"@) is Some {
        let to = in_cluster(defaulted.lookup("destination"@)->0);
        defaulted.lemma_with_field_other("destination"@, to, "source"@);
        defaulted.lemma_with_field_other("destination"@, to, "sources"@);
    }
    local.lemma_with_field_same("sources"@, redirected_each(list, branch, repo));
    lemma_redirected_each_items(list, branch, repo);
}

/// A source that has a `chart` field is never redirected, whatever its
/// `repoURL`.
pub proof fn law_chart_is_left(source: Doc, branch: Seq<char>, repo: Seq<char>)
    requires
        source.lookup("chart"@) is Some,
    ensures
        redirected(source, branch, repo) == source,
{
}

/// Patching keeps a well-formed resource well formed.
pub proof fn law_patched_well_formed(doc: Doc, kind: ApplicationKind, branch: Seq<char>, repo: Seq<char>)
    requires
        doc.well_formed(),
        patched(doc, kind, branch, repo) is Some,
    ensures
        patched(doc, kind, branch, repo)->0.well_formed(),
{
    let meta = doc.field("metadata"@);
    doc.lemma_field_well_formed("metadata"@);
    meta.lemma_with_field_well_formed("namespace"@, Doc::Text("argocd"@));
    doc.lemma_with_field_well_formed("metadata"@, meta.with_field("namespace"@, Doc::Text("argocd"@)));
    let named = namespaced(doc);
    lemma_spec_well_formed(named, kind);
    let spec = spec_of(named, kind);
    lemma_patched_spec_well_formed(spec, branch, repo);
    let fresh = patched_spec(spec, branch, repo);
    match kind {
        ApplicationKind::Application => {
            named.lemma_with_field_well_formed("spec"@, fresh);
        },
        ApplicationKind::ApplicationSet => {
            let outer = named.field("spec"@);
            let template = outer.field("template"@);
            named.lemma_field_well_formed("spec"@);
            outer.lemma_field_well_formed("template"@);
            template.lemma_with_field_well_formed("spec"@, fresh);
            outer.lemma_with_field_well_formed("template"@, template.with_field("spec"@, fresh));
            named.lemma_with_field_well_formed(
                "spec"@,
                outer.with_field("template"@, template.with_field("spec"@, fresh)),
            );
        },
    }
}

/// Redirecting a well-formed source keeps it well formed.
proof fn lemma_redirected_well_formed(source: Doc, branch: Seq<char>, repo: Seq<char>)
    requires
        source.well_formed(),
    ensures
        redirected(source, branch, repo).well_formed(),
{
    source.lemma_with_field_well_formed("targetRevision"@, Doc::Text(branch));
}

/// Redirecting a well-formed list of sources keeps it well formed.
proof fn lemma_redirected_each_well_formed(list: Doc, branch: Seq<char>, repo: Seq<char>)
    requires
        list.well_formed(),
    ensures
        redirected_each(list, branch, repo).well_formed(),
    decreases list,
{
    match list {
        Doc::Tagged(_, inner) => {
            lemma_redirected_each_well_formed(*inner, branch, repo);
        },
        Doc::List(items) => {
            let after = items.map_values(|source: Doc| redirected(source, branch, repo));
            assert forall|i: int| 0 <= i < after.len() implies (#[trigger] after[i]).well_formed() by {
                assert(items[i].well_formed());
                lemma_redirected_well_formed(items[i], branch, repo);
            }
        },
        _ => {},
    }
}

/// The four rules keep a well-formed spec well formed.
proof fn lemma_patched_spec_well_formed(spec: Doc, branch: Seq<char>, repo: Seq<char>)
    requires
        spec.well_formed(),
    ensures
        patched_spec(spec, branch, repo).well_formed(),
{
    let cleaned = spec.without_field("syncPolicy"@);
    spec.lemma_without_field_well_formed("syncPolicy"@);
    let defaulted = cleaned.with_field("project"@, Doc::Text("default"@));
    cleaned.lemma_with_field_well_formed("project"@, Doc::Text("default"@));
    let local = with_local_destination(defaulted);
    if defaulted.lookup("destination"@) is Some {
        let from = defaulted.lookup("destination"@)->0;
        defaulted.lemma_field_well_formed("destination"@);
        from.lemma_with_field_well_formed("name"@, Doc::Text("in-cluster"@));
        from.with_field("name"@, Doc::Text("in-cluster"@)).lemma_without_field_well_formed(
            "server"@,
        );
        defaulted.lemma_with_field_well_formed("destination"@, in_cluster(from));
    }
    if local.lookup("source"@) is Some {
        let from = local.lookup("source"@)->0;
        local.lemma_field_well_formed("source"@);
        lemma_redirected_well_formed(from, branch, repo);
        local.lemma_with_field_well_formed("source"@, redirected(from, branch, repo));
    } else if local.lookup("sources"@) is Some {
        let from = local.lookup("sources"@)->0;
        local.lemma_field_well_formed("sources"@);
        lemma_redirected_each_well_formed(from, branch, repo);
        local.lemma_with_field_well_formed("sources"@, redirected_each(from, branch, repo));
    }
}

} // verus!
