use argocd_diff_preview::classify::{Application, ApplicationKind};
use argocd_diff_preview::pipeline::{
    get_applications_as_string, parse_file, parse_yaml, patch_applications, render, SourceFile,
};
use argocd_diff_preview::selector::{Operator, Selector};
use argocd_diff_preview::tree::Node;
use argocd_diff_preview::yaml::parse_document;
use serde_yaml::value::Tag;

fn file(name: &str, text: &str) -> SourceFile {
    SourceFile { name: name.to_string(), text: text.to_string() }
}

fn eq(key: &str, value: &str) -> Option<Vec<Selector>> {
    Some(vec![Selector { key: key.to_string(), value: value.to_string(), operator: Operator::Eq }])
}

fn ne(key: &str, value: &str) -> Option<Vec<Selector>> {
    Some(vec![Selector { key: key.to_string(), value: value.to_string(), operator: Operator::Ne }])
}

fn run(files: &Vec<SourceFile>, selector: &Option<Vec<Selector>>) -> String {
    get_applications_as_string(files, "preview-123", selector, "org/repo").unwrap()
}

const APP: &str = "kind: Application\nmetadata:\n  labels:\n    env: prod\nspec:\n  source:\n    repoURL: https://github.com/org/repo.git\n  syncPolicy:\n    automated: {}\n";

const APP_OUT: &str = "kind: Application\nmetadata:\n  labels:\n    env: prod\n  namespace: argocd\nspec:\n  source:\n    repoURL: https://github.com/org/repo.git\n    targetRevision: preview-123\n  project: default\n---\n";

#[test]
fn application_is_patched_and_config_map_dropped() {
    let files = vec![file("apps.yaml", &format!("{}---\nkind: ConfigMap\n", APP))];
    let out = run(&files, &eq("env", "prod"));
    assert_eq!(out, APP_OUT);
    let doc = parse_document(out.strip_suffix("---\n").unwrap());
    let spec = doc.get("spec").unwrap();
    assert!(!spec.contains_key("syncPolicy"));
    assert_eq!(spec.get("project").unwrap().as_str(), Some("default"));
    assert_eq!(doc.get("metadata").unwrap().get("namespace").unwrap().as_str(), Some("argocd"));
    assert_eq!(spec.get("source").unwrap().get("targetRevision").unwrap().as_str(), Some("preview-123"));
}

#[test]
fn chart_source_keeps_its_revision_unset() {
    let text = "kind: Application\nmetadata:\n  labels:\n    env: prod\nspec:\n  source:\n    repoURL: https://github.com/org/repo.git\n    chart: my-chart\n  syncPolicy:\n    automated: {}\n---\nkind: ConfigMap\n";
    let out = run(&vec![file("apps.yaml", text)], &eq("env", "prod"));
    assert_eq!(
        out,
        "kind: Application\nmetadata:\n  labels:\n    env: prod\n  namespace: argocd\nspec:\n  source:\n    repoURL: https://github.com/org/repo.git\n    chart: my-chart\n  project: default\n---\n"
    );
    let doc = parse_document(out.strip_suffix("---\n").unwrap());
    assert!(!doc.get("spec").unwrap().get("source").unwrap().contains_key("targetRevision"));
}

#[test]
fn chart_source_keeps_the_revision_it_has() {
    let text = "kind: Application\nspec:\n  source:\n    repoURL: https://github.com/org/repo.git\n    chart: my-chart\n    targetRevision: 1.2.3\n";
    let out = run(&vec![file("apps.yaml", text)], &None);
    assert_eq!(
        out,
        "kind: Application\nspec:\n  source:\n    repoURL: https://github.com/org/repo.git\n    chart: my-chart\n    targetRevision: 1.2.3\n  project: default\nmetadata:\n  namespace: argocd\n---\n"
    );
}

#[test]
fn no_files_give_an_empty_stream() {
    assert_eq!(run(&vec![], &None), "");
    assert_eq!(run(&vec![file("empty.yaml", "")], &None), "");
    assert_eq!(run(&vec![file("other.yaml", "kind: ConfigMap\n")], &None), "");
}

#[test]
fn a_malformed_document_does_not_stop_the_ones_around_it() {
    let text = format!("{}---\nthis: [is not\n---\n{}", APP, APP);
    let files = vec![file("bad.yaml", "}{"), file("apps.yaml", &text), file("worse.yaml", "a:\n\tb")];
    assert_eq!(run(&files, &None), format!("{}{}", APP_OUT, APP_OUT));
}

#[test]
fn documents_come_out_in_the_order_of_files_and_documents() {
    let doc = |name: &str| format!("kind: Application\nmetadata:\n  name: {}\nspec: {{}}\n", name);
    let out_doc = |name: &str| {
        format!(
            "kind: Application\nmetadata:\n  name: {}\n  namespace: argocd\nspec:\n  project: default\n---\n",
            name
        )
    };
    let files = vec![
        file("z.yaml", &format!("{}---\n{}", doc("one"), doc("two"))),
        file("a.yaml", &doc("three")),
    ];
    assert_eq!(run(&files, &None), format!("{}{}{}", out_doc("one"), out_doc("two"), out_doc("three")));
}

#[test]
fn the_selector_decides_what_comes_out() {
    let files = vec![file("apps.yaml", APP)];
    assert_eq!(run(&files, &None), APP_OUT);
    assert_eq!(run(&files, &eq("env", "prod")), APP_OUT);
    assert_eq!(run(&files, &eq("env", "dev")), "");
    assert_eq!(run(&files, &ne("env", "prod")), "");
    assert_eq!(run(&files, &ne("env", "dev")), APP_OUT);
    assert_eq!(run(&files, &ne("team", "a")), APP_OUT);
    assert_eq!(run(&files, &eq("team", "a")), "");
}

#[test]
fn an_ignored_application_does_not_come_out() {
    let text = "kind: Application\nmetadata:\n  annotations:\n    argocd-diff-preview/ignore: 'true'\n  labels:\n    env: prod\nspec: {}\n";
    let files = vec![file("apps.yaml", text)];
    assert_eq!(run(&files, &None), "");
    assert_eq!(run(&files, &eq("env", "prod")), "");
}

#[test]
fn an_application_without_a_spec_does_not_come_out() {
    assert_eq!(run(&vec![file("apps.yaml", "kind: Application\nmetadata:\n  name: a\n")], &None), "");
    assert_eq!(run(&vec![file("sets.yaml", "kind: ApplicationSet\nspec: {}\n")], &None), "");
}

#[test]
fn an_application_set_comes_out_patched() {
    let text = "kind: ApplicationSet\nspec:\n  template:\n    spec:\n      destination:\n        server: https://kubernetes.default.svc\n        namespace: ns\n      sources:\n      - repoURL: https://github.com/org/repo.git\n        targetRevision: main\n      - repoURL: https://charts.example.com\n        chart: c\n        targetRevision: 1.0.0\n";
    assert_eq!(
        run(&vec![file("sets.yaml", text)], &None),
        "kind: ApplicationSet\nspec:\n  template:\n    spec:\n      destination:\n        name: in-cluster\n        namespace: ns\n      sources:\n      - repoURL: https://github.com/org/repo.git\n        targetRevision: preview-123\n      - repoURL: https://charts.example.com\n        chart: c\n        targetRevision: 1.0.0\n      project: default\nmetadata:\n  namespace: argocd\n---\n"
    );
}

#[test]
fn files_are_read_document_by_document() {
    let list = parse_file(&file("apps.yaml", "kind: Application\n---\n---\n: : :\n---\nkind: ConfigMap\n"));
    assert_eq!(list.len(), 4);
    assert!(list.iter().all(|r| r.file_name == "apps.yaml"));
    assert_eq!(list[0].yaml, parse_document("kind: Application"));
    assert_eq!(list[1].yaml, Node::Null);
    assert_eq!(list[2].yaml, Node::Null);
    assert_eq!(list[3].yaml, parse_document("kind: ConfigMap"));
}

#[test]
fn all_files_are_read_in_order() {
    let list = parse_yaml(&vec![file("a.yaml", "x: 1\n---\nx: 2\n"), file("b.yaml", ""), file("c.yaml", "x: 3")]);
    assert_eq!(list.len(), 4);
    assert_eq!(list[0].file_name, "a.yaml");
    assert_eq!(list[0].yaml, parse_document("x: 1"));
    assert_eq!(list[1].file_name, "a.yaml");
    assert_eq!(list[1].yaml, parse_document("x: 2"));
    assert_eq!(list[2].file_name, "b.yaml");
    assert_eq!(list[2].yaml, Node::Null);
    assert_eq!(list[3].file_name, "c.yaml");
    assert_eq!(list[3].yaml, parse_document("x: 3"));
}

fn app(text: &str) -> Application {
    Application { file_name: "apps.yaml".to_string(), yaml: parse_document(text), kind: ApplicationKind::Application }
}

fn unwritable() -> Application {
    let twice = Node::Tagged(
        Tag::new("outer"),
        Box::new(Node::Tagged(Tag::new("inner"), Box::new(Node::String("x".to_string())))),
    );
    let mut doc = parse_document("kind: Application\nspec: {}\n");
    doc.set("extra", twice);
    Application { file_name: "apps.yaml".to_string(), yaml: doc, kind: ApplicationKind::Application }
}

#[test]
fn every_document_is_followed_by_the_separator() {
    assert_eq!(render(vec![]).unwrap(), "");
    assert_eq!(render(vec![app("a: 1")]).unwrap(), "a: 1\n---\n");
    assert_eq!(render(vec![app("a: 1"), app(""), app("b: 2")]).unwrap(), "a: 1\n---\nnull\n---\nb: 2\n---\n");
}

#[test]
fn a_document_that_cannot_be_written_fails_the_run() {
    let error = render(vec![app("a: 1"), unwritable(), app("b: 2"), unwritable()]).unwrap_err();
    assert_eq!(error.index, 1);
    assert!(!error.cause.to_string().is_empty());
    let error = render(vec![unwritable()]).unwrap_err();
    assert_eq!(error.index, 0);
}

#[test]
fn patching_and_writing_fail_together() {
    assert!(patch_applications(vec![app("spec: {}"), unwritable()], "preview-123", "org/repo").is_err());
    let error =
        patch_applications(vec![app("no: spec"), app("spec: {}"), unwritable()], "preview-123", "org/repo")
            .unwrap_err();
    assert_eq!(error.index, 1);
    assert_eq!(
        patch_applications(vec![app("spec: {}")], "preview-123", "org/repo").unwrap(),
        "spec:\n  project: default\nmetadata:\n  namespace: argocd\n---\n"
    );
}
