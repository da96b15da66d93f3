use argocd_diff_preview::classify::{
    classify, get_applications, is_ignored, keep, ApplicationKind, K8sResource,
};
use argocd_diff_preview::selector::{Operator, Selector};
use argocd_diff_preview::tree::Node;
use argocd_diff_preview::yaml::parse_document;

fn resource(name: &str, text: &str) -> K8sResource {
    K8sResource { file_name: name.to_string(), yaml: parse_document(text) }
}

fn eq(key: &str, value: &str) -> Selector {
    Selector { key: key.to_string(), value: value.to_string(), operator: Operator::Eq }
}

fn ne(key: &str, value: &str) -> Selector {
    Selector { key: key.to_string(), value: value.to_string(), operator: Operator::Ne }
}

#[test]
fn the_two_kinds_are_told_apart() {
    assert_eq!(classify(&parse_document("kind: Application")), Some(ApplicationKind::Application));
    assert_eq!(classify(&parse_document("kind: ApplicationSet")), Some(ApplicationKind::ApplicationSet));
}

#[test]
fn any_other_kind_is_none() {
    assert_eq!(classify(&parse_document("kind: ConfigMap")), None);
    assert_eq!(classify(&parse_document("kind: application")), None);
    assert_eq!(classify(&parse_document("kind: Applications")), None);
    assert_eq!(classify(&parse_document("kind: ' Application'")), None);
    assert_eq!(classify(&parse_document("kind: [Application]")), None);
    assert_eq!(classify(&parse_document("kind: 1")), None);
    assert_eq!(classify(&parse_document("name: Application")), None);
    assert_eq!(classify(&parse_document("Application")), None);
    assert_eq!(classify(&Node::Null), None);
}

#[test]
fn the_ignore_annotation_has_to_be_the_string_true() {
    let with = |value: &str| {
        parse_document(&format!(
            "kind: Application\nmetadata:\n  annotations:\n    argocd-diff-preview/ignore: {}\n",
            value
        ))
    };
    assert!(is_ignored(&with("'true'")));
    assert!(!is_ignored(&with("true")));
    assert!(!is_ignored(&with("'false'")));
    assert!(!is_ignored(&with("'True'")));
    assert!(!is_ignored(&parse_document("kind: Application\nmetadata:\n  annotations: {}\n")));
    assert!(!is_ignored(&parse_document("kind: Application\n")));
    assert!(!is_ignored(&Node::Null));
}

#[test]
fn an_ignored_resource_is_dropped_whatever_the_selector() {
    let doc = parse_document(
        "kind: Application\nmetadata:\n  labels:\n    env: prod\n  annotations:\n    argocd-diff-preview/ignore: 'true'\n",
    );
    assert_eq!(keep(&doc, &None), None);
    assert_eq!(keep(&doc, &Some(vec![])), None);
    assert_eq!(keep(&doc, &Some(vec![eq("env", "prod")])), None);
    assert_eq!(keep(&doc, &Some(vec![ne("env", "dev")])), None);
}

#[test]
fn a_resource_is_kept_with_its_kind() {
    let doc = parse_document("kind: ApplicationSet\nmetadata:\n  labels:\n    env: prod\n");
    assert_eq!(keep(&doc, &None), Some(ApplicationKind::ApplicationSet));
    assert_eq!(keep(&doc, &Some(vec![eq("env", "prod")])), Some(ApplicationKind::ApplicationSet));
    assert_eq!(keep(&doc, &Some(vec![eq("env", "dev")])), None);
    assert_eq!(keep(&doc, &Some(vec![ne("env", "prod")])), None);
    assert_eq!(keep(&doc, &Some(vec![ne("team", "a")])), Some(ApplicationKind::ApplicationSet));
}

#[test]
fn a_resource_of_another_kind_is_dropped_even_if_selected() {
    let doc = parse_document("kind: ConfigMap\nmetadata:\n  labels:\n    env: prod\n");
    assert_eq!(keep(&doc, &None), None);
    assert_eq!(keep(&doc, &Some(vec![eq("env", "prod")])), None);
}

#[test]
fn applications_come_out_in_their_order() {
    let list = vec![
        resource("a.yaml", "kind: Application\nmetadata:\n  name: one\n"),
        resource("a.yaml", "kind: ConfigMap\nmetadata:\n  name: two\n"),
        resource("a.yaml", "not: [valid"),
        resource("b.yaml", "kind: ApplicationSet\nmetadata:\n  name: three\n"),
        resource(
            "b.yaml",
            "kind: Application\nmetadata:\n  name: four\n  annotations:\n    argocd-diff-preview/ignore: 'true'\n",
        ),
        resource("c.yaml", "kind: Application\nmetadata:\n  name: five\n"),
    ];
    let out = get_applications(list, &None);
    let seen: Vec<(String, String, ApplicationKind)> = out
        .iter()
        .map(|a| {
            let name = a.yaml.get("metadata").unwrap().get("name").unwrap().as_str().unwrap();
            (a.file_name.clone(), name.to_string(), a.kind)
        })
        .collect();
    assert_eq!(
        seen,
        vec![
            ("a.yaml".to_string(), "one".to_string(), ApplicationKind::Application),
            ("b.yaml".to_string(), "three".to_string(), ApplicationKind::ApplicationSet),
            ("c.yaml".to_string(), "five".to_string(), ApplicationKind::Application),
        ]
    );
}

#[test]
fn the_selector_narrows_the_applications() {
    let list = || {
        vec![
            resource("a.yaml", "kind: Application\nmetadata:\n  labels:\n    env: prod\n"),
            resource("b.yaml", "kind: Application\nmetadata:\n  labels:\n    env: dev\n"),
            resource("c.yaml", "kind: Application\n"),
        ]
    };
    let names = |selector: Option<Vec<Selector>>| -> Vec<String> {
        get_applications(list(), &selector).into_iter().map(|a| a.file_name).collect()
    };
    assert_eq!(names(None), vec!["a.yaml", "b.yaml", "c.yaml"]);
    assert_eq!(names(Some(vec![eq("env", "prod")])), vec!["a.yaml"]);
    assert_eq!(names(Some(vec![ne("env", "prod")])), vec!["b.yaml", "c.yaml"]);
    assert_eq!(names(Some(vec![eq("env", "prod"), eq("env", "dev")])), Vec::<String>::new());
}

#[test]
fn a_kept_resource_keeps_its_document() {
    let text = "kind: Application\nmetadata:\n  name: one\nspec:\n  project: p\n";
    let out = get_applications(vec![resource("a.yaml", text)], &None);
    assert_eq!(out.len(), 1);
    assert_eq!(out[0].yaml, parse_document(text));
    assert_eq!(out[0].file_name, "a.yaml");
    assert_eq!(out[0].kind, ApplicationKind::Application);
}

#[test]
fn no_resources_give_no_applications() {
    assert!(get_applications(vec![], &None).is_empty());
}
