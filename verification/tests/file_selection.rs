use argocd_diff_preview::files::{is_wanted, is_yaml_extension, select_files};
use regex::Regex;

fn paths(list: &[&str]) -> Vec<String> {
    list.iter().map(|p| p.to_string()).collect()
}

#[test]
fn yaml_and_yml_are_manifest_extensions() {
    assert!(is_yaml_extension("yaml"));
    assert!(is_yaml_extension("yml"));
}

#[test]
fn nothing_else_is_a_manifest_extension() {
    for other in ["", "YAML", "Yml", "yaml ", ".yaml", "yam", "yamll", "json", "y", "ml"] {
        assert!(!is_yaml_extension(other), "{:?}", other);
    }
}

#[test]
fn without_a_pattern_every_path_is_wanted() {
    assert!(is_wanted("apps/a.yaml", &None));
    assert!(is_wanted("", &None));
    let all = paths(&["b.yaml", "a.yml", "c/d.yaml"]);
    assert_eq!(select_files(all.clone(), &None), all);
    assert_eq!(select_files(vec![], &None), Vec::<String>::new());
}

#[test]
fn a_pattern_narrows_the_paths() {
    let pattern = Some(Regex::new("^apps/.*\\.yaml$").unwrap());
    assert!(is_wanted("apps/a.yaml", &pattern));
    assert!(is_wanted("apps/deep/b.yaml", &pattern));
    assert!(!is_wanted("apps/a.yml", &pattern));
    assert!(!is_wanted("other/apps/a.yaml", &pattern));
    assert_eq!(
        select_files(
            paths(&["z/apps/a.yaml", "apps/b.yaml", "apps/c.yml", "apps/a.yaml", "apps/b.yaml"]),
            &pattern
        ),
        paths(&["apps/b.yaml", "apps/a.yaml", "apps/b.yaml"])
    );
}

#[test]
fn a_pattern_matches_anywhere_in_the_path() {
    let pattern = Some(Regex::new("prod").unwrap());
    assert_eq!(
        select_files(paths(&["env/prod/a.yaml", "env/dev/a.yaml", "production.yml", "Prod.yaml"]), &pattern),
        paths(&["env/prod/a.yaml", "production.yml"])
    );
}

#[test]
fn a_pattern_that_matches_nothing_leaves_nothing() {
    let pattern = Some(Regex::new("^$").unwrap());
    assert_eq!(select_files(paths(&["a.yaml", "b.yaml"]), &pattern), Vec::<String>::new());
}
