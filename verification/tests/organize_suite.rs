use testify::{Test, TestifyConfig, count_cases, organize};

fn t(name: &str, case: Option<&str>, tags: &[&str], id: usize) -> Test {
    Test {
        name: name.to_string(),
        case: case.map(|c| c.to_string()),
        tags: tags.iter().map(|s| s.to_string()).collect(),
        should_panic: false,
        should_fail: false,
        id,
    }
}

fn config(name_filter: Option<&str>, tags: &[&str], exclude_tags: &[&str]) -> TestifyConfig {
    TestifyConfig {
        name_filter: name_filter.map(|s| s.to_string()),
        tags: tags.iter().map(|s| s.to_string()).collect(),
        exclude_tags: exclude_tags.iter().map(|s| s.to_string()).collect(),
        fail_fast: false,
    }
}

fn sample_set() -> Vec<Test> {
    vec![
        t("hello_world", None, &["auth"], 0),
        t("hello", None, &[], 1),
        t("goodbye", None, &["auth", "db"], 2),
    ]
}

#[test]
fn organize_is_deterministic() {
    let cfg = config(None, &[], &[]);
    let pattern = glob::Pattern::new("*").unwrap();
    let a = organize(sample_set(), &cfg, &pattern);
    let b = organize(sample_set(), &cfg, &pattern);
    assert_eq!(a, b);
}

#[test]
fn no_filters_runs_everything() {
    let cfg = config(None, &[], &[]);
    let pattern = glob::Pattern::new("*").unwrap();
    let groups = organize(sample_set(), &cfg, &pattern);
    assert_eq!(count_cases(&groups), 3);
}

#[test]
fn name_filter_matches_subset() {
    let cfg = config(Some("hello*"), &[], &[]);
    let pattern = glob::Pattern::new("hello*").unwrap();
    let groups = organize(sample_set(), &cfg, &pattern);
    assert_eq!(count_cases(&groups), 2);
    let names: Vec<String> = groups
        .iter()
        .flat_map(|g| g.test_plans.iter())
        .flat_map(|p| p.cases.iter())
        .map(|c| c.name.clone())
        .collect();
    assert!(names.contains(&"hello".to_string()));
    assert!(names.contains(&"hello_world".to_string()));
    assert!(!names.contains(&"goodbye".to_string()));
}

#[test]
fn tag_filter_excludes_untagged() {
    let cfg = config(None, &["auth"], &[]);
    let pattern = glob::Pattern::new("*").unwrap();
    let groups = organize(sample_set(), &cfg, &pattern);
    assert_eq!(count_cases(&groups), 2);
    let names: Vec<String> = groups
        .iter()
        .flat_map(|g| g.test_plans.iter())
        .flat_map(|p| p.cases.iter())
        .map(|c| c.name.clone())
        .collect();
    assert!(!names.contains(&"hello".to_string()));
}

#[test]
fn exclude_tag_removes_matching_test() {
    // "goodbye" carries the required tag "auth" and matches the glob, but its
    // "db" tag is excluded.
    let cfg = config(None, &["auth"], &["db"]);
    let pattern = glob::Pattern::new("*").unwrap();
    let groups = organize(sample_set(), &cfg, &pattern);
    assert_eq!(count_cases(&groups), 1);
    assert_eq!(groups[0].test_plans[0].cases[0].name, "hello_world");
}

#[test]
fn grouping_buckets_by_tags_then_name() {
    let tests = vec![
        t("X", None, &["a", "b"], 0),
        t("X", Some("1"), &["a", "b"], 1),
        t("X", Some("2"), &["a", "b"], 2),
        t("Y", None, &[], 3),
    ];
    let cfg = config(None, &[], &[]);
    let pattern = glob::Pattern::new("*").unwrap();
    let groups = organize(tests, &cfg, &pattern);
    assert_eq!(groups.len(), 2);
    // The untagged group sorts first.
    assert_eq!(groups[0].tags, Vec::<String>::new());
    assert_eq!(groups[0].test_plans.len(), 1);
    assert_eq!(groups[0].test_plans[0].name, "Y");
    assert_eq!(groups[0].test_plans[0].cases.len(), 1);
    // The [a, b] group holds a single plan "X"; the case without a label
    // sorts before the labelled ones, which are ordered by label.
    assert_eq!(groups[1].tags, vec!["a".to_string(), "b".to_string()]);
    assert_eq!(groups[1].test_plans.len(), 1);
    let plan = &groups[1].test_plans[0];
    assert_eq!(plan.name, "X");
    assert_eq!(plan.cases.len(), 3);
    assert_eq!(plan.cases[0].case, None);
    assert_eq!(plan.cases[1].case, Some("1".to_string()));
    assert_eq!(plan.cases[2].case, Some("2".to_string()));
}

#[test]
fn labelled_cases_are_ordered_by_label() {
    let tests = vec![
        t("X", Some("2"), &["a", "b"], 0),
        t("X", Some("1"), &["a", "b"], 1),
    ];
    let cfg = config(None, &[], &[]);
    let pattern = glob::Pattern::new("*").unwrap();
    let groups = organize(tests, &cfg, &pattern);
    assert_eq!(groups.len(), 1);
    let plan = &groups[0].test_plans[0];
    assert_eq!(plan.cases.len(), 2);
    assert_eq!(plan.cases[0].case, Some("1".to_string()));
    assert_eq!(plan.cases[1].case, Some("2".to_string()));
}

#[test]
fn groups_and_plans_follow_sort_order() {
    let tests = vec![
        t("beta", None, &["z"], 0),
        t("alpha", None, &["z"], 1),
        t("solo", None, &["a"], 2),
    ];
    let cfg = config(None, &[], &[]);
    let pattern = glob::Pattern::new("*").unwrap();
    let groups = organize(tests, &cfg, &pattern);
    assert_eq!(groups.len(), 2);
    assert_eq!(groups[0].tags, vec!["a".to_string()]);
    assert_eq!(groups[1].tags, vec!["z".to_string()]);
    assert_eq!(groups[1].test_plans.len(), 2);
    assert_eq!(groups[1].test_plans[0].name, "alpha");
    assert_eq!(groups[1].test_plans[1].name, "beta");
}
