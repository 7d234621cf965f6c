use gx::identity::{ActionId, CommitSha, Version};
use gx::workflow::{
    format_uses_ref, join_path, keep_changed, pins_to_map, update_content, ResolvedAction,
    UpdateResult, WorkflowWriter,
};

const CI: &str = "name: CI
on: push
jobs:
  build:
    runs-on: ubuntu-latest
    steps:
      - uses: actions/checkout@v3
      - uses: actions/setup-node@v3
";

fn pin(id: &str, sha: &str, version: Option<&str>) -> ResolvedAction {
    ResolvedAction {
        id: ActionId::new(id),
        sha: CommitSha::new(sha),
        version: version.map(Version::new),
    }
}

#[test]
fn update_pins_one_action_and_reports_it() {
    let pins = pins_to_map(&vec![pin("actions/checkout", "abc123def456", Some("v4"))]);
    let (updated, changes) = update_content(CI.to_string(), &pins).unwrap();
    assert_eq!(changes, vec!["actions/checkout@abc123def456 # v4".to_string()]);
    assert!(updated.contains("actions/checkout@abc123def456 # v4"));
    assert!(updated.contains("actions/setup-node@v3"));
}

#[test]
fn update_replaces_an_old_comment_instead_of_adding_one() {
    let content = "steps:\n  - uses: actions/checkout@v3 # v3\n  - uses: actions/setup-node@old_sha # v2\n";
    let pins = pins_to_map(&vec![
        pin("actions/checkout", "abc123def456", Some("v4")),
        pin("actions/setup-node", "def789", Some("v3")),
    ]);
    let (updated, changes) = update_content(content.to_string(), &pins).unwrap();
    assert_eq!(changes.len(), 2);
    assert_eq!(
        updated,
        "steps:\n  - uses: actions/checkout@abc123def456 # v4\n  - uses: actions/setup-node@def789 # v3\n"
    );
}

#[test]
fn update_without_a_match_changes_nothing() {
    let pins = pins_to_map(&vec![pin("docker/login-action", "abc", None)]);
    let (updated, changes) = update_content(CI.to_string(), &pins).unwrap();
    assert!(changes.is_empty());
    assert_eq!(updated, CI);
}

#[test]
fn update_already_pinned_is_not_reported() {
    let content = "      - uses: actions/checkout@abc\n";
    let pins = pins_to_map(&vec![pin("actions/checkout", "abc", None)]);
    let (updated, changes) = update_content(content.to_string(), &pins).unwrap();
    assert!(changes.is_empty());
    assert_eq!(updated, content);
}

#[test]
fn action_names_are_matched_literally() {
    let content = "      - uses: actionsXcheckout@v1\n      - uses: actions.checkout@v1\n";
    let pins = pins_to_map(&vec![pin("actions.checkout", "abc", None)]);
    let (updated, _) = update_content(content.to_string(), &pins).unwrap();
    assert_eq!(
        updated,
        "      - uses: actionsXcheckout@v1\n      - uses: actions.checkout@abc\n"
    );
}

#[test]
fn later_pin_of_an_action_wins() {
    let map = pins_to_map(&vec![pin("a/b", "one", None), pin("a/b", "two", Some("v2"))]);
    assert_eq!(map.len(), 1);
    assert_eq!(map[0].1, "two # v2");
}

#[test]
fn uses_ref_is_sha_with_version_comment() {
    assert_eq!(format_uses_ref(&pin("a/b", "abc", Some("v1"))), "abc # v1");
    assert_eq!(format_uses_ref(&pin("a/b", "abc", None)), "abc");
}

#[test]
fn unchanged_results_are_dropped() {
    let results = vec![
        UpdateResult { file: "a".to_string(), changes: Vec::new() },
        UpdateResult { file: "b".to_string(), changes: vec!["x".to_string()] },
    ];
    let kept = keep_changed(results);
    assert_eq!(kept.len(), 1);
    assert_eq!(kept[0].file, "b");
}

#[test]
fn writer_looks_in_github_workflows() {
    assert_eq!(WorkflowWriter::new("/repo").workflows_dir(), "/repo/.github/workflows");
    assert_eq!(WorkflowWriter::new("/repo/").workflows_dir(), "/repo/.github/workflows");
    assert_eq!(join_path("", "x"), "x");
}

/// Rewrite each file's content with its own pins, keeping the results that changed
/// something, as the writer does for a set of patches.
fn apply_patches(patches: &[(&str, &str, Vec<ResolvedAction>)]) -> (Vec<UpdateResult>, Vec<String>) {
    let mut results = Vec::new();
    let mut contents = Vec::new();
    for (path, content, pins) in patches {
        let (updated, changes) = update_content(content.to_string(), &pins_to_map(pins)).unwrap();
        results.push(UpdateResult { file: path.to_string(), changes });
        contents.push(updated);
    }
    (keep_changed(results), contents)
}

/// Rewrite one file's content to the given action references.
fn update_workflow(content: &str, actions: &[(&str, &str)]) -> (UpdateResult, String) {
    let map: Vec<(ActionId, String)> = actions
        .iter()
        .map(|(id, reference)| (ActionId::new(id), reference.to_string()))
        .collect();
    let (updated, changes) = update_content(content.to_string(), &map).unwrap();
    (UpdateResult { file: "ci.yml".to_string(), changes }, updated)
}

#[test]
fn apply_patches_updates_workflow() {
    let (results, contents) = apply_patches(&[(
        ".github/workflows/ci.yml",
        CI,
        vec![pin("actions/checkout", "abc123def456", Some("v4"))],
    )]);

    assert_eq!(results.len(), 1);
    assert!(results[0].changes[0].contains("actions/checkout@abc123def456 # v4"));

    let updated_workflow = &contents[0];
    assert!(updated_workflow.contains("actions/checkout@abc123def456 # v4"));
    assert!(updated_workflow.contains("actions/setup-node@v3"));
}

#[test]
fn apply_patches_uses_commit_sha_with_comment() {
    let content = "name: CI
on: push
jobs:
  build:
    runs-on: ubuntu-latest
    steps:
      - uses: actions/checkout@v4
";
    let (results, contents) = apply_patches(&[(
        ".github/workflows/ci.yml",
        content,
        vec![pin("actions/checkout", "abc123def456", Some("v4"))],
    )]);

    assert_eq!(results.len(), 1);
    let updated = &contents[0];
    assert!(
        updated.contains("actions/checkout@abc123def456 # v4"),
        "Expected SHA with comment, got: {updated}"
    );
}

#[test]
fn apply_patches_no_duplicate_comments() {
    let content = "name: CI
on: push
jobs:
  build:
    runs-on: ubuntu-latest
    steps:
      - uses: actions/checkout@v3 # v3
      - uses: actions/setup-node@old_sha # v2
";
    let (results, contents) = apply_patches(&[(
        ".github/workflows/ci.yml",
        content,
        vec![
            pin("actions/checkout", "abc123def456", Some("v4")),
            pin("actions/setup-node", "xyz789012345", Some("v3")),
        ],
    )]);

    assert_eq!(results.len(), 1);
    let updated = &contents[0];
    assert!(
        updated.contains("actions/checkout@abc123def456 # v4"),
        "Expected new SHA with comment, got: {updated}"
    );
    assert!(!updated.contains("# v4 # v3"), "Found duplicate comment in: {updated}");
    assert!(!updated.contains("# v3 # v3"), "Found duplicate comment in: {updated}");
    assert!(
        updated.contains("actions/setup-node@xyz789012345 # v3"),
        "Expected setup-node with new SHA and comment, got: {updated}"
    );
    assert!(!updated.contains("# v3 # v2"), "Found duplicate comment in: {updated}");
}

#[test]
fn format_uses_ref_bare_sha() {
    let action = pin("actions/checkout", "abc123", None);
    assert_eq!(format_uses_ref(&action), "abc123");
}

#[test]
fn format_uses_ref_with_version() {
    let action = pin("actions/checkout", "abc123", Some("v4.2.1"));
    assert_eq!(format_uses_ref(&action), "abc123 # v4.2.1");
}

#[test]
fn test_update_workflow() {
    let (result, updated_workflow) = update_workflow(CI, &[("actions/checkout", "v4")]);
    assert_eq!(result.changes.len(), 1);
    assert!(result.changes[0].contains("actions/checkout@v4"));
    assert!(updated_workflow.contains("actions/checkout@v4"));
    assert!(updated_workflow.contains("actions/setup-node@v3"));
}

#[test]
fn test_update_workflow_uses_commit_sha() {
    let content = "name: CI
on: push
jobs:
  build:
    runs-on: ubuntu-latest
    steps:
      - uses: actions/checkout@v4
";
    let (result, updated) = update_workflow(content, &[("actions/checkout", "abc123def456 # v4")]);
    assert_eq!(result.changes.len(), 1);
    assert!(
        updated.contains("actions/checkout@abc123def456 # v4"),
        "Expected SHA with comment, got: {updated}"
    );
    assert!(!updated.contains("actions/checkout@v4"), "Should not contain tag without SHA");
}

#[test]
fn test_update_workflow_no_duplicate_comments() {
    let content = "name: CI
on: push
jobs:
  build:
    runs-on: ubuntu-latest
    steps:
      - uses: actions/checkout@v3 # v3
      - uses: actions/setup-node@old_sha # v2
";
    let (result, updated) = update_workflow(
        content,
        &[
            ("actions/checkout", "abc123def456 # v4"),
            ("actions/setup-node", "xyz789012345 # v3"),
        ],
    );
    assert_eq!(result.changes.len(), 2);
    assert!(
        updated.contains("actions/checkout@abc123def456 # v4"),
        "Expected new SHA with comment, got: {updated}"
    );
    assert!(!updated.contains("# v4 # v3"), "Found duplicate comment in: {updated}");
    assert!(!updated.contains("# v3 # v3"), "Found duplicate comment in: {updated}");
    assert!(
        updated.contains("actions/setup-node@xyz789012345 # v3"),
        "Expected setup-node with new SHA and comment, got: {updated}"
    );
    assert!(!updated.contains("# v3 # v2"), "Found duplicate comment in: {updated}");
}
