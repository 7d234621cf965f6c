use gx::discovery::{glob_roots, managed_files, managed_paths, FileKind, FileScanner, ManagedFile};
use gx::identity::{ActionId, CommitSha};
use gx::scan::{extract_actions, split_uses, workflow_comments, UsesRef, WorkflowParser};

/// The steps' `uses:` values of a workflow, read from its YAML.
fn uses_values(content: &str) -> Vec<String> {
    let doc: serde_json::Value = serde_saphyr::from_str(content).expect("valid YAML");
    let mut out = Vec::new();
    if let Some(jobs) = doc.get("jobs").and_then(|j| j.as_object()) {
        for job in jobs.values() {
            if let Some(steps) = job.get("steps").and_then(|s| s.as_array()) {
                for step in steps {
                    if let Some(uses) = step.get("uses").and_then(|u| u.as_str()) {
                        out.push(uses.to_owned());
                    }
                }
            }
        }
    }
    out
}

fn scan(content: &str) -> gx::scan::ActionSet {
    WorkflowParser::new("/repo").scan(content, &uses_values(content))
}

#[test]
fn workflow_test_scan_single_workflow() {
    let content = "name: CI
on: push
jobs:
  build:
    runs-on: ubuntu-latest
    steps:
      - uses: actions/checkout@v4
      - uses: actions/setup-node@v3
      - uses: docker/build-push-action@v5
";
    let ids = scan(content).action_ids();
    assert_eq!(ids.len(), 3);
    assert!(ids.contains(&ActionId::new("actions/checkout")));
    assert!(ids.contains(&ActionId::new("actions/setup-node")));
    assert!(ids.contains(&ActionId::new("docker/build-push-action")));
}

#[test]
fn workflow_test_scan_skips_local() {
    let content = "name: CI
jobs:
  build:
    steps:
      - uses: actions/checkout@v4
      - uses: ./local/action
      - uses: ./.github/actions/my-action
";
    let ids = scan(content).action_ids();
    assert_eq!(ids.len(), 1);
    assert!(ids.contains(&ActionId::new("actions/checkout")));
}

#[test]
fn workflow_test_scan_multiple_jobs() {
    let content = "name: CI
jobs:
  build:
    steps:
      - uses: actions/checkout@v4
  test:
    steps:
      - uses: actions/checkout@v3
      - uses: actions/setup-node@v3
";
    let set = scan(content);
    assert_eq!(set.action_ids().len(), 2);
    assert_eq!(set.versions_for(&ActionId::new("actions/checkout")).len(), 2);
}

#[test]
fn workflow_test_scan_with_sha_and_comment() {
    let content = "name: CI
jobs:
  build:
    steps:
      - uses: actions/checkout@abc123def456 # v4
      - uses: actions/setup-node@xyz789 #v3
";
    let set = scan(content);
    assert_eq!(set.versions_for(&ActionId::new("actions/checkout"))[0].as_str(), "v4");
    assert_eq!(set.versions_for(&ActionId::new("actions/setup-node"))[0].as_str(), "v3");
}

#[test]
fn workflow_test_scan_comment_without_v_prefix() {
    let content = "name: CI
jobs:
  build:
    steps:
      - uses: actions/checkout@abc123 # 4
";
    let set = scan(content);
    assert_eq!(set.versions_for(&ActionId::new("actions/checkout"))[0].as_str(), "v4");
}

#[test]
fn workflow_test_scan_tag_without_comment() {
    let content = "name: CI
jobs:
  build:
    steps:
      - uses: actions/checkout@v4
";
    let set = scan(content);
    assert_eq!(set.versions_for(&ActionId::new("actions/checkout"))[0].as_str(), "v4");
}

#[test]
fn workflow_test_scan_sha_without_comment() {
    let content = "name: CI
jobs:
  build:
    steps:
      - uses: actions/checkout@abc123def456
";
    let set = scan(content);
    assert_eq!(
        set.versions_for(&ActionId::new("actions/checkout"))[0].as_str(),
        "abc123def456"
    );
}

#[test]
fn workflow_test_scan_real_world_format() {
    let content = "on:
  pull_request:

jobs:
  test:
    runs-on: ubuntu-latest
    steps:
      - name: Checkout repository
        uses: actions/checkout@8e8c483db84b4bee98b60c0593521ed34d9990e8 # v6.0.1

      - name: Login
        uses: docker/login-action@5e57cd118135c172c3672efd75eb46360885c0ef # v3.6.0
";
    let set = scan(content);
    let checkout_id = ActionId::new("actions/checkout");
    assert_eq!(set.versions_for(&checkout_id)[0].as_str(), "v6.0.1");
    assert_eq!(
        set.sha_for(&checkout_id).map(CommitSha::as_str),
        Some("8e8c483db84b4bee98b60c0593521ed34d9990e8")
    );
    let login_id = ActionId::new("docker/login-action");
    assert_eq!(set.versions_for(&login_id)[0].as_str(), "v3.6.0");
    assert_eq!(
        set.sha_for(&login_id).map(CommitSha::as_str),
        Some("5e57cd118135c172c3672efd75eb46360885c0ef")
    );
}

#[test]
fn workflow_test_scan_all_collects_every_file() {
    let files = vec![
        (
            "jobs:\n  build:\n    steps:\n      - uses: actions/checkout@v4".to_string(),
            vec!["actions/checkout@v4".to_string()],
        ),
        (
            "jobs:\n  deploy:\n    steps:\n      - uses: docker/build-push-action@v5".to_string(),
            vec!["docker/build-push-action@v5".to_string()],
        ),
    ];
    let set = WorkflowParser::new("/repo").scan_all(&files);
    assert_eq!(set.action_ids().len(), 2);
}

#[test]
fn uses_values_split_at_the_first_at_sign() {
    assert_eq!(
        split_uses("actions/checkout@v4"),
        Some(("actions/checkout".to_string(), "v4".to_string()))
    );
    assert_eq!(split_uses("docker://alpine@sha256:abc").map(|p| p.0), Some("docker://alpine".to_string()));
    assert_eq!(split_uses("a b@v1"), None);
    assert_eq!(split_uses("@v1"), None);
    assert_eq!(split_uses("a/b@"), None);
    assert_eq!(
        split_uses("a/b@v1#x"),
        Some(("a/b".to_string(), "v1".to_string()))
    );
}

#[test]
fn comments_are_read_per_line() {
    let content = "    - uses: a/b@abc # v1.2\n    - uses: c/d@v2\n    - uses: e/f@123 #\n";
    let comments = workflow_comments(content);
    assert_eq!(comments, vec![("a/b@abc".to_string(), "v1.2".to_string())]);
}

#[test]
fn extracted_refs_keep_order_and_comments() {
    let content = "- uses: a/b@abc # v1\n";
    let refs = extract_actions(
        content,
        &vec!["a/b@abc".to_string(), "./local".to_string(), "c/d@v2".to_string()],
    );
    assert_eq!(
        refs,
        vec![
            UsesRef::new("a/b".to_string(), "abc".to_string(), Some("v1".to_string())),
            UsesRef::new("c/d".to_string(), "v2".to_string(), None),
        ]
    );
}

#[test]
fn managed_files_sort_each_root_by_path() {
    let wf = |p: &str| ManagedFile { path: p.to_string(), kind: FileKind::Workflow };
    let act = |p: &str| ManagedFile { path: p.to_string(), kind: FileKind::ActionDefinition };
    let files = managed_files(vec![
        vec![wf("/r/.github/workflows/z.yml"), wf("/r/.github/workflows/a.yaml")],
        vec![act("/r/.github/actions/b-c/action.yml"), act("/r/.github/actions/b/c/action.yml")],
    ]);
    let paths = managed_paths(&files);
    assert_eq!(
        paths,
        vec![
            "/r/.github/workflows/a.yaml",
            "/r/.github/workflows/z.yml",
            "/r/.github/actions/b/c/action.yml",
            "/r/.github/actions/b-c/action.yml",
        ]
    );
}

#[test]
fn glob_roots_cover_workflows_and_actions() {
    let roots = glob_roots("/r");
    assert_eq!(roots[0].kind, FileKind::Workflow);
    assert_eq!(roots[0].patterns, vec!["/r/.github/workflows/*.yml", "/r/.github/workflows/*.yaml"]);
    assert_eq!(roots[1].kind, FileKind::ActionDefinition);
    assert_eq!(
        roots[1].patterns,
        vec!["/r/.github/actions/**/action.yml", "/r/.github/actions/**/action.yaml"]
    );
}

#[test]
fn relative_paths_strip_the_repository_root() {
    let scanner = FileScanner::new("/repo");
    assert_eq!(scanner.rel_path("/repo/.github/workflows/ci.yml"), ".github/workflows/ci.yml");
    assert_eq!(scanner.rel_path("/repository/x.yml"), "/repository/x.yml");
    assert_eq!(FileScanner::new("/repo/").rel_path("/repo/a.yml"), "a.yml");
}

#[test]
fn test_scan_all() {
    let ci = "jobs:\n  build:\n    steps:\n      - uses: actions/checkout@v4";
    let deploy = "jobs:\n  deploy:\n    steps:\n      - uses: docker/build-push-action@v5";
    let files = vec![
        (ci.to_string(), uses_values(ci)),
        (deploy.to_string(), uses_values(deploy)),
    ];
    let action_set = WorkflowParser::new("/repo").scan_all(&files);
    assert_eq!(action_set.action_ids().len(), 2);
}

#[test]
fn test_scan_sha_none_for_tag() {
    let content = "name: CI
jobs:
  build:
    steps:
      - uses: actions/checkout@v4
";
    let action_set = scan(content);
    let versions = action_set.versions_for(&ActionId::new("actions/checkout"));
    assert_eq!(versions[0].as_str(), "v4");
    assert!(action_set.sha_for(&ActionId::new("actions/checkout")).is_none());
}

#[test]
fn test_scan_sha_none_for_short_ref() {
    let content = "name: CI
jobs:
  build:
    steps:
      - uses: actions/checkout@abc123 # v4
";
    let action_set = scan(content);
    let versions = action_set.versions_for(&ActionId::new("actions/checkout"));
    assert_eq!(versions[0].as_str(), "v4");
    assert!(action_set.sha_for(&ActionId::new("actions/checkout")).is_none());
}

/// Scan one managed file of a repository the way the file scanner does.
fn scan_file(content: &str) -> gx::scan::ActionSet {
    FileScanner::new("/repo").scan_file(content, &uses_values(content))
}

#[test]
fn tests_test_scan_single_workflow() {
    let content = "name: CI
on: push
jobs:
  build:
    runs-on: ubuntu-latest
    steps:
      - uses: actions/checkout@v4
      - uses: actions/setup-node@v3
      - uses: docker/build-push-action@v5
";
    let ids = scan_file(content).action_ids();
    assert_eq!(ids.len(), 3);
    assert!(ids.contains(&ActionId::new("actions/checkout")));
    assert!(ids.contains(&ActionId::new("actions/setup-node")));
    assert!(ids.contains(&ActionId::new("docker/build-push-action")));
}

#[test]
fn tests_test_scan_skips_local() {
    let content = "name: CI
jobs:
  build:
    steps:
      - uses: actions/checkout@v4
      - uses: ./local/action
      - uses: ./.github/actions/my-action
";
    let ids = scan_file(content).action_ids();
    assert_eq!(ids.len(), 1);
    assert!(ids.contains(&ActionId::new("actions/checkout")));
}

#[test]
fn tests_test_scan_multiple_jobs() {
    let content = "name: CI
jobs:
  build:
    steps:
      - uses: actions/checkout@v4
  test:
    steps:
      - uses: actions/checkout@v3
      - uses: actions/setup-node@v3
";
    let action_set = scan_file(content);
    assert_eq!(action_set.action_ids().len(), 2);
    assert_eq!(action_set.versions_for(&ActionId::new("actions/checkout")).len(), 2);
}

#[test]
fn tests_test_scan_with_sha_and_comment() {
    let content = "name: CI
jobs:
  build:
    steps:
      - uses: actions/checkout@abc123def456 # v4
      - uses: actions/setup-node@xyz789 #v3
";
    let action_set = scan_file(content);
    let checkout_version = &action_set.versions_for(&ActionId::new("actions/checkout"))[0];
    assert_eq!(checkout_version.as_str(), "v4");
    let node_version = &action_set.versions_for(&ActionId::new("actions/setup-node"))[0];
    assert_eq!(node_version.as_str(), "v3");
}

#[test]
fn tests_test_scan_comment_without_v_prefix() {
    let content = "name: CI
jobs:
  build:
    steps:
      - uses: actions/checkout@abc123 # 4
";
    let action_set = scan_file(content);
    let version = &action_set.versions_for(&ActionId::new("actions/checkout"))[0];
    assert_eq!(version.as_str(), "v4");
}

#[test]
fn tests_test_scan_tag_without_comment() {
    let content = "name: CI
jobs:
  build:
    steps:
      - uses: actions/checkout@v4
";
    let action_set = scan_file(content);
    let version = &action_set.versions_for(&ActionId::new("actions/checkout"))[0];
    assert_eq!(version.as_str(), "v4");
}

#[test]
fn tests_test_scan_sha_without_comment() {
    let content = "name: CI
jobs:
  build:
    steps:
      - uses: actions/checkout@abc123def456
";
    let action_set = scan_file(content);
    let version = &action_set.versions_for(&ActionId::new("actions/checkout"))[0];
    assert_eq!(version.as_str(), "abc123def456");
}

#[test]
fn tests_test_scan_real_world_format() {
    let content = "on:
  pull_request:
jobs:
  test:
    runs-on: ubuntu-latest
    steps:
      - name: Checkout repository
        uses: actions/checkout@8e8c483db84b4bee98b60c0593521ed34d9990e8 # v6.0.1
      - name: Login
        uses: docker/login-action@5e57cd118135c172c3672efd75eb46360885c0ef # v3.6.0
";
    let action_set = scan_file(content);
    let version = &action_set.versions_for(&ActionId::new("actions/checkout"))[0];
    assert_eq!(version.as_str(), "v6.0.1");
    let version = &action_set.versions_for(&ActionId::new("docker/login-action"))[0];
    assert_eq!(version.as_str(), "v3.6.0");
}
