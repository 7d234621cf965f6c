use gx::discovery::{managed_files, managed_paths, FileKind, FileScanner, ManagedFile};
use gx::identity::ActionId;
use gx::located::{action_set_from_located, Located, ParsedFile, ParsedJob, ParsedStep};

/// The steps of a YAML step list, each with the line of its `uses:`; the k-th
/// step naming a value is matched with the k-th line holding it.
fn steps_of(list: Option<&serde_json::Value>, content: &str) -> Vec<ParsedStep> {
    let mut seen: Vec<String> = Vec::new();
    let mut out = Vec::new();
    for step in list.and_then(|s| s.as_array()).cloned().unwrap_or_default() {
        let uses = step.get("uses").and_then(|u| u.as_str()).map(str::to_owned);
        let line = uses.as_ref().and_then(|u| {
            let nth = seen.iter().filter(|s| *s == u).count();
            seen.push(u.clone());
            content
                .lines()
                .enumerate()
                .filter(|(_, l)| l.contains(&format!("uses: {u}")))
                .nth(nth)
                .map(|(i, _)| i as u64 + 1)
        });
        out.push(ParsedStep { uses, line });
    }
    out
}

/// A managed file's YAML, read under the schema of its kind.
fn parsed(kind: FileKind, content: &str) -> ParsedFile {
    let doc: serde_json::Value = serde_saphyr::from_str(content).expect("valid YAML");
    match kind {
        FileKind::Workflow => {
            let mut jobs = Vec::new();
            if let Some(map) = doc.get("jobs").and_then(|j| j.as_object()) {
                for (id, job) in map {
                    jobs.push(ParsedJob { id: id.clone(), steps: steps_of(job.get("steps"), content) });
                }
            }
            ParsedFile { kind, jobs, using: None, steps: Vec::new() }
        }
        FileKind::ActionDefinition => {
            let runs = doc.get("runs");
            ParsedFile {
                kind,
                jobs: Vec::new(),
                using: runs.and_then(|r| r.get("using")).and_then(|u| u.as_str()).map(str::to_owned),
                steps: steps_of(runs.and_then(|r| r.get("steps")), content),
            }
        }
    }
}

fn located(files: &[(&str, FileKind, &str)]) -> Vec<Located> {
    let files: Vec<(String, ParsedFile, String)> = files
        .iter()
        .map(|(path, kind, content)| (path.to_string(), parsed(*kind, content), content.to_string()))
        .collect();
    FileScanner::new("/repo").scan_all_with_parsed(&files)
}

fn composite(steps: &str) -> String {
    format!("name: Setup\nruns:\n  using: composite\n  steps:\n{steps}")
}

const WF: FileKind = FileKind::Workflow;
const AD: FileKind = FileKind::ActionDefinition;

#[test]
fn test_scan_all_located_includes_location() {
    let content = "name: CI
jobs:
  build:
    steps:
      - uses: actions/checkout@v4
      - uses: actions/setup-node@v3
  test:
    steps:
      - uses: actions/checkout@v3
";
    let located = located(&[("/repo/.github/workflows/ci.yml", WF, content)]);

    assert_eq!(located.len(), 3);

    let build_checkout = located.iter().find(|a| {
        a.action.id == ActionId::new("actions/checkout") && a.location.job.as_deref() == Some("build")
    });
    assert!(build_checkout.is_some());
    let bc = build_checkout.unwrap();
    assert_eq!(bc.action.version.as_str(), "v4");
    assert_eq!(bc.location.step, Some(0));
    assert_eq!(bc.location.workflow, ".github/workflows/ci.yml");
    assert_eq!(bc.location.line, Some(5));

    let test_checkout = located.iter().find(|a| {
        a.action.id == ActionId::new("actions/checkout") && a.location.job.as_deref() == Some("test")
    });
    assert!(test_checkout.is_some());
    assert_eq!(test_checkout.unwrap().action.version.as_str(), "v3");
}

#[test]
fn test_scan_all_located_derives_action_set() {
    let located = located(&[
        ("/repo/.github/workflows/ci.yml", WF, "jobs:\n  build:\n    steps:\n      - uses: actions/checkout@v4"),
        ("/repo/.github/workflows/deploy.yml", WF, "jobs:\n  deploy:\n    steps:\n      - uses: docker/build-push-action@v5"),
    ]);
    let action_set = action_set_from_located(&located);
    assert_eq!(action_set.action_ids().len(), 2);
}

#[test]
fn test_scan_iterator_matches_scan_all_located() {
    let files = [
        ("/repo/.github/workflows/ci.yml", WF, "jobs:\n  build:\n    steps:\n      - uses: actions/checkout@v4\n      - uses: actions/setup-node@v3"),
        ("/repo/.github/workflows/deploy.yml", WF, "jobs:\n  deploy:\n    steps:\n      - uses: docker/build-push-action@v5"),
    ];
    let scanner = FileScanner::new("/repo");
    let via_iter: Vec<Located> = files
        .iter()
        .flat_map(|(path, kind, content)| scanner.located_from_file(path, &parsed(*kind, content), content))
        .collect();
    let via_collect = located(&files);

    assert_eq!(via_iter.len(), via_collect.len());
    let mut iter_ids: Vec<String> = via_iter.iter().map(|a| a.action.id.as_str().to_string()).collect();
    let mut collect_ids: Vec<String> = via_collect.iter().map(|a| a.action.id.as_str().to_string()).collect();
    iter_ids.sort();
    collect_ids.sort();
    assert_eq!(iter_ids, collect_ids);
}

#[test]
fn scan_finds_composite_action() {
    let located = located(&[(
        "/repo/.github/actions/setup/action.yml",
        AD,
        &composite("      - uses: actions/setup-node@v4\n"),
    )]);
    assert_eq!(located.len(), 1);
    assert_eq!(located[0].action.id, ActionId::new("actions/setup-node"));
    assert_eq!(located[0].location.workflow, ".github/actions/setup/action.yml");
}

#[test]
fn scan_finds_nested_composite_action() {
    let located = located(&[(
        "/repo/.github/actions/ci/setup/action.yml",
        AD,
        &composite("      - uses: actions/checkout@v4\n"),
    )]);
    assert_eq!(located.len(), 1);
    assert_eq!(located[0].location.workflow, ".github/actions/ci/setup/action.yml");
}

#[test]
fn scan_finds_composite_action_yaml_extension() {
    let located = located(&[(
        "/repo/.github/actions/setup/action.yaml",
        AD,
        &composite("      - uses: actions/checkout@v4\n"),
    )]);
    assert_eq!(located.len(), 1);
    assert_eq!(located[0].location.workflow, ".github/actions/setup/action.yaml");
}

#[test]
fn scan_skips_non_composite_action_without_error() {
    let located = located(&[(
        "/repo/.github/actions/tool/action.yml",
        AD,
        "name: Tool\nruns:\n  using: node20\n  main: index.js\n",
    )]);
    assert!(located.is_empty());
}

#[test]
fn scan_skips_action_without_using_key() {
    let located = located(&[(
        "/repo/.github/actions/tool/action.yml",
        AD,
        "name: Tool\nruns:\n  steps:\n      - uses: actions/checkout@v4\n",
    )]);
    assert!(located.is_empty());
}

#[test]
fn composite_step_has_no_job_and_carries_step_and_line() {
    let located = located(&[(
        "/repo/.github/actions/setup/action.yml",
        AD,
        &composite("      - uses: actions/checkout@v4\n      - uses: actions/setup-node@v3\n"),
    )]);
    assert_eq!(located.len(), 2);
    for action in &located {
        assert!(action.location.job.is_none(), "composite steps belong to no job");
        assert!(action.location.line.is_some(), "line should be recorded");
    }
    let node = located
        .iter()
        .find(|a| a.action.id == ActionId::new("actions/setup-node"))
        .unwrap();
    assert_eq!(node.location.step, Some(1));
}

#[test]
fn scan_skips_local_and_docker_inside_composite() {
    let located = located(&[(
        "/repo/.github/actions/build/action.yml",
        AD,
        &composite(
            "      - uses: ./.github/actions/setup\n      - uses: docker://alpine:3\n      - uses: actions/checkout@v4\n",
        ),
    )]);
    assert_eq!(located.len(), 1);
    assert_eq!(located[0].action.id, ActionId::new("actions/checkout"));
}

#[test]
fn composite_keeps_per_step_comment() {
    let sha = "a".repeat(40);
    let located = located(&[(
        "/repo/.github/actions/setup/action.yml",
        AD,
        &composite(&format!(
            "      - uses: actions/checkout@{sha} # v4\n      - uses: actions/checkout@{sha} # v5\n"
        )),
    )]);
    assert_eq!(located.len(), 2);
    let label_at = |step: u16| {
        located
            .iter()
            .find(|a| a.location.step == Some(step))
            .unwrap()
            .action
            .version
            .as_str()
            .to_owned()
    };
    assert_eq!(label_at(0), "v4");
    assert_eq!(label_at(1), "v5");
}

#[test]
fn scan_file_reads_a_composite_under_the_right_schema() {
    let content = composite("      - uses: actions/checkout@v4\n");
    let scanner = FileScanner::new("/repo");
    let path = "/repo/.github/actions/setup/action.yml";
    let action_set = action_set_from_located(&scanner.located_from_file(path, &parsed(AD, &content), &content));
    let ids = action_set.action_ids();
    assert_eq!(ids.len(), 1);
    assert!(ids.contains(&ActionId::new("actions/checkout")));
}

#[test]
fn discovery_order_is_deterministic_workflows_before_composites() {
    let file = |path: &str, kind: FileKind| ManagedFile { path: format!("/repo/{path}"), kind };
    let groups = || {
        vec![
            vec![file(".github/workflows/zzz.yml", WF), file(".github/workflows/aaa.yaml", WF)],
            vec![
                file(".github/actions/zebra/action.yml", AD),
                file(".github/actions/alpha/action.yml", AD),
            ],
        ]
    };
    let first = managed_paths(&managed_files(groups()));
    let second = managed_paths(&managed_files(groups()));
    assert_eq!(first, second, "order must be stable across runs");

    let scanner = FileScanner::new("/repo");
    let rel: Vec<String> = first.iter().map(|p| scanner.rel_path(p)).collect();
    assert_eq!(
        rel,
        vec![
            ".github/workflows/aaa.yaml",
            ".github/workflows/zzz.yml",
            ".github/actions/alpha/action.yml",
            ".github/actions/zebra/action.yml",
        ]
    );
}
