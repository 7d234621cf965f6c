use gx::identity::{ActionId, Version};
use gx::manifest::{
    create_manifest_text, format_manifest_toml, manifest_from_data, manifest_to_data,
    override_entry_matches, ActionOverride, Manifest, ManifestData, ManifestDiff, ManifestError,
    TomlActions, TomlOverride,
};

fn text(v: &toml::Value, field: &str) -> Option<String> {
    v.get(field).and_then(|f| f.as_str()).map(str::to_owned)
}

/// Read manifest text the way the manifest file is read.
fn read_data(content: &str) -> ManifestData {
    let table: toml::Table = content.parse().expect("valid TOML");
    let mut actions = TomlActions::default();
    if let Some(entries) = table.get("actions").and_then(|a| a.as_table()) {
        for (key, value) in entries {
            if key == "overrides" {
                for (id, list) in value.as_table().expect("overrides table") {
                    let mut converted = Vec::new();
                    for entry in list.as_array().expect("override array") {
                        converted.push(TomlOverride {
                            workflow: text(entry, "workflow").expect("workflow"),
                            job: text(entry, "job"),
                            step: entry
                                .get("step")
                                .and_then(|s| s.as_integer())
                                .map(|s| usize::try_from(s).expect("step")),
                            version: text(entry, "version").expect("version"),
                        });
                    }
                    actions.overrides.push((id.clone(), converted));
                }
            } else {
                actions
                    .versions
                    .push((key.clone(), value.as_str().expect("version").to_owned()));
            }
        }
    }
    ManifestData {
        gx: None,
        actions,
        lint: Default::default(),
    }
}

fn parse_manifest(content: &str) -> Result<Manifest, ManifestError> {
    manifest_from_data(read_data(content))
}

fn save(manifest: &Manifest) -> String {
    format_manifest_toml(&manifest_to_data(manifest))
}

fn message(e: &ManifestError) -> String {
    match e {
        ManifestError::Validation(m) => format!("invalid manifest: {m}"),
        other => format!("{other:?}"),
    }
}

#[test]
fn manifest_test_parse_manifest_reads_file() {
    let manifest = parse_manifest("[actions]\n\"actions/checkout\" = \"v4\"\n").unwrap();
    assert_eq!(
        manifest.get(&ActionId::new("actions/checkout")),
        Some(&Version::new("v4"))
    );
}

#[test]
fn manifest_test_load_manifest_with_overrides() {
    let content = r#"
[actions]
"actions/checkout" = "v4"

[actions.overrides]
"actions/checkout" = [
  { workflow = ".github/workflows/deploy.yml", version = "v3" },
  { workflow = ".github/workflows/ci.yml", job = "legacy-build", version = "v2" },
]
"#;
    let manifest = parse_manifest(content).unwrap();

    assert_eq!(
        manifest.get(&ActionId::new("actions/checkout")),
        Some(&Version::new("v4"))
    );

    let overrides = manifest.overrides_for(&ActionId::new("actions/checkout"));
    assert_eq!(overrides.len(), 2);
    assert_eq!(overrides[0].workflow, ".github/workflows/deploy.yml");
    assert_eq!(overrides[0].version.as_str(), "v3");
    assert_eq!(overrides[1].job.as_deref(), Some("legacy-build"));
    assert_eq!(overrides[1].version.as_str(), "v2");
}

#[test]
fn manifest_test_save_and_load_roundtrip_with_overrides() {
    let mut manifest = Manifest::default();
    manifest.set(ActionId::new("actions/checkout"), Version::new("v4"));
    manifest.add_override(
        ActionId::new("actions/checkout"),
        ActionOverride {
            workflow: ".github/workflows/deploy.yml".to_string(),
            job: None,
            step: None,
            version: Version::new("v3"),
        },
    );

    let content = save(&manifest);
    assert!(
        content.contains("actions.overrides"),
        "Expected overrides section, got:\n{content}"
    );

    let loaded = parse_manifest(&content).unwrap();
    let overrides = loaded.overrides_for(&ActionId::new("actions/checkout"));
    assert_eq!(overrides.len(), 1);
    assert_eq!(overrides[0].workflow, ".github/workflows/deploy.yml");
    assert_eq!(overrides[0].version.as_str(), "v3");
}

#[test]
fn manifest_test_load_override_without_global_is_error() {
    let content = r#"
[actions]
"actions/setup-node" = "v4"

[actions.overrides]
"actions/checkout" = [
  { workflow = ".github/workflows/deploy.yml", version = "v3" },
]
"#;
    let result = parse_manifest(content);
    assert!(result.is_err());
    let err = message(&result.unwrap_err());
    assert!(err.contains("actions/checkout"), "got: {err}");
    assert!(err.contains("gx tidy"), "got: {err}");
}

#[test]
fn manifest_test_load_override_step_without_job_is_error() {
    let content = r#"
[actions]
"actions/checkout" = "v4"

[actions.overrides]
"actions/checkout" = [
  { workflow = ".github/workflows/ci.yml", step = 0, version = "v3" },
]
"#;
    let result = parse_manifest(content);
    assert!(result.is_err());
}

#[test]
fn manifest_test_load_duplicate_scope_is_error() {
    let content = r#"
[actions]
"actions/checkout" = "v4"

[actions.overrides]
"actions/checkout" = [
  { workflow = ".github/workflows/deploy.yml", version = "v3" },
  { workflow = ".github/workflows/deploy.yml", version = "v2" },
]
"#;
    let result = parse_manifest(content);
    assert!(result.is_err());
}

#[test]
fn manifest_test_save_no_overrides_section_when_empty() {
    let mut manifest = Manifest::default();
    manifest.set(ActionId::new("actions/checkout"), Version::new("v4"));
    let content = save(&manifest);
    assert!(!content.contains("overrides"), "got:\n{content}");
}

#[test]
fn manifest_test_save_and_load_roundtrip_generates_correct_toml_format() {
    let mut manifest = Manifest::default();
    manifest.set(ActionId::new("actions/checkout"), Version::new("v4"));
    manifest.add_override(
        ActionId::new("actions/checkout"),
        ActionOverride {
            workflow: ".github/workflows/windows.yml".to_string(),
            job: Some("test_windows".to_string()),
            step: Some(0),
            version: Version::new("v5"),
        },
    );

    let content = save(&manifest);

    assert!(
        content.contains("[actions.overrides]"),
        "Expected [actions.overrides] section, got:\n{content}"
    );
    assert!(
        !content.contains("[[actions.overrides"),
        "Should not use array-of-tables syntax, got:\n{content}"
    );
    assert!(
        content.contains(r#""actions/checkout" = ["#),
        "Expected inline table array syntax, got:\n{content}"
    );

    let loaded = parse_manifest(&content).unwrap();
    let overrides = loaded.overrides_for(&ActionId::new("actions/checkout"));
    assert_eq!(overrides.len(), 1);
    assert_eq!(overrides[0].workflow, ".github/workflows/windows.yml");
    assert_eq!(overrides[0].job.as_deref(), Some("test_windows"));
    assert_eq!(overrides[0].step, Some(0));
    assert_eq!(overrides[0].version.as_str(), "v5");
}

#[test]
fn manifest_test_create_manifest_from_diff_with_3_actions() {
    let diff = ManifestDiff {
        added: vec![
            (ActionId::new("actions/checkout"), Version::new("v4")),
            (ActionId::new("actions/setup-node"), Version::new("v3")),
            (ActionId::new("actions/cache"), Version::new("v3")),
        ],
        ..Default::default()
    };
    let content = create_manifest_text(&diff);
    let loaded = parse_manifest(&content).unwrap();
    assert_eq!(loaded.get(&ActionId::new("actions/checkout")), Some(&Version::new("v4")));
    assert_eq!(loaded.get(&ActionId::new("actions/setup-node")), Some(&Version::new("v3")));
    assert_eq!(loaded.get(&ActionId::new("actions/cache")), Some(&Version::new("v3")));
}

#[test]
fn manifest_test_create_manifest_with_overrides() {
    let diff = ManifestDiff {
        added: vec![(ActionId::new("actions/checkout"), Version::new("v4"))],
        overrides_added: vec![(
            ActionId::new("actions/checkout"),
            ActionOverride {
                workflow: ".github/workflows/deploy.yml".to_string(),
                job: None,
                step: None,
                version: Version::new("v3"),
            },
        )],
        ..Default::default()
    };
    let content = create_manifest_text(&diff);
    assert!(content.contains("[actions.overrides]"));
    let loaded = parse_manifest(&content).unwrap();
    let overrides = loaded.overrides_for(&ActionId::new("actions/checkout"));
    assert_eq!(overrides.len(), 1);
    assert_eq!(overrides[0].version.as_str(), "v3");
}

#[test]
fn manifest_save_sorts_actions_alphabetically() {
    let mut manifest = Manifest::default();
    manifest.set(ActionId::new("docker/build-push-action"), Version::new("v5"));
    manifest.set(ActionId::new("actions/checkout"), Version::new("v4"));
    manifest.set(ActionId::new("actions-rust-lang/rustfmt"), Version::new("v1"));
    let content = save(&manifest);
    assert_eq!(
        content,
        "[actions]\n\"actions-rust-lang/rustfmt\" = \"v1\"\n\"actions/checkout\" = \"v4\"\n\"docker/build-push-action\" = \"v5\"\n\n"
    );
}

#[test]
fn manifest_override_line_is_exact() {
    let mut manifest = Manifest::default();
    manifest.set(ActionId::new("a/b"), Version::new("v2"));
    manifest.add_override(
        ActionId::new("a/b"),
        ActionOverride {
            workflow: "w.yml".to_string(),
            job: Some("build".to_string()),
            step: Some(12),
            version: Version::new("v1"),
        },
    );
    assert_eq!(
        save(&manifest),
        "[actions]\n\"a/b\" = \"v2\"\n\n[actions.overrides]\n\"a/b\" = [\n  { workflow = \"w.yml\", job = \"build\", step = 12, version = \"v1\" },\n]\n\n"
    );
}

#[test]
fn manifest_error_messages_are_exact() {
    let step_err = parse_manifest(
        "[actions]\n\"a/b\" = \"v1\"\n[actions.overrides]\n\"a/b\" = [ { workflow = \"w\", step = 1, version = \"v0\" } ]\n",
    )
    .unwrap_err();
    assert_eq!(
        step_err,
        ManifestError::Validation("override for \"a/b\" in \"w\" has a step but no job".to_string())
    );
    let dup_err = parse_manifest(
        "[actions]\n\"a/b\" = \"v1\"\n[actions.overrides]\n\"a/b\" = [ { workflow = \"w\", job = \"j\", version = \"v0\" }, { workflow = \"w\", job = \"j\", version = \"v2\" } ]\n",
    )
    .unwrap_err();
    assert_eq!(
        dup_err,
        ManifestError::Validation("duplicate override scope for \"a/b\" in \"w\"".to_string())
    );
}

#[test]
fn override_entry_matching() {
    let ovr = ActionOverride {
        workflow: "ci.yml".to_string(),
        job: Some("build".to_string()),
        step: Some(2),
        version: Version::new("v1"),
    };
    assert!(override_entry_matches(Some("ci.yml"), Some("build"), Some(2), &ovr));
    assert!(!override_entry_matches(Some("ci.yml"), Some("build"), Some(3), &ovr));
    assert!(!override_entry_matches(Some("ci.yml"), None, Some(2), &ovr));
    assert!(!override_entry_matches(None, Some("build"), Some(2), &ovr));
    let any_step = ActionOverride { step: None, ..ovr.clone() };
    assert!(override_entry_matches(Some("ci.yml"), Some("build"), None, &any_step));
    let max_step = ActionOverride { step: Some(usize::MAX), ..ovr };
    assert!(override_entry_matches(Some("ci.yml"), Some("build"), Some(-1), &max_step));
}
