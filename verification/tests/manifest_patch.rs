use gx::identity::{ActionId, Version};
use gx::manifest::{
    format_manifest_toml, manifest_from_data, manifest_to_data, ActionOverride, Manifest,
    ManifestData, ManifestDiff, ManifestError, TomlActions, TomlOverride,
};
use gx::manifest_patch::{apply_manifest_diff_to_text, build_manifest_document};

fn text(v: &toml::Value, field: &str) -> Option<String> {
    v.get(field).and_then(|f| f.as_str()).map(str::to_owned)
}

/// Read manifest text the way the manifest file is read.
fn read_data(content: &str) -> ManifestData {
    let table: toml::Table = content.parse().expect("valid TOML");
    let mut actions = TomlActions::default();
    if let Some(entries) = table.get("actions").and_then(|a| a.as_table()) {
        for (key, value) in entries {
            if key == "overrides" {
                for (id, list) in value.as_table().expect("overrides table") {
                    let mut converted = Vec::new();
                    for entry in list.as_array().expect("override array") {
                        converted.push(TomlOverride {
                            workflow: text(entry, "workflow").expect("workflow"),
                            job: text(entry, "job"),
                            step: entry
                                .get("step")
                                .and_then(|s| s.as_integer())
                                .map(|s| usize::try_from(s).expect("step")),
                            version: text(entry, "version").expect("version"),
                        });
                    }
                    actions.overrides.push((id.clone(), converted));
                }
            } else {
                actions
                    .versions
                    .push((key.clone(), value.as_str().expect("version").to_owned()));
            }
        }
    }
    ManifestData {
        gx: None,
        actions,
        lint: Default::default(),
    }
}

fn parse_manifest(content: &str) -> Result<Manifest, ManifestError> {
    manifest_from_data(read_data(content))
}

fn apply(content: &str, diff: &ManifestDiff) -> String {
    apply_manifest_diff_to_text(content, diff).expect("diff applies")
}

fn saved(manifest: &Manifest) -> String {
    build_manifest_document(manifest).to_string()
}

fn action_lines(content: &str) -> Vec<&str> {
    content
        .lines()
        .filter(|l| l.trim().starts_with('"') && l.contains(" = ") && !l.contains('['))
        .collect()
}

#[test]
fn patch_test_apply_empty_diff_does_not_modify_file() {
    let content = "[actions]\n\"actions/checkout\" = \"v4\"\n";
    let diff = ManifestDiff::default();
    let after = apply(content, &diff);
    assert_eq!(content, after, "Empty diff must not modify file");
}

#[test]
fn patch_test_apply_add_one_action_preserves_existing() {
    let content = "[actions]\n\"actions/checkout\" = \"^4\"\n";
    let diff = ManifestDiff {
        added: vec![(ActionId::new("actions/setup-node"), Version::new("^3"))],
        ..Default::default()
    };
    let after = apply(content, &diff);
    assert!(
        after.contains("\"actions/checkout\" = \"^4\""),
        "Existing entry must be preserved, got:\n{after}"
    );
    assert!(
        after.contains("\"actions/setup-node\" = \"^3\""),
        "New entry must be added, got:\n{after}"
    );
    let loaded = parse_manifest(&after).unwrap();
    assert_eq!(
        loaded.get(&ActionId::new("actions/checkout")),
        Some(&Version::new("^4"))
    );
    assert_eq!(
        loaded.get(&ActionId::new("actions/setup-node")),
        Some(&Version::new("^3"))
    );
}

#[test]
fn patch_test_apply_remove_one_action() {
    let content = "[actions]\n\"actions/checkout\" = \"v4\"\n\"actions/setup-node\" = \"v3\"\n";
    let diff = ManifestDiff {
        removed: vec![ActionId::new("actions/checkout")],
        ..Default::default()
    };
    let after = apply(content, &diff);
    assert!(
        !after.contains("actions/checkout"),
        "Removed entry must be gone, got:\n{after}"
    );
    assert!(
        after.contains("\"actions/setup-node\" = \"v3\""),
        "Other entry must be preserved, got:\n{after}"
    );
}

#[test]
fn patch_test_apply_add_override_creates_section_if_missing() {
    let content = "[actions]\n\"actions/checkout\" = \"^4\"\n";
    let diff = ManifestDiff {
        overrides_added: vec![(
            ActionId::new("actions/checkout"),
            ActionOverride {
                workflow: ".github/workflows/deploy.yml".to_string(),
                job: None,
                step: None,
                version: Version::new("^3"),
            },
        )],
        ..Default::default()
    };
    let after = apply(content, &diff);
    let loaded = parse_manifest(&after).unwrap();
    let overrides = loaded.overrides_for(&ActionId::new("actions/checkout"));
    assert_eq!(overrides.len(), 1);
    assert_eq!(overrides[0].workflow, ".github/workflows/deploy.yml");
    assert_eq!(overrides[0].version.as_str(), "^3");
}

#[test]
fn patch_test_apply_add_override_to_existing_section() {
    let content = r#"[actions]
"actions/checkout" = "v4"

[actions.overrides]
"actions/checkout" = [
  { workflow = ".github/workflows/deploy.yml", version = "v3" },
]
"#;
    let diff = ManifestDiff {
        overrides_added: vec![(
            ActionId::new("actions/checkout"),
            ActionOverride {
                workflow: ".github/workflows/ci.yml".to_string(),
                job: Some("legacy".to_string()),
                step: None,
                version: Version::new("^2"),
            },
        )],
        ..Default::default()
    };
    let after = apply(content, &diff);
    let loaded = parse_manifest(&after).unwrap();
    let overrides = loaded.overrides_for(&ActionId::new("actions/checkout"));
    assert_eq!(overrides.len(), 2, "Should have 2 overrides now");
}

#[test]
fn patch_test_apply_remove_all_overrides_removes_action_entry() {
    let content = r#"[actions]
"actions/checkout" = "v4"

[actions.overrides]
"actions/checkout" = [
  { workflow = ".github/workflows/deploy.yml", version = "v3" },
]
"#;
    let diff = ManifestDiff {
        overrides_removed: vec![(
            ActionId::new("actions/checkout"),
            vec![ActionOverride {
                workflow: ".github/workflows/deploy.yml".to_string(),
                job: None,
                step: None,
                version: Version::new("^3"),
            }],
        )],
        ..Default::default()
    };
    let after = apply(content, &diff);
    let loaded = parse_manifest(&after).unwrap();
    assert!(loaded
        .overrides_for(&ActionId::new("actions/checkout"))
        .is_empty());
}

#[test]
fn patch_test_apply_remove_last_override_removes_section() {
    let content = r#"[actions]
"actions/checkout" = "v4"

[actions.overrides]
"actions/checkout" = [
  { workflow = ".github/workflows/deploy.yml", version = "v3" },
]
"#;
    let diff = ManifestDiff {
        overrides_removed: vec![(
            ActionId::new("actions/checkout"),
            vec![ActionOverride {
                workflow: ".github/workflows/deploy.yml".to_string(),
                job: None,
                step: None,
                version: Version::new("^3"),
            }],
        )],
        ..Default::default()
    };
    let after = apply(content, &diff);
    assert!(
        !after.contains("overrides"),
        "Overrides section must be removed when empty, got:\n{after}"
    );
}

#[test]
fn patch_test_apply_roundtrip_domain_state_matches() {
    let content = r#"[actions]
"actions/checkout" = "^4"
"actions/setup-node" = "^3"
"#;
    let diff = ManifestDiff {
        added: vec![(ActionId::new("actions/cache"), Version::new("^3"))],
        removed: vec![ActionId::new("actions/setup-node")],
        overrides_added: vec![(
            ActionId::new("actions/checkout"),
            ActionOverride {
                workflow: ".github/workflows/windows.yml".to_string(),
                job: None,
                step: None,
                version: Version::new("^3"),
            },
        )],
        ..Default::default()
    };
    let after = apply(content, &diff);
    let loaded = parse_manifest(&after).unwrap();
    assert!(loaded.get(&ActionId::new("actions/checkout")).is_some());
    assert!(loaded.get(&ActionId::new("actions/cache")).is_some());
    assert!(loaded.get(&ActionId::new("actions/setup-node")).is_none());
    let overrides = loaded.overrides_for(&ActionId::new("actions/checkout"));
    assert_eq!(overrides.len(), 1);
    assert_eq!(overrides[0].workflow, ".github/workflows/windows.yml");
}

#[test]
fn manifest_test_apply_empty_diff_does_not_modify_file() {
    let content = "[actions]\n\"actions/checkout\" = \"v4\"\n";
    let diff = ManifestDiff::default();
    let after = apply(content, &diff);
    assert_eq!(content, after, "Empty diff must not modify file");
}

#[test]
fn manifest_test_apply_add_one_action_preserves_existing() {
    let content = "[actions]\n\"actions/checkout\" = \"v4\"\n";
    let diff = ManifestDiff {
        added: vec![(ActionId::new("actions/setup-node"), Version::new("v3"))],
        ..Default::default()
    };
    let after = apply(content, &diff);
    assert!(
        after.contains("\"actions/checkout\" = \"v4\""),
        "Existing entry must be preserved, got:\n{after}"
    );
    assert!(
        after.contains("\"actions/setup-node\" = \"v3\""),
        "New entry must be added, got:\n{after}"
    );
    let loaded = parse_manifest(&after).unwrap();
    assert_eq!(
        loaded.get(&ActionId::new("actions/checkout")),
        Some(&Version::new("v4"))
    );
    assert_eq!(
        loaded.get(&ActionId::new("actions/setup-node")),
        Some(&Version::new("v3"))
    );
}

#[test]
fn manifest_test_apply_remove_one_action() {
    let content = "[actions]\n\"actions/checkout\" = \"v4\"\n\"actions/setup-node\" = \"v3\"\n";
    let diff = ManifestDiff {
        removed: vec![ActionId::new("actions/checkout")],
        ..Default::default()
    };
    let after = apply(content, &diff);
    assert!(
        !after.contains("actions/checkout"),
        "Removed entry must be gone, got:\n{after}"
    );
    assert!(
        after.contains("\"actions/setup-node\" = \"v3\""),
        "Other entry must be preserved, got:\n{after}"
    );
}

#[test]
fn manifest_test_apply_add_override_creates_section_if_missing() {
    let content = "[actions]\n\"actions/checkout\" = \"v4\"\n";
    let diff = ManifestDiff {
        overrides_added: vec![(
            ActionId::new("actions/checkout"),
            ActionOverride {
                workflow: ".github/workflows/deploy.yml".to_string(),
                job: None,
                step: None,
                version: Version::new("v3"),
            },
        )],
        ..Default::default()
    };
    let after = apply(content, &diff);
    let loaded = parse_manifest(&after).unwrap();
    let overrides = loaded.overrides_for(&ActionId::new("actions/checkout"));
    assert_eq!(overrides.len(), 1);
    assert_eq!(overrides[0].workflow, ".github/workflows/deploy.yml");
    assert_eq!(overrides[0].version.as_str(), "v3");
}

#[test]
fn manifest_test_apply_add_override_to_existing_section() {
    let content = r#"[actions]
"actions/checkout" = "v4"

[actions.overrides]
"actions/checkout" = [
  { workflow = ".github/workflows/deploy.yml", version = "v3" },
]
"#;
    let diff = ManifestDiff {
        overrides_added: vec![(
            ActionId::new("actions/checkout"),
            ActionOverride {
                workflow: ".github/workflows/ci.yml".to_string(),
                job: Some("legacy".to_string()),
                step: None,
                version: Version::new("v2"),
            },
        )],
        ..Default::default()
    };
    let after = apply(content, &diff);
    let loaded = parse_manifest(&after).unwrap();
    let overrides = loaded.overrides_for(&ActionId::new("actions/checkout"));
    assert_eq!(overrides.len(), 2, "Should have 2 overrides now");
}

#[test]
fn manifest_test_apply_remove_all_overrides_removes_action_entry() {
    let content = r#"[actions]
"actions/checkout" = "v4"

[actions.overrides]
"actions/checkout" = [
  { workflow = ".github/workflows/deploy.yml", version = "v3" },
]
"#;
    let diff = ManifestDiff {
        overrides_removed: vec![(
            ActionId::new("actions/checkout"),
            vec![ActionOverride {
                workflow: ".github/workflows/deploy.yml".to_string(),
                job: None,
                step: None,
                version: Version::new("v3"),
            }],
        )],
        ..Default::default()
    };
    let after = apply(content, &diff);
    let loaded = parse_manifest(&after).unwrap();
    assert!(loaded
        .overrides_for(&ActionId::new("actions/checkout"))
        .is_empty());
}

#[test]
fn manifest_test_apply_remove_last_override_removes_section() {
    let content = r#"[actions]
"actions/checkout" = "v4"

[actions.overrides]
"actions/checkout" = [
  { workflow = ".github/workflows/deploy.yml", version = "v3" },
]
"#;
    let diff = ManifestDiff {
        overrides_removed: vec![(
            ActionId::new("actions/checkout"),
            vec![ActionOverride {
                workflow: ".github/workflows/deploy.yml".to_string(),
                job: None,
                step: None,
                version: Version::new("v3"),
            }],
        )],
        ..Default::default()
    };
    let after = apply(content, &diff);
    assert!(
        !after.contains("overrides"),
        "Overrides section must be removed when empty, got:\n{after}"
    );
}

#[test]
fn manifest_test_apply_roundtrip_domain_state_matches() {
    let content = r#"[actions]
"actions/checkout" = "v4"
"actions/setup-node" = "v3"
"#;
    let diff = ManifestDiff {
        added: vec![(ActionId::new("actions/cache"), Version::new("v3"))],
        removed: vec![ActionId::new("actions/setup-node")],
        overrides_added: vec![(
            ActionId::new("actions/checkout"),
            ActionOverride {
                workflow: ".github/workflows/windows.yml".to_string(),
                job: None,
                step: None,
                version: Version::new("v3"),
            },
        )],
        ..Default::default()
    };
    let after = apply(content, &diff);
    let loaded = parse_manifest(&after).unwrap();
    assert!(loaded.get(&ActionId::new("actions/checkout")).is_some());
    assert!(loaded.get(&ActionId::new("actions/cache")).is_some());
    assert!(loaded.get(&ActionId::new("actions/setup-node")).is_none());
    let overrides = loaded.overrides_for(&ActionId::new("actions/checkout"));
    assert_eq!(overrides.len(), 1);
    assert_eq!(overrides[0].workflow, ".github/workflows/windows.yml");
}

#[test]
fn build_manifest_document_with_overrides() {
    let mut manifest = Manifest::default();
    manifest.set(ActionId::new("actions/checkout"), Version::new("^4"));
    manifest.add_override(
        ActionId::new("actions/checkout"),
        ActionOverride {
            workflow: ".github/workflows/ci.yml".to_string(),
            job: None,
            step: None,
            version: Version::new("^3"),
        },
    );

    let output = saved(&manifest);

    assert!(output.contains("[actions]"));
    assert!(output.contains("[actions.overrides]"));
    assert!(output.contains("\"actions/checkout\" = \"^4\""));
    assert!(!output.contains("[gx]"));
}

#[test]
fn file_manifest_save_and_load_roundtrip() {
    let mut manifest = Manifest::default();
    manifest.set(ActionId::new("actions/checkout"), Version::new("^4"));
    manifest.set(ActionId::new("actions/setup-node"), Version::new("^3"));

    let loaded = parse_manifest(&saved(&manifest)).unwrap();
    assert_eq!(
        loaded.get(&ActionId::new("actions/checkout")),
        Some(&Version::new("^4"))
    );
    assert_eq!(
        loaded.get(&ActionId::new("actions/setup-node")),
        Some(&Version::new("^3"))
    );
}

#[test]
fn file_manifest_load_existing_toml() {
    let content = r#"
[actions]
"actions/checkout" = "v4"
"actions/setup-node" = "v4"
"#;
    let loaded = parse_manifest(content).unwrap();
    assert_eq!(
        loaded.get(&ActionId::new("actions/checkout")),
        Some(&Version::new("v4"))
    );
}

#[test]
fn file_manifest_save_sorts_actions_alphabetically() {
    let mut manifest = Manifest::default();
    manifest.set(ActionId::new("docker/build-push-action"), Version::new("^5"));
    manifest.set(ActionId::new("actions/checkout"), Version::new("^4"));
    manifest.set(ActionId::new("actions-rust-lang/rustfmt"), Version::new("^1"));

    let content = saved(&manifest);
    let lines = action_lines(&content);
    let mut sorted = lines.clone();
    sorted.sort_unstable();
    assert_eq!(lines, sorted);
    assert!(lines[0].contains("actions-rust-lang/rustfmt"));
    assert!(lines[1].contains("actions/checkout"));
    assert!(lines[2].contains("docker/build-push-action"));
}

#[test]
fn save_no_gx_section() {
    let mut manifest = Manifest::default();
    manifest.set(ActionId::new("actions/checkout"), Version::new("^4"));
    let content = saved(&manifest);
    assert!(
        !content.contains("[gx]"),
        "Saved file must NOT contain [gx] section, got:\n{content}"
    );
    assert!(
        !content.contains("min_version"),
        "Saved file must NOT contain min_version, got:\n{content}"
    );
    assert!(
        content.contains("[actions]"),
        "Saved file must contain [actions] section, got:\n{content}"
    );
}

#[test]
fn test_file_manifest_save_and_load_roundtrip() {
    let mut manifest = Manifest::default();
    manifest.set(ActionId::new("actions/checkout"), Version::new("v4"));
    manifest.set(ActionId::new("actions/setup-node"), Version::new("v3"));

    let loaded = parse_manifest(&format_manifest_toml(&manifest_to_data(&manifest))).unwrap();
    assert_eq!(
        loaded.get(&ActionId::new("actions/checkout")),
        Some(&Version::new("v4"))
    );
    assert_eq!(
        loaded.get(&ActionId::new("actions/setup-node")),
        Some(&Version::new("v3"))
    );
}

#[test]
fn test_file_manifest_load_existing_toml() {
    let content = r#"
[actions]
"actions/checkout" = "v4"
"actions/setup-node" = "v4"
"#;
    let manifest = parse_manifest(content).unwrap();
    assert_eq!(
        manifest.get(&ActionId::new("actions/checkout")),
        Some(&Version::new("v4"))
    );
}

#[test]
fn test_file_manifest_save_sorts_actions_alphabetically() {
    let mut manifest = Manifest::default();
    manifest.set(ActionId::new("docker/build-push-action"), Version::new("v5"));
    manifest.set(ActionId::new("actions/checkout"), Version::new("v4"));
    manifest.set(ActionId::new("actions-rust-lang/rustfmt"), Version::new("v1"));

    let content = format_manifest_toml(&manifest_to_data(&manifest));
    let lines = action_lines(&content);
    let mut sorted = lines.clone();
    sorted.sort_unstable();
    assert_eq!(lines, sorted);
    assert!(lines[0].contains("actions-rust-lang/rustfmt"));
    assert!(lines[1].contains("actions/checkout"));
    assert!(lines[2].contains("docker/build-push-action"));
}

#[test]
fn apply_refuses_a_non_table_actions_item() {
    let diff = ManifestDiff {
        removed: vec![ActionId::new("actions/checkout")],
        ..Default::default()
    };
    assert_eq!(
        apply_manifest_diff_to_text("actions = 3\n", &diff),
        Err("[actions] is not a table".to_string())
    );
}

#[test]
fn apply_reports_a_parse_error() {
    let diff = ManifestDiff {
        removed: vec![ActionId::new("actions/checkout")],
        ..Default::default()
    };
    let err = apply_manifest_diff_to_text("[actions\n", &diff).unwrap_err();
    assert!(err.starts_with("toml_edit parse error: "), "{err}");
}

#[test]
fn apply_refuses_to_append_to_an_array_of_tables() {
    let content = r#"[actions]
"actions/checkout" = "v4"

[[actions.overrides."actions/checkout"]]
workflow = ".github/workflows/deploy.yml"
version = "v3"
"#;
    let diff = ManifestDiff {
        overrides_added: vec![(
            ActionId::new("actions/checkout"),
            ActionOverride {
                workflow: ".github/workflows/ci.yml".to_string(),
                job: None,
                step: None,
                version: Version::new("v2"),
            },
        )],
        ..Default::default()
    };
    assert_eq!(
        apply_manifest_diff_to_text(content, &diff),
        Err("an override entry in [actions.overrides] is not an inline array".to_string())
    );
}

#[test]
fn apply_removes_matching_entries_of_an_array_of_tables() {
    let content = r#"[actions]
"actions/checkout" = "v4"

[[actions.overrides."actions/checkout"]]
workflow = ".github/workflows/deploy.yml"
job = "build"
step = 2
version = "v3"

[[actions.overrides."actions/checkout"]]
workflow = ".github/workflows/ci.yml"
version = "v2"
"#;
    let diff = ManifestDiff {
        overrides_removed: vec![(
            ActionId::new("actions/checkout"),
            vec![ActionOverride {
                workflow: ".github/workflows/deploy.yml".to_string(),
                job: Some("build".to_string()),
                step: Some(2),
                version: Version::new("v3"),
            }],
        )],
        ..Default::default()
    };
    let after = apply(content, &diff);
    let loaded = parse_manifest(&after).unwrap();
    let overrides = loaded.overrides_for(&ActionId::new("actions/checkout"));
    assert_eq!(overrides.len(), 1);
    assert_eq!(overrides[0].workflow, ".github/workflows/ci.yml");
}

#[test]
fn apply_drops_the_legacy_gx_table_and_writes_steps() {
    let content = "[gx]\nmin_version = \"1.0\"\n\n[actions]\n\"actions/checkout\" = \"v4\"\n";
    let diff = ManifestDiff {
        overrides_added: vec![(
            ActionId::new("actions/checkout"),
            ActionOverride {
                workflow: ".github/workflows/ci.yml".to_string(),
                job: Some("test".to_string()),
                step: Some(3),
                version: Version::new("v3"),
            },
        )],
        ..Default::default()
    };
    let after = apply(content, &diff);
    assert!(!after.contains("[gx]"), "{after}");
    assert!(after.contains("step = 3"), "{after}");
    let loaded = parse_manifest(&after).unwrap();
    let overrides = loaded.overrides_for(&ActionId::new("actions/checkout"));
    assert_eq!(overrides.len(), 1);
    assert_eq!(overrides[0].job.as_deref(), Some("test"));
    assert_eq!(overrides[0].step, Some(3));
}

#[test]
fn tests_test_save_and_load_roundtrip_with_overrides() {
    let mut manifest = Manifest::default();
    manifest.set(ActionId::new("actions/checkout"), Version::new("^4"));
    manifest.add_override(
        ActionId::new("actions/checkout"),
        ActionOverride {
            workflow: ".github/workflows/deploy.yml".to_string(),
            job: None,
            step: None,
            version: Version::new("^3"),
        },
    );

    let content = saved(&manifest);
    assert!(
        content.contains("actions.overrides"),
        "Expected overrides section, got:\n{content}"
    );

    let loaded = parse_manifest(&content).unwrap();
    let overrides = loaded.overrides_for(&ActionId::new("actions/checkout"));
    assert_eq!(overrides.len(), 1);
    assert_eq!(overrides[0].workflow, ".github/workflows/deploy.yml");
    assert_eq!(overrides[0].version.as_str(), "^3");
}

#[test]
fn tests_test_save_no_overrides_section_when_empty() {
    let mut manifest = Manifest::default();
    manifest.set(ActionId::new("actions/checkout"), Version::new("^4"));

    let content = saved(&manifest);
    assert!(!content.contains("overrides"), "got:\n{content}");
}

#[test]
fn tests_test_save_and_load_roundtrip_generates_correct_toml_format() {
    let mut manifest = Manifest::default();
    manifest.set(ActionId::new("actions/checkout"), Version::new("^4"));
    manifest.add_override(
        ActionId::new("actions/checkout"),
        ActionOverride {
            workflow: ".github/workflows/windows.yml".to_string(),
            job: Some("test_windows".to_string()),
            step: Some(0),
            version: Version::new("^5"),
        },
    );

    let content = saved(&manifest);
    assert!(
        content.contains("[actions.overrides]"),
        "Expected [actions.overrides] section, got:\n{content}"
    );
    assert!(
        !content.contains("[[actions.overrides"),
        "Should not use array-of-tables syntax, got:\n{content}"
    );
    assert!(
        content.contains(r#""actions/checkout" = ["#),
        "Expected inline table array syntax, got:\n{content}"
    );

    let loaded = parse_manifest(&content).unwrap();
    let overrides = loaded.overrides_for(&ActionId::new("actions/checkout"));
    assert_eq!(overrides.len(), 1);
    assert_eq!(overrides[0].workflow, ".github/workflows/windows.yml");
    assert_eq!(overrides[0].job.as_deref(), Some("test_windows"));
    assert_eq!(overrides[0].step, Some(0));
    assert_eq!(overrides[0].version.as_str(), "^5");
}
