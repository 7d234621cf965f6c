use gx::flat::{self, FlatData, FlatEntryData};
use gx::identity::{ActionId, CommitSha, LockKey, Version};
use gx::two_tier::{self, ActionCommitData, ResolutionEntryData, TwoTierData};

fn make_key(action: &str, specifier: &str) -> LockKey {
    LockKey::new(ActionId::new(action), Version::new(specifier))
}

fn unread<T>(_: &str) -> Result<T, String> {
    panic!("content that is not of this layout must not be read")
}

fn text(v: &toml::Value, field: &str) -> Option<String> {
    v.get(field).and_then(|f| f.as_str()).map(str::to_owned)
}

fn read_flat(content: &str) -> Result<FlatData, String> {
    let table: toml::Table = content.parse().map_err(|e: toml::de::Error| e.to_string())?;
    let mut actions = Vec::new();
    if let Some(entries) = table.get("actions").and_then(|a| a.as_table()) {
        for (key, entry) in entries {
            actions.push((
                key.clone(),
                FlatEntryData {
                    sha: text(entry, "sha").ok_or("sha")?,
                    version: text(entry, "version"),
                    comment: text(entry, "comment").unwrap_or_default(),
                    repository: text(entry, "repository").ok_or("repository")?,
                    ref_type: text(entry, "ref_type").ok_or("ref_type")?,
                    date: text(entry, "date").ok_or("date")?,
                },
            ));
        }
    }
    Ok(FlatData {
        version: table.get("version").and_then(|v| v.as_str()).unwrap_or_default().to_owned(),
        actions,
    })
}

#[test]
fn try_parse_returns_none_for_non_two_tier() {
    let content = r#"version = "1.4"

[actions]
"actions/checkout@^4" = { sha = "abc123", version = "v4.0.0", comment = "v4", repository = "actions/checkout", ref_type = "tag", date = "" }
"#;
    let result = two_tier::try_parse(content, unread::<TwoTierData>).unwrap();
    assert!(result.is_none(), "flat format should return None");
}

#[test]
fn try_parse_returns_none_for_two_tier() {
    let content = r#"[resolutions."actions/checkout"."^4"]
version = "v4.0.0"
comment = "v4"

[actions."actions/checkout"."v4.0.0"]
sha = "abc123"
repository = "actions/checkout"
ref_type = "tag"
date = ""
"#;
    let result = flat::try_parse(content, unread::<FlatData>).unwrap();
    assert!(result.is_none(), "two-tier format should return None");
}

#[test]
fn try_parse_returns_none_for_no_actions() {
    let content = "# empty lock file\n";
    let result = flat::try_parse(content, unread::<FlatData>).unwrap();
    assert!(
        result.is_none(),
        "content without [actions] should return None"
    );
}

#[test]
fn flat_format_with_version_field_parses() {
    let content = r#"version = "1.4"

[actions]
"actions/checkout@^6" = { sha = "de0fac2e4500dabe0009e67214ff5f5447ce83dd", version = "v6.2.3", comment = "v6", repository = "actions/checkout", ref_type = "release", date = "2026-01-09T19:42:23Z" }
"#;
    let result = flat::try_parse(content, read_flat).unwrap();
    assert!(result.is_some(), "v1.4 format must be parsed as flat");
    let lock = result.unwrap();
    let (res, commit) = lock.get(&make_key("actions/checkout", "^6")).unwrap();
    assert_eq!(res.version.as_str(), "v6.2.3");
    assert_eq!(res.comment, "v6");
    assert_eq!(
        commit.sha,
        CommitSha::new("de0fac2e4500dabe0009e67214ff5f5447ce83dd")
    );
}

#[test]
fn flat_entry_missing_version_falls_back_to_specifier() {
    let content = r#"[actions."actions/checkout@^4"]
sha = "abc123def456789012345678901234567890abcd"
comment = ""
repository = "actions/checkout"
ref_type = "tag"
date = ""
"#;
    let result = flat::try_parse(content, read_flat).unwrap();
    assert!(result.is_some());
    let lock = result.unwrap();
    let (res, _) = lock.get(&make_key("actions/checkout", "^4")).unwrap();
    assert_eq!(
        res.version.as_str(),
        "^4",
        "missing version must fall back to specifier"
    );
}

#[test]
fn flat_parse_error_is_returned() {
    let content = "[actions\nbroken";
    let result = flat::try_parse(content, read_flat);
    assert!(result.is_err());
}

#[test]
fn two_tier_data_becomes_a_lock() {
    let data = TwoTierData {
        resolutions: vec![(
            "actions/checkout".to_string(),
            vec![("^4".to_string(), ResolutionEntryData { version: "v4.0.0".to_string() })],
        )],
        actions: vec![(
            "actions/checkout".to_string(),
            vec![(
                "v4.0.0".to_string(),
                ActionCommitData {
                    sha: "abc123def456789012345678901234567890abcd".to_string(),
                    repository: "actions/checkout".to_string(),
                    ref_type: "tag".to_string(),
                    date: "2026-01-01T00:00:00Z".to_string(),
                },
            )],
        )],
    };
    let content = "[resolutions.\"actions/checkout\".\"^4\"]\nversion = \"v4.0.0\"\n";
    let lock = two_tier::try_parse(content, |_: &str| Ok::<_, String>(data)).unwrap().unwrap();
    assert!(lock.has(&make_key("actions/checkout", "^4")));
    let (res, commit) = lock.get(&make_key("actions/checkout", "^4")).unwrap();
    assert_eq!(res.version.as_str(), "v4.0.0");
    assert_eq!(commit.repository.as_str(), "actions/checkout");
    assert!(!lock.has(&make_key("actions/checkout", "^3")));
    assert!(!lock.is_empty());
}

#[test]
fn resolution_without_commit_is_not_had() {
    let data = TwoTierData {
        resolutions: vec![(
            "a/b".to_string(),
            vec![("^1".to_string(), ResolutionEntryData { version: "v1.0.0".to_string() })],
        )],
        actions: Vec::new(),
    };
    let lock = two_tier::lock_from_two_tier(&data);
    assert!(!lock.has(&make_key("a/b", "^1")));
    assert!(!lock.is_empty());
    assert!(two_tier::lock_from_two_tier(&TwoTierData::default()).is_empty());
}

fn read_two_tier(content: &str) -> Result<TwoTierData, String> {
    let table: toml::Table = content.parse().map_err(|e: toml::de::Error| e.to_string())?;
    let mut data = TwoTierData::default();
    if let Some(ids) = table.get("resolutions").and_then(|r| r.as_table()) {
        for (id, specs) in ids {
            let mut list = Vec::new();
            for (spec, entry) in specs.as_table().ok_or("resolution table")? {
                list.push((
                    spec.clone(),
                    ResolutionEntryData { version: text(entry, "version").ok_or("version")? },
                ));
            }
            data.resolutions.push((id.clone(), list));
        }
    }
    if let Some(ids) = table.get("actions").and_then(|r| r.as_table()) {
        for (id, versions) in ids {
            let mut list = Vec::new();
            for (version, entry) in versions.as_table().ok_or("action table")? {
                list.push((
                    version.clone(),
                    ActionCommitData {
                        sha: text(entry, "sha").ok_or("sha")?,
                        repository: text(entry, "repository").ok_or("repository")?,
                        ref_type: text(entry, "ref_type").ok_or("ref_type")?,
                        date: text(entry, "date").ok_or("date")?,
                    },
                ));
            }
            data.actions.push((id.clone(), list));
        }
    }
    Ok(data)
}

fn two_entry_data() -> TwoTierData {
    let res = |v: &str| ResolutionEntryData { version: v.to_string() };
    let commit = |sha: &str, repo: &str| ActionCommitData {
        sha: sha.to_string(),
        repository: repo.to_string(),
        ref_type: "tag".to_string(),
        date: "2026-01-01T00:00:00Z".to_string(),
    };
    TwoTierData {
        resolutions: vec![
            ("docker/build-push-action".to_string(), vec![("^5".to_string(), res("v5.0.0"))]),
            ("actions/checkout".to_string(), vec![("^4".to_string(), res("v4.0.0"))]),
        ],
        actions: vec![
            (
                "docker/build-push-action".to_string(),
                vec![("v5.0.0".to_string(), commit("def456789012345678901234567890abcdef123456", "docker/build-push-action"))],
            ),
            (
                "actions/checkout".to_string(),
                vec![("v4.0.0".to_string(), commit("abc123def456789012345678901234567890abcd", "actions/checkout"))],
            ),
        ],
    }
}

#[test]
fn roundtrip_write_then_parse() {
    let lock = two_tier::lock_from_two_tier(&two_entry_data());
    let output = gx::two_tier_write::write(&lock);
    let parsed = two_tier::try_parse(&output, read_two_tier)
        .unwrap()
        .expect("should parse as two-tier");

    let spec1 = make_key("actions/checkout", "^4");
    let spec2 = make_key("docker/build-push-action", "^5");
    assert!(parsed.has(&spec1), "checkout entry must survive roundtrip");
    assert!(parsed.has(&spec2), "second entry must survive roundtrip");
    let (_, commit1) = parsed.get(&spec1).unwrap();
    assert_eq!(commit1.sha, CommitSha::new("abc123def456789012345678901234567890abcd"));
    let (_, commit2) = parsed.get(&spec2).unwrap();
    assert_eq!(commit2.sha, CommitSha::new("def456789012345678901234567890abcdef123456"));
}

#[test]
fn write_produces_sorted_output() {
    let lock = two_tier::lock_from_two_tier(&two_entry_data());
    let output = gx::two_tier_write::write(&lock);
    let checkout_pos = output.find("actions/checkout").unwrap();
    let docker_pos = output.find("docker/build-push-action").unwrap();
    assert!(checkout_pos < docker_pos, "entries must be sorted alphabetically");
    assert!(output.contains("[resolutions.\"actions/checkout\".\"^4\"]"), "got:\n{output}");
    assert!(output.contains("ref_type = \"tag\""));
}

#[test]
fn flat_format_without_version_field_parses() {
    let content = r#"[actions."actions/checkout@^4"]
sha = "abc123def456789012345678901234567890abcd"
version = "v4.0.0"
comment = "v4"
repository = "actions/checkout"
ref_type = "tag"
date = "2026-01-01T00:00:00Z"
"#;
    let result = flat::try_parse(content, read_flat).unwrap();
    assert!(result.is_some(), "flat format without version must parse");
    let lock = result.unwrap();
    let (res, commit) = lock.get(&make_key("actions/checkout", "^4")).unwrap();
    assert_eq!(res.version.as_str(), "v4.0.0");
    assert_eq!(
        commit.sha,
        CommitSha::new("abc123def456789012345678901234567890abcd")
    );
}

#[test]
fn two_flat_entries_deduplicating_to_one_action() {
    let content = r#"[actions."actions/checkout@^4"]
sha = "abc123def456789012345678901234567890abcd"
version = "v4.2.1"
comment = "v4"
repository = "actions/checkout"
ref_type = "tag"
date = "2026-01-01T00:00:00Z"

[actions."actions/checkout@^4.2"]
sha = "abc123def456789012345678901234567890abcd"
version = "v4.2.1"
comment = "v4.2"
repository = "actions/checkout"
ref_type = "tag"
date = "2026-01-01T00:00:00Z"
"#;
    let result = flat::try_parse(content, read_flat).unwrap();
    assert!(result.is_some());
    let lock = result.unwrap();

    let spec1 = make_key("actions/checkout", "^4");
    let spec2 = make_key("actions/checkout", "^4.2");
    assert!(lock.has(&spec1));
    assert!(lock.has(&spec2));

    let checkout_actions: Vec<_> = lock
        .action_pairs()
        .iter()
        .filter(|(k, _)| k.id == ActionId::new("actions/checkout"))
        .collect();
    assert_eq!(
        checkout_actions.len(),
        1,
        "two flat entries with same version should deduplicate to one action entry"
    );
}
