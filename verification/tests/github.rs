use gx::github::{next_date_source, DateSource};
use gx::github::{
    check_status, describe_from, filter_refs_by_sha, interpret_advisories, normalize_reset, parse_next_link,
    reset_from_header, resolve_next, strip_tag_prefix, Advisory, AdvisoryQuery, AdvisoryResponse,
    AdvisorySeverity, Error, GitObject, GitRefEntry, ResolveAction, VulnerabilityNode,
};
use gx::identity::RefType;
use std::cell::RefCell;
use gx::identity::{ActionId, CommitSha};
use gx::resolution::{Forge, ResolutionError, RetryAfter, MAX_RETRY_WAIT_SECS};

fn make_ref_entry(ref_name: &str, sha: &str) -> GitRefEntry {
    make_ref_entry_typed(ref_name, sha, "commit")
}

fn make_ref_entry_typed(ref_name: &str, sha: &str, object_type: &str) -> GitRefEntry {
    GitRefEntry {
        ref_name: ref_name.to_owned(),
        object: GitObject {
            sha: sha.to_owned(),
            object_type: object_type.to_owned(),
        },
    }
}

#[test]
fn near_reset_is_waited_out() {
    assert_eq!(
        normalize_reset(1_000_003, 1_000_000),
        RetryAfter::After(3),
        "a reset a few seconds out is a wait worth taking"
    );
}

#[test]
fn reset_exactly_at_the_cap_is_still_waited_out() {
    assert_eq!(
        normalize_reset(1_000_000 + MAX_RETRY_WAIT_SECS, 1_000_000),
        RetryAfter::After(MAX_RETRY_WAIT_SECS),
        "the cap is inclusive, so the boundary does not silently become TooDistant"
    );
}

#[test]
fn hour_out_reset_is_too_distant() {
    assert_eq!(
        normalize_reset(1_003_600, 1_000_000),
        RetryAfter::TooDistant,
        "an exhausted unauthenticated quota must not stall the terminal"
    );
}

#[test]
fn past_reset_does_not_produce_a_negative_wait() {
    assert_eq!(
        normalize_reset(1_000_000, 1_000_030),
        RetryAfter::After(0),
        "a reset already past means retry now, not panic or wrap"
    );
}

#[test]
fn filter_refs_lightweight_tags_match_commit_sha() {
    let commit_sha = "abc123def456789012345678901234567890abcd";
    let refs = vec![
        make_ref_entry("refs/tags/v4", commit_sha),
        make_ref_entry("refs/tags/v4.2.1", commit_sha),
        make_ref_entry("refs/tags/v3", "other_sha_000000000000000000000000000"),
    ];

    let tags = filter_refs_by_sha(&refs, commit_sha);
    assert_eq!(tags, vec!["v4", "v4.2.1"]);
}

#[test]
fn filter_refs_no_matches() {
    let refs = vec![
        make_ref_entry("refs/tags/v4", "aaa0000000000000000000000000000000000000"),
        make_ref_entry("refs/tags/v3", "bbb0000000000000000000000000000000000000"),
    ];

    let tags = filter_refs_by_sha(&refs, "ccc0000000000000000000000000000000000000");
    assert!(tags.is_empty());
}

#[test]
fn filter_refs_skips_annotated_tags() {
    let commit_sha = "abc123def456789012345678901234567890abcd";
    let tag_object_sha = "fedcba9876543210fedcba9876543210fedcba98";

    let refs = vec![
        make_ref_entry_typed("refs/tags/v6", tag_object_sha, "tag"),
        make_ref_entry_typed("refs/tags/v6.2.0", tag_object_sha, "tag"),
        make_ref_entry("refs/tags/v5", commit_sha),
    ];

    let tags = filter_refs_by_sha(&refs, commit_sha);
    assert_eq!(tags, vec!["v5"]);
}

#[test]
fn test_filter_refs_lightweight_tags_match_commit_sha() {
    let commit_sha = "abc123def456789012345678901234567890abcd";
    let refs = vec![
        make_ref_entry("refs/tags/v4", commit_sha),
        make_ref_entry("refs/tags/v4.2.1", commit_sha),
        make_ref_entry("refs/tags/v3", "other_sha_000000000000000000000000000"),
    ];

    let tags = filter_refs_by_sha(&refs, commit_sha);
    assert_eq!(tags, vec!["v4", "v4.2.1"]);
}

#[test]
fn test_filter_refs_no_matches() {
    let refs = vec![
        make_ref_entry("refs/tags/v4", "aaa0000000000000000000000000000000000000"),
        make_ref_entry("refs/tags/v3", "bbb0000000000000000000000000000000000000"),
    ];

    let tags = filter_refs_by_sha(&refs, "ccc0000000000000000000000000000000000000");
    assert!(tags.is_empty());
}

#[test]
fn test_filter_refs_skips_annotated_tags() {
    let commit_sha = "abc123def456789012345678901234567890abcd";
    let tag_object_sha = "fedcba9876543210fedcba9876543210fedcba98";

    let refs = vec![
        make_ref_entry_typed("refs/tags/v6", tag_object_sha, "tag"),
        make_ref_entry_typed("refs/tags/v6.2.0", tag_object_sha, "tag"),
        make_ref_entry("refs/tags/v5", commit_sha),
    ];

    let tags = filter_refs_by_sha(&refs, commit_sha);
    assert_eq!(tags, vec!["v5"]);
}

#[test]
fn reset_header_absent_is_unstated() {
    assert_eq!(reset_from_header(None, 1_000_000), RetryAfter::Unstated);
    assert_eq!(reset_from_header(Some("soon"), 1_000_000), RetryAfter::Unstated);
    assert_eq!(reset_from_header(Some("1000002"), 1_000_000), RetryAfter::After(2));
}

#[test]
fn strip_tag_prefix_keeps_other_refs() {
    assert_eq!(strip_tag_prefix("refs/tags/v1.2"), "v1.2");
    assert_eq!(strip_tag_prefix("refs/heads/main"), "refs/heads/main");
}

#[test]
fn next_link_is_found() {
    let header = "<https://api.github.com/x?page=2>; rel=\"next\", <https://api.github.com/x?page=5>; rel=\"last\"";
    assert_eq!(
        parse_next_link(header),
        Some("https://api.github.com/x?page=2".to_string())
    );
    assert_eq!(parse_next_link("<https://a>; rel=\"last\""), None);
}

#[test]
fn statuses_map_to_errors() {
    let url = "https://api.github.com/repos/a/b";
    assert!(matches!(check_status(404, None, None, 0, url), Error::NotFound { .. }));
    assert!(matches!(check_status(401, None, None, 0, url), Error::Unauthorized { .. }));
    assert!(matches!(check_status(429, None, None, 0, url), Error::RateLimited { .. }));
    assert!(matches!(
        check_status(403, Some("0"), Some("3"), 0, url),
        Error::RateLimited { retry_after: RetryAfter::After(3), .. }
    ));
    assert!(matches!(check_status(403, Some("10"), None, 0, url), Error::Unauthorized { .. }));
    assert!(matches!(check_status(403, None, None, 0, url), Error::Unauthorized { .. }));
    assert!(matches!(check_status(500, None, None, 0, url), Error::ApiError { status: 500, .. }));
}

/// Decode a GraphQL advisory response the way the client does.
fn decode(raw: &str) -> AdvisoryResponse {
    let v: serde_json::Value = serde_json::from_str(raw).unwrap();
    let text = |n: &serde_json::Value, k: &str| n.get(k).and_then(|x| x.as_str()).map(str::to_owned);
    let data = v.get("data").and_then(|d| d.get("securityVulnerabilities")).map(|sv| {
        sv["nodes"]
            .as_array()
            .unwrap()
            .iter()
            .map(|n| {
                let a = &n["advisory"];
                VulnerabilityNode {
                    vulnerable_version_range: text(n, "vulnerableVersionRange").unwrap(),
                    first_patched_version: n
                        .get("firstPatchedVersion")
                        .and_then(|p| p.get("identifier"))
                        .and_then(|i| i.as_str())
                        .map(str::to_owned),
                    ghsa_id: text(a, "ghsaId").unwrap(),
                    summary: text(a, "summary").unwrap(),
                    severity: match a["severity"].as_str().unwrap() {
                        "LOW" => AdvisorySeverity::Low,
                        "MODERATE" => AdvisorySeverity::Moderate,
                        "HIGH" => AdvisorySeverity::High,
                        "CRITICAL" => AdvisorySeverity::Critical,
                        other => panic!("unknown severity {other}"),
                    },
                    permalink: text(a, "permalink").unwrap(),
                }
            })
            .collect()
    });
    let errors = v
        .get("errors")
        .and_then(|e| e.as_array())
        .map(|e| e.iter().map(|m| text(m, "message").unwrap()).collect())
        .unwrap_or_default();
    AdvisoryResponse { data, errors }
}

#[test]
fn parses_a_vulnerability_payload() {
    let raw = r#"{
      "data": {
        "securityVulnerabilities": {
          "nodes": [{
            "vulnerableVersionRange": "< 45.0.7",
            "firstPatchedVersion": { "identifier": "45.0.7" },
            "advisory": {
              "ghsaId": "GHSA-mrrh-fwg8-r2c3",
              "summary": "tj-actions/changed-files leaks secrets",
              "severity": "HIGH",
              "permalink": "https://github.com/advisories/GHSA-mrrh-fwg8-r2c3"
            }
          }]
        }
      }
    }"#;
    let advisories = interpret_advisories(decode(raw)).unwrap();

    assert_eq!(advisories.len(), 1);
    assert_eq!(advisories[0].ghsa_id, "GHSA-mrrh-fwg8-r2c3");
    assert_eq!(advisories[0].severity, AdvisorySeverity::High);
    assert_eq!(advisories[0].vulnerable_range, "< 45.0.7");
    assert_eq!(advisories[0].first_patched.as_deref(), Some("45.0.7"));
}

#[test]
fn parses_an_empty_result_as_no_advisories() {
    let raw = r#"{"data": {"securityVulnerabilities": {"nodes": []}}}"#;
    assert!(interpret_advisories(decode(raw)).unwrap().is_empty());
}

#[test]
fn advisory_without_patch_parses() {
    let raw = r#"{
      "data": {
        "securityVulnerabilities": {
          "nodes": [{
            "vulnerableVersionRange": ">= 0",
            "firstPatchedVersion": null,
            "advisory": {
              "ghsaId": "GHSA-xxxx-yyyy-zzzz",
              "summary": "no fix available",
              "severity": "CRITICAL",
              "permalink": "https://example.invalid"
            }
          }]
        }
      }
    }"#;
    let advisories = interpret_advisories(decode(raw)).unwrap();
    assert_eq!(advisories[0].first_patched, None);
    assert_eq!(advisories[0].severity, AdvisorySeverity::Critical);
}

#[test]
fn query_level_errors_are_not_a_clean_result() {
    let raw = r#"{"data": null, "errors": [{"message": "Bad credentials"}]}"#;
    let err = interpret_advisories(decode(raw)).unwrap_err();
    assert!(
        err.message().contains("Bad credentials"),
        "query errors must not read as clean, and must name the cause: {}",
        err.message()
    );
}

#[test]
fn missing_data_is_not_a_clean_result() {
    let raw = r"{}";
    interpret_advisories(decode(raw)).unwrap_err();
}

/// Advisories from memory, recording what was asked for.
struct FakeAdvisories {
    advisories: Option<Vec<Advisory>>,
    seen: RefCell<Vec<String>>,
}

impl FakeAdvisories {
    fn new(advisories: Vec<Advisory>) -> Self {
        FakeAdvisories { advisories: Some(advisories), seen: RefCell::new(Vec::new()) }
    }

    fn failing() -> Self {
        FakeAdvisories { advisories: None, seen: RefCell::new(Vec::new()) }
    }
}

impl AdvisoryQuery for FakeAdvisories {
    fn advisories(&self, package: &str) -> Result<Vec<Advisory>, Error> {
        self.seen.borrow_mut().push(package.to_owned());
        match &self.advisories {
            Some(list) => Ok(list.clone()),
            None => Err(Error::ApiError { status: 500, url: "fake".to_owned() }),
        }
    }
}

#[test]
fn fake_satisfies_the_trait_without_network() {
    let advisory = Advisory {
        ghsa_id: "GHSA-test".to_owned(),
        summary: "test".to_owned(),
        severity: AdvisorySeverity::High,
        permalink: "https://example.invalid".to_owned(),
        vulnerable_range: "< 2.0.0".to_owned(),
        first_patched: Some("2.0.0".to_owned()),
    };
    let fake = FakeAdvisories::new(vec![advisory.clone()]);

    let got = fake.advisories("actions/checkout").unwrap();

    assert_eq!(got, vec![advisory]);
    assert_eq!(fake.seen.borrow().as_slice(), ["actions/checkout"]);
}

#[test]
fn fake_can_report_a_failed_lookup() {
    let fake = FakeAdvisories::failing();
    fake.advisories("actions/checkout").unwrap_err();
}

fn resolved_without_request(owner_repo: &str, ref_name: &str) -> (String, RefType) {
    match resolve_next(owner_repo, ref_name, &Vec::new()) {
        ResolveAction::Resolved { sha, ref_type } => (sha, ref_type),
        other => panic!("expected a resolution, got {other:?}"),
    }
}

#[test]
fn full_sha_passthrough() {
    let sha = "a1b2c3d4e5f6789012345678901234567890abcd";
    let (result_sha, result_type) = resolved_without_request("actions/checkout", sha);
    assert_eq!(result_sha, sha);
    assert_eq!(result_type, RefType::Commit);
}

#[test]
fn subpath_action_extracts_base_repo() {
    let sha = "a1b2c3d4e5f6789012345678901234567890abcd";
    let (result_sha, result_type) = resolved_without_request("github/codeql-action/upload-sarif", sha);
    assert_eq!(result_sha, sha);
    assert_eq!(result_type, RefType::Commit);
}

#[test]
fn test_full_sha_passthrough() {
    let sha = "a1b2c3d4e5f6789012345678901234567890abcd";
    let (result_sha, result_type) = resolved_without_request("actions/checkout", sha);
    assert_eq!(result_sha, sha);
    assert_eq!(result_type, RefType::Commit);
}

#[test]
fn test_subpath_action_extracts_base_repo() {
    let sha = "a1b2c3d4e5f6789012345678901234567890abcd";
    let (result_sha, result_type) = resolved_without_request("github/codeql-action/upload-sarif", sha);
    assert_eq!(result_sha, sha);
    assert_eq!(result_type, RefType::Commit);
}

#[test]
fn tag_ref_is_tried_first_then_release_decides_the_kind() {
    let action = resolve_next("github/codeql-action/upload-sarif", "v4", &Vec::new());
    assert_eq!(
        action,
        ResolveAction::FetchRefCommit {
            url: "https://api.github.com/repos/github/codeql-action/git/ref/tags/v4".to_owned()
        }
    );
    let sha = "1111111111111111111111111111111111111111".to_owned();
    let outcomes = vec![gx::github::Outcome::Sha(Ok(sha.clone()))];
    assert_eq!(
        resolve_next("actions/checkout", "v4", &outcomes),
        ResolveAction::FetchReleaseDate { base_repo: "actions/checkout".to_owned(), tag: "v4".to_owned() }
    );
    let outcomes = vec![
        gx::github::Outcome::Sha(Ok(sha.clone())),
        gx::github::Outcome::ReleaseDate(Ok(Some("2026-01-01T00:00:00Z".to_owned()))),
    ];
    assert_eq!(
        resolve_next("actions/checkout", "v4", &outcomes),
        ResolveAction::Resolved { sha, ref_type: RefType::Release }
    );
}

const PINNED: &str = "0123456789abcdef0123456789abcdef01234567";

#[test]
fn describe_from_keeps_date_tags_and_base_repository() {
    let id = ActionId::new("github/codeql-action/upload-sarif");
    let sha = CommitSha::new(PINNED);
    let d = describe_from(
        &id,
        &sha,
        Ok(Some("2024-05-01T10:00:00Z".to_owned())),
        Ok(vec!["v3".to_owned(), "v3.25.3".to_owned()]),
    )
    .unwrap();
    assert_eq!(d.repository.as_str(), "github/codeql-action");
    assert_eq!(d.date.as_str(), "2024-05-01T10:00:00Z");
    let tags: Vec<&str> = d.tags.iter().map(|t| t.as_str()).collect();
    assert_eq!(tags, vec!["v3", "v3.25.3"]);
}

#[test]
fn describe_from_treats_missing_date_and_failed_tag_lookup_as_empty() {
    let id = ActionId::new("actions/checkout");
    let sha = CommitSha::new(PINNED);
    let failed = Err(Error::NotFound { url: "https://api.github.com/x".to_owned() });
    let d = describe_from(&id, &sha, Ok(None), failed).unwrap();
    assert_eq!(d.date.as_str(), "");
    assert!(d.tags.is_empty());
    assert_eq!(d.repository.as_str(), "actions/checkout");
}

#[test]
fn describe_from_maps_a_failed_date_lookup() {
    let id = ActionId::new("actions/checkout");
    let sha = CommitSha::new(PINNED);
    let limited = Err(Error::RateLimited { url: "u".to_owned(), retry_after: RetryAfter::After(9) });
    let r = describe_from(&id, &sha, limited, Ok(vec!["v4".to_owned()]));
    assert_eq!(
        r.unwrap_err(),
        ResolutionError::RateLimited { forge: Forge::GitHub, retry_after: RetryAfter::After(9) }
    );
    let denied = Err(Error::Unauthorized { url: "u".to_owned() });
    let r = describe_from(&id, &sha, denied, Ok(Vec::new()));
    assert_eq!(r.unwrap_err(), ResolutionError::AuthRequired { forge: Forge::GitHub });
    let missing = Err(Error::NotFound { url: "u".to_owned() });
    match describe_from(&id, &sha, missing, Ok(Vec::new())) {
        Err(ResolutionError::ResolveFailed { spec, .. }) => {
            assert_eq!(spec.id.as_str(), "actions/checkout");
            assert_eq!(spec.version.as_str(), PINNED);
        }
        other => panic!("unexpected {:?}", other),
    }
}

#[test]
fn next_date_source_walks_the_sources_until_a_date_is_found() {
    let none: Vec<Result<Option<String>, Error>> = Vec::new();
    assert_eq!(next_date_source(Some(RefType::Tag), &none), Some(DateSource::Release));
    let missing = vec![Ok(None)];
    assert_eq!(next_date_source(Some(RefType::Tag), &missing), Some(DateSource::TagObject));
    let failed = vec![Ok(None), Err(Error::NotFound { url: "u".to_owned() })];
    assert_eq!(next_date_source(Some(RefType::Tag), &failed), Some(DateSource::Commit));
    let found = vec![Ok(Some("2024-01-01T00:00:00Z".to_owned()))];
    assert_eq!(next_date_source(Some(RefType::Tag), &found), None);
    let all = vec![Ok(None), Ok(None), Ok(None)];
    assert_eq!(next_date_source(Some(RefType::Tag), &all), None);
    assert_eq!(next_date_source(Some(RefType::Branch), &none), Some(DateSource::Commit));
    assert_eq!(next_date_source(Some(RefType::Branch), &missing), None);
}
