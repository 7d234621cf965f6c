//! GitHub-specific logic: rate-limit reset handling, response classification,
//! API URLs, the ref-resolution fallback chain, tag filtering, pagination links,
//! and security-advisory interpretation. All network I/O stays with the caller,
//! which hands each response back as plain values.

use vstd::prelude::*;
use crate::identity::{
    ActionId, CommitDate, CommitSha, Version, RefType, index_of_from, lemma_index_of_from, find_char_from, sub_chars,
    spec_base_repo, base_repo_of, is_full_sha,
};
use crate::resolution::{
    ActionSpec, Forge, MAX_RETRY_WAIT_SECS, ResolutionError, RetryAfter, ShaDescription,
};
use crate::text::{
    chars_of, string_of, parse_u64, parses_as_u64, digits_value, u64_digits, push_decimal,
    decimal, str_is, trim, trim_chars, is_suffix, ends_with, split_on, split_chars,
    strip_prefix_or_same, strip_prefix_or_same_chars, is_prefix, starts_with,
};
use vstd::string::StringExecFns;

verus! {

// ---------------------------------------------------------------------------
// Rate-limit resets
// ---------------------------------------------------------------------------

/// The wait a reset epoch implies at `now_epoch`: the seconds until the reset
/// (zero when already past), or `TooDistant` beyond the cap.
pub open spec fn spec_normalize_reset(reset_epoch: u64, now_epoch: u64) -> RetryAfter {
    let secs: u64 = if reset_epoch >= now_epoch {
        (reset_epoch - now_epoch) as u64
    } else {
        0
    };
    if secs > MAX_RETRY_WAIT_SECS {
        RetryAfter::TooDistant
    } else {
        RetryAfter::After(secs)
    }
}

/// Reduce GitHub's absolute `x-ratelimit-reset` epoch to a wait worth taking.
pub fn normalize_reset(reset_epoch: u64, now_epoch: u64) -> (r: RetryAfter)
    ensures
        r == spec_normalize_reset(reset_epoch, now_epoch),
{
    let secs = reset_epoch.saturating_sub(now_epoch);
    if secs > MAX_RETRY_WAIT_SECS {
        return RetryAfter::TooDistant;
    }
    RetryAfter::After(secs)
}

/// The reset a `x-ratelimit-reset` header value implies; an absent or
/// unparseable header is `Unstated`.
pub open spec fn spec_reset_from_header(header: Option<Seq<char>>, now_epoch: u64) -> RetryAfter {
    match header {
        Some(h) => if parses_as_u64(h) {
            spec_normalize_reset(digits_value(u64_digits(h)) as u64, now_epoch)
        } else {
            RetryAfter::Unstated
        },
        None => RetryAfter::Unstated,
    }
}

/// Read a `x-ratelimit-reset` header value against the clock.
pub fn reset_from_header(header: Option<&str>, now_epoch: u64) -> (r: RetryAfter)
    ensures
        r == spec_reset_from_header(
            match header {
                Some(h) => Some(h@),
                None => None,
            },
            now_epoch,
        ),
{
    match header {
        None => RetryAfter::Unstated,
        Some(h) => match parse_u64(h) {
            Some(reset_epoch) => normalize_reset(reset_epoch, now_epoch),
            None => RetryAfter::Unstated,
        },
    }
}

// ---------------------------------------------------------------------------
// Errors
// ---------------------------------------------------------------------------

/// Errors from talking to the GitHub API.
#[derive(Debug, Clone, PartialEq, Eq)]
pub enum Error {
    /// The HTTP client could not be created.
    ClientInit { cause: String },
    /// A request could not be sent.
    Request { operation: String, url: String, cause: String },
    /// The quota is exhausted.
    RateLimited { url: String, retry_after: RetryAfter },
    /// The request was refused for lack of credentials.
    Unauthorized { url: String },
    /// The resource does not exist.
    NotFound { url: String },
    /// Any other non-success status.
    ApiError { status: u16, url: String },
    /// The response body could not be decoded.
    ParseResponse { url: String, cause: String },
}

impl Error {
    /// An identical copy.
    pub fn copy(&self) -> (r: Error)
        ensures
            r == *self,
    {
        match self {
            Error::ClientInit { cause } => Error::ClientInit { cause: cause.clone() },
            Error::Request { operation, url, cause } => Error::Request {
                operation: operation.clone(),
                url: url.clone(),
                cause: cause.clone(),
            },
            Error::RateLimited { url, retry_after } => Error::RateLimited {
                url: url.clone(),
                retry_after: *retry_after,
            },
            Error::Unauthorized { url } => Error::Unauthorized { url: url.clone() },
            Error::NotFound { url } => Error::NotFound { url: url.clone() },
            Error::ApiError { status, url } => Error::ApiError { status: *status, url: url.clone() },
            Error::ParseResponse { url, cause } => Error::ParseResponse {
                url: url.clone(),
                cause: cause.clone(),
            },
        }
    }

    /// The human-readable description.
    pub open spec fn spec_message(&self) -> Seq<char> {
        match self {
            Error::ClientInit { .. } => "failed to create HTTP client"@,
            Error::Request { operation, url, .. } => "failed to fetch "@ + operation@ + " from "@
                + url@,
            Error::RateLimited { url, .. } => "GitHub API rate limit exceeded for "@ + url@,
            Error::Unauthorized { url } => "GitHub API unauthorized for "@ + url@,
            Error::NotFound { url } => "GitHub API not found: "@ + url@,
            Error::ApiError { status, url } => "GitHub API returned status "@ + decimal(
                *status as nat,
            ) + " for "@ + url@,
            Error::ParseResponse { url, .. } => "failed to parse response from "@ + url@,
        }
    }

    /// The human-readable description.
    pub fn message(&self) -> (r: String)
        ensures
            r@ == self.spec_message(),
    {
        match self {
            Error::ClientInit { .. } => String::from_str("failed to create HTTP client"),
            Error::Request { operation, url, .. } => {
                let mut s = String::from_str("failed to fetch ");
                s.append(operation.as_str());
                s.append(" from ");
                s.append(url.as_str());
                s
            },
            Error::RateLimited { url, .. } => {
                let mut s = String::from_str("GitHub API rate limit exceeded for ");
                s.append(url.as_str());
                s
            },
            Error::Unauthorized { url } => {
                let mut s = String::from_str("GitHub API unauthorized for ");
                s.append(url.as_str());
                s
            },
            Error::NotFound { url } => {
                let mut s = String::from_str("GitHub API not found: ");
                s.append(url.as_str());
                s
            },
            Error::ApiError { status, url } => {
                let mut s = String::from_str("GitHub API returned status ");
                push_decimal(&mut s, *status as u64);
                s.append(" for ");
                s.append(url.as_str());
                s
            },
            Error::ParseResponse { url, .. } => {
                let mut s = String::from_str("failed to parse response from ");
                s.append(url.as_str());
                s
            },
        }
    }
}

/// How a non-success response is classified: 429 is a rate limit; 403 is a rate
/// limit when `x-ratelimit-remaining` reads 0 (an absent or unparseable header
/// counts as 1) and unauthorized otherwise; 401 is unauthorized; 404 not found;
/// anything else an API error carrying the status.
pub open spec fn spec_check_status(
    status: u16,
    remaining: Option<Seq<char>>,
    reset: Option<Seq<char>>,
    now_epoch: u64,
    url: Seq<char>,
) -> (RetryAfter, int) {
    let remaining_value: int = match remaining {
        Some(h) => if parses_as_u64(h) {
            digits_value(u64_digits(h)) as int
        } else {
            1
        },
        None => 1,
    };
    (
        spec_reset_from_header(reset, now_epoch),
        if status == 429 {
            0
        } else if status == 403 {
            if remaining_value == 0 {
                0
            } else {
                1
            }
        } else if status == 401 {
            1
        } else if status == 404 {
            2
        } else {
            3
        },
    )
}

fn opt_view(o: Option<&str>) -> (r: Ghost<Option<Seq<char>>>)
    ensures
        r@ == match o {
            Some(h) => Some(h@),
            None => None,
        },
{
    Ghost(
        match o {
            Some(h) => Some(h@),
            None => None,
        },
    )
}

/// Classify a non-success HTTP response from its status and rate-limit headers.
pub fn check_status(
    status: u16,
    remaining: Option<&str>,
    reset: Option<&str>,
    now_epoch: u64,
    url: &str,
) -> (r: Error)
    ensures
        ({
            let rem = match remaining {
                Some(h) => Some(h@),
                None => None,
            };
            let rs = match reset {
                Some(h) => Some(h@),
                None => None,
            };
            let (retry_after, class) = spec_check_status(status, rem, rs, now_epoch, url@);
            &&& class == 0 ==> r == Error::RateLimited { url: r->RateLimited_url, retry_after }
                && r->RateLimited_url@ == url@
            &&& class == 1 ==> r is Unauthorized && r->Unauthorized_url@ == url@
            &&& class == 2 ==> r is NotFound && r->NotFound_url@ == url@
            &&& class == 3 ==> r == Error::ApiError { status, url: r->ApiError_url }
                && r->ApiError_url@ == url@
        }),
{
    let u = String::from_str(url);
    if status == 429 {
        return Error::RateLimited { url: u, retry_after: reset_from_header(reset, now_epoch) };
    }
    if status == 403 {
        let remaining_value: u64 = match remaining {
            Some(h) => match parse_u64(h) {
                Some(n) => n,
                None => 1,
            },
            None => 1,
        };
        if remaining_value == 0 {
            return Error::RateLimited { url: u, retry_after: reset_from_header(reset, now_epoch) };
        }
        return Error::Unauthorized { url: u };
    }
    if status == 401 {
        return Error::Unauthorized { url: u };
    }
    if status == 404 {
        return Error::NotFound { url: u };
    }
    Error::ApiError { status, url: u }
}

/// Whether `r` is the forge-neutral error that a GitHub error `e` becomes for a
/// request about `spec`: rate limits and missing credentials keep their
/// meaning, everything else is a resolution failure carrying the description.
pub open spec fn is_resolution_error_of(r: ResolutionError, e: Error, spec: ActionSpec) -> bool {
    match e {
        Error::RateLimited { retry_after, .. } => r == ResolutionError::RateLimited {
            forge: Forge::GitHub,
            retry_after,
        },
        Error::Unauthorized { .. } => r == ResolutionError::AuthRequired { forge: Forge::GitHub },
        _ => r matches ResolutionError::ResolveFailed { spec: s, reason } && s == spec && reason@
            == e.spec_message(),
    }
}

/// Map a GitHub error into the forge-neutral classification.
pub fn to_resolution_error(e: &Error, spec: ActionSpec) -> (r: ResolutionError)
    ensures
        is_resolution_error_of(r, *e, spec),
{
    match e {
        Error::RateLimited { retry_after, .. } => ResolutionError::RateLimited {
            forge: Forge::GitHub,
            retry_after: *retry_after,
        },
        Error::Unauthorized { .. } => ResolutionError::AuthRequired { forge: Forge::GitHub },
        _ => ResolutionError::ResolveFailed { spec, reason: e.message() },
    }
}

// ---------------------------------------------------------------------------
// API URLs
// ---------------------------------------------------------------------------

/// Base URL of the GitHub REST API.
pub const GITHUB_API_BASE: &'static str = "https://api.github.com";

/// `https://api.github.com/repos/{base_repo}{tail}`.
pub open spec fn repo_url(base_repo: Seq<char>, tail: Seq<char>) -> Seq<char> {
    GITHUB_API_BASE@ + "/repos/"@ + base_repo + tail
}

fn repo_url_exec(base_repo: &str, tail: &str, last: &str) -> (r: String)
    ensures
        r@ == repo_url(base_repo@, tail@ + last@),
{
    let mut s = String::from_str(GITHUB_API_BASE);
    s.append("/repos/");
    s.append(base_repo);
    s.append(tail);
    s.append(last);
    proof {
        assert(GITHUB_API_BASE@ + "/repos/"@ + base_repo@ + tail@ + last@ =~= repo_url(
            base_repo@,
            tail@ + last@,
        ));
    }
    s
}

/// The git ref of tag `name`.
pub fn tag_ref_url(base_repo: &str, name: &str) -> (r: String)
    ensures
        r@ == repo_url(base_repo@, "/git/ref/tags/"@ + name@),
{
    repo_url_exec(base_repo, "/git/ref/tags/", name)
}

/// The git ref of branch `name`.
pub fn branch_ref_url(base_repo: &str, name: &str) -> (r: String)
    ensures
        r@ == repo_url(base_repo@, "/git/ref/heads/"@ + name@),
{
    repo_url_exec(base_repo, "/git/ref/heads/", name)
}

/// The commit named by `reference`.
pub fn commit_url(base_repo: &str, reference: &str) -> (r: String)
    ensures
        r@ == repo_url(base_repo@, "/commits/"@ + reference@),
{
    repo_url_exec(base_repo, "/commits/", reference)
}

/// The release published for tag `tag`.
pub fn release_url(base_repo: &str, tag: &str) -> (r: String)
    ensures
        r@ == repo_url(base_repo@, "/releases/tags/"@ + tag@),
{
    repo_url_exec(base_repo, "/releases/tags/", tag)
}

/// The annotated tag object `sha`.
pub fn tag_object_url(base_repo: &str, sha: &str) -> (r: String)
    ensures
        r@ == repo_url(base_repo@, "/git/tags/"@ + sha@),
{
    repo_url_exec(base_repo, "/git/tags/", sha)
}

/// Every tag ref of the repository.
pub fn tag_refs_url(base_repo: &str) -> (r: String)
    ensures
        r@ == repo_url(base_repo@, "/git/refs/tags"@ + ""@),
{
    repo_url_exec(base_repo, "/git/refs/tags", "")
}

/// The first page of tag refs starting with `v`.
pub fn version_tags_url(base_repo: &str) -> (r: String)
    ensures
        r@ == repo_url(base_repo@, "/git/matching-refs/tags/v?per_page=100"@ + ""@),
{
    repo_url_exec(base_repo, "/git/matching-refs/tags/v?per_page=100", "")
}

/// The `owner/repo` a repository API URL names, or empty when it names none.
pub open spec fn spec_repo_of_api_url(url: Seq<char>) -> Seq<char> {
    let prefix = GITHUB_API_BASE@ + "/repos/"@;
    if !is_prefix(prefix, url) {
        Seq::empty()
    } else {
        let rest = url.skip(prefix.len() as int);
        if index_of_from(rest, '/', 0) == -1 {
            Seq::empty()
        } else {
            spec_base_repo(rest)
        }
    }
}

/// The URL that dereferences the annotated tag object `tag_sha`, for the
/// repository named in the ref URL it was found through.
pub fn tag_dereference_url(ref_url: &str, tag_sha: &str) -> (r: String)
    ensures
        r@ == repo_url(spec_repo_of_api_url(ref_url@), "/git/tags/"@ + tag_sha@),
{
    let u = chars_of(ref_url);
    let mut prefix_s = String::from_str(GITHUB_API_BASE);
    prefix_s.append("/repos/");
    let prefix = chars_of(prefix_s.as_str());
    let repo: String = if !starts_with(&u, &prefix) {
        String::new()
    } else {
        let rest = sub_chars(&u, prefix.len(), u.len());
        assert(rest@ == u@.skip(prefix@.len() as int));
        match find_char_from(&rest, '/', 0) {
            None => String::new(),
            Some(_) => {
                let rest_s = string_of(&rest);
                base_repo_of(rest_s.as_str())
            },
        }
    };
    assert(repo@ == spec_repo_of_api_url(ref_url@));
    tag_object_url(repo.as_str(), tag_sha)
}

// ---------------------------------------------------------------------------
// Ref resolution
// ---------------------------------------------------------------------------

/// A response that arrived for a step of the resolution chain.
#[derive(Debug, PartialEq, Eq)]
pub enum Outcome {
    /// The commit SHA a ref or commit lookup produced, or why it failed.
    Sha(Result<String, Error>),
    /// The publication date a release lookup produced, or why it failed.
    ReleaseDate(Result<Option<String>, Error>),
}

/// What the resolution chain needs next.
#[derive(Debug, Clone, PartialEq, Eq)]
pub enum ResolveAction {
    /// Fetch the commit a git ref points to (dereferencing annotated tags).
    FetchRefCommit { url: String },
    /// Look up the release published for a tag.
    FetchReleaseDate { base_repo: String, tag: String },
    /// Fetch a commit by reference and read its SHA.
    FetchCommitSha { url: String },
    /// The ref resolved to this SHA through this kind of ref.
    Resolved { sha: String, ref_type: RefType },
    /// Every fallback failed; this is the last failure.
    Failed(Error),
}

/// The spec view of what the chain needs next.
pub enum ResolveNext {
    FetchRefCommit(Seq<char>),
    FetchReleaseDate(Seq<char>, Seq<char>),
    FetchCommitSha(Seq<char>),
    Resolved(Seq<char>, RefType),
    Failed(Error),
    /// A response arrived for a request the chain did not make.
    OutOfOrder,
}

/// The resolution chain as a function of the responses so far: a full SHA
/// resolves to itself as a commit; otherwise try the tag (a tag with a release
/// is a release), then the branch, then a direct commit lookup.
pub open spec fn spec_resolve_next(owner_repo: Seq<char>, ref_name: Seq<char>, outcomes: Seq<
    Outcome,
>) -> ResolveNext {
    let base = spec_base_repo(owner_repo);
    if is_full_sha(ref_name) {
        ResolveNext::Resolved(ref_name, RefType::Commit)
    } else if outcomes.len() == 0 {
        ResolveNext::FetchRefCommit(repo_url(base, "/git/ref/tags/"@ + ref_name))
    } else {
        match outcomes[0] {
            Outcome::Sha(Ok(sha)) => if outcomes.len() == 1 {
                ResolveNext::FetchReleaseDate(base, ref_name)
            } else {
                match outcomes[1] {
                    Outcome::ReleaseDate(Ok(Some(_))) => ResolveNext::Resolved(
                        sha@,
                        RefType::Release,
                    ),
                    _ => ResolveNext::Resolved(sha@, RefType::Tag),
                }
            },
            _ => if outcomes.len() == 1 {
                ResolveNext::FetchRefCommit(repo_url(base, "/git/ref/heads/"@ + ref_name))
            } else {
                match outcomes[1] {
                    Outcome::Sha(Ok(sha)) => ResolveNext::Resolved(sha@, RefType::Branch),
                    _ => if outcomes.len() == 2 {
                        ResolveNext::FetchCommitSha(repo_url(base, "/commits/"@ + ref_name))
                    } else {
                        match outcomes[2] {
                            Outcome::Sha(Ok(sha)) => ResolveNext::Resolved(sha@, RefType::Commit),
                            Outcome::Sha(Err(e)) => ResolveNext::Failed(e),
                            Outcome::ReleaseDate(_) => ResolveNext::OutOfOrder,
                        }
                    },
                }
            },
        }
    }
}

pub open spec fn action_matches(a: ResolveAction, n: ResolveNext) -> bool {
    match (a, n) {
        (ResolveAction::FetchRefCommit { url }, ResolveNext::FetchRefCommit(u)) => url@ == u,
        (ResolveAction::FetchReleaseDate { base_repo, tag }, ResolveNext::FetchReleaseDate(
            b,
            t,
        )) => base_repo@ == b && tag@ == t,
        (ResolveAction::FetchCommitSha { url }, ResolveNext::FetchCommitSha(u)) => url@ == u,
        (ResolveAction::Resolved { sha, ref_type }, ResolveNext::Resolved(s, t)) => sha@ == s
            && ref_type == t,
        (ResolveAction::Failed(e), ResolveNext::Failed(f)) => e == f,
        (ResolveAction::Failed(e), ResolveNext::OutOfOrder) => e is NotFound,
        _ => false,
    }
}

/// Decide the next step of resolving `ref_name` of `owner_repo`, given the
/// responses to the steps taken so far, in order.
pub fn resolve_next(owner_repo: &str, ref_name: &str, outcomes: &Vec<Outcome>) -> (r:
    ResolveAction)
    requires
        outcomes.len() <= 3,
    ensures
        action_matches(r, spec_resolve_next(owner_repo@, ref_name@, outcomes@)),
        outcomes.len() == 3 ==> (r is Resolved || r is Failed),
{
    if CommitSha::is_valid(ref_name) {
        return ResolveAction::Resolved { sha: String::from_str(ref_name), ref_type: RefType::Commit };
    }
    let base = base_repo_of(owner_repo);
    if outcomes.len() == 0 {
        return ResolveAction::FetchRefCommit { url: tag_ref_url(base.as_str(), ref_name) };
    }
    match &outcomes[0] {
        Outcome::Sha(Ok(sha)) => {
            if outcomes.len() == 1 {
                return ResolveAction::FetchReleaseDate {
                    base_repo: base,
                    tag: String::from_str(ref_name),
                };
            }
            match &outcomes[1] {
                Outcome::ReleaseDate(Ok(Some(_))) => ResolveAction::Resolved {
                    sha: String::from_str(sha.as_str()),
                    ref_type: RefType::Release,
                },
                _ => ResolveAction::Resolved {
                    sha: String::from_str(sha.as_str()),
                    ref_type: RefType::Tag,
                },
            }
        },
        _ => {
            if outcomes.len() == 1 {
                return ResolveAction::FetchRefCommit { url: branch_ref_url(base.as_str(), ref_name) };
            }
            match &outcomes[1] {
                Outcome::Sha(Ok(sha)) => ResolveAction::Resolved {
                    sha: String::from_str(sha.as_str()),
                    ref_type: RefType::Branch,
                },
                _ => {
                    if outcomes.len() == 2 {
                        return ResolveAction::FetchCommitSha {
                            url: commit_url(base.as_str(), ref_name),
                        };
                    }
                    match &outcomes[2] {
                        Outcome::Sha(Ok(sha)) => ResolveAction::Resolved {
                            sha: String::from_str(sha.as_str()),
                            ref_type: RefType::Commit,
                        },
                        Outcome::Sha(Err(e)) => ResolveAction::Failed(e.copy()),
                        Outcome::ReleaseDate(_) => ResolveAction::Failed(
                            Error::NotFound { url: String::new() },
                        ),
                    }
                },
            }
        },
    }
}

/// A full commit SHA resolves to itself as a commit, without any request.
pub proof fn law_full_sha_needs_no_request(owner_repo: Seq<char>, ref_name: Seq<char>, outcomes: Seq<Outcome>)
    requires
        is_full_sha(ref_name),
    ensures
        spec_resolve_next(owner_repo, ref_name, outcomes) == ResolveNext::Resolved(
            ref_name,
            RefType::Commit,
        ),
{
}

/// The chain ends within three responses: after three, a ref has resolved or
/// failed (or a response answered a request the chain never made).
pub proof fn law_resolution_ends_within_three_responses(
    owner_repo: Seq<char>,
    ref_name: Seq<char>,
    outcomes: Seq<Outcome>,
)
    requires
        outcomes.len() == 3,
    ensures
        ({
            let n = spec_resolve_next(owner_repo, ref_name, outcomes);
            n is Resolved || n is Failed || n is OutOfOrder
        }),
{
}

/// A ref that is not a full SHA, whose tag lookup failed and whose branch
/// lookup found a commit, resolves to that commit as a branch: a ref found
/// only among branches is never reported as a tag or a release.
pub proof fn law_ref_found_among_branches_is_a_branch(
    owner_repo: Seq<char>,
    ref_name: Seq<char>,
    outcomes: Seq<Outcome>,
    sha: String,
)
    requires
        !is_full_sha(ref_name),
        outcomes.len() >= 2,
        !(outcomes[0] matches Outcome::Sha(Ok(_))),
        outcomes[1] == Outcome::Sha(Ok(sha)),
    ensures
        spec_resolve_next(owner_repo, ref_name, outcomes) == ResolveNext::Resolved(sha@, RefType::Branch),
{
}

/// When neither the tag nor the branch lookup found the ref, the direct
/// commit lookup decides: its commit resolves the ref as a commit, and its
/// failure is the failure reported.
pub proof fn law_commit_lookup_is_the_last_resort(
    owner_repo: Seq<char>,
    ref_name: Seq<char>,
    outcomes: Seq<Outcome>,
)
    requires
        !is_full_sha(ref_name),
        outcomes.len() == 3,
        !(outcomes[0] matches Outcome::Sha(Ok(_))),
        !(outcomes[1] matches Outcome::Sha(Ok(_))),
    ensures
        outcomes[2] matches Outcome::Sha(Ok(s)) ==> spec_resolve_next(owner_repo, ref_name, outcomes)
            == ResolveNext::Resolved(s@, RefType::Commit),
        outcomes[2] matches Outcome::Sha(Err(e)) ==> spec_resolve_next(owner_repo, ref_name, outcomes)
            == ResolveNext::Failed(e),
{
}

/// A ref is reported as a tag or a release only when the tag lookup, the
/// first request, produced a commit, and then it resolves to that commit.
pub proof fn law_tag_or_release_comes_from_the_tag_lookup(
    owner_repo: Seq<char>,
    ref_name: Seq<char>,
    outcomes: Seq<Outcome>,
    sha: Seq<char>,
    t: RefType,
)
    requires
        t == RefType::Tag || t == RefType::Release,
        spec_resolve_next(owner_repo, ref_name, outcomes) == ResolveNext::Resolved(sha, t),
    ensures
        !is_full_sha(ref_name),
        outcomes.len() >= 2,
        outcomes[0] matches Outcome::Sha(Ok(s)) && s@ == sha,
        t == RefType::Release <==> outcomes[1] matches Outcome::ReleaseDate(Ok(Some(_))),
{
}

// ---------------------------------------------------------------------------
// Commit dates
// ---------------------------------------------------------------------------

/// Where a commit date can be read from.
#[derive(Debug, Clone, Copy, PartialEq, Eq)]
pub enum DateSource {
    /// The release published for the version.
    Release,
    /// The annotated tag object.
    TagObject,
    /// The commit itself.
    Commit,
}

/// Where to read a date, in priority order: release, then tag object, then
/// commit for a tag; release, then commit for a release; the commit otherwise.
pub open spec fn spec_date_sources(ref_type: Option<RefType>) -> Seq<DateSource> {
    match ref_type {
        Some(RefType::Tag) => seq![DateSource::Release, DateSource::TagObject, DateSource::Commit],
        Some(RefType::Release) => seq![DateSource::Release, DateSource::Commit],
        _ => seq![DateSource::Commit],
    }
}

/// The date sources to try, in order, for a ref of this type.
pub fn date_sources(ref_type: Option<RefType>) -> (r: Vec<DateSource>)
    ensures
        r@ == spec_date_sources(ref_type),
{
    let mut v = Vec::new();
    match ref_type {
        Some(RefType::Tag) => {
            v.push(DateSource::Release);
            v.push(DateSource::TagObject);
            v.push(DateSource::Commit);
        },
        Some(RefType::Release) => {
            v.push(DateSource::Release);
            v.push(DateSource::Commit);
        },
        _ => {
            v.push(DateSource::Commit);
        },
    }
    assert(v@ =~= spec_date_sources(ref_type));
    v
}

/// The commit itself is always the last place a date is read from, and a
/// ref that can have a release (a tag or a release) reads the release's
/// publication date first; each source is asked at most once.
pub proof fn law_date_priority(ref_type: Option<RefType>)
    ensures
        spec_date_sources(ref_type).len() >= 1,
        spec_date_sources(ref_type).last() == DateSource::Commit,
        spec_date_sources(ref_type).no_duplicates(),
        (ref_type == Some(RefType::Tag) || ref_type == Some(RefType::Release)) ==> spec_date_sources(
            ref_type,
        )[0] == DateSource::Release,
        (ref_type == Some(RefType::Tag) || ref_type == Some(RefType::Release)) ==> spec_next_date_source(
            ref_type,
            Seq::empty(),
        ) == Some(DateSource::Release),
        !(ref_type == Some(RefType::Tag) || ref_type == Some(RefType::Release)) ==> spec_next_date_source(
            ref_type,
            Seq::empty(),
        ) == Some(DateSource::Commit),
{
}

/// The first date that a source produced, or empty when none did; failed
/// lookups are skipped.
pub open spec fn spec_first_date(results: Seq<Result<Option<String>, Error>>) -> Seq<char>
    decreases results.len(),
{
    if results.len() == 0 {
        Seq::empty()
    } else {
        match results[0] {
            Ok(Some(d)) => d@,
            _ => spec_first_date(results.drop_first()),
        }
    }
}

/// Pick the date from the sources' results, in priority order.
pub fn first_date(results: &Vec<Result<Option<String>, Error>>) -> (r: String)
    ensures
        r@ == spec_first_date(results@),
{
    let mut i: usize = 0;
    assert(results@.skip(0) == results@);
    while i < results.len()
        invariant
            i <= results.len(),
            spec_first_date(results@) == spec_first_date(results@.skip(i as int)),
        decreases results.len() - i,
    {
        assert(results@.skip(i as int).drop_first() == results@.skip(i + 1));
        assert(results@.skip(i as int)[0] == results@[i as int]);
        match &results[i] {
            Ok(Some(d)) => {
                return String::from_str(d.as_str());
            },
            _ => {},
        }
        i = i + 1;
    }
    String::new()
}

/// Whether `r` is what a failed commit-date lookup for `sha` of action `id`
/// becomes: the classification of `e` for a request about `id` at `sha`.
pub open spec fn is_describe_failure(r: ResolutionError, e: Error, id: Seq<char>, sha: Seq<char>) -> bool {
    match e {
        Error::RateLimited { retry_after, .. } => r == ResolutionError::RateLimited {
            forge: Forge::GitHub,
            retry_after,
        },
        Error::Unauthorized { .. } => r == ResolutionError::AuthRequired { forge: Forge::GitHub },
        _ => r matches ResolutionError::ResolveFailed { spec: s, reason } && s.id@ == id
            && s.version@ == sha && reason@ == e.spec_message(),
    }
}

/// The description of a pinned commit from the two lookups made for it: a
/// failed date lookup fails the description; a missing date is empty; a failed
/// tag lookup is not fatal and leaves the tags empty.
pub fn describe_from(
    id: &ActionId,
    sha: &CommitSha,
    date: Result<Option<String>, Error>,
    tags: Result<Vec<String>, Error>,
) -> (r: Result<ShaDescription, ResolutionError>)
    ensures
        date is Err <==> r is Err,
        date matches Err(e) ==> is_describe_failure(r->Err_0, e, id@, sha@),
        r matches Ok(d) ==> {
            &&& d.repository@ == spec_base_repo(id@)
            &&& d.date@ == (match date {
                Ok(Some(s)) => s@,
                _ => Seq::<char>::empty(),
            })
            &&& d.tags@.map_values(|t: Version| t@) == (match tags {
                Ok(v) => v@.map_values(|t: String| t@),
                Err(_) => Seq::<Seq<char>>::empty(),
            })
        },
{
    let found = match date {
        Err(e) => {
            let spec = ActionSpec::new(id.copy(), Version::new(sha.as_str()));
            let r = to_resolution_error(&e, spec);
            return Err(r);
        },
        Ok(found) => found,
    };
    let when = match found {
        Some(s) => CommitDate::new(s.as_str()),
        None => CommitDate::new(""),
    };
    let mut out: Vec<Version> = Vec::new();
    match tags {
        Ok(names) => {
            let mut i: usize = 0;
            while i < names.len()
                invariant
                    i <= names.len(),
                    out@.len() == i,
                    forall|j: int| 0 <= j < i ==> (#[trigger] out@[j])@ == names@[j]@,
                decreases names.len() - i,
            {
                out.push(Version::new(names[i].as_str()));
                i = i + 1;
            }
            assert(out@.map_values(|t: Version| t@) =~= names@.map_values(|t: String| t@));
        },
        Err(_) => {
            assert(out@.map_values(|t: Version| t@) =~= Seq::<Seq<char>>::empty());
        },
    }
    proof {
        reveal_strlit("");
    }
    Ok(ShaDescription { tags: out, repository: id.base_repo(), date: when })
}

/// Whether a source's result holds a date.
pub open spec fn has_date(r: Result<Option<String>, Error>) -> bool {
    r matches Ok(Some(_))
}

/// The source to ask next for a date, given what the sources asked so far
/// (in `spec_date_sources` order) produced: none once one produced a date or
/// every source has been asked.
pub open spec fn spec_next_date_source(
    ref_type: Option<RefType>,
    results: Seq<Result<Option<String>, Error>>,
) -> Option<DateSource> {
    if results.len() >= spec_date_sources(ref_type).len() || exists|i: int|
        0 <= i < results.len() && has_date(#[trigger] results[i]) {
        None
    } else {
        Some(spec_date_sources(ref_type)[results.len() as int])
    }
}

/// Which date source to ask next; sources are asked in priority order and
/// the asking stops at the first that has a date.
pub fn next_date_source(ref_type: Option<RefType>, results: &Vec<Result<Option<String>, Error>>) -> (r:
    Option<DateSource>)
    ensures
        r == spec_next_date_source(ref_type, results@),
{
    let sources = date_sources(ref_type);
    let mut i: usize = 0;
    while i < results.len()
        invariant
            i <= results@.len(),
            forall|j: int| 0 <= j < i ==> !has_date(#[trigger] results@[j]),
        decreases results@.len() - i,
    {
        match &results[i] {
            Ok(Some(_)) => {
                assert(has_date(results@[i as int]));
                return None;
            },
            _ => {},
        }
        i = i + 1;
    }
    if results.len() >= sources.len() {
        None
    } else {
        Some(sources[results.len()])
    }
}

// ---------------------------------------------------------------------------
// Tags
// ---------------------------------------------------------------------------

/// A git object: its SHA and type (`commit`, `tag`, ...).
#[derive(Debug, Clone, PartialEq, Eq)]
pub struct GitObject {
    pub sha: String,
    pub object_type: String,
}

/// A git ref as returned for a single-ref lookup.
#[derive(Debug, Clone, PartialEq, Eq)]
pub struct GitRef {
    pub object: GitObject,
}

/// One entry of a refs listing.
#[derive(Debug, Clone, PartialEq, Eq)]
pub struct GitRefEntry {
    /// The full ref name, e.g. `refs/tags/v4`.
    pub ref_name: String,
    pub object: GitObject,
}

/// A ref name with a leading `refs/tags/` removed.
pub open spec fn tag_name(ref_name: Seq<char>) -> Seq<char> {
    strip_prefix_or_same(ref_name, "refs/tags/"@)
}

/// A ref name with a leading `refs/tags/` removed.
pub fn strip_tag_prefix(ref_name: &str) -> (r: String)
    ensures
        r@ == tag_name(ref_name@),
{
    let v = chars_of(ref_name);
    let p = chars_of("refs/tags/");
    let t = strip_prefix_or_same_chars(&v, &p);
    string_of(&t)
}

/// The tag names of the entries whose object is `sha` itself, in order.
pub open spec fn spec_tags_at(refs: Seq<GitRefEntry>, sha: Seq<char>) -> Seq<Seq<char>>
    decreases refs.len(),
{
    if refs.len() == 0 {
        Seq::empty()
    } else {
        let rest = spec_tags_at(refs.drop_last(), sha);
        if refs.last().object.sha@ == sha {
            rest.push(tag_name(refs.last().ref_name@))
        } else {
            rest
        }
    }
}

/// Tag names of the lightweight tags pointing directly at `sha`; annotated
/// tags are matched separately, by dereferencing.
pub fn filter_refs_by_sha(refs: &Vec<GitRefEntry>, sha: &str) -> (r: Vec<String>)
    ensures
        r@.len() == spec_tags_at(refs@, sha@).len(),
        forall|i: int| 0 <= i < r@.len() ==> (#[trigger] r@[i])@ == spec_tags_at(refs@, sha@)[i],
{
    let mut out: Vec<String> = Vec::new();
    let mut i: usize = 0;
    while i < refs.len()
        invariant
            i <= refs.len(),
            out@.len() == spec_tags_at(refs@.take(i as int), sha@).len(),
            forall|k: int| 0 <= k < out@.len() ==> (#[trigger] out@[k])@ == spec_tags_at(
                refs@.take(i as int),
                sha@,
            )[k],
        decreases refs.len() - i,
    {
        let ghost prev = spec_tags_at(refs@.take(i as int), sha@);
        assert(refs@.take(i + 1).drop_last() == refs@.take(i as int));
        assert(refs@.take(i + 1).last() == refs@[i as int]);
        let ghost before = out@;
        if refs[i].object.sha == String::from_str(sha) {
            out.push(strip_tag_prefix(refs[i].ref_name.as_str()));
            assert forall|k: int| 0 <= k < out@.len() implies (#[trigger] out@[k])@ == spec_tags_at(
                refs@.take(i + 1),
                sha@,
            )[k] by {
                if k < prev.len() {
                    assert(out@[k] == before[k]);
                }
            }
        }
        i = i + 1;
    }
    assert(refs@.take(refs.len() as int) == refs@);
    out
}


/// Whether an entry is an annotated tag whose object is not `sha` itself, so
/// it must be dereferenced to learn whether it points at `sha`.
pub open spec fn needs_dereference(entry: GitRefEntry, sha: Seq<char>) -> bool {
    entry.object.object_type@ == "tag"@ && entry.object.sha@ != sha
}

/// Positions of the entries that must be dereferenced, in order.
pub fn annotated_candidates(refs: &Vec<GitRefEntry>, sha: &str) -> (r: Vec<usize>)
    ensures
        forall|k: int| 0 <= k < r@.len() ==> (#[trigger] r@[k]) < refs@.len() && needs_dereference(
            refs@[r@[k] as int],
            sha@,
        ),
        forall|i: int|
            0 <= i < refs@.len() && needs_dereference(#[trigger] refs@[i], sha@) ==> r@.contains(
                i as usize,
            ),
        forall|k: int, m: int| 0 <= k < m < r@.len() ==> r@[k] < r@[m],
{
    let mut out: Vec<usize> = Vec::new();
    let sha_s = String::from_str(sha);
    let mut i: usize = 0;
    while i < refs.len()
        invariant
            i <= refs.len(),
            sha_s@ == sha@,
            forall|k: int| 0 <= k < out@.len() ==> (#[trigger] out@[k]) < i && needs_dereference(
                refs@[out@[k] as int],
                sha@,
            ),
            forall|j: int|
                0 <= j < i && needs_dereference(#[trigger] refs@[j], sha@) ==> out@.contains(
                    j as usize,
                ),
            forall|k: int, m: int| 0 <= k < m < out@.len() ==> out@[k] < out@[m],
        decreases refs.len() - i,
    {
        let e = &refs[i];
        let ghost before = out@;
        if str_is(e.object.object_type.as_str(), "tag") && !(e.object.sha == sha_s) {
            out.push(i);
            assert(out@[out@.len() - 1] == i);
        }
        assert forall|j: int|
            0 <= j < i + 1 && needs_dereference(#[trigger] refs@[j], sha@) implies out@.contains(
            j as usize) by {
            if j < i {
                assert(before.contains(j as usize));
                let k = choose|k: int| 0 <= k < before.len() && before[k] == j as usize;
                assert(out@[k] == before[k]);
            } else {
                assert(out@[out@.len() - 1] == i);
            }
        }
        i = i + 1;
    }
    out
}

/// The tag name an annotated entry contributes once dereferenced: its name when
/// the tag's commit is `commit_sha`, nothing otherwise (or when the lookup failed).
pub fn dereferenced_tag_name(entry: &GitRefEntry, tag_commit: Option<&str>, commit_sha: &str) -> (r:
    Option<String>)
    ensures
        r is Some <==> (tag_commit matches Some(c) && c@ == commit_sha@),
        r matches Some(name) ==> name@ == tag_name(entry.ref_name@),
{
    match tag_commit {
        Some(c) => if str_is(c, commit_sha) {
            Some(strip_tag_prefix(entry.ref_name.as_str()))
        } else {
            None
        },
        None => None,
    }
}

/// The tag names of a refs listing, `refs/tags/` removed, in order.
pub fn version_tag_names(refs: &Vec<GitRefEntry>) -> (r: Vec<String>)
    ensures
        r@.len() == refs@.len(),
        forall|i: int| 0 <= i < r@.len() ==> (#[trigger] r@[i])@ == tag_name(refs@[i].ref_name@),
{
    let mut out: Vec<String> = Vec::new();
    let mut i: usize = 0;
    while i < refs.len()
        invariant
            i <= refs.len(),
            out@.len() == i,
            forall|k: int| 0 <= k < i ==> (#[trigger] out@[k])@ == tag_name(refs@[k].ref_name@),
        decreases refs.len() - i,
    {
        out.push(strip_tag_prefix(refs[i].ref_name.as_str()));
        i = i + 1;
    }
    out
}

/// The `rel="next"` URL of a `Link` header: the first comma-separated part
/// that, trimmed, ends with `rel="next"`, and the text between its first `<`
/// and the following `>`; none when that part lacks either bracket.
pub open spec fn spec_next_link(parts: Seq<Seq<char>>) -> Option<Seq<char>>
    decreases parts.len(),
{
    if parts.len() == 0 {
        None
    } else {
        let t = trim(parts[0]);
        if is_suffix("rel=\"next\""@, t) {
            let lt = index_of_from(t, '<', 0);
            if lt == -1 {
                None
            } else {
                let after = t.skip(lt + 1);
                let gt = index_of_from(after, '>', 0);
                if gt == -1 {
                    None
                } else {
                    Some(after.take(gt))
                }
            }
        } else {
            spec_next_link(parts.drop_first())
        }
    }
}

/// Wherever in the header it stands, the first part that, trimmed, ends
/// with `rel="next"` gives the next URL: when that part reads `<u>` followed
/// by the rest, with no `>` in `u`, the URL is `u`.
pub proof fn law_next_link_found_at_any_position(
    parts: Seq<Seq<char>>,
    i: int,
    u: Seq<char>,
    rest: Seq<char>,
)
    requires
        0 <= i < parts.len(),
        trim(parts[i]) == seq!['<'] + u + seq!['>'] + rest,
        !u.contains('>'),
        is_suffix("rel=\"next\""@, trim(parts[i])),
        forall|j: int| 0 <= j < i ==> !is_suffix("rel=\"next\""@, #[trigger] trim(parts[j])),
    ensures
        spec_next_link(parts) == Some(u),
    decreases i,
{
    if i > 0 {
        assert(!is_suffix("rel=\"next\""@, trim(parts[0])));
        let tail = parts.drop_first();
        assert forall|j: int| 0 <= j < i - 1 implies !is_suffix("rel=\"next\""@, #[trigger] trim(tail[j])) by {
            assert(tail[j] == parts[j + 1]);
        }
        assert(tail[i - 1] == parts[i]);
        law_next_link_found_at_any_position(tail, i - 1, u, rest);
    } else {
        let t = trim(parts[0]);
        assert(t[0] == '<');
        assert(index_of_from(t, '<', 0) == 0);
        let after = t.skip(1);
        assert(after =~= u + seq!['>'] + rest);
        assert(after[u.len() as int] == '>');
        lemma_index_of_from(after, '>', 0);
        let g = index_of_from(after, '>', 0);
        if g == -1 {
            assert(after[u.len() as int] != '>');
        } else if g < u.len() {
            assert(after[g] == u[g]);
            assert(u.contains(u[g]));
        } else if g > u.len() {
            assert(after[u.len() as int] != '>');
        }
        assert(g == u.len());
        assert(after.take(g) =~= u);
    }
}

/// Find the next-page URL in a `Link` header value.
pub fn parse_next_link(link_header: &str) -> (r: Option<String>)
    ensures
        r is Some <==> spec_next_link(split_on(link_header@, ',')) is Some,
        r matches Some(u) ==> u@ == spec_next_link(split_on(link_header@, ','))->0,
{
    let v = chars_of(link_header);
    let parts = split_chars(&v, ',');
    let ghost sp = split_on(v@, ',');
    let rel = chars_of("rel=\"next\"");
    let mut i: usize = 0;
    assert(sp.skip(0) == sp);
    while i < parts.len()
        invariant
            i <= parts.len(),
            parts@.len() == sp.len(),
            forall|k: int| 0 <= k < parts@.len() ==> (#[trigger] parts@[k])@ == sp[k],
            spec_next_link(sp) == spec_next_link(sp.skip(i as int)),
            rel@ == "rel=\"next\""@,
            sp == split_on(link_header@, ','),
        decreases parts.len() - i,
    {
        assert(sp.skip(i as int)[0] == sp[i as int]);
        assert(sp.skip(i as int).drop_first() == sp.skip(i + 1));
        let t = trim_chars(&parts[i]);
        if ends_with(&t, &rel) {
            match find_char_from(&t, '<', 0) {
                None => return None,
                Some(lt) => {
                    let after = sub_chars(&t, lt + 1, t.len());
                    assert(after@ == t@.skip(lt + 1));
                    match find_char_from(&after, '>', 0) {
                        None => return None,
                        Some(gt) => {
                            let u = sub_chars(&after, 0, gt);
                            assert(u@ == after@.take(gt as int));
                            return Some(string_of(&u));
                        },
                    }
                },
            }
        }
        i = i + 1;
    }
    None
}

// ---------------------------------------------------------------------------
// Security advisories
// ---------------------------------------------------------------------------

/// GitHub's GraphQL endpoint.
pub const GRAPHQL_URL: &'static str = "https://api.github.com/graphql";

/// How severe an advisory is, as GitHub classifies it.
#[derive(Debug, Clone, Copy, PartialEq, Eq)]
pub enum AdvisorySeverity {
    Low,
    Moderate,
    High,
    Critical,
}

/// One advisory affecting an action.
#[derive(Debug, Clone, PartialEq, Eq)]
pub struct Advisory {
    /// The GHSA identifier.
    pub ghsa_id: String,
    /// One-line description of the vulnerability.
    pub summary: String,
    pub severity: AdvisorySeverity,
    /// Link to the advisory on github.com.
    pub permalink: String,
    /// The affected version range, compared by the caller.
    pub vulnerable_range: String,
    /// The first version containing the fix, when one is named.
    pub first_patched: Option<String>,
}

/// One vulnerability node of the GraphQL response, decoded.
#[derive(Debug, Clone, PartialEq, Eq)]
pub struct VulnerabilityNode {
    pub vulnerable_version_range: String,
    pub first_patched_version: Option<String>,
    pub ghsa_id: String,
    pub summary: String,
    pub severity: AdvisorySeverity,
    pub permalink: String,
}

/// The GraphQL response, decoded: the nodes when `data` was present, and the
/// messages of any query-level errors.
#[derive(Debug, Clone, PartialEq, Eq)]
pub struct AdvisoryResponse {
    pub data: Option<Vec<VulnerabilityNode>>,
    pub errors: Vec<String>,
}

/// The advisory a node describes.
pub open spec fn advisory_of(n: VulnerabilityNode) -> Advisory {
    Advisory {
        ghsa_id: n.ghsa_id,
        summary: n.summary,
        severity: n.severity,
        permalink: n.permalink,
        vulnerable_range: n.vulnerable_version_range,
        first_patched: n.first_patched_version,
    }
}

/// Turn a decoded response into advisories. A query-level error, or a response
/// without data, is an error naming the cause, never an empty (clean) result.
pub fn interpret_advisories(response: AdvisoryResponse) -> (r: Result<Vec<Advisory>, Error>)
    ensures
        response.errors@.len() > 0 ==> (r matches Err(Error::ApiError { status, url }) && status
            == 200 && url@ == GRAPHQL_URL@ + " ("@ + response.errors@[0]@ + ")"@),
        response.errors@.len() == 0 && response.data is None ==> (r matches Err(
            Error::ApiError { status, url },
        ) && status == 200 && url@ == GRAPHQL_URL@ + " (response contained no data)"@),
        response.errors@.len() == 0 && response.data is Some ==> (r matches Ok(v) && v@.len()
            == response.data->0@.len() && forall|i: int|
            0 <= i < v@.len() ==> #[trigger] v@[i] == advisory_of(response.data->0@[i])),
{
    if response.errors.len() > 0 {
        let mut url = String::from_str(GRAPHQL_URL);
        url.append(" (");
        url.append(response.errors[0].as_str());
        url.append(")");
        return Err(Error::ApiError { status: 200, url });
    }
    match response.data {
        None => {
            let mut url = String::from_str(GRAPHQL_URL);
            url.append(" (response contained no data)");
            Err(Error::ApiError { status: 200, url })
        },
        Some(nodes) => {
            let mut out: Vec<Advisory> = Vec::new();
            let ghost orig = nodes@;
            let mut rest = nodes;
            while rest.len() > 0
                invariant
                    out@.len() + rest@.len() == orig.len(),
                    rest@ == orig.skip(out@.len() as int),
                    forall|k: int| 0 <= k < out@.len() ==> #[trigger] out@[k] == advisory_of(orig[k]),
                decreases rest.len(),
            {
                let n = rest.remove(0);
                assert(n == orig[out@.len() as int]);
                assert(rest@ == orig.skip(out@.len() as int + 1));
                out.push(Advisory {
                    ghsa_id: n.ghsa_id,
                    summary: n.summary,
                    severity: n.severity,
                    permalink: n.permalink,
                    vulnerable_range: n.vulnerable_version_range,
                    first_patched: n.first_patched_version,
                });
            }
            Ok(out)
        },
    }
}

/// A source of security advisories for actions.
pub trait AdvisoryQuery {
    /// All advisories affecting `package`, an `owner/repo` slug. An empty list
    /// means the lookup found none; a lookup that could not be made is an error.
    fn advisories(&self, package: &str) -> Result<Vec<Advisory>, Error>;
}

} // verus!
