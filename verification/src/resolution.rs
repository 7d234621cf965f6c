//! Forge-neutral resolution: what a version registry answers, and how its
//! failures are classified.

use vstd::prelude::*;
use crate::identity::{ActionId, CommitDate, CommitSha, RefType, Repository, Version};
use crate::text::push_char;
use vstd::string::StringExecFns;

verus! {

/// Longest reset delay, in seconds, still worth waiting out.
pub const MAX_RETRY_WAIT_SECS: u64 = 5;

/// When a rate-limited forge said its quota resets.
#[derive(Debug, Clone, Copy, PartialEq, Eq)]
pub enum RetryAfter {
    /// Resets after this many whole seconds.
    After(u64),
    /// No reset time was stated.
    Unstated,
    /// Resets further out than any wait worth taking.
    TooDistant,
}

/// The code host a request went to.
#[derive(Debug, Clone, Copy, PartialEq, Eq)]
pub enum Forge {
    GitHub,
}

/// An action at a version specifier, as named in a manifest.
#[derive(Debug, Clone, PartialEq, Eq, Hash)]
pub struct ActionSpec {
    pub id: ActionId,
    pub version: Version,
}

impl ActionSpec {
    pub fn new(id: ActionId, version: Version) -> (r: Self)
        ensures
            r.id == id,
            r.version == version,
    {
        ActionSpec { id, version }
    }
}

/// Why a resolution request failed.
#[derive(Debug, Clone, PartialEq, Eq)]
pub enum ResolutionError {
    /// The forge's quota is exhausted.
    RateLimited { forge: Forge, retry_after: RetryAfter },
    /// The forge requires a credential that was not supplied.
    AuthRequired { forge: Forge },
    /// The reference could not be resolved.
    ResolveFailed { spec: ActionSpec, reason: String },
}

impl ResolutionError {
    /// Only a rate limit is worth retrying.
    pub open spec fn spec_is_retryable(&self) -> bool {
        self is RateLimited
    }

    /// Whether reissuing the same request can succeed.
    pub fn is_retryable(&self) -> (r: bool)
        ensures
            r == self.spec_is_retryable(),
    {
        match self {
            ResolutionError::RateLimited { .. } => true,
            _ => false,
        }
    }

    /// The human-readable description.
    pub open spec fn spec_message(&self) -> Seq<char> {
        match self {
            ResolutionError::RateLimited { .. } => "GitHub API rate limit exceeded"@,
            ResolutionError::AuthRequired { .. } => "GitHub API requires authentication"@,
            ResolutionError::ResolveFailed { spec, reason } => "failed to resolve "@ + spec.id@
                + seq!['@'] + spec.version@ + ": "@ + reason@,
        }
    }

    /// The human-readable description.
    pub fn message(&self) -> (r: String)
        ensures
            r@ == self.spec_message(),
    {
        match self {
            ResolutionError::RateLimited { .. } => String::from_str("GitHub API rate limit exceeded"),
            ResolutionError::AuthRequired { .. } => String::from_str(
                "GitHub API requires authentication",
            ),
            ResolutionError::ResolveFailed { spec, reason } => {
                let mut s = String::from_str("failed to resolve ");
                s.append(spec.id.as_str());
                push_char(&mut s, '@');
                s.append(spec.version.as_str());
                s.append(": ");
                s.append(reason.as_str());
                s
            },
        }
    }
}

/// A resolved commit and where it came from.
#[derive(Debug, Clone, PartialEq, Eq)]
pub struct Commit {
    pub sha: CommitSha,
    pub repository: Repository,
    pub ref_type: Option<RefType>,
    pub date: CommitDate,
}

/// What is known about a commit SHA.
#[derive(Debug, Clone, PartialEq, Eq)]
pub struct ShaDescription {
    pub tags: Vec<Version>,
    pub repository: Repository,
    pub date: CommitDate,
}

/// A source of version information for actions, implemented per forge.
pub trait VersionRegistry {
    /// The commit a version of an action resolves to.
    fn lookup_sha(&self, id: &ActionId, version: &Version) -> Result<Commit, ResolutionError>;

    /// Every version tag of an action.
    fn all_tags(&self, id: &ActionId) -> Result<Vec<Version>, ResolutionError>;

    /// The tags, repository, and date of a commit.
    fn describe_sha(&self, id: &ActionId, sha: &CommitSha) -> Result<
        ShaDescription,
        ResolutionError,
    >;
}

} // verus!
