//! A registry that remembers what its inner registry answered: each version
//! lookup, tag list and commit description is asked for at most once while it
//! succeeds, and answered from memory after that.

use vstd::prelude::*;
use crate::identity::{ActionId, CommitDate, CommitSha, Repository, Version};
use crate::resolution::{Commit, ResolutionError, ShaDescription, VersionRegistry};

verus! {

#[verifier::external_type_specification]
#[verifier::external_body]
#[verifier::reject_recursive_types(K)]
#[verifier::reject_recursive_types(V)]
#[verifier::reject_recursive_types(S)]
pub struct ExFrozenMap<K, V, S>(elsa::FrozenMap<K, V, S>);

/// `elsa::FrozenMap::new`: an empty append-only map.
#[verifier::external_body]
fn frozen_new<K: Eq + std::hash::Hash, T>() -> (r: elsa::FrozenMap<K, Box<T>>) {
    elsa::FrozenMap::new()
}

/// `elsa::FrozenMap::get`: a reference to the value held for a key equal to
/// `k`, if any. The map is filled through shared references, so what it holds
/// is not stated.
#[verifier::external_body]
fn frozen_get<'a, K: Eq + std::hash::Hash, T>(m: &'a elsa::FrozenMap<K, Box<T>>, k: &K) -> (r: Option<&'a T>) {
    m.get(k)
}

/// `elsa::FrozenMap::insert`: holds `v` for `k` unless a value is already held
/// for it. What the map holds afterwards is not stated.
#[verifier::external_body]
fn frozen_insert<K: Eq + std::hash::Hash, T>(m: &elsa::FrozenMap<K, Box<T>>, k: K, v: T) {
    m.insert(k, Box::new(v));
}

/// Whether `c` is a commit that some registry of type `R` answered to
/// `lookup_sha` for action `id` at `version` (both taken by their text).
pub open spec fn answered_lookup<R: VersionRegistry>(id: Seq<char>, version: Seq<char>, c: Commit) -> bool {
    exists|src: R, k: ActionId, v: Version|
        k@ == id && v@ == version && #[trigger] call_ensures(
            R::lookup_sha,
            (&src, &k, &v),
            Ok::<Commit, ResolutionError>(c),
        )
}

/// Whether `tags` are, in order, the tags that some registry of type `R`
/// answered to `all_tags` for action `id` (taken by its text).
pub open spec fn answered_tags<R: VersionRegistry>(id: Seq<char>, tags: Seq<Version>) -> bool {
    exists|src: R, k: ActionId, t: Vec<Version>|
        k@ == id && t@ == tags && #[trigger] call_ensures(
            R::all_tags,
            (&src, &k),
            Ok::<Vec<Version>, ResolutionError>(t),
        )
}

/// Whether `d` is, field for field (its tags in order), a description that
/// some registry of type `R` answered to `describe_sha` for action `id` at
/// commit `sha` (both taken by their text).
pub open spec fn answered_description<R: VersionRegistry>(
    id: Seq<char>,
    sha: Seq<char>,
    d: ShaDescription,
) -> bool {
    exists|src: R, k: ActionId, c: CommitSha, e: ShaDescription|
        k@ == id && c@ == sha && e.tags@ == d.tags@ && e.repository == d.repository && e.date
            == d.date && #[trigger] call_ensures(
            R::describe_sha,
            (&src, &k, &c),
            Ok::<ShaDescription, ResolutionError>(e),
        )
}

/// An identical copy of a commit.
fn copy_commit(c: &Commit) -> (r: Commit)
    ensures
        r == *c,
{
    Commit {
        sha: CommitSha(c.sha.0.clone()),
        repository: Repository(c.repository.0.clone()),
        ref_type: c.ref_type,
        date: CommitDate(c.date.0.clone()),
    }
}

/// An element-for-element identical copy of a tag list.
fn copy_tags(tags: &Vec<Version>) -> (r: Vec<Version>)
    ensures
        r@ == tags@,
{
    let mut out: Vec<Version> = Vec::new();
    let mut i: usize = 0;
    while i < tags.len()
        invariant
            i <= tags.len(),
            out@ == tags@.take(i as int),
        decreases tags.len() - i,
    {
        out.push(Version(tags[i].0.clone()));
        assert(out@ =~= tags@.take(i + 1));
        i = i + 1;
    }
    assert(tags@.take(tags.len() as int) =~= tags@);
    out
}

/// A copy of a description: the same repository and date, the same tags in order.
fn copy_description(d: &ShaDescription) -> (r: ShaDescription)
    ensures
        r.tags@ == d.tags@,
        r.repository == d.repository,
        r.date == d.date,
{
    ShaDescription {
        tags: copy_tags(&d.tags),
        repository: Repository(d.repository.0.clone()),
        date: CommitDate(d.date.0.clone()),
    }
}

/// A commit that the registry `source` answered for `id` at `version`.
struct RememberedCommit<R: VersionRegistry> {
    id: ActionId,
    version: Version,
    commit: Commit,
    source: Ghost<R>,
}

impl<R: VersionRegistry> RememberedCommit<R> {
    #[verifier::type_invariant]
    spec fn was_answered(self) -> bool {
        call_ensures(
            R::lookup_sha,
            (&self.source@, &self.id, &self.version),
            Ok::<Commit, ResolutionError>(self.commit),
        )
    }
}

/// The tags that the registry `source` answered for `id`.
struct RememberedTags<R: VersionRegistry> {
    id: ActionId,
    tags: Vec<Version>,
    source: Ghost<R>,
}

impl<R: VersionRegistry> RememberedTags<R> {
    #[verifier::type_invariant]
    spec fn was_answered(self) -> bool {
        call_ensures(R::all_tags, (&self.source@, &self.id), Ok::<Vec<Version>, ResolutionError>(self.tags))
    }
}

/// The description that the registry `source` answered for `id` at `sha`.
struct RememberedDescription<R: VersionRegistry> {
    id: ActionId,
    sha: CommitSha,
    description: ShaDescription,
    source: Ghost<R>,
}

impl<R: VersionRegistry> RememberedDescription<R> {
    #[verifier::type_invariant]
    spec fn was_answered(self) -> bool {
        call_ensures(
            R::describe_sha,
            (&self.source@, &self.id, &self.sha),
            Ok::<ShaDescription, ResolutionError>(self.description),
        )
    }
}

/// A registry whose answers are remembered.
#[verifier::reject_recursive_types(R)]
pub struct Caching<R: VersionRegistry> {
    pub inner: R,
    commits: elsa::FrozenMap<(ActionId, Version), Box<RememberedCommit<R>>>,
    repo_tags: elsa::FrozenMap<ActionId, Box<RememberedTags<R>>>,
    descriptions: elsa::FrozenMap<(ActionId, CommitSha), Box<RememberedDescription<R>>>,
}

impl<R: VersionRegistry> Caching<R> {
    /// The registry whose answers are remembered.
    pub closed spec fn wrapped(&self) -> R {
        self.inner
    }

    /// Remember the answers of `inner`, starting from none.
    pub fn new(inner: R) -> (r: Self)
        ensures
            r.wrapped() == inner,
    {
        Caching { inner, commits: frozen_new(), repo_tags: frozen_new(), descriptions: frozen_new() }
    }
}

impl<R: VersionRegistry> VersionRegistry for Caching<R> {
    /// A commit remembered for this action and version, else the inner
    /// registry's answer, remembered when it is a commit.
    fn lookup_sha(&self, id: &ActionId, version: &Version) -> (r: Result<Commit, ResolutionError>)
        ensures
            r is Err ==> call_ensures(R::lookup_sha, (&self.wrapped(), id, version), r),
            r matches Ok(c) ==> answered_lookup::<R>(id@, version@, c),
    {
        let key = (id.copy(), version.copy());
        match frozen_get(&self.commits, &key) {
            Some(hit) => {
                if hit.id.0 == id.0 && hit.version.0 == version.0 {
                    proof {
                        use_type_invariant(hit);
                    }
                    return Ok(copy_commit(&hit.commit));
                }
            },
            None => {},
        }
        let ask = R::lookup_sha;
        match ask(&self.inner, id, version) {
            Ok(commit) => {
                let answer = copy_commit(&commit);
                let entry = RememberedCommit {
                    id: ActionId(id.0.clone()),
                    version: Version(version.0.clone()),
                    commit,
                    source: Ghost(self.inner),
                };
                frozen_insert(&self.commits, key, entry);
                Ok(answer)
            },
            Err(e) => Err(e),
        }
    }

    /// The tags remembered for this action, else the inner registry's answer,
    /// remembered when it is a list.
    fn all_tags(&self, id: &ActionId) -> (r: Result<Vec<Version>, ResolutionError>)
        ensures
            r is Err ==> call_ensures(R::all_tags, (&self.wrapped(), id), r),
            r matches Ok(t) ==> answered_tags::<R>(id@, t@),
    {
        match frozen_get(&self.repo_tags, id) {
            Some(hit) => {
                if hit.id.0 == id.0 {
                    proof {
                        use_type_invariant(hit);
                    }
                    return Ok(copy_tags(&hit.tags));
                }
            },
            None => {},
        }
        let ask = R::all_tags;
        match ask(&self.inner, id) {
            Ok(tags) => {
                let answer = copy_tags(&tags);
                let entry = RememberedTags { id: ActionId(id.0.clone()), tags, source: Ghost(self.inner) };
                frozen_insert(&self.repo_tags, id.copy(), entry);
                Ok(answer)
            },
            Err(e) => Err(e),
        }
    }

    /// The description remembered for this action and commit, else the inner
    /// registry's answer, remembered when it is a description.
    fn describe_sha(&self, id: &ActionId, sha: &CommitSha) -> (r: Result<ShaDescription, ResolutionError>)
        ensures
            r is Err ==> call_ensures(R::describe_sha, (&self.wrapped(), id, sha), r),
            r matches Ok(d) ==> answered_description::<R>(id@, sha@, d),
    {
        let key = (id.copy(), CommitSha::new(sha.as_str()));
        match frozen_get(&self.descriptions, &key) {
            Some(hit) => {
                if hit.id.0 == id.0 && hit.sha.0 == sha.0 {
                    proof {
                        use_type_invariant(hit);
                    }
                    return Ok(copy_description(&hit.description));
                }
            },
            None => {},
        }
        let ask = R::describe_sha;
        match ask(&self.inner, id, sha) {
            Ok(description) => {
                let answer = copy_description(&description);
                let entry = RememberedDescription {
                    id: ActionId(id.0.clone()),
                    sha: CommitSha(sha.0.clone()),
                    description,
                    source: Ghost(self.inner),
                };
                frozen_insert(&self.descriptions, key, entry);
                Ok(answer)
            },
            Err(e) => Err(e),
        }
    }
}

} // verus!
