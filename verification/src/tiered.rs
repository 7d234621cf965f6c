//! Lock files that record two things apart: which version each specifier
//! resolved to (`[resolutions]`), and which commit each version is pinned to
//! (`[actions]`). Two layouts exist: the two-tier one, with nested tables, and
//! the older flat one, with one inline table per `owner/repo@specifier` key.

use vstd::prelude::*;
use crate::assoc::{MapKey, map_of, distinct_keys, lemma_map_of, assoc_set, assoc_get};
use crate::identity::{LockKey, RefType, Version};
use crate::resolution::Commit;

verus! {

/// An action with the version specifier a manifest asked for (e.g. `actions/checkout@^4`).
pub type Spec = LockKey;

/// The version a specifier resolved to, and the comment written beside a pin.
#[derive(Debug, Clone, PartialEq, Eq)]
pub struct Resolution {
    pub version: Version,
    pub comment: String,
}

impl View for Resolution {
    type V = (Seq<char>, Seq<char>);

    open spec fn view(&self) -> (Seq<char>, Seq<char>) {
        (self.version@, self.comment@)
    }
}

impl DeepView for Resolution {
    type V = (Seq<char>, Seq<char>);

    open spec fn deep_view(&self) -> (Seq<char>, Seq<char>) {
        self@
    }
}

/// What a commit records, as text: sha, repository, ref type, date.
pub open spec fn commit_view(c: Commit) -> (Seq<char>, Seq<char>, Option<RefType>, Seq<char>) {
    (c.sha@, c.repository@, c.ref_type, c.date@)
}

impl View for Commit {
    type V = (Seq<char>, Seq<char>, Option<RefType>, Seq<char>);

    open spec fn view(&self) -> (Seq<char>, Seq<char>, Option<RefType>, Seq<char>) {
        commit_view(*self)
    }
}

impl DeepView for Commit {
    type V = (Seq<char>, Seq<char>, Option<RefType>, Seq<char>);

    open spec fn deep_view(&self) -> (Seq<char>, Seq<char>, Option<RefType>, Seq<char>) {
        commit_view(*self)
    }
}

/// A lock with resolutions and pinned commits kept apart.
#[derive(Debug, Clone)]
pub struct TieredLock {
    resolutions: Vec<(Spec, Resolution)>,
    actions: Vec<(LockKey, Commit)>,
}

impl TieredLock {
    /// No specifier and no version occurs twice.
    pub closed spec fn wf(&self) -> bool {
        distinct_keys(self.resolutions@) && distinct_keys(self.actions@)
    }

    /// Specifier to resolved version and comment.
    pub closed spec fn resolution_map(&self) -> Map<(Seq<char>, Seq<char>), (Seq<char>, Seq<char>)> {
        map_of(self.resolutions@)
    }

    /// Action version to pinned commit.
    pub closed spec fn action_map(&self) -> Map<(Seq<char>, Seq<char>), (Seq<char>, Seq<char>, Option<RefType>, Seq<char>)> {
        map_of(self.actions@)
    }

    pub fn empty() -> (r: Self)
        ensures
            r.wf(),
            r.resolution_map() == Map::<(Seq<char>, Seq<char>), (Seq<char>, Seq<char>)>::empty(),
            r.action_map() == Map::<(Seq<char>, Seq<char>), (Seq<char>, Seq<char>, Option<RefType>, Seq<char>)>::empty(),
    {
        TieredLock { resolutions: Vec::new(), actions: Vec::new() }
    }

    /// Whether the lock holds nothing.
    pub fn is_empty(&self) -> (r: bool)
        requires
            self.wf(),
        ensures
            r == (self.resolution_map() =~= Map::empty() && self.action_map() =~= Map::empty()),
    {
        proof {
            lemma_map_of(self.resolutions@);
            lemma_map_of(self.actions@);
            if self.resolutions@.len() > 0 {
                assert(self.resolution_map().contains_key(self.resolutions@[0].0.kview()));
            }
            if self.actions@.len() > 0 {
                assert(self.action_map().contains_key(self.actions@[0].0.kview()));
            }
        }
        self.resolutions.len() == 0 && self.actions.len() == 0
    }

    /// Record what `spec` resolved to.
    pub fn set_resolution(&mut self, spec: Spec, resolution: Resolution)
        requires
            old(self).wf(),
        ensures
            final(self).wf(),
            final(self).resolution_map() == old(self).resolution_map().insert(spec.kview(), resolution@),
            final(self).action_map() == old(self).action_map(),
    {
        assoc_set(&mut self.resolutions, spec, resolution);
    }

    /// Record the commit an action version is pinned to.
    pub fn set_commit(&mut self, key: LockKey, commit: Commit)
        requires
            old(self).wf(),
        ensures
            final(self).wf(),
            final(self).action_map() == old(self).action_map().insert(key.kview(), commit@),
            final(self).resolution_map() == old(self).resolution_map(),
    {
        assoc_set(&mut self.actions, key, commit);
    }

    /// The resolutions, each specifier once.
    pub fn resolution_pairs(&self) -> (r: &Vec<(Spec, Resolution)>)
        requires
            self.wf(),
        ensures
            distinct_keys(r@),
            map_of(r@) == self.resolution_map(),
    {
        &self.resolutions
    }

    /// The pinned commits, each action version once.
    pub fn action_pairs(&self) -> (r: &Vec<(LockKey, Commit)>)
        requires
            self.wf(),
        ensures
            distinct_keys(r@),
            map_of(r@) == self.action_map(),
    {
        &self.actions
    }

    /// Whether `spec` is resolved and its version pinned.
    pub fn has(&self, spec: &Spec) -> (r: bool)
        requires
            self.wf(),
        ensures
            r == (self.resolution_map().contains_key(spec.kview()) && self.action_map().contains_key(
                (spec.id@, self.resolution_map()[spec.kview()].0),
            )),
    {
        self.get(spec).is_some()
    }

    /// The resolution of `spec` and the commit its version is pinned to.
    pub fn get(&self, spec: &Spec) -> (r: Option<(&Resolution, &Commit)>)
        requires
            self.wf(),
        ensures
            r is Some <==> (self.resolution_map().contains_key(spec.kview())
                && self.action_map().contains_key(
                (spec.id@, self.resolution_map()[spec.kview()].0),
            )),
            r matches Some((res, c)) ==> res@ == self.resolution_map()[spec.kview()]
                && c@ == self.action_map()[(spec.id@, res.version@)],
    {
        match assoc_get(&self.resolutions, spec) {
            None => None,
            Some(res) => {
                let key = LockKey { id: spec.id.copy(), version: res.version.copy() };
                match assoc_get(&self.actions, &key) {
                    None => None,
                    Some(c) => Some((res, c)),
                }
            },
        }
    }
}

/// The marker that only two-tier lock files hold.
pub open spec fn two_tier_marker() -> Seq<char> {
    "[resolutions"@
}

} // verus!
