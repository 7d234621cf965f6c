//! The flat lock file: one inline table per `owner/repo@specifier` key,
//! holding both the resolved version and the pinned commit.

use vstd::prelude::*;
use crate::identity::{Version, CommitSha, CommitDate, Repository, RefType, LockKey, spec_parse_key, copy_string};
use crate::lock::{opt_view, text_or};
use crate::resolution::Commit;
use crate::text::{contains_text, has_substring};
use crate::tiered::{TieredLock, Resolution, two_tier_marker};

verus! {

/// One action as a flat lock file stores it, keyed `owner/repo@specifier`.
#[derive(Debug, Clone, PartialEq, Eq)]
pub struct FlatEntryData {
    pub sha: String,
    pub version: Option<String>,
    pub comment: String,
    pub repository: String,
    pub ref_type: String,
    pub date: String,
}

/// A flat lock file as read.
#[derive(Debug, Clone, PartialEq, Eq, Default)]
pub struct FlatData {
    pub version: String,
    pub actions: Vec<(String, FlatEntryData)>,
}

/// The version a flat entry resolved to: its own, or its key's specifier when absent.
pub open spec fn flat_version(spec: (Seq<char>, Seq<char>), e: FlatEntryData) -> Seq<char> {
    text_or(opt_view(e.version), spec.1)
}

/// The resolutions flat data denotes; keys that do not parse are skipped.
pub open spec fn flat_resolutions(s: Seq<(String, FlatEntryData)>) -> Map<(Seq<char>, Seq<char>), (Seq<char>, Seq<char>)>
    decreases s.len(),
{
    if s.len() == 0 {
        Map::empty()
    } else {
        let m = flat_resolutions(s.drop_last());
        match spec_parse_key(s.last().0@) {
            Some(k) => m.insert(k, (flat_version(k, s.last().1), s.last().1.comment@)),
            None => m,
        }
    }
}

/// The commits flat data denotes, keyed by action and resolved version.
pub open spec fn flat_commits(s: Seq<(String, FlatEntryData)>) -> Map<
    (Seq<char>, Seq<char>),
    (Seq<char>, Seq<char>, Option<RefType>, Seq<char>),
>
    decreases s.len(),
{
    if s.len() == 0 {
        Map::empty()
    } else {
        let m = flat_commits(s.drop_last());
        let e = s.last().1;
        match spec_parse_key(s.last().0@) {
            Some(k) => m.insert(
                (k.0, flat_version(k, e)),
                (e.sha@, e.repository@, RefType::spec_parse(e.ref_type@), e.date@),
            ),
            None => m,
        }
    }
}

/// The lock that flat data denotes: each entry gives a resolution for its
/// specifier and a commit for the version it resolved to.
pub fn lock_from_flat(data: &FlatData) -> (r: TieredLock)
    ensures
        r.wf(),
        r.resolution_map() == flat_resolutions(data.actions@),
        r.action_map() == flat_commits(data.actions@),
{
    let mut lock = TieredLock::empty();
    let mut i: usize = 0;
    while i < data.actions.len()
        invariant
            i <= data.actions@.len(),
            lock.wf(),
            lock.resolution_map() == flat_resolutions(data.actions@.take(i as int)),
            lock.action_map() == flat_commits(data.actions@.take(i as int)),
        decreases data.actions@.len() - i,
    {
        let k = &data.actions[i].0;
        let e = &data.actions[i].1;
        proof {
            assert(data.actions@.take(i + 1).drop_last() =~= data.actions@.take(i as int));
        }
        match LockKey::parse(k.as_str()) {
            None => {},
            Some(spec) => {
                let version = match &e.version {
                    Some(v) => copy_string(v),
                    None => copy_string(&spec.version.0),
                };
                let key = LockKey { id: spec.id.copy(), version: Version(copy_string(&version)) };
                let res = Resolution { version: Version(version), comment: copy_string(&e.comment) };
                lock.set_resolution(spec, res);
                let commit = Commit {
                    sha: CommitSha(copy_string(&e.sha)),
                    repository: Repository(copy_string(&e.repository)),
                    ref_type: RefType::parse(e.ref_type.as_str()),
                    date: CommitDate(copy_string(&e.date)),
                };
                lock.set_commit(key, commit);
            },
        }
        i = i + 1;
    }
    assert(data.actions@.take(data.actions@.len() as int) =~= data.actions@);
    lock
}

/// The marker that a lock file has an actions table.
pub open spec fn actions_marker() -> Seq<char> {
    "[actions"@
}

/// The flat lock in `content`, if it is one. Two-tier content, and content
/// without an `[actions` table, give `None` unread; otherwise `parse` reads
/// it, and its error is returned as it is.
pub fn try_parse<E, F: FnOnce(&str) -> Result<FlatData, E>>(content: &str, parse: F) -> (r: Result<
    Option<TieredLock>,
    E,
>)
    requires
        call_requires(parse, (content,)),
    ensures
        (has_substring(content@, two_tier_marker()) || !has_substring(content@, actions_marker()))
            ==> r matches Ok(None),
        (!has_substring(content@, two_tier_marker()) && has_substring(content@, actions_marker()))
            ==> !(r matches Ok(None)),
        r matches Ok(Some(l)) ==> l.wf() && exists|d: FlatData|
            call_ensures(parse, (content,), Ok::<FlatData, E>(d)) && l.resolution_map()
                == flat_resolutions(d.actions@) && l.action_map() == flat_commits(d.actions@),
        r matches Err(e) ==> call_ensures(parse, (content,), Err::<FlatData, E>(e)),
{
    if contains_text(content, "[resolutions") {
        return Ok(None);
    }
    if !contains_text(content, "[actions") {
        return Ok(None);
    }
    match parse(content) {
        Ok(data) => Ok(Some(lock_from_flat(&data))),
        Err(e) => Err(e),
    }
}

} // verus!
