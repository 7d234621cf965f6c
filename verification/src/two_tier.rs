//! The two-tier lock file: nested `[resolutions]` and `[actions]` tables.

use vstd::prelude::*;
use crate::identity::{ActionId, Version, CommitSha, CommitDate, Repository, RefType, LockKey, copy_string};
use crate::resolution::Commit;
use crate::text::{contains_text, has_substring};
use crate::tiered::{TieredLock, Resolution, two_tier_marker};

verus! {

/// The version a two-tier resolution entry records.
#[derive(Debug, Clone, PartialEq, Eq)]
pub struct ResolutionEntryData {
    pub version: String,
}

/// The commit a two-tier action entry records.
#[derive(Debug, Clone, PartialEq, Eq)]
pub struct ActionCommitData {
    pub sha: String,
    pub repository: String,
    pub ref_type: String,
    pub date: String,
}

/// A two-tier lock file as read: per action, specifier to resolution and
/// version to commit.
#[derive(Debug, Clone, PartialEq, Eq, Default)]
pub struct TwoTierData {
    pub resolutions: Vec<(String, Vec<(String, ResolutionEntryData)>)>,
    pub actions: Vec<(String, Vec<(String, ActionCommitData)>)>,
}

/// The commit a stored entry denotes; an unknown ref type name gives none.
pub open spec fn commit_of_data(c: ActionCommitData) -> (Seq<char>, Seq<char>, Option<RefType>, Seq<char>) {
    (c.sha@, c.repository@, RefType::spec_parse(c.ref_type@), c.date@)
}

/// `m` with the resolutions of one action's specifiers added, in order.
pub open spec fn add_resolutions(
    m: Map<(Seq<char>, Seq<char>), (Seq<char>, Seq<char>)>,
    id: Seq<char>,
    s: Seq<(String, ResolutionEntryData)>,
) -> Map<(Seq<char>, Seq<char>), (Seq<char>, Seq<char>)>
    decreases s.len(),
{
    if s.len() == 0 {
        m
    } else {
        add_resolutions(m, id, s.drop_last()).insert((id, s.last().0@), (s.last().1.version@, Seq::empty()))
    }
}

/// The resolutions two-tier data denotes.
pub open spec fn two_tier_resolutions(s: Seq<(String, Vec<(String, ResolutionEntryData)>)>) -> Map<
    (Seq<char>, Seq<char>),
    (Seq<char>, Seq<char>),
>
    decreases s.len(),
{
    if s.len() == 0 {
        Map::empty()
    } else {
        add_resolutions(two_tier_resolutions(s.drop_last()), s.last().0@, s.last().1@)
    }
}

/// `m` with the commits of one action's versions added, in order.
pub open spec fn add_commits(
    m: Map<(Seq<char>, Seq<char>), (Seq<char>, Seq<char>, Option<RefType>, Seq<char>)>,
    id: Seq<char>,
    s: Seq<(String, ActionCommitData)>,
) -> Map<(Seq<char>, Seq<char>), (Seq<char>, Seq<char>, Option<RefType>, Seq<char>)>
    decreases s.len(),
{
    if s.len() == 0 {
        m
    } else {
        add_commits(m, id, s.drop_last()).insert((id, s.last().0@), commit_of_data(s.last().1))
    }
}

/// The pinned commits two-tier data denotes.
pub open spec fn two_tier_commits(s: Seq<(String, Vec<(String, ActionCommitData)>)>) -> Map<
    (Seq<char>, Seq<char>),
    (Seq<char>, Seq<char>, Option<RefType>, Seq<char>),
>
    decreases s.len(),
{
    if s.len() == 0 {
        Map::empty()
    } else {
        add_commits(two_tier_commits(s.drop_last()), s.last().0@, s.last().1@)
    }
}

fn commit_from_data(c: &ActionCommitData) -> (r: Commit)
    ensures
        r@ == commit_of_data(*c),
{
    Commit {
        sha: CommitSha(copy_string(&c.sha)),
        repository: Repository(copy_string(&c.repository)),
        ref_type: RefType::parse(c.ref_type.as_str()),
        date: CommitDate(copy_string(&c.date)),
    }
}

/// The lock that two-tier data denotes.
pub fn lock_from_two_tier(data: &TwoTierData) -> (r: TieredLock)
    ensures
        r.wf(),
        r.resolution_map() == two_tier_resolutions(data.resolutions@),
        r.action_map() == two_tier_commits(data.actions@),
{
    let mut lock = TieredLock::empty();
    let mut i: usize = 0;
    while i < data.resolutions.len()
        invariant
            i <= data.resolutions@.len(),
            lock.wf(),
            lock.resolution_map() == two_tier_resolutions(data.resolutions@.take(i as int)),
            lock.action_map() == Map::<(Seq<char>, Seq<char>), (Seq<char>, Seq<char>, Option<RefType>, Seq<char>)>::empty(),
        decreases data.resolutions@.len() - i,
    {
        let id = &data.resolutions[i].0;
        let specs = &data.resolutions[i].1;
        let ghost before = lock.resolution_map();
        let mut j: usize = 0;
        while j < specs.len()
            invariant
                j <= specs@.len(),
                lock.wf(),
                lock.resolution_map() == add_resolutions(before, id@, specs@.take(j as int)),
                lock.action_map() == Map::<(Seq<char>, Seq<char>), (Seq<char>, Seq<char>, Option<RefType>, Seq<char>)>::empty(),
            decreases specs@.len() - j,
        {
            let spec = LockKey { id: ActionId(copy_string(id)), version: Version(copy_string(&specs[j].0)) };
            let res = Resolution { version: Version(copy_string(&specs[j].1.version)), comment: String::new() };
            lock.set_resolution(spec, res);
            proof {
                assert(specs@.take(j + 1).drop_last() =~= specs@.take(j as int));
            }
            j = j + 1;
        }
        proof {
            assert(specs@.take(specs@.len() as int) =~= specs@);
            assert(data.resolutions@.take(i + 1).drop_last() =~= data.resolutions@.take(i as int));
        }
        i = i + 1;
    }
    assert(data.resolutions@.take(data.resolutions@.len() as int) =~= data.resolutions@);
    let mut i: usize = 0;
    let ghost res_map = lock.resolution_map();
    while i < data.actions.len()
        invariant
            i <= data.actions@.len(),
            lock.wf(),
            lock.resolution_map() == res_map,
            lock.action_map() == two_tier_commits(data.actions@.take(i as int)),
        decreases data.actions@.len() - i,
    {
        let id = &data.actions[i].0;
        let versions = &data.actions[i].1;
        let ghost before = lock.action_map();
        let mut j: usize = 0;
        while j < versions.len()
            invariant
                j <= versions@.len(),
                lock.wf(),
                lock.resolution_map() == res_map,
                lock.action_map() == add_commits(before, id@, versions@.take(j as int)),
            decreases versions@.len() - j,
        {
            let key = LockKey { id: ActionId(copy_string(id)), version: Version(copy_string(&versions[j].0)) };
            let commit = commit_from_data(&versions[j].1);
            lock.set_commit(key, commit);
            proof {
                assert(versions@.take(j + 1).drop_last() =~= versions@.take(j as int));
            }
            j = j + 1;
        }
        proof {
            assert(versions@.take(versions@.len() as int) =~= versions@);
            assert(data.actions@.take(i + 1).drop_last() =~= data.actions@.take(i as int));
        }
        i = i + 1;
    }
    assert(data.actions@.take(data.actions@.len() as int) =~= data.actions@);
    lock
}

/// The two-tier lock in `content`, if it is one. Content without a
/// `[resolutions` table is not two-tier and gives `None` unread; otherwise
/// `parse` reads it, and its error is returned as it is.
pub fn try_parse<E, F: FnOnce(&str) -> Result<TwoTierData, E>>(content: &str, parse: F) -> (r: Result<
    Option<TieredLock>,
    E,
>)
    requires
        call_requires(parse, (content,)),
    ensures
        !has_substring(content@, two_tier_marker()) ==> r matches Ok(None),
        has_substring(content@, two_tier_marker()) ==> (r matches Ok(Some(l)) ==> l.wf() && exists|
            d: TwoTierData,
        |
            call_ensures(parse, (content,), Ok::<TwoTierData, E>(d)) && l.resolution_map()
                == two_tier_resolutions(d.resolutions@) && l.action_map() == two_tier_commits(
                d.actions@,
            )),
        has_substring(content@, two_tier_marker()) ==> !(r matches Ok(None)),
        r matches Err(e) ==> call_ensures(parse, (content,), Err::<TwoTierData, E>(e)),
{
    if !contains_text(content, "[resolutions") {
        return Ok(None);
    }
    match parse(content) {
        Ok(data) => Ok(Some(lock_from_two_tier(&data))),
        Err(e) => Err(e),
    }
}

} // verus!
