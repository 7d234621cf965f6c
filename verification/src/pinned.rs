//! The lock file of format 1.0: each `owner/repo@version` key pinned to a
//! bare commit SHA, and the stores a lock is loaded from and saved to.

use vstd::prelude::*;
use crate::assoc::{MapKey, map_of, distinct_keys, lemma_map_of, assoc_set, assoc_get};
use crate::identity::{CommitSha, LockKey, key_text, spec_parse_key, copy_string, law_key_text_roundtrip};
use vstd::string::StringExecFns;

verus! {

/// File name of the lock file.
pub const LOCK_FILE_NAME: &'static str = "gx.lock";

/// Format version written by this store.
pub const LOCK_FILE_VERSION: &'static str = "1.0";

/// Action keys pinned to commit SHAs.
#[derive(Debug, Clone)]
pub struct ShaLock {
    entries: Vec<(LockKey, CommitSha)>,
}

impl View for ShaLock {
    type V = Map<(Seq<char>, Seq<char>), Seq<char>>;

    closed spec fn view(&self) -> Map<(Seq<char>, Seq<char>), Seq<char>> {
        map_of(self.entries@)
    }
}

impl ShaLock {
    /// No key occurs twice.
    pub closed spec fn wf(&self) -> bool {
        distinct_keys(self.entries@)
    }

    /// The pairs, in the order they were first set.
    pub closed spec fn pairs(&self) -> Seq<(LockKey, CommitSha)> {
        self.entries@
    }

    /// The pairs hold exactly the lock's map, once per key.
    pub proof fn lemma_pairs(&self)
        requires
            self.wf(),
        ensures
            distinct_keys(self.pairs()),
            map_of(self.pairs()) == self@,
    {
    }

    pub fn empty() -> (r: Self)
        ensures
            r.wf(),
            r@ == Map::<(Seq<char>, Seq<char>), Seq<char>>::empty(),
    {
        ShaLock { entries: Vec::new() }
    }

    /// Pin `key` to `sha`, replacing any pin there.
    pub fn set(&mut self, key: LockKey, sha: CommitSha)
        requires
            old(self).wf(),
        ensures
            final(self).wf(),
            final(self)@ == old(self)@.insert(key.kview(), sha@),
    {
        assoc_set(&mut self.entries, key, sha);
    }

    pub fn get(&self, key: &LockKey) -> (r: Option<&CommitSha>)
        requires
            self.wf(),
        ensures
            r is Some <==> self@.contains_key(key.kview()),
            r matches Some(s) ==> s@ == self@[key.kview()],
    {
        assoc_get(&self.entries, key)
    }

    pub fn has(&self, key: &LockKey) -> (r: bool)
        requires
            self.wf(),
        ensures
            r == self@.contains_key(key.kview()),
    {
        assoc_get(&self.entries, key).is_some()
    }

    pub fn is_empty(&self) -> (r: bool)
        requires
            self.wf(),
        ensures
            r == (self@ =~= Map::empty()),
    {
        proof {
            lemma_map_of(self.entries@);
            if self.entries@.len() > 0 {
                assert(self@.contains_key(self.entries@[0].0.kview()));
            }
        }
        self.entries.len() == 0
    }
}

/// A 1.0 lock file as read: its version and its `key = sha` pairs.
#[derive(Debug, Clone, PartialEq, Eq)]
pub struct LockData {
    pub version: String,
    pub actions: Vec<(String, String)>,
}

impl Default for LockData {
    fn default() -> (r: LockData)
        ensures
            r.version@ == LOCK_FILE_VERSION@,
            r.actions@.len() == 0,
    {
        LockData { version: String::from_str(LOCK_FILE_VERSION), actions: Vec::new() }
    }
}

/// The pins stored pairs denote: pairs whose key does not parse are skipped;
/// of two pairs with one key the later wins.
pub open spec fn pins_of(s: Seq<(String, String)>) -> Map<(Seq<char>, Seq<char>), Seq<char>>
    decreases s.len(),
{
    if s.len() == 0 {
        Map::empty()
    } else {
        let m = pins_of(s.drop_last());
        match spec_parse_key(s.last().0@) {
            Some(k) => m.insert(k, s.last().1@),
            None => m,
        }
    }
}

/// The lock that 1.0 lock-file data denotes.
pub fn lock_from_data(data: &LockData) -> (r: ShaLock)
    ensures
        r.wf(),
        r@ == pins_of(data.actions@),
{
    let mut lock = ShaLock::empty();
    let mut i: usize = 0;
    while i < data.actions.len()
        invariant
            i <= data.actions@.len(),
            lock.wf(),
            lock@ == pins_of(data.actions@.take(i as int)),
        decreases data.actions@.len() - i,
    {
        proof {
            assert(data.actions@.take(i + 1).drop_last() =~= data.actions@.take(i as int));
        }
        match LockKey::parse(data.actions[i].0.as_str()) {
            Some(key) => lock.set(key, CommitSha(copy_string(&data.actions[i].1))),
            None => {},
        }
        i = i + 1;
    }
    assert(data.actions@.take(data.actions@.len() as int) =~= data.actions@);
    lock
}

/// The 1.0 lock-file data for `lock`: the current version, and one
/// `id@version = sha` pair per pin, in the lock's order.
pub fn lock_to_data(lock: &ShaLock) -> (r: LockData)
    ensures
        r.version@ == LOCK_FILE_VERSION@,
        writes_pairs(r, lock.pairs()),
{
    let mut actions: Vec<(String, String)> = Vec::new();
    let mut i: usize = 0;
    while i < lock.entries.len()
        invariant
            i <= lock.entries@.len(),
            actions@.len() == i,
            forall|j: int|
                0 <= j < i ==> (#[trigger] actions@[j]).0@ == key_text(
                    lock.entries@[j].0.id@,
                    lock.entries@[j].0.version@,
                ) && actions@[j].1@ == lock.entries@[j].1@,
        decreases lock.entries@.len() - i,
    {
        let k = lock.entries[i].0.to_key_string();
        let s = copy_string(&lock.entries[i].1.0);
        actions.push((k, s));
        i = i + 1;
    }
    LockData { version: String::from_str(LOCK_FILE_VERSION), actions }
}

/// `d` writes the pairs `p` in order: each key as `id@version`, each SHA as it is.
pub open spec fn writes_pairs(d: LockData, p: Seq<(LockKey, CommitSha)>) -> bool {
    &&& d.actions@.len() == p.len()
    &&& forall|i: int|
        0 <= i < p.len() ==> (#[trigger] d.actions@[i]).0@ == key_text(p[i].0.id@, p[i].0.version@)
            && d.actions@[i].1@ == p[i].1@
}

/// A saved lock loads back as the same lock, when no version holds an `@`
/// (the key text is split at its last `@`).
pub proof fn law_saved_lock_loads_back(lock: ShaLock, d: LockData)
    requires
        lock.wf(),
        writes_pairs(d, lock.pairs()),
        forall|i: int, k: int|
            0 <= i < lock.pairs().len() && 0 <= k < lock.pairs()[i].0.version@.len() ==> (
            #[trigger] lock.pairs()[i].0.version@[k]) != '@',
    ensures
        pins_of(d.actions@) == lock@,
{
    let p = lock.pairs();
    assert forall|n: int| 0 <= n <= p.len() implies pins_of(d.actions@.take(n)) == map_of(p.take(n)) by {
        lemma_pins_prefix(d, p, n);
    }
    assert(d.actions@.take(p.len() as int) =~= d.actions@);
    assert(p.take(p.len() as int) =~= p);
}

proof fn lemma_pins_prefix(d: LockData, p: Seq<(LockKey, CommitSha)>, n: int)
    requires
        0 <= n <= p.len(),
        writes_pairs(d, p),
        forall|i: int, k: int|
            0 <= i < p.len() && 0 <= k < p[i].0.version@.len() ==> (#[trigger] p[i].0.version@[k]) != '@',
    ensures
        pins_of(d.actions@.take(n)) == map_of(p.take(n)),
    decreases n,
{
    if n > 0 {
        lemma_pins_prefix(d, p, n - 1);
        let i = n - 1;
        assert(d.actions@.take(n).drop_last() =~= d.actions@.take(i));
        assert(p.take(n).drop_last() =~= p.take(i));
        let version = p[i].0.version@;
        assert forall|k: int| 0 <= k < version.len() implies version[k] != '@' by {
            assert(p[i].0.version@[k] != '@');
        }
        law_key_text_roundtrip(p[i].0.id@, version);
        assert(d.actions@.take(n).last() == d.actions@[i]);
        assert(p.take(n).last() == p[i]);
    }
}

/// Whether stored data needs writing back in the current format.
pub fn needs_rewrite(data: &LockData) -> (r: bool)
    ensures
        r == (data.version@ != LOCK_FILE_VERSION@),
{
    !(data.version == String::from_str(LOCK_FILE_VERSION))
}

/// Why a lock could not be loaded or saved.
#[derive(Debug, Clone, PartialEq, Eq)]
pub enum LockFileError {
    Read { path: String, cause: String },
    Parse { path: String, cause: String },
    Write { path: String, cause: String },
    Serialize(String),
}

/// Where a lock is loaded from and saved to.
pub trait LockStore {
    fn load(&self) -> Result<ShaLock, LockFileError>;

    fn save(&self, lock: &ShaLock) -> Result<(), LockFileError>;

    fn path(&self) -> &str;
}

/// A lock file on disk.
pub struct FileLock {
    path: String,
}

impl FileLock {
    /// Where the lock file is kept.
    pub closed spec fn location(&self) -> Seq<char> {
        self.path@
    }

    pub fn new(path: &str) -> (r: Self)
        ensures
            r.location() == path@,
    {
        FileLock { path: String::from_str(path) }
    }

    pub fn path(&self) -> (r: &str)
        ensures
            r@ == self.location(),
    {
        self.path.as_str()
    }
}

/// A store that keeps nothing: it loads an empty lock and saving does nothing.
#[derive(Debug, Default)]
pub struct MemoryLock;

impl LockStore for MemoryLock {
    fn load(&self) -> (r: Result<ShaLock, LockFileError>)
        ensures
            r matches Ok(l) && l.wf() && l@ == Map::<(Seq<char>, Seq<char>), Seq<char>>::empty(),
    {
        Ok(ShaLock::empty())
    }

    fn save(&self, lock: &ShaLock) -> (r: Result<(), LockFileError>)
        ensures
            r is Ok,
    {
        Ok(())
    }

    fn path(&self) -> (r: &str)
        ensures
            r@ == "in-memory"@,
    {
        "in-memory"
    }
}

} // verus!
