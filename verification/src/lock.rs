//! The lock file (format 1.3): one inline table per pinned action, keyed
//! `owner/repo@version`, holding the commit and how it was found.

use vstd::prelude::*;
use crate::assoc::{MapKey, map_of, distinct_keys, lemma_map_of, assoc_set, assoc_get};
use crate::identity::{
    ActionId, Version, CommitSha, RefType, LockKey, key_text, spec_parse_key, spec_base_repo,
    base_repo_of, copy_string, ref_type_name, ref_type_to_str,
};
use crate::order::{Keyed, sort_by_key, sorted_by_key};
use crate::text::chars_of;
use vstd::string::StringExecFns;

verus! {

broadcast use vstd::seq_lib::group_to_multiset_ensures;

/// File name of the lock file.
pub const LOCK_FILE_NAME: &'static str = "gx.lock";

/// Format version written to new lock files.
pub const LOCK_FILE_VERSION: &'static str = "1.3";

impl MapKey for LockKey {
    type KV = (Seq<char>, Seq<char>);

    open spec fn kview(&self) -> (Seq<char>, Seq<char>) {
        (self.id@, self.version@)
    }

    fn same_key(&self, other: &Self) -> (r: bool) {
        self.id.0 == other.id.0 && self.version.0 == other.version.0
    }
}

/// The characters of an optional string.
pub open spec fn opt_view(o: Option<String>) -> Option<Seq<char>> {
    match o {
        Some(s) => Some(s@),
        None => None,
    }
}

/// The text of `o`, or `d` when absent.
pub open spec fn text_or(o: Option<Seq<char>>, d: Seq<char>) -> Seq<char> {
    match o {
        Some(s) => s,
        None => d,
    }
}

/// A copy of an optional string.
pub fn copy_opt(o: &Option<String>) -> (r: Option<String>)
    ensures
        opt_view(r) == opt_view(*o),
{
    match o {
        Some(s) => Some(copy_string(s)),
        None => None,
    }
}

/// What a lock entry records, as text.
pub struct EntryView {
    pub sha: Seq<char>,
    pub version: Option<Seq<char>>,
    pub specifier: Option<Seq<char>>,
    pub repository: Seq<char>,
    pub ref_type: Option<RefType>,
    pub date: Seq<char>,
}

/// One locked action: the commit it is pinned to and how that was found.
#[derive(Debug, Clone, PartialEq, Eq)]
pub struct LockEntry {
    pub sha: CommitSha,
    /// The exact version resolved (e.g. `v4.2.1`); the key's version when absent.
    pub version: Option<String>,
    /// The version specifier the manifest asked for (e.g. `^4`).
    pub specifier: Option<String>,
    pub repository: String,
    pub ref_type: Option<RefType>,
    pub date: String,
}

impl View for LockEntry {
    type V = EntryView;

    open spec fn view(&self) -> EntryView {
        EntryView {
            sha: self.sha@,
            version: opt_view(self.version),
            specifier: opt_view(self.specifier),
            repository: self.repository@,
            ref_type: self.ref_type,
            date: self.date@,
        }
    }
}

impl DeepView for LockEntry {
    type V = EntryView;

    open spec fn deep_view(&self) -> EntryView {
        self@
    }
}

impl LockEntry {
    pub fn with_version_and_specifier(
        sha: CommitSha,
        version: Option<String>,
        specifier: Option<String>,
        repository: String,
        ref_type: Option<RefType>,
        date: String,
    ) -> (r: Self)
        ensures
            r.sha == sha,
            r.version == version,
            r.specifier == specifier,
            r.repository == repository,
            r.ref_type == ref_type,
            r.date == date,
    {
        LockEntry { sha, version, specifier, repository, ref_type, date }
    }

    /// An entry recording the same text.
    pub fn copy(&self) -> (r: Self)
        ensures
            r@ == self@,
    {
        LockEntry {
            sha: CommitSha(copy_string(&self.sha.0)),
            version: copy_opt(&self.version),
            specifier: copy_opt(&self.specifier),
            repository: copy_string(&self.repository),
            ref_type: self.ref_type,
            date: copy_string(&self.date),
        }
    }
}

/// An action resolved to a commit, ready to be locked.
#[derive(Debug, Clone, PartialEq, Eq)]
pub struct ResolvedAction {
    pub id: ActionId,
    pub version: Version,
    pub sha: CommitSha,
    pub repository: String,
    pub ref_type: Option<RefType>,
    pub date: String,
}

impl ResolvedAction {
    pub fn new(
        id: ActionId,
        version: Version,
        sha: CommitSha,
        repository: String,
        ref_type: Option<RefType>,
        date: String,
    ) -> (r: Self)
        ensures
            r.id == id,
            r.version == version,
            r.sha == sha,
            r.repository == repository,
            r.ref_type == ref_type,
            r.date == date,
    {
        ResolvedAction { id, version, sha, repository, ref_type, date }
    }
}

/// The entry a resolution is locked as: no recorded version or specifier of its own.
pub open spec fn resolved_entry(a: ResolvedAction) -> EntryView {
    EntryView {
        sha: a.sha@,
        version: None,
        specifier: None,
        repository: a.repository@,
        ref_type: a.ref_type,
        date: a.date@,
    }
}

/// The set of pinned actions.
#[derive(Debug, Clone)]
pub struct Lock {
    entries: Vec<(LockKey, LockEntry)>,
}

impl View for Lock {
    type V = Map<(Seq<char>, Seq<char>), EntryView>;

    closed spec fn view(&self) -> Map<(Seq<char>, Seq<char>), EntryView> {
        map_of(self.entries@)
    }
}

impl Lock {
    /// No key occurs twice.
    pub closed spec fn wf(&self) -> bool {
        distinct_keys(self.entries@)
    }

    /// The entries, in the order they were first set.
    pub closed spec fn pairs(&self) -> Seq<(LockKey, LockEntry)> {
        self.entries@
    }

    /// The pairs hold exactly the lock's map, once per key.
    pub proof fn lemma_pairs(&self)
        requires
            self.wf(),
        ensures
            distinct_keys(self.pairs()),
            map_of(self.pairs()) == self@,
    {
    }

    /// A lock holding `actions`; of two pairs with one key the later wins.
    pub fn new(actions: Vec<(LockKey, LockEntry)>) -> (r: Lock)
        ensures
            r.wf(),
            r@ == map_of(actions@),
    {
        let ghost orig = actions@;
        let mut rest = actions;
        let mut entries: Vec<(LockKey, LockEntry)> = Vec::new();
        let ghost mut taken: int = 0;
        assert(orig.take(0) =~= Seq::<(LockKey, LockEntry)>::empty());
        while rest.len() > 0
            invariant
                0 <= taken <= orig.len(),
                rest@ == orig.skip(taken),
                distinct_keys(entries@),
                map_of(entries@) == map_of(orig.take(taken)),
            decreases rest.len(),
        {
            let (k, e) = rest.remove(0);
            proof {
                assert(orig[taken] == (k, e));
                assert(orig.take(taken + 1).drop_last() =~= orig.take(taken));
                taken = taken + 1;
                assert(rest@ =~= orig.skip(taken));
            }
            assoc_set(&mut entries, k, e);
        }
        assert(orig.take(taken) =~= orig);
        Lock { entries }
    }

    pub fn is_empty(&self) -> (r: bool)
        requires
            self.wf(),
        ensures
            r == (self@ =~= Map::empty()),
    {
        proof {
            lemma_map_of(self.entries@);
            if self.entries@.len() > 0 {
                assert(self@.contains_key(self.entries@[0].0.kview()));
            }
        }
        self.entries.len() == 0
    }

    /// Lock `action` at its id and version, replacing any entry there.
    pub fn set(&mut self, action: &ResolvedAction)
        requires
            old(self).wf(),
        ensures
            final(self).wf(),
            final(self)@ == old(self)@.insert((action.id@, action.version@), resolved_entry(*action)),
    {
        let key = LockKey { id: action.id.copy(), version: action.version.copy() };
        let entry = LockEntry {
            sha: CommitSha(copy_string(&action.sha.0)),
            version: None,
            specifier: None,
            repository: copy_string(&action.repository),
            ref_type: action.ref_type,
            date: copy_string(&action.date),
        };
        assoc_set(&mut self.entries, key, entry);
    }

    /// Lock `entry` at `key`, replacing any entry there.
    pub fn insert(&mut self, key: LockKey, entry: LockEntry)
        requires
            old(self).wf(),
        ensures
            final(self).wf(),
            final(self)@ == old(self)@.insert(key.kview(), entry@),
    {
        assoc_set(&mut self.entries, key, entry);
    }

    pub fn get(&self, key: &LockKey) -> (r: Option<&LockEntry>)
        requires
            self.wf(),
        ensures
            r is Some <==> self@.contains_key(key.kview()),
            r matches Some(e) ==> e@ == self@[key.kview()],
    {
        assoc_get(&self.entries, key)
    }

    pub fn has(&self, key: &LockKey) -> (r: bool)
        requires
            self.wf(),
        ensures
            r == self@.contains_key(key.kview()),
    {
        assoc_get(&self.entries, key).is_some()
    }

    /// The entries, by value, in the order they were first set.
    pub fn into_pairs(self) -> (r: Vec<(LockKey, LockEntry)>)
        ensures
            r@ == self.pairs(),
    {
        self.entries
    }
}

impl Default for Lock {
    fn default() -> (r: Lock)
        ensures
            r.wf(),
            r@ == Map::<(Seq<char>, Seq<char>), EntryView>::empty(),
    {
        Lock { entries: Vec::new() }
    }
}

/// A change to the recorded version and specifier of an entry; `None` leaves a field as it is.
#[derive(Debug, Clone, PartialEq, Eq, Default)]
pub struct LockEntryPatch {
    pub version: Option<Option<String>>,
    pub specifier: Option<Option<String>>,
}

/// What an operation changes in the lock file.
#[derive(Debug, Clone, Default)]
pub struct LockDiff {
    pub added: Vec<(LockKey, LockEntry)>,
    pub removed: Vec<LockKey>,
    pub updated: Vec<(LockKey, LockEntryPatch)>,
}

impl LockDiff {
    pub fn is_empty(&self) -> (r: bool)
        ensures
            r == (self.added@.len() == 0 && self.removed@.len() == 0 && self.updated@.len() == 0),
    {
        self.added.len() == 0 && self.removed.len() == 0 && self.updated.len() == 0
    }
}

/// One action as the lock file stores it.
#[derive(Debug, Clone, PartialEq, Eq)]
pub struct ActionEntryData {
    pub sha: String,
    pub version: Option<String>,
    pub specifier: Option<String>,
    pub repository: String,
    pub ref_type: String,
    pub date: String,
}

/// A lock file as read: its version and its `key = entry` pairs.
#[derive(Debug, Clone, PartialEq, Eq)]
pub struct LockData {
    pub version: String,
    pub actions: Vec<(String, ActionEntryData)>,
}

impl Default for LockData {
    fn default() -> (r: LockData)
        ensures
            r.version@ == LOCK_FILE_VERSION@,
            r.actions@.len() == 0,
    {
        LockData { version: String::from_str(LOCK_FILE_VERSION), actions: Vec::new() }
    }
}

/// A lock file of format 1.0: each key maps to a bare commit SHA.
#[derive(Debug, Clone, PartialEq, Eq, Default)]
pub struct LockDataV1 {
    pub actions: Vec<(String, String)>,
}

/// The repository a migrated key is given: the base repository of its action,
/// or nothing when the key does not parse.
pub open spec fn repository_for_key(key: Seq<char>) -> Seq<char> {
    match spec_parse_key(key) {
        Some(k) => spec_base_repo(k.0),
        None => Seq::empty(),
    }
}

/// Upgrade a 1.0 lock: every SHA keeps its key, with no version, specifier,
/// ref type or date, and the repository its key names.
pub fn migrate_v1(data: LockDataV1) -> (r: LockData)
    ensures
        r.version@ == LOCK_FILE_VERSION@,
        r.actions@.len() == data.actions@.len(),
        forall|i: int|
            0 <= i < r.actions@.len() ==> {
                let (k, e) = #[trigger] r.actions@[i];
                &&& k@ == data.actions@[i].0@
                &&& e.sha@ == data.actions@[i].1@
                &&& e.version is None
                &&& e.specifier is None
                &&& e.repository@ == repository_for_key(k@)
                &&& e.ref_type@ == Seq::<char>::empty()
                &&& e.date@ == Seq::<char>::empty()
            },
{
    let mut actions: Vec<(String, ActionEntryData)> = Vec::new();
    let mut i: usize = 0;
    while i < data.actions.len()
        invariant
            i <= data.actions@.len(),
            actions@.len() == i,
            forall|j: int|
                0 <= j < i ==> {
                    let (k, e) = #[trigger] actions@[j];
                    &&& k@ == data.actions@[j].0@
                    &&& e.sha@ == data.actions@[j].1@
                    &&& e.version is None
                    &&& e.specifier is None
                    &&& e.repository@ == repository_for_key(k@)
                    &&& e.ref_type@ == Seq::<char>::empty()
                    &&& e.date@ == Seq::<char>::empty()
                },
        decreases data.actions@.len() - i,
    {
        let key = &data.actions[i].0;
        let repository = match LockKey::parse(key.as_str()) {
            Some(k) => base_repo_of(k.id.as_str()),
            None => String::new(),
        };
        let entry = ActionEntryData {
            sha: copy_string(&data.actions[i].1),
            version: None,
            specifier: None,
            repository,
            ref_type: String::new(),
            date: String::new(),
        };
        actions.push((copy_string(key), entry));
        i = i + 1;
    }
    LockData { version: String::from_str(LOCK_FILE_VERSION), actions }
}

/// The entry a stored action denotes; an unknown ref type name gives none.
pub open spec fn entry_of_data(d: ActionEntryData) -> EntryView {
    EntryView {
        sha: d.sha@,
        version: opt_view(d.version),
        specifier: opt_view(d.specifier),
        repository: d.repository@,
        ref_type: RefType::spec_parse(d.ref_type@),
        date: d.date@,
    }
}

/// The lock that stored pairs denote: pairs whose key does not parse are
/// skipped; of two pairs with one key the later wins.
pub open spec fn data_map(s: Seq<(String, ActionEntryData)>) -> Map<(Seq<char>, Seq<char>), EntryView>
    decreases s.len(),
{
    if s.len() == 0 {
        Map::empty()
    } else {
        let m = data_map(s.drop_last());
        match spec_parse_key(s.last().0@) {
            Some(k) => m.insert(k, entry_of_data(s.last().1)),
            None => m,
        }
    }
}

/// The lock that lock-file data denotes.
pub fn lock_from_data(data: LockData) -> (r: Lock)
    ensures
        r.wf(),
        r@ == data_map(data.actions@),
{
    let ghost orig = data.actions@;
    let mut rest = data.actions;
    let mut lock = Lock::default();
    let ghost mut taken: int = 0;
    while rest.len() > 0
        invariant
            0 <= taken <= orig.len(),
            rest@ == orig.skip(taken),
            lock.wf(),
            lock@ == data_map(orig.take(taken)),
        decreases rest.len(),
    {
        let (k, d) = rest.remove(0);
        proof {
            assert(orig[taken] == (k, d));
            assert(orig.take(taken + 1).drop_last() =~= orig.take(taken));
            taken = taken + 1;
            assert(rest@ =~= orig.skip(taken));
        }
        match LockKey::parse(k.as_str()) {
            Some(key) => {
                let ref_type = RefType::parse(d.ref_type.as_str());
                let entry = LockEntry {
                    sha: CommitSha(d.sha),
                    version: d.version,
                    specifier: d.specifier,
                    repository: d.repository,
                    ref_type,
                    date: d.date,
                };
                lock.insert(key, entry);
            },
            None => {},
        }
    }
    assert(orig.take(taken) =~= orig);
    lock
}

/// Whether stored data needs writing back in the current format.
pub fn needs_rewrite(data: &LockData) -> (r: bool)
    ensures
        r == (data.version@ != LOCK_FILE_VERSION@),
{
    !(data.version == String::from_str(LOCK_FILE_VERSION))
}

/// What a lock file read gives: the data to load and whether to write it back.
/// The current format is taken as it is (written back if its version differs);
/// failing that, a 1.0 file is migrated and written back; failing both, none.
pub fn choose_lock_data(current: Option<LockData>, legacy: Option<LockDataV1>) -> (r: Option<(LockData, bool)>)
    ensures
        current matches Some(d) ==> r == Some((d, d.version@ != LOCK_FILE_VERSION@)),
        current is None && legacy is Some ==> (r matches Some((d, w)) && w && d.version@ == LOCK_FILE_VERSION@),
        current is None && legacy is None ==> r is None,
{
    match current {
        Some(d) => {
            let w = needs_rewrite(&d);
            Some((d, w))
        },
        None => match legacy {
            Some(v1) => Some((migrate_v1(v1), true)),
            None => None,
        },
    }
}

impl Keyed for (LockKey, LockEntry) {
    open spec fn sort_key(&self) -> Seq<char> {
        key_text(self.0.id@, self.0.version@)
    }

    fn key_chars(&self) -> (r: Vec<char>) {
        let s = self.0.to_key_string();
        chars_of(s.as_str())
    }
}

/// The line a lock file holds for one entry: an inline table with all six fields.
pub open spec fn entry_line(k: LockKey, e: LockEntry) -> Seq<char> {
    "\""@ + k.id@ + "@"@ + k.version@ + "\" = { sha = \""@ + e.sha@ + "\", version = \""@
        + text_or(opt_view(e.version), k.version@) + "\", specifier = \""@ + text_or(
        opt_view(e.specifier),
        ""@,
    ) + "\", repository = \""@ + e.repository@ + "\", ref_type = \""@ + ref_type_name(e.ref_type)
        + "\", date = \""@ + e.date@ + "\" }\n"@
}

/// The header every lock file starts with.
pub open spec fn lock_header() -> Seq<char> {
    "version = \"1.3\"\n\n[actions]\n"@
}

/// A lock file holding `es`, one line each, in order.
pub open spec fn lock_text(es: Seq<(LockKey, LockEntry)>) -> Seq<char>
    decreases es.len(),
{
    if es.len() == 0 {
        lock_header()
    } else {
        lock_text(es.drop_last()) + entry_line(es.last().0, es.last().1)
    }
}

fn render_line(k: &LockKey, e: &LockEntry) -> (r: String)
    ensures
        r@ == entry_line(*k, *e),
{
    let mut line = String::from_str("\"");
    line.append(k.id.as_str());
    line.append("@");
    line.append(k.version.as_str());
    line.append("\" = { sha = \"");
    line.append(e.sha.as_str());
    line.append("\", version = \"");
    match &e.version {
        Some(v) => line.append(v.as_str()),
        None => line.append(k.version.as_str()),
    }
    line.append("\", specifier = \"");
    match &e.specifier {
        Some(s) => line.append(s.as_str()),
        None => line.append(""),
    }
    line.append("\", repository = \"");
    line.append(e.repository.as_str());
    line.append("\", ref_type = \"");
    line.append(ref_type_to_str(e.ref_type));
    line.append("\", date = \"");
    line.append(e.date.as_str());
    line.append("\" }\n");
    line
}

/// A lock file holding `entries`, sorted by their `id@version` text.
pub fn render_lock(entries: Vec<(LockKey, LockEntry)>) -> (r: String)
    ensures
        exists|es: Seq<(LockKey, LockEntry)>|
            es.to_multiset() == entries@.to_multiset() && sorted_by_key(es, false) && r@
                == lock_text(es),
{
    let sorted = sort_by_key(entries, false);
    let mut out = String::from_str("version = \"1.3\"\n\n[actions]\n");
    let mut i: usize = 0;
    assert(sorted@.take(0) =~= Seq::<(LockKey, LockEntry)>::empty());
    while i < sorted.len()
        invariant
            i <= sorted@.len(),
            out@ == lock_text(sorted@.take(i as int)),
        decreases sorted@.len() - i,
    {
        let line = render_line(&sorted[i].0, &sorted[i].1);
        out.append(line.as_str());
        proof {
            assert(sorted@.take(i + 1).drop_last() =~= sorted@.take(i as int));
            assert(sorted@.take(i + 1).last() == sorted@[i as int]);
        }
        i = i + 1;
    }
    assert(sorted@.take(sorted@.len() as int) =~= sorted@);
    out
}

/// The lock file text for `lock`: entries sorted by key, one inline table each.
pub fn serialize_lock(lock: Lock) -> (r: String)
    ensures
        exists|es: Seq<(LockKey, LockEntry)>|
            es.to_multiset() == lock.pairs().to_multiset() && sorted_by_key(es, false) && r@
                == lock_text(es),
{
    render_lock(lock.into_pairs())
}

/// The text of a new lock file holding what `diff` adds.
pub fn create_lock_text(diff: LockDiff) -> (r: String)
    ensures
        exists|es: Seq<(LockKey, LockEntry)>|
            es.to_multiset() == diff.added@.to_multiset() && sorted_by_key(es, false) && r@
                == lock_text(es),
{
    render_lock(diff.added)
}

/// A lock file kept on disk.
pub struct FileLock {
    path: String,
}

impl FileLock {
    /// Where the lock file is kept.
    pub closed spec fn location(&self) -> Seq<char> {
        self.path@
    }

    pub fn new(path: &str) -> (r: Self)
        ensures
            r.location() == path@,
    {
        FileLock { path: String::from_str(path) }
    }

    pub fn path(&self) -> (r: &str)
        ensures
            r@ == self.location(),
    {
        self.path.as_str()
    }
}

} // verus!
