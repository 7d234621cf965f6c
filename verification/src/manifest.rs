//! The manifest (`gx.toml`): the version each action should be at, and
//! overrides of that version for one workflow, job or step.

use vstd::prelude::*;
use crate::assoc::{
    MapKey, map_of, distinct_keys, lemma_map_of, lemma_map_of_update, lemma_map_of_same_views,
    lemma_permutation_map, find_key, assoc_set, assoc_get,
};
use crate::identity::{ActionId, Version, copy_string};
use crate::lock::{opt_view, copy_opt};
use crate::order::{Keyed, sort_by_key, sorted_by_key};
use crate::text::{chars_of, decimal, push_decimal};
use vstd::string::StringExecFns;

verus! {

broadcast use vstd::seq_lib::group_to_multiset_ensures;

/// File name of the manifest.
pub const MANIFEST_FILE_NAME: &'static str = "gx.toml";

impl MapKey for ActionId {
    type KV = Seq<char>;

    open spec fn kview(&self) -> Seq<char> {
        self@
    }

    fn same_key(&self, other: &Self) -> (r: bool) {
        self.0 == other.0
    }
}

impl MapKey for String {
    type KV = Seq<char>;

    open spec fn kview(&self) -> Seq<char> {
        self@
    }

    fn same_key(&self, other: &Self) -> (r: bool) {
        *self == *other
    }
}

impl Keyed for (String, String) {
    open spec fn sort_key(&self) -> Seq<char> {
        self.0@
    }

    fn key_chars(&self) -> (r: Vec<char>) {
        chars_of(self.0.as_str())
    }
}

/// An override as text: workflow, job, step, version.
pub type OverrideView = (Seq<char>, Option<Seq<char>>, Option<usize>, Seq<char>);

/// A version of an action that holds in one workflow, or one job of it, or one step of that job.
#[derive(Debug, Clone, PartialEq, Eq)]
pub struct ActionOverride {
    pub workflow: String,
    pub job: Option<String>,
    pub step: Option<usize>,
    pub version: Version,
}

impl DeepView for ActionOverride {
    type V = OverrideView;

    open spec fn deep_view(&self) -> OverrideView {
        (self.workflow@, opt_view(self.job), self.step, self.version@)
    }
}

impl ActionOverride {
    /// An override saying the same.
    pub fn copy(&self) -> (r: Self)
        ensures
            r.deep_view() == self.deep_view(),
    {
        ActionOverride {
            workflow: copy_string(&self.workflow),
            job: copy_opt(&self.job),
            step: self.step,
            version: self.version.copy(),
        }
    }
}

/// A copy of a list of overrides.
pub fn copy_overrides(v: &Vec<ActionOverride>) -> (r: Vec<ActionOverride>)
    ensures
        r.deep_view() == v.deep_view(),
{
    let mut out: Vec<ActionOverride> = Vec::new();
    let mut i: usize = 0;
    while i < v.len()
        invariant
            i <= v@.len(),
            out@.len() == i,
            forall|j: int| 0 <= j < i ==> (#[trigger] out@[j]).deep_view() == v@[j].deep_view(),
        decreases v@.len() - i,
    {
        out.push(v[i].copy());
        i = i + 1;
    }
    assert(out.deep_view() =~= v.deep_view());
    out
}

/// The versions the project's actions should be at, with their overrides.
#[derive(Debug, Clone)]
pub struct Manifest {
    versions: Vec<(ActionId, Version)>,
    overrides: Vec<(ActionId, Vec<ActionOverride>)>,
}

impl Manifest {
    /// No action occurs twice in either table.
    pub closed spec fn wf(&self) -> bool {
        distinct_keys(self.versions@) && distinct_keys(self.overrides@)
    }

    /// Action to its global version.
    pub closed spec fn versions_map(&self) -> Map<Seq<char>, Seq<char>> {
        map_of(self.versions@)
    }

    /// Action to its overrides, in the order they were added.
    pub closed spec fn overrides_map(&self) -> Map<Seq<char>, Seq<OverrideView>> {
        map_of(self.overrides@)
    }

    pub fn empty() -> (r: Self)
        ensures
            r.wf(),
            r.versions_map() == Map::<Seq<char>, Seq<char>>::empty(),
            r.overrides_map() == Map::<Seq<char>, Seq<OverrideView>>::empty(),
    {
        Manifest { versions: Vec::new(), overrides: Vec::new() }
    }

    /// Set the global version of `id`.
    pub fn set(&mut self, id: ActionId, version: Version)
        requires
            old(self).wf(),
        ensures
            final(self).wf(),
            final(self).versions_map() == old(self).versions_map().insert(id@, version@),
            final(self).overrides_map() == old(self).overrides_map(),
    {
        assoc_set(&mut self.versions, id, version);
    }

    /// The global version of `id`.
    pub fn get(&self, id: &ActionId) -> (r: Option<&Version>)
        requires
            self.wf(),
        ensures
            r is Some <==> self.versions_map().contains_key(id@),
            r matches Some(v) ==> v@ == self.versions_map()[id@],
    {
        assoc_get(&self.versions, id)
    }

    /// Whether `id` has a global version.
    pub fn has(&self, id: &ActionId) -> (r: bool)
        requires
            self.wf(),
        ensures
            r == self.versions_map().contains_key(id@),
    {
        assoc_get(&self.versions, id).is_some()
    }

    /// Add an override for `id`, after those it already has.
    pub fn add_override(&mut self, id: ActionId, ovr: ActionOverride)
        requires
            old(self).wf(),
        ensures
            final(self).wf(),
            final(self).versions_map() == old(self).versions_map(),
            final(self).overrides_map() == old(self).overrides_map().insert(
                id@,
                if old(self).overrides_map().contains_key(id@) {
                    old(self).overrides_map()[id@].push(ovr.deep_view())
                } else {
                    seq![ovr.deep_view()]
                },
            ),
    {
        proof {
            lemma_map_of(self.overrides@);
        }
        match find_key(&self.overrides, &id) {
            Some(i) => {
                let ghost s = self.overrides@;
                let (k, mut list) = self.overrides.remove(i);
                let ghost old_list = list.deep_view();
                let ghost ov = ovr.deep_view();
                list.push(ovr);
                assert(list.deep_view() =~= old_list.push(ov));
                self.overrides.insert(i, (k, list));
                proof {
                    assert(self.overrides@ =~= s.update(i as int, self.overrides@[i as int]));
                    lemma_map_of_update(s, i as int, self.overrides@[i as int]);
                }
            },
            None => {
                let ghost s = self.overrides@;
                let mut list: Vec<ActionOverride> = Vec::new();
                list.push(ovr);
                assert(list.deep_view() =~= seq![ovr.deep_view()]);
                assoc_set(&mut self.overrides, id, list);
            },
        }
    }

    /// The overrides of `id`, in the order they were added; none when it has none.
    pub fn overrides_for(&self, id: &ActionId) -> (r: Vec<ActionOverride>)
        requires
            self.wf(),
        ensures
            self.overrides_map().contains_key(id@) ==> r.deep_view() == self.overrides_map()[id@],
            !self.overrides_map().contains_key(id@) ==> r@.len() == 0,
    {
        match assoc_get(&self.overrides, id) {
            Some(list) => copy_overrides(list),
            None => Vec::new(),
        }
    }

    /// The global versions, each action once.
    pub fn specs(&self) -> (r: &Vec<(ActionId, Version)>)
        requires
            self.wf(),
        ensures
            distinct_keys(r@),
            map_of(r@) == self.versions_map(),
    {
        &self.versions
    }

    /// The override lists, each action once.
    pub fn all_overrides(&self) -> (r: &Vec<(ActionId, Vec<ActionOverride>)>)
        requires
            self.wf(),
        ensures
            distinct_keys(r@),
            map_of(r@) == self.overrides_map(),
    {
        &self.overrides
    }
}

impl Default for Manifest {
    fn default() -> (r: Manifest)
        ensures
            r.wf(),
            r.versions_map() == Map::<Seq<char>, Seq<char>>::empty(),
            r.overrides_map() == Map::<Seq<char>, Seq<OverrideView>>::empty(),
    {
        Manifest::empty()
    }
}

/// The `[gx]` table.
#[derive(Debug, Clone, PartialEq, Eq, Default)]
pub struct GxSection {
    pub min_version: String,
}

/// One override as the manifest file writes it.
#[derive(Debug, Clone, PartialEq, Eq, Default)]
pub struct TomlOverride {
    pub workflow: String,
    pub job: Option<String>,
    pub step: Option<usize>,
    pub version: String,
}

impl DeepView for TomlOverride {
    type V = OverrideView;

    open spec fn deep_view(&self) -> OverrideView {
        (self.workflow@, opt_view(self.job), self.step, self.version@)
    }
}

/// The `[actions]` table: `id = version` pairs, and the override lists.
#[derive(Debug, Clone, PartialEq, Eq, Default)]
pub struct TomlActions {
    pub versions: Vec<(String, String)>,
    pub overrides: Vec<(String, Vec<TomlOverride>)>,
}

/// The `[lint]` table: rule name to its setting, as written.
#[derive(Debug, Clone, PartialEq, Eq, Default)]
pub struct LintData {
    pub rules: Vec<(String, String)>,
}

/// A manifest file as read.
#[derive(Debug, Clone, PartialEq, Eq, Default)]
pub struct ManifestData {
    pub gx: Option<GxSection>,
    pub actions: TomlActions,
    pub lint: LintData,
}

/// Why a manifest could not be loaded, checked or saved.
#[derive(Debug, Clone, PartialEq, Eq)]
pub enum ManifestError {
    Read { path: String, cause: String },
    Parse { path: String, cause: String },
    Write { path: String, cause: String },
    Serialize(String),
    Validation(String),
}

/// The message an override list without a global version is refused with.
pub open spec fn no_global_message(action: Seq<char>) -> Seq<char> {
    "\""@ + action + "\" has overrides but no global version — run 'gx tidy' to fix"@
}

/// The message an override with a step but no job is refused with.
pub open spec fn step_without_job_message(action: Seq<char>, workflow: Seq<char>) -> Seq<char> {
    "override for \""@ + action + "\" in \""@ + workflow + "\" has a step but no job"@
}

/// The message a repeated override scope is refused with.
pub open spec fn duplicate_scope_message(action: Seq<char>, workflow: Seq<char>) -> Seq<char> {
    "duplicate override scope for \""@ + action + "\" in \""@ + workflow + "\""@
}

/// Where an override applies: workflow, job, step.
pub open spec fn scope_of(o: TomlOverride) -> (Seq<char>, Option<Seq<char>>, Option<usize>) {
    (o.workflow@, opt_view(o.job), o.step)
}

/// What is wrong with the `i`-th override of `action`, given those before it.
pub open spec fn override_error(action: Seq<char>, os: Seq<TomlOverride>, i: int) -> Option<Seq<char>> {
    if os[i].step is Some && os[i].job is None {
        Some(step_without_job_message(action, os[i].workflow@))
    } else if exists|j: int| 0 <= j < i && scope_of(#[trigger] os[j]) == scope_of(os[i]) {
        Some(duplicate_scope_message(action, os[i].workflow@))
    } else {
        None
    }
}

/// The first error among the first `n` overrides of `action`.
pub open spec fn overrides_error(action: Seq<char>, os: Seq<TomlOverride>, n: int) -> Option<Seq<char>>
    decreases n,
{
    if n <= 0 {
        None
    } else {
        match overrides_error(action, os, n - 1) {
            Some(e) => Some(e),
            None => override_error(action, os, n - 1),
        }
    }
}

/// The first error among the first `n` override lists.
pub open spec fn manifest_error(
    versions: Seq<(String, String)>,
    lists: Seq<(String, Vec<TomlOverride>)>,
    n: int,
) -> Option<Seq<char>>
    decreases n,
{
    if n <= 0 {
        None
    } else {
        match manifest_error(versions, lists, n - 1) {
            Some(e) => Some(e),
            None => {
                let (a, os) = lists[n - 1];
                if !map_of(versions).contains_key(a@) {
                    Some(no_global_message(a@))
                } else {
                    overrides_error(a@, os@, os@.len() as int)
                }
            },
        }
    }
}

fn opt_text_eq(a: &Option<String>, b: &Option<String>) -> (r: bool)
    ensures
        r == (opt_view(*a) == opt_view(*b)),
{
    match (a, b) {
        (Some(x), Some(y)) => *x == *y,
        (None, None) => true,
        _ => false,
    }
}

fn same_scope(a: &TomlOverride, b: &TomlOverride) -> (r: bool)
    ensures
        r == (scope_of(*a) == scope_of(*b)),
{
    a.workflow == b.workflow && opt_text_eq(&a.job, &b.job) && a.step == b.step
}

/// Convert the overrides of `action`, or give the first thing wrong with them.
fn convert_overrides(action: &String, os: &Vec<TomlOverride>) -> (r: Result<Vec<ActionOverride>, String>)
    ensures
        overrides_error(action@, os@, os@.len() as int) matches Some(e) ==> (r matches Err(m) && m@ == e),
        overrides_error(action@, os@, os@.len() as int) is None ==> (r matches Ok(v) && v.deep_view()
            == os.deep_view()),
{
    let mut out: Vec<ActionOverride> = Vec::new();
    let mut i: usize = 0;
    while i < os.len()
        invariant
            i <= os@.len(),
            overrides_error(action@, os@, i as int) is None,
            out@.len() == i,
            forall|j: int| 0 <= j < i ==> (#[trigger] out@[j]).deep_view() == os@[j].deep_view(),
        decreases os@.len() - i,
    {
        let o = &os[i];
        if o.step.is_some() && o.job.is_none() {
            let mut m = String::from_str("override for \"");
            m.append(action.as_str());
            m.append("\" in \"");
            m.append(o.workflow.as_str());
            m.append("\" has a step but no job");
            proof {
                lemma_overrides_error_stays(action@, os@, i as int + 1);
            }
            return Err(m);
        }
        let mut j: usize = 0;
        while j < i
            invariant
                j <= i,
                i < os@.len(),
                overrides_error(action@, os@, i as int) is None,
                !(os@[i as int].step is Some && os@[i as int].job is None),
                forall|k: int| 0 <= k < j ==> scope_of(#[trigger] os@[k]) != scope_of(os@[i as int]),
            decreases i - j,
        {
            if same_scope(&os[j], &os[i]) {
                let mut m = String::from_str("duplicate override scope for \"");
                m.append(action.as_str());
                m.append("\" in \"");
                m.append(os[i].workflow.as_str());
                m.append("\"");
                proof {
                    assert(scope_of(os@[j as int]) == scope_of(os@[i as int]));
                    lemma_overrides_error_stays(action@, os@, i as int + 1);
                }
                return Err(m);
            }
            j = j + 1;
        }
        out.push(ActionOverride {
            workflow: copy_string(&o.workflow),
            job: copy_opt(&o.job),
            step: o.step,
            version: Version(copy_string(&o.version)),
        });
        i = i + 1;
    }
    assert(out.deep_view() =~= os.deep_view());
    Ok(out)
}

/// Once an error is found among the first `n` overrides, it is the error of all of them.
proof fn lemma_overrides_error_stays(action: Seq<char>, os: Seq<TomlOverride>, n: int)
    requires
        0 <= n <= os.len(),
        overrides_error(action, os, n) is Some,
    ensures
        overrides_error(action, os, os.len() as int) == overrides_error(action, os, n),
    decreases os.len() - n,
{
    if n < os.len() {
        lemma_overrides_error_stays(action, os, n + 1);
    }
}

/// Once an error is found among the first `n` override lists, it is the error of all of them.
proof fn lemma_manifest_error_stays(
    versions: Seq<(String, String)>,
    lists: Seq<(String, Vec<TomlOverride>)>,
    n: int,
)
    requires
        0 <= n <= lists.len(),
        manifest_error(versions, lists, n) is Some,
    ensures
        manifest_error(versions, lists, lists.len() as int) == manifest_error(versions, lists, n),
    decreases lists.len() - n,
{
    if n < lists.len() {
        lemma_manifest_error_stays(versions, lists, n + 1);
    }
}

/// The manifest that manifest-file data denotes, or the first reason it is
/// refused: an override list for an action without a global version, an
/// override with a step but no job, or an override scope given twice.
pub fn manifest_from_data(data: ManifestData) -> (r: Result<Manifest, ManifestError>)
    ensures
        manifest_error(data.actions.versions@, data.actions.overrides@, data.actions.overrides@.len() as int)
            matches Some(e) ==> (r matches Err(ManifestError::Validation(m)) && m@ == e),
        manifest_error(data.actions.versions@, data.actions.overrides@, data.actions.overrides@.len() as int)
            is None ==> (r matches Ok(mf) && mf.wf() && mf.versions_map() == map_of(data.actions.versions@)
            && mf.overrides_map() == map_of(data.actions.overrides@)),
{
    let vs = &data.actions.versions;
    let lists = &data.actions.overrides;
    let mut versions: Vec<(ActionId, Version)> = Vec::new();
    let mut i: usize = 0;
    while i < vs.len()
        invariant
            i <= vs@.len(),
            distinct_keys(versions@),
            map_of(versions@) == map_of(vs@.take(i as int)),
        decreases vs@.len() - i,
    {
        proof {
            assert(vs@.take(i + 1).drop_last() =~= vs@.take(i as int));
        }
        assoc_set(&mut versions, ActionId(copy_string(&vs[i].0)), Version(copy_string(&vs[i].1)));
        i = i + 1;
    }
    assert(vs@.take(vs@.len() as int) =~= vs@);
    let mut overrides: Vec<(ActionId, Vec<ActionOverride>)> = Vec::new();
    let mut i: usize = 0;
    while i < lists.len()
        invariant
            i <= lists@.len(),
            vs@ == data.actions.versions@,
            lists@ == data.actions.overrides@,
            distinct_keys(versions@),
            map_of(versions@) == map_of(vs@),
            manifest_error(vs@, lists@, i as int) is None,
            distinct_keys(overrides@),
            map_of(overrides@) == map_of(lists@.take(i as int)),
        decreases lists@.len() - i,
    {
        let action = &lists[i].0;
        let id = ActionId(copy_string(action));
        proof {
            assert(lists@.take(i + 1).drop_last() =~= lists@.take(i as int));
        }
        if assoc_get(&versions, &id).is_none() {
            let mut m = String::from_str("\"");
            m.append(action.as_str());
            m.append("\" has overrides but no global version — run 'gx tidy' to fix");
            proof {
                assert(id@ == lists@[i as int].0@);
                assert(!map_of(vs@).contains_key(lists@[i as int].0@));
                assert(manifest_error(vs@, lists@, i as int + 1) == Some(no_global_message(action@)));
                lemma_manifest_error_stays(vs@, lists@, i as int + 1);
            }
            return Err(ManifestError::Validation(m));
        }
        match convert_overrides(action, &lists[i].1) {
            Err(m) => {
                proof {
                    assert(map_of(vs@).contains_key(lists@[i as int].0@));
                    let os = lists@[i as int].1@;
                    assert(overrides_error(action@, os, os.len() as int) is Some);
                    assert(manifest_error(vs@, lists@, i as int + 1) == overrides_error(action@, os, os.len() as int));
                    lemma_manifest_error_stays(vs@, lists@, i as int + 1);
                }
                return Err(ManifestError::Validation(m));
            },
            Ok(converted) => {
                assoc_set(&mut overrides, id, converted);
            },
        }
        i = i + 1;
    }
    assert(lists@.take(lists@.len() as int) =~= lists@);
    Ok(Manifest { versions, overrides })
}

impl Keyed for (String, Vec<TomlOverride>) {
    open spec fn sort_key(&self) -> Seq<char> {
        self.0@
    }

    fn key_chars(&self) -> (r: Vec<char>) {
        chars_of(self.0.as_str())
    }
}

/// The override lists of `m` that hold at least one override.
pub open spec fn nonempty_lists(m: Map<Seq<char>, Seq<OverrideView>>) -> Map<Seq<char>, Seq<OverrideView>> {
    Map::new(|k: Seq<char>| m.contains_key(k) && m[k].len() > 0, |k: Seq<char>| m[k])
}

/// `d` writes the versions `vm` and the non-empty override lists of `om`,
/// each action once, sorted by action.
pub open spec fn data_of(
    d: ManifestData,
    vm: Map<Seq<char>, Seq<char>>,
    om: Map<Seq<char>, Seq<OverrideView>>,
) -> bool {
    &&& distinct_keys(d.actions.versions@)
    &&& map_of(d.actions.versions@) == vm
    &&& sorted_by_key(d.actions.versions@, false)
    &&& distinct_keys(d.actions.overrides@)
    &&& map_of(d.actions.overrides@) == nonempty_lists(om)
    &&& sorted_by_key(d.actions.overrides@, false)
}

/// Overrides as the manifest file writes them.
pub fn to_toml_overrides(v: &Vec<ActionOverride>) -> (r: Vec<TomlOverride>)
    ensures
        r.deep_view() == v.deep_view(),
{
    let mut out: Vec<TomlOverride> = Vec::new();
    let mut i: usize = 0;
    while i < v.len()
        invariant
            i <= v@.len(),
            out@.len() == i,
            forall|j: int| 0 <= j < i ==> (#[trigger] out@[j]).deep_view() == v@[j].deep_view(),
        decreases v@.len() - i,
    {
        let o = &v[i];
        out.push(TomlOverride {
            workflow: copy_string(&o.workflow),
            job: copy_opt(&o.job),
            step: o.step,
            version: copy_string(&o.version.0),
        });
        i = i + 1;
    }
    assert(out.deep_view() =~= v.deep_view());
    out
}

/// The data a manifest file is written from: versions and non-empty
/// override lists, sorted by action; no `[gx]` table and no lint rules.
pub fn manifest_to_data(manifest: &Manifest) -> (r: ManifestData)
    requires
        manifest.wf(),
    ensures
        data_of(r, manifest.versions_map(), manifest.overrides_map()),
        r.gx is None,
        r.lint.rules@.len() == 0,
{
    let ghost mv = manifest.versions@;
    let mut copies: Vec<(String, String)> = Vec::new();
    let mut i: usize = 0;
    while i < manifest.versions.len()
        invariant
            i <= mv.len(),
            mv == manifest.versions@,
            copies@.len() == i,
            forall|j: int|
                0 <= j < i ==> (#[trigger] copies@[j]).0@ == mv[j].0@ && copies@[j].1@ == mv[j].1@,
        decreases mv.len() - i,
    {
        let k = copy_string(&manifest.versions[i].0.0);
        let v = copy_string(&manifest.versions[i].1.0);
        copies.push((k, v));
        i = i + 1;
    }
    proof {
        lemma_map_of_same_views(mv, copies@);
    }
    let ghost unsorted = copies@;
    let versions = sort_by_key(copies, false);
    proof {
        lemma_permutation_map(unsorted, versions@);
    }
    let ghost mo = manifest.overrides@;
    let mut lists: Vec<(String, Vec<TomlOverride>)> = Vec::new();
    let mut i: usize = 0;
    while i < manifest.overrides.len()
        invariant
            i <= mo.len(),
            mo == manifest.overrides@,
            distinct_keys(mo),
            distinct_keys(lists@),
            map_of(lists@) == nonempty_lists(map_of(mo.take(i as int))),
        decreases mo.len() - i,
    {
        let ghost pre = mo.take(i as int);
        let ghost key = mo[i as int].0@;
        proof {
            assert(mo.take(i + 1).drop_last() =~= pre);
            assert(distinct_keys(pre)) by {
                assert forall|a: int, b: int|
                    0 <= a < pre.len() && 0 <= b < pre.len() && a != b implies (#[trigger] pre[a]).0.kview()
                    != (#[trigger] pre[b]).0.kview() by {
                    assert(pre[a] == mo[a] && pre[b] == mo[b]);
                }
            }
            lemma_map_of(pre);
            if map_of(pre).contains_key(key) {
                let j = choose|j: int| 0 <= j < pre.len() && pre[j].0.kview() == key;
                assert(pre[j] == mo[j]);
                assert(mo[j].0.kview() != mo[i as int].0.kview());
            }
            lemma_map_of(lists@);
        }
        if manifest.overrides[i].1.len() > 0 {
            let k = copy_string(&manifest.overrides[i].0.0);
            let ovs = to_toml_overrides(&manifest.overrides[i].1);
            let ghost before = lists@;
            proof {
                assert forall|j: int| 0 <= j < before.len() implies (#[trigger] before[j]).0.kview() != key by {
                    assert(map_of(before).contains_key(before[j].0.kview()));
                }
            }
            lists.push((k, ovs));
            proof {
                crate::assoc::lemma_map_of_push(before, lists@.last());
                assert(lists@ =~= before.push(lists@.last()));
                assert(map_of(lists@) =~= nonempty_lists(map_of(mo.take(i + 1))));
            }
        } else {
            proof {
                assert(map_of(lists@) =~= nonempty_lists(map_of(mo.take(i + 1))));
            }
        }
        i = i + 1;
    }
    proof {
        assert(mo.take(mo.len() as int) =~= mo);
    }
    let ghost unsorted_lists = lists@;
    let overrides = sort_by_key(lists, false);
    proof {
        lemma_permutation_map(unsorted_lists, overrides@);
    }
    ManifestData {
        gx: None,
        actions: TomlActions { versions, overrides },
        lint: LintData { rules: Vec::new() },
    }
}

/// `t` followed by one `"id" = "version"` line per pair, in order.
pub open spec fn add_version_lines(t: Seq<char>, vs: Seq<(String, String)>) -> Seq<char>
    decreases vs.len(),
{
    if vs.len() == 0 {
        t
    } else {
        add_version_lines(t, vs.drop_last()) + "\""@ + vs.last().0@ + "\" = \""@ + vs.last().1@ + "\"\n"@
    }
}

/// `t` followed by `, job = "<job>"` when there is a job.
pub open spec fn with_job(t: Seq<char>, job: Option<Seq<char>>) -> Seq<char> {
    match job {
        Some(j) => t + ", job = \""@ + j + "\""@,
        None => t,
    }
}

/// `t` followed by `, step = <n>` when there is a step.
pub open spec fn with_step(t: Seq<char>, step: Option<usize>) -> Seq<char> {
    match step {
        Some(n) => t + ", step = "@ + decimal(n as nat),
        None => t,
    }
}

/// `t` followed by the inline table of one override.
pub open spec fn add_override_line(t: Seq<char>, o: TomlOverride) -> Seq<char> {
    with_step(with_job(t + "  { workflow = \""@ + o.workflow@ + "\""@, opt_view(o.job)), o.step)
        + ", version = \""@ + o.version@ + "\" },\n"@
}

/// `t` followed by one inline table line per override, in order.
pub open spec fn add_override_lines(t: Seq<char>, os: Seq<TomlOverride>) -> Seq<char>
    decreases os.len(),
{
    if os.len() == 0 {
        t
    } else {
        add_override_line(add_override_lines(t, os.drop_last()), os.last())
    }
}

/// `t` followed by the `"id" = [ ... ]` array of each override list, in order.
pub open spec fn add_override_blocks(t: Seq<char>, ls: Seq<(String, Vec<TomlOverride>)>) -> Seq<char>
    decreases ls.len(),
{
    if ls.len() == 0 {
        t
    } else {
        add_override_lines(add_override_blocks(t, ls.drop_last()) + "\""@ + ls.last().0@ + "\" = [\n"@, ls.last().1@)
            + "]\n"@
    }
}

/// The manifest file written for `d`: the `[actions]` table with one line per
/// version, then, when there are override lists, an `[actions.overrides]`
/// table with one array of inline tables per action, then a blank line.
pub open spec fn manifest_text(d: ManifestData) -> Seq<char> {
    let t = add_version_lines("[actions]\n"@, d.actions.versions@);
    let t2 = if d.actions.overrides@.len() == 0 {
        t
    } else {
        add_override_blocks(t + "\n"@ + "[actions.overrides]\n"@, d.actions.overrides@)
    };
    t2 + "\n"@
}

fn append_override_line(out: &mut String, o: &TomlOverride)
    ensures
        final(out)@ == add_override_line(old(out)@, *o),
{
    out.append("  { workflow = \"");
    out.append(o.workflow.as_str());
    out.append("\"");
    match &o.job {
        Some(job) => {
            out.append(", job = \"");
            out.append(job.as_str());
            out.append("\"");
        },
        None => {},
    }
    match o.step {
        Some(step) => {
            out.append(", step = ");
            push_decimal(out, step as u64);
        },
        None => {},
    }
    out.append(", version = \"");
    out.append(o.version.as_str());
    out.append("\" },\n");
}

/// Each action at most once in each table of `d`, in ascending order.
pub open spec fn data_in_order(d: ManifestData) -> bool {
    &&& distinct_keys(d.actions.versions@)
    &&& sorted_by_key(d.actions.versions@, false)
    &&& distinct_keys(d.actions.overrides@)
    &&& sorted_by_key(d.actions.overrides@, false)
}

/// The manifest file text for `data`: versions and override lists in
/// ascending order of action, as the tables hold them.
pub fn format_manifest_toml(data: &ManifestData) -> (r: String)
    requires
        data_in_order(*data),
    ensures
        r@ == manifest_text(*data),
{
    let vs = &data.actions.versions;
    let ls = &data.actions.overrides;
    let mut out = String::from_str("[actions]\n");
    let ghost t0 = out@;
    let mut i: usize = 0;
    while i < vs.len()
        invariant
            i <= vs@.len(),
            out@ == add_version_lines(t0, vs@.take(i as int)),
        decreases vs@.len() - i,
    {
        out.append("\"");
        out.append(vs[i].0.as_str());
        out.append("\" = \"");
        out.append(vs[i].1.as_str());
        out.append("\"\n");
        proof {
            assert(vs@.take(i + 1).drop_last() =~= vs@.take(i as int));
        }
        i = i + 1;
    }
    assert(vs@.take(vs@.len() as int) =~= vs@);
    if ls.len() > 0 {
        out.append("\n");
        out.append("[actions.overrides]\n");
        let ghost t1 = out@;
        let mut i: usize = 0;
        while i < ls.len()
            invariant
                i <= ls@.len(),
                out@ == add_override_blocks(t1, ls@.take(i as int)),
            decreases ls@.len() - i,
        {
            out.append("\"");
            out.append(ls[i].0.as_str());
            out.append("\" = [\n");
            let os = &ls[i].1;
            let ghost t2 = out@;
            let mut j: usize = 0;
            while j < os.len()
                invariant
                    j <= os@.len(),
                    out@ == add_override_lines(t2, os@.take(j as int)),
                decreases os@.len() - j,
            {
                append_override_line(&mut out, &os[j]);
                proof {
                    assert(os@.take(j + 1).drop_last() =~= os@.take(j as int));
                }
                j = j + 1;
            }
            assert(os@.take(os@.len() as int) =~= os@);
            out.append("]\n");
            proof {
                assert(ls@.take(i + 1).drop_last() =~= ls@.take(i as int));
            }
            i = i + 1;
        }
        assert(ls@.take(ls@.len() as int) =~= ls@);
    }
    out.append("\n");
    out
}

/// What an operation changes in the manifest.
#[derive(Debug, Clone, Default)]
pub struct ManifestDiff {
    pub added: Vec<(ActionId, Version)>,
    pub removed: Vec<ActionId>,
    pub updated: Vec<(ActionId, Version)>,
    pub overrides_added: Vec<(ActionId, ActionOverride)>,
    pub overrides_removed: Vec<(ActionId, Vec<ActionOverride>)>,
}

impl ManifestDiff {
    pub fn is_empty(&self) -> (r: bool)
        ensures
            r == (self.added@.len() == 0 && self.removed@.len() == 0 && self.updated@.len() == 0
                && self.overrides_added@.len() == 0 && self.overrides_removed@.len() == 0),
    {
        self.added.len() == 0 && self.removed.len() == 0 && self.updated.len() == 0
            && self.overrides_added.len() == 0 && self.overrides_removed.len() == 0
    }
}

/// The override lists that adding `s` in order gives, starting from none.
pub open spec fn added_overrides(s: Seq<(ActionId, ActionOverride)>) -> Map<Seq<char>, Seq<OverrideView>>
    decreases s.len(),
{
    if s.len() == 0 {
        Map::empty()
    } else {
        let m = added_overrides(s.drop_last());
        let (id, o) = s.last();
        m.insert(
            id@,
            if m.contains_key(id@) {
                m[id@].push(o.deep_view())
            } else {
                seq![o.deep_view()]
            },
        )
    }
}

/// The manifest a fresh file holds after `diff`: its added versions and added overrides.
pub fn manifest_of_diff(diff: &ManifestDiff) -> (r: Manifest)
    ensures
        r.wf(),
        r.versions_map() == map_of(diff.added@),
        r.overrides_map() == added_overrides(diff.overrides_added@),
{
    let mut m = Manifest::empty();
    let mut i: usize = 0;
    while i < diff.added.len()
        invariant
            i <= diff.added@.len(),
            m.wf(),
            m.versions_map() == map_of(diff.added@.take(i as int)),
            m.overrides_map() == Map::<Seq<char>, Seq<OverrideView>>::empty(),
        decreases diff.added@.len() - i,
    {
        proof {
            assert(diff.added@.take(i + 1).drop_last() =~= diff.added@.take(i as int));
        }
        m.set(diff.added[i].0.copy(), diff.added[i].1.copy());
        i = i + 1;
    }
    assert(diff.added@.take(diff.added@.len() as int) =~= diff.added@);
    let mut i: usize = 0;
    while i < diff.overrides_added.len()
        invariant
            i <= diff.overrides_added@.len(),
            m.wf(),
            m.versions_map() == map_of(diff.added@),
            m.overrides_map() == added_overrides(diff.overrides_added@.take(i as int)),
        decreases diff.overrides_added@.len() - i,
    {
        proof {
            assert(diff.overrides_added@.take(i + 1).drop_last() =~= diff.overrides_added@.take(i as int));
        }
        m.add_override(diff.overrides_added[i].0.copy(), diff.overrides_added[i].1.copy());
        i = i + 1;
    }
    assert(diff.overrides_added@.take(diff.overrides_added@.len() as int) =~= diff.overrides_added@);
    m
}

/// The text of a new manifest file holding what `diff` adds.
pub fn create_manifest_text(diff: &ManifestDiff) -> (r: String)
    ensures
        exists|d: ManifestData|
            data_of(d, map_of(diff.added@), added_overrides(diff.overrides_added@)) && r@
                == manifest_text(d),
{
    let m = manifest_of_diff(diff);
    let data = manifest_to_data(&m);
    format_manifest_toml(&data)
}

/// Whether an override entry read from the manifest file is `ovr`: same
/// workflow and job, and the same step, a negative or oversized step standing
/// for the largest index.
pub fn override_entry_matches(
    workflow: Option<&str>,
    job: Option<&str>,
    step: Option<i64>,
    ovr: &ActionOverride,
) -> (r: bool)
    ensures
        r == (workflow matches Some(w) && w@ == ovr.workflow@
            && (match job {
            Some(j) => opt_view(ovr.job) == Some(j@),
            None => ovr.job is None,
        }) && (match step {
            Some(s) => ovr.step == Some(
                if 0 <= s && s <= usize::MAX {
                    s as usize
                } else {
                    usize::MAX
                },
            ),
            None => ovr.step is None,
        })),
{
    let wf_ok = match workflow {
        Some(w) => String::from_str(w) == ovr.workflow,
        None => false,
    };
    let job_ok = match (job, &ovr.job) {
        (Some(j), Some(oj)) => String::from_str(j) == *oj,
        (None, None) => true,
        _ => false,
    };
    let step_ok = match (step, ovr.step) {
        (Some(s), Some(os)) => {
            let idx: usize = if s < 0 {
                usize::MAX
            } else if (s as u64) > (usize::MAX as u64) {
                usize::MAX
            } else {
                s as usize
            };
            idx == os
        },
        (None, None) => true,
        _ => false,
    };
    wf_ok && job_ok && step_ok
}

/// No override has a step without a job, and no two share a scope.
pub open spec fn valid_override_views(vs: Seq<OverrideView>) -> bool {
    &&& forall|i: int| 0 <= i < vs.len() ==> !((#[trigger] vs[i]).2 is Some && vs[i].1 is None)
    &&& forall|i: int, j: int|
        0 <= j < i < vs.len() ==> ((#[trigger] vs[j]).0, vs[j].1, vs[j].2) != (
            (#[trigger] vs[i]).0,
            vs[i].1,
            vs[i].2,
        )
}

proof fn lemma_valid_overrides_no_error(action: Seq<char>, os: Vec<TomlOverride>, n: int)
    requires
        0 <= n <= os@.len(),
        valid_override_views(os.deep_view()),
    ensures
        overrides_error(action, os@, n) is None,
    decreases n,
{
    if n > 0 {
        lemma_valid_overrides_no_error(action, os, n - 1);
        let i = n - 1;
        let vs = os.deep_view();
        assert(vs[i] == os@[i].deep_view());
        assert(!(vs[i].2 is Some && vs[i].1 is None));
        if exists|j: int| 0 <= j < i && scope_of(#[trigger] os@[j]) == scope_of(os@[i]) {
            let j = choose|j: int| 0 <= j < i && scope_of(#[trigger] os@[j]) == scope_of(os@[i]);
            assert(vs[j] == os@[j].deep_view());
            assert((vs[j].0, vs[j].1, vs[j].2) != (vs[i].0, vs[i].1, vs[i].2));
        }
    }
}

/// A manifest written out loads back: when every override list that is
/// written belongs to an action with a global version and has no step
/// without a job and no scope twice, data written for versions `vm` and
/// override lists `om` raises no error when read, so it is read back as
/// exactly `vm` and the non-empty lists of `om`.
pub proof fn law_saved_manifest_loads_back(
    d: ManifestData,
    vm: Map<Seq<char>, Seq<char>>,
    om: Map<Seq<char>, Seq<OverrideView>>,
)
    requires
        data_of(d, vm, om),
        forall|k: Seq<char>|
            #[trigger] nonempty_lists(om).contains_key(k) ==> vm.contains_key(k)
                && valid_override_views(om[k]),
    ensures
        manifest_error(d.actions.versions@, d.actions.overrides@, d.actions.overrides@.len() as int) is None,
        map_of(d.actions.versions@) == vm,
        map_of(d.actions.overrides@) == nonempty_lists(om),
{
    let vs = d.actions.versions@;
    let ls = d.actions.overrides@;
    lemma_map_of(ls);
    assert forall|n: int| 0 <= n <= ls.len() implies manifest_error(vs, ls, n) is None by {
        lemma_no_error_upto(vs, ls, vm, om, n);
    }
}

proof fn lemma_no_error_upto(
    vs: Seq<(String, String)>,
    ls: Seq<(String, Vec<TomlOverride>)>,
    vm: Map<Seq<char>, Seq<char>>,
    om: Map<Seq<char>, Seq<OverrideView>>,
    n: int,
)
    requires
        0 <= n <= ls.len(),
        distinct_keys(ls),
        map_of(vs) == vm,
        map_of(ls) == nonempty_lists(om),
        forall|k: Seq<char>|
            #[trigger] nonempty_lists(om).contains_key(k) ==> vm.contains_key(k)
                && valid_override_views(om[k]),
    ensures
        manifest_error(vs, ls, n) is None,
    decreases n,
{
    if n > 0 {
        lemma_no_error_upto(vs, ls, vm, om, n - 1);
        lemma_map_of(ls);
        let (a, os) = ls[n - 1];
        assert(map_of(ls).contains_key(ls[n - 1].0.kview()));
        assert(nonempty_lists(om).contains_key(a@));
        assert(map_of(ls)[a@] == os.deep_view());
        lemma_valid_overrides_no_error(a@, os, os@.len() as int);
    }
}

/// A manifest file on disk.
pub struct FileManifest {
    path: String,
}

impl FileManifest {
    /// Where the manifest file is kept.
    pub closed spec fn location(&self) -> Seq<char> {
        self.path@
    }

    pub fn new(path: &str) -> (r: Self)
        ensures
            r.location() == path@,
    {
        FileManifest { path: String::from_str(path) }
    }

    pub fn path(&self) -> (r: &str)
        ensures
            r@ == self.location(),
    {
        self.path.as_str()
    }
}

} // verus!
