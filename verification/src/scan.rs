//! Reading which actions a workflow uses: the `uses:` values of its steps,
//! each split into action and ref, with the version comment written after a
//! pinned SHA on the same line.

use vstd::prelude::*;
use crate::assoc::{MapKey, map_of, distinct_keys, assoc_set, assoc_get};
use crate::identity::{ActionId, CommitSha, Version, is_full_sha};
use crate::text::{chars_of, string_of, trim, trim_chars, occurs_at, split_on, split_chars};
use vstd::string::StringExecFns;
use crate::lock::opt_view;
use crate::workflow::{compile, pattern_captures, regex_captures, regex_compile_error};

verus! {

/// The pattern a `uses:` value is split with: the action before the first
/// `@` (non-empty, without whitespace), and the ref after it (non-empty, up
/// to whitespace or `#`).
pub const USES_PATTERN: &'static str = "^([^@\\s]+)@([^\\s#]+)";

/// The texts of groups 1 and 2 of a match, when both took part in it.
pub open spec fn two_groups(c: Seq<Option<Seq<char>>>) -> Option<(Seq<char>, Seq<char>)> {
    if c.len() >= 3 && c[1] is Some && c[2] is Some {
        Some((c[1]->Some_0, c[2]->Some_0))
    } else {
        None
    }
}

/// A `uses:` value split by `USES_PATTERN` into action and ref; none when
/// it does not match (or, which it never does, the pattern fails to compile).
pub open spec fn spec_split_uses(u: Seq<char>) -> Option<(Seq<char>, Seq<char>)> {
    if regex_compile_error(USES_PATTERN@) is Some {
        None
    } else {
        match regex_captures(USES_PATTERN@, u) {
            Some(c) => two_groups(c),
            None => None,
        }
    }
}

/// Groups 1 and 2 of a match, copied out.
fn take_two_groups(c: &Vec<Option<String>>) -> (r: Option<(String, String)>)
    ensures
        r is Some <==> two_groups(c@.map_values(|o: Option<String>| opt_view(o))) is Some,
        r matches Some((a, b)) ==> (a@, b@) == two_groups(c@.map_values(|o: Option<String>| opt_view(o)))->0,
{
    if c.len() < 3 {
        return None;
    }
    match (&c[1], &c[2]) {
        (Some(a), Some(b)) => Some((String::from_str(a.as_str()), String::from_str(b.as_str()))),
        _ => None,
    }
}

/// Split a `uses:` value into action and ref.
pub fn split_uses(u: &str) -> (r: Option<(String, String)>)
    ensures
        r is Some <==> spec_split_uses(u@) is Some,
        r matches Some((a, b)) ==> (a@, b@) == spec_split_uses(u@)->0,
{
    let p = match compile(USES_PATTERN) {
        Ok(p) => p,
        Err(_) => {
            return None;
        },
    };
    match pattern_captures(&p, u) {
        Some(c) => take_two_groups(&c),
        None => None,
    }
}

/// Whether an action name points inside the repository or at a Docker image,
/// which are not pinned.
pub open spec fn is_local_or_docker(action: Seq<char>) -> bool {
    (action.len() > 0 && action[0] == '.') || (action.len() >= 9 && action.take(9) == "docker://"@)
}

pub fn local_or_docker(action: &str) -> (r: bool)
    ensures
        r == is_local_or_docker(action@),
{
    let v = chars_of(action);
    if v.len() > 0 && v[0] == '.' {
        return true;
    }
    let d = chars_of("docker://");
    proof {
        reveal_strlit("docker://");
    }
    if v.len() >= d.len() {
        let hit = occurs_at(&v, &d, 0);
        assert(v@.subrange(0, d@.len() as int) == v@.take(d@.len() as int));
        hit
    } else {
        false
    }
}

/// The pattern a version comment is read with: the text between `uses:` and
/// the next `#`, and the word after that `#`.
pub const COMMENT_PATTERN: &'static str = "uses:\\s*([^#\\n]+)#\\s*(\\S+)";

/// The comment pattern's match in a line: the `uses:` value it follows
/// (trimmed), and the comment word; none when the line does not match (or,
/// which it never does, the pattern fails to compile).
pub open spec fn first_comment(s: Seq<char>) -> Option<(Seq<char>, Seq<char>)> {
    if regex_compile_error(COMMENT_PATTERN@) is Some {
        None
    } else {
        match regex_captures(COMMENT_PATTERN@, s) {
            Some(c) => match two_groups(c) {
                Some((k, w)) => Some((trim(k), w)),
                None => None,
            },
            None => None,
        }
    }
}

/// The comment pattern's match in a line: the `uses:` value it follows, and
/// the comment word.
pub fn line_comment(line: &Vec<char>) -> (r: Option<(String, String)>)
    ensures
        r is Some <==> first_comment(line@) is Some,
        r matches Some((a, b)) ==> (a@, b@) == first_comment(line@)->0,
{
    let p = match compile(COMMENT_PATTERN) {
        Ok(p) => p,
        Err(_) => {
            return None;
        },
    };
    let text = string_of(line);
    match pattern_captures(&p, text.as_str()) {
        Some(c) => match take_two_groups(&c) {
            Some((k, w)) => {
                let kc = chars_of(k.as_str());
                Some((string_of(&trim_chars(&kc)), w))
            },
            None => None,
        },
        None => None,
    }
}

/// The comments of a workflow's lines: the `uses:` value each follows, and
/// its word; a later line wins.
pub open spec fn comments_of(lines: Seq<Seq<char>>) -> Map<Seq<char>, Seq<char>>
    decreases lines.len(),
{
    if lines.len() == 0 {
        Map::empty()
    } else {
        let m = comments_of(lines.drop_last());
        match first_comment(lines.last()) {
            Some((k, w)) => m.insert(k, w),
            None => m,
        }
    }
}

/// The version comments of a workflow's text, line by line.
pub fn workflow_comments(content: &str) -> (r: Vec<(String, String)>)
    ensures
        distinct_keys(r@),
        map_of(r@) == comments_of(split_on(content@, '\n')),
{
    let v = chars_of(content);
    let lines = split_chars(&v, '\n');
    let mut out: Vec<(String, String)> = Vec::new();
    let mut i: usize = 0;
    while i < lines.len()
        invariant
            i <= lines@.len(),
            v@ == content@,
            lines@.len() == split_on(v@, '\n').len(),
            forall|k: int| 0 <= k < lines@.len() ==> (#[trigger] lines@[k])@ == split_on(v@, '\n')[k],
            distinct_keys(out@),
            map_of(out@) == comments_of(split_on(v@, '\n').take(i as int)),
        decreases lines@.len() - i,
    {
        proof {
            assert(split_on(v@, '\n').take(i + 1).drop_last() =~= split_on(v@, '\n').take(i as int));
            assert(split_on(v@, '\n').take(i + 1).last() == lines@[i as int]@);
        }
        match line_comment(&lines[i]) {
            Some((k, w)) => assoc_set(&mut out, k, w),
            None => {},
        }
        i = i + 1;
    }
    assert(split_on(v@, '\n').take(lines@.len() as int) =~= split_on(v@, '\n'));
    out
}

/// One step's reference to an action: the action, the ref after `@`, and the
/// version comment written after it, if any.
#[derive(Debug, Clone, PartialEq, Eq)]
pub struct UsesRef {
    pub action: String,
    pub uses_ref: String,
    pub comment: Option<String>,
}

/// The reference a `uses:` value makes, if it names a remote action.
pub open spec fn uses_of(u: Seq<char>, comments: Map<Seq<char>, Seq<char>>) -> Option<(Seq<char>, Seq<char>, Option<Seq<char>>)> {
    match spec_split_uses(u) {
        Some((a, r)) => if is_local_or_docker(a) {
            None
        } else {
            Some((a, r, if comments.contains_key(u) { Some(comments[u]) } else { None }))
        },
        None => None,
    }
}

/// The references of the given `uses:` values, in order, with their comments
/// from the workflow text; local actions, Docker images and values that do
/// not split are left out.
pub open spec fn extracted(uses: Seq<String>, comments: Map<Seq<char>, Seq<char>>) -> Seq<(Seq<char>, Seq<char>, Option<Seq<char>>)>
    decreases uses.len(),
{
    if uses.len() == 0 {
        Seq::empty()
    } else {
        let rest = extracted(uses.drop_last(), comments);
        match uses_of(uses.last()@, comments) {
            Some(x) => rest.push(x),
            None => rest,
        }
    }
}

/// The view of a reference: action, ref, comment.
pub open spec fn uses_ref_view(u: UsesRef) -> (Seq<char>, Seq<char>, Option<Seq<char>>) {
    (u.action@, u.uses_ref@, match u.comment {
        Some(c) => Some(c@),
        None => None,
    })
}

/// The action references of a workflow: its steps' `uses:` values (as read
/// from its YAML), each with the version comment its line carries.
pub fn extract_actions(content: &str, uses: &Vec<String>) -> (r: Vec<UsesRef>)
    ensures
        r@.map_values(|u: UsesRef| uses_ref_view(u)) == extracted(uses@, comments_of(split_on(content@, '\n'))),
{
    let comments = workflow_comments(content);
    let ghost cm = comments_of(split_on(content@, '\n'));
    let mut out: Vec<UsesRef> = Vec::new();
    let mut i: usize = 0;
    while i < uses.len()
        invariant
            i <= uses@.len(),
            distinct_keys(comments@),
            map_of(comments@) == cm,
            out@.map_values(|u: UsesRef| uses_ref_view(u)) == extracted(uses@.take(i as int), cm),
        decreases uses@.len() - i,
    {
        proof {
            assert(uses@.take(i + 1).drop_last() =~= uses@.take(i as int));
            assert(uses@.take(i + 1).last() == uses@[i as int]);
        }
        let ghost before = out@.map_values(|u: UsesRef| uses_ref_view(u));
        match split_uses(uses[i].as_str()) {
            Some((a, r)) => {
                if !local_or_docker(a.as_str()) {
                    let comment = match assoc_get(&comments, &uses[i]) {
                        Some(c) => Some(String::from_str(c.as_str())),
                        None => None,
                    };
                    out.push(UsesRef { action: a, uses_ref: r, comment });
                    assert(out@.map_values(|u: UsesRef| uses_ref_view(u)) =~= before.push(
                        uses_ref_view(out@.last()),
                    ));
                }
            },
            None => {},
        }
        i = i + 1;
    }
    assert(uses@.take(uses@.len() as int) =~= uses@);
    out
}

/// What a step's reference means: the action, the version it stands for, and
/// the commit it is pinned to when the ref is a full SHA.
#[derive(Debug, Clone, PartialEq, Eq)]
pub struct InterpretedRef {
    pub id: ActionId,
    pub version: Version,
    pub sha: Option<CommitSha>,
}

/// A version comment as a version: a bare number gets a leading `v`.
pub open spec fn comment_version(c: Seq<char>) -> Seq<char> {
    if c.len() > 0 && '0' <= c[0] && c[0] <= '9' {
        "v"@ + c
    } else {
        c
    }
}

/// What a reference means: the version is its comment when it has one, else
/// its ref; the commit is its ref when that is a full SHA.
pub open spec fn interpretation(action: Seq<char>, reference: Seq<char>, comment: Option<Seq<char>>) -> (Seq<char>, Seq<char>, Option<Seq<char>>) {
    (
        action,
        match comment {
            Some(c) => comment_version(c),
            None => reference,
        },
        if is_full_sha(reference) {
            Some(reference)
        } else {
            None
        },
    )
}

impl UsesRef {
    pub fn new(action: String, uses_ref: String, comment: Option<String>) -> (r: Self)
        ensures
            r.action == action,
            r.uses_ref == uses_ref,
            r.comment == comment,
    {
        UsesRef { action, uses_ref, comment }
    }

    /// What this reference means.
    pub fn interpret(&self) -> (r: InterpretedRef)
        ensures
            (r.id@, r.version@, match r.sha {
                Some(s) => Some(s@),
                None => None,
            }) == interpretation(self.action@, self.uses_ref@, match self.comment {
                Some(c) => Some(c@),
                None => None,
            }),
    {
        let version = match &self.comment {
            Some(c) => {
                let v = chars_of(c.as_str());
                if v.len() > 0 && '0' <= v[0] && v[0] <= '9' {
                    let mut s = String::from_str("v");
                    s.append(c.as_str());
                    s
                } else {
                    String::from_str(c.as_str())
                }
            },
            None => String::from_str(self.uses_ref.as_str()),
        };
        let sha = if CommitSha::is_valid(self.uses_ref.as_str()) {
            Some(CommitSha(String::from_str(self.uses_ref.as_str())))
        } else {
            None
        };
        InterpretedRef { id: ActionId(String::from_str(self.action.as_str())), version: Version(version), sha }
    }
}

/// The actions a set of workflows uses: each version of each action once, in
/// the order first seen, and the commit each action was last seen pinned to.
#[derive(Debug, Clone, Default)]
pub struct ActionSet {
    versions: Vec<(ActionId, Version)>,
    shas: Vec<(ActionId, CommitSha)>,
}

impl ActionSet {
    /// Each pair once.
    pub closed spec fn wf(&self) -> bool {
        self.pair_views().no_duplicates() && distinct_keys(self.shas@)
    }

    /// The (action, version) pairs, in the order first seen.
    pub closed spec fn pair_views(&self) -> Seq<(Seq<char>, Seq<char>)> {
        self.versions@.map_values(|p: (ActionId, Version)| (p.0@, p.1@))
    }

    /// The commit each action was last seen pinned to.
    pub closed spec fn sha_map(&self) -> Map<Seq<char>, Seq<char>> {
        map_of(self.shas@)
    }

    pub fn new() -> (r: Self)
        ensures
            r.wf(),
            r.pair_views().len() == 0,
            r.sha_map() == Map::<Seq<char>, Seq<char>>::empty(),
    {
        let r = ActionSet { versions: Vec::new(), shas: Vec::new() };
        assert(r.pair_views() =~= Seq::<(Seq<char>, Seq<char>)>::empty());
        r
    }

    /// Record a use of an action at a version.
    pub fn add(&mut self, r: &InterpretedRef)
        requires
            old(self).wf(),
        ensures
            final(self).wf(),
            final(self).pair_views() == if old(self).pair_views().contains((r.id@, r.version@)) {
                old(self).pair_views()
            } else {
                old(self).pair_views().push((r.id@, r.version@))
            },
            final(self).sha_map() == match r.sha {
                Some(s) => old(self).sha_map().insert(r.id@, s@),
                None => old(self).sha_map(),
            },
    {
        let mut found = false;
        let mut i: usize = 0;
        let ghost pv = self.pair_views();
        let ghost target = (r.id@, r.version@);
        while i < self.versions.len()
            invariant
                i <= self.versions@.len(),
                pv == self.pair_views(),
                pv.len() == self.versions@.len(),
                target == (r.id@, r.version@),
                found <==> exists|j: int| 0 <= j < i && pv[j] == target,
            decreases self.versions@.len() - i,
        {
            assert(pv[i as int] == (self.versions@[i as int].0@, self.versions@[i as int].1@));
            let hit = self.versions[i].0.0 == r.id.0 && self.versions[i].1.0 == r.version.0;
            proof {
                if hit {
                    assert(pv[i as int] == target);
                } else {
                    assert(pv[i as int] != target);
                }
                assert((exists|j: int| 0 <= j < i + 1 && pv[j] == target) <==> ((exists|j: int|
                    0 <= j < i && pv[j] == target) || pv[i as int] == target));
            }
            if hit {
                found = true;
            }
            i = i + 1;
        }
        proof {
            if found {
                let j = choose|j: int| 0 <= j < self.versions@.len() && pv[j] == target;
                assert(pv.contains(target));
            } else {
                assert(!pv.contains(target));
            }
        }
        if !found {
            let ghost before = self.pair_views();
            self.versions.push((r.id.copy(), r.version.copy()));
            assert(self.pair_views() =~= before.push((r.id@, r.version@)));
        } else {
            assert(self.pair_views().contains((r.id@, r.version@)));
        }
        match &r.sha {
            Some(s) => assoc_set(&mut self.shas, r.id.copy(), CommitSha(String::from_str(s.as_str()))),
            None => {},
        }
    }

    /// Each action once, in the order first seen.
    pub fn action_ids(&self) -> (r: Vec<ActionId>)
        requires
            self.wf(),
        ensures
            r@.map_values(|a: ActionId| a@) == first_ids(self.pair_views()),
    {
        let mut out: Vec<ActionId> = Vec::new();
        let mut i: usize = 0;
        let ghost pv = self.pair_views();
        assert(pv.take(0) =~= Seq::<(Seq<char>, Seq<char>)>::empty());
        while i < self.versions.len()
            invariant
                i <= self.versions@.len(),
                pv == self.pair_views(),
                pv.len() == self.versions@.len(),
                out@.map_values(|a: ActionId| a@) == first_ids(pv.take(i as int)),
            decreases self.versions@.len() - i,
        {
            let id = &self.versions[i].0;
            assert(pv[i as int].0 == id@);
            let ghost ids = out@.map_values(|a: ActionId| a@);
            let mut seen = false;
            let mut k: usize = 0;
            while k < out.len()
                invariant
                    k <= out@.len(),
                    ids == out@.map_values(|a: ActionId| a@),
                    seen <==> exists|m: int| 0 <= m < k && ids[m] == id@,
                decreases out@.len() - k,
            {
                assert(ids[k as int] == out@[k as int]@);
                if out[k].0 == id.0 {
                    seen = true;
                }
                k = k + 1;
            }
            proof {
                assert(pv.take(i + 1).drop_last() =~= pv.take(i as int));
                assert(pv.take(i + 1).last() == pv[i as int]);
                if seen {
                    let m = choose|m: int| 0 <= m < k && ids[m] == id@;
                    assert(ids.contains(id@));
                } else {
                    assert(!ids.contains(id@));
                }
            }
            if !seen {
                out.push(id.copy());
                assert(out@.map_values(|a: ActionId| a@) =~= ids.push(id@));
            }
            i = i + 1;
        }
        assert(pv.take(self.versions@.len() as int) =~= pv);
        out
    }

    /// The versions `id` is used at, in the order first seen.
    pub fn versions_for(&self, id: &ActionId) -> (r: Vec<Version>)
        requires
            self.wf(),
        ensures
            r@.map_values(|v: Version| v@) == self.pair_views().filter(|p: (Seq<char>, Seq<char>)| p.0 == id@).map_values(
                |p: (Seq<char>, Seq<char>)| p.1,
            ),
    {
        let mut out: Vec<Version> = Vec::new();
        let mut i: usize = 0;
        let ghost pv = self.pair_views();
        assert(pv.take(0).filter(|p: (Seq<char>, Seq<char>)| p.0 == id@) =~= Seq::<(Seq<char>, Seq<char>)>::empty());
        while i < self.versions.len()
            invariant
                i <= self.versions@.len(),
                pv == self.pair_views(),
                out@.map_values(|v: Version| v@) == pv.take(i as int).filter(|p: (Seq<char>, Seq<char>)| p.0 == id@).map_values(
                    |p: (Seq<char>, Seq<char>)| p.1,
                ),
            decreases self.versions@.len() - i,
        {
            let ghost before = out@.map_values(|v: Version| v@);
            proof {
                assert(pv.take(i + 1).drop_last() =~= pv.take(i as int));
                reveal(Seq::filter);
                assert(pv.take(i + 1).last() == pv[i as int]);
            }
            if self.versions[i].0.0 == id.0 {
                out.push(self.versions[i].1.copy());
                assert(out@.map_values(|v: Version| v@) =~= before.push(pv[i as int].1));
            }
            i = i + 1;
        }
        assert(pv.take(self.versions@.len() as int) =~= pv);
        out
    }

    /// The commit `id` was last seen pinned to.
    pub fn sha_for(&self, id: &ActionId) -> (r: Option<&CommitSha>)
        requires
            self.wf(),
        ensures
            r is Some <==> self.sha_map().contains_key(id@),
            r matches Some(s) ==> s@ == self.sha_map()[id@],
    {
        assoc_get(&self.shas, id)
    }
}

/// The actions of a sequence of pairs, each once, in the order first seen.
pub open spec fn first_ids(pv: Seq<(Seq<char>, Seq<char>)>) -> Seq<Seq<char>>
    decreases pv.len(),
{
    if pv.len() == 0 {
        Seq::empty()
    } else {
        let ids = first_ids(pv.drop_last());
        if ids.contains(pv.last().0) {
            ids
        } else {
            ids.push(pv.last().0)
        }
    }
}

/// Reads the workflows under a repository's `.github/workflows`.
pub struct WorkflowParser {
    workflows_dir: String,
}

impl WorkflowParser {
    /// The directory the workflows are in.
    pub closed spec fn dir(&self) -> Seq<char> {
        self.workflows_dir@
    }

    pub fn new(repo_root: &str) -> (r: Self)
        ensures
            r.dir() == crate::workflow::path_join(crate::workflow::path_join(repo_root@, ".github"@), "workflows"@),
    {
        let github = crate::workflow::join_path(repo_root, ".github");
        WorkflowParser { workflows_dir: crate::workflow::join_path(github.as_str(), "workflows") }
    }

    pub fn workflows_dir(&self) -> (r: &str)
        ensures
            r@ == self.dir(),
    {
        self.workflows_dir.as_str()
    }

    /// Add the actions of one workflow, given its text and its steps' `uses:`
    /// values, to `set`, in order.
    pub fn scan_into(&self, set: &mut ActionSet, content: &str, uses: &Vec<String>)
        requires
            old(set).wf(),
        ensures
            final(set).wf(),
            final(set).pair_views() == pairs_after(old(set).pair_views(), workflow_refs(content@, uses@)),
            final(set).sha_map() == shas_after(old(set).sha_map(), workflow_refs(content@, uses@)),
    {
        let refs = extract_actions(content, uses);
        let ghost xs = workflow_refs(content@, uses@);
        let ghost p0 = set.pair_views();
        let ghost m0 = set.sha_map();
        let mut i: usize = 0;
        assert(xs.take(0) =~= Seq::<(Seq<char>, Seq<char>, Option<Seq<char>>)>::empty());
        while i < refs.len()
            invariant
                i <= refs@.len(),
                refs@.map_values(|u: UsesRef| uses_ref_view(u)) == xs,
                set.wf(),
                set.pair_views() == pairs_after(p0, xs.take(i as int)),
                set.sha_map() == shas_after(m0, xs.take(i as int)),
            decreases refs@.len() - i,
        {
            let r = refs[i].interpret();
            proof {
                assert(xs[i as int] == uses_ref_view(refs@[i as int]));
                assert(xs.take(i + 1).drop_last() =~= xs.take(i as int));
                assert(xs.take(i + 1).last() == xs[i as int]);
            }
            set.add(&r);
            i = i + 1;
        }
        assert(xs.take(refs@.len() as int) =~= xs);
    }

    /// The actions one workflow uses, given its text and its steps' `uses:` values.
    pub fn scan(&self, content: &str, uses: &Vec<String>) -> (r: ActionSet)
        ensures
            r.wf(),
            r.pair_views() == pairs_after(Seq::empty(), workflow_refs(content@, uses@)),
            r.sha_map() == shas_after(Map::empty(), workflow_refs(content@, uses@)),
    {
        let mut set = ActionSet::new();
        assert(set.pair_views() =~= Seq::<(Seq<char>, Seq<char>)>::empty());
        self.scan_into(&mut set, content, uses);
        set
    }

    /// The actions a set of workflows uses, each given as its text and its
    /// steps' `uses:` values, in order.
    pub fn scan_all(&self, workflows: &Vec<(String, Vec<String>)>) -> (r: ActionSet)
        ensures
            r.wf(),
            r.pair_views() == pairs_after(Seq::empty(), all_refs(workflows@)),
            r.sha_map() == shas_after(Map::empty(), all_refs(workflows@)),
    {
        let mut set = ActionSet::new();
        assert(set.pair_views() =~= Seq::<(Seq<char>, Seq<char>)>::empty());
        let mut i: usize = 0;
        while i < workflows.len()
            invariant
                i <= workflows@.len(),
                set.wf(),
                set.pair_views() == pairs_after(Seq::empty(), all_refs(workflows@.take(i as int))),
                set.sha_map() == shas_after(Map::empty(), all_refs(workflows@.take(i as int))),
            decreases workflows@.len() - i,
        {
            proof {
                assert(workflows@.take(i + 1).drop_last() =~= workflows@.take(i as int));
                assert(workflows@.take(i + 1).last() == workflows@[i as int]);
                let a = all_refs(workflows@.take(i as int));
                let b = workflow_refs(workflows@[i as int].0@, workflows@[i as int].1@);
                lemma_pairs_after_concat(Seq::empty(), a, b);
                lemma_shas_after_concat(Map::empty(), a, b);
            }
            self.scan_into(&mut set, workflows[i].0.as_str(), &workflows[i].1);
            i = i + 1;
        }
        assert(workflows@.take(workflows@.len() as int) =~= workflows@);
        set
    }
}

/// The references one workflow makes, given its text and its steps' `uses:` values.
pub open spec fn workflow_refs(content: Seq<char>, uses: Seq<String>) -> Seq<(Seq<char>, Seq<char>, Option<Seq<char>>)> {
    extracted(uses, comments_of(split_on(content, '\n')))
}

/// The references a sequence of workflows makes, in order.
pub open spec fn all_refs(ws: Seq<(String, Vec<String>)>) -> Seq<(Seq<char>, Seq<char>, Option<Seq<char>>)>
    decreases ws.len(),
{
    if ws.len() == 0 {
        Seq::empty()
    } else {
        all_refs(ws.drop_last()) + workflow_refs(ws.last().0@, ws.last().1@)
    }
}

/// `pv` with the (action, version) of each reference added when new.
pub open spec fn pairs_after(pv: Seq<(Seq<char>, Seq<char>)>, xs: Seq<(Seq<char>, Seq<char>, Option<Seq<char>>)>) -> Seq<(Seq<char>, Seq<char>)>
    decreases xs.len(),
{
    if xs.len() == 0 {
        pv
    } else {
        let before = pairs_after(pv, xs.drop_last());
        let (a, r, c) = xs.last();
        let t = interpretation(a, r, c);
        if before.contains((t.0, t.1)) {
            before
        } else {
            before.push((t.0, t.1))
        }
    }
}

/// `m` with the commit of each reference pinned to a full SHA recorded.
pub open spec fn shas_after(m: Map<Seq<char>, Seq<char>>, xs: Seq<(Seq<char>, Seq<char>, Option<Seq<char>>)>) -> Map<Seq<char>, Seq<char>>
    decreases xs.len(),
{
    if xs.len() == 0 {
        m
    } else {
        let before = shas_after(m, xs.drop_last());
        let (a, r, c) = xs.last();
        let t = interpretation(a, r, c);
        match t.2 {
            Some(s) => before.insert(t.0, s),
            None => before,
        }
    }
}

proof fn lemma_pairs_after_concat(
    pv: Seq<(Seq<char>, Seq<char>)>,
    a: Seq<(Seq<char>, Seq<char>, Option<Seq<char>>)>,
    b: Seq<(Seq<char>, Seq<char>, Option<Seq<char>>)>,
)
    ensures
        pairs_after(pv, a + b) == pairs_after(pairs_after(pv, a), b),
    decreases b.len(),
{
    if b.len() > 0 {
        assert((a + b).drop_last() =~= a + b.drop_last());
        lemma_pairs_after_concat(pv, a, b.drop_last());
    } else {
        assert(a + b =~= a);
    }
}

proof fn lemma_shas_after_concat(
    m: Map<Seq<char>, Seq<char>>,
    a: Seq<(Seq<char>, Seq<char>, Option<Seq<char>>)>,
    b: Seq<(Seq<char>, Seq<char>, Option<Seq<char>>)>,
)
    ensures
        shas_after(m, a + b) == shas_after(shas_after(m, a), b),
    decreases b.len(),
{
    if b.len() > 0 {
        assert((a + b).drop_last() =~= a + b.drop_last());
        lemma_shas_after_concat(m, a, b.drop_last());
    } else {
        assert(a + b =~= a);
    }
}

} // verus!
