//! Which files under `.github` gx manages: workflows directly under
//! `.github/workflows`, and action definitions anywhere under `.github/actions`.

use vstd::prelude::*;
use crate::order::{Keyed, sort_by_key, sorted_by_key};
use crate::text::chars_of;
use crate::workflow::{path_join, join_path};
use vstd::string::StringExecFns;

verus! {

broadcast use vstd::seq_lib::group_to_multiset_ensures;

/// What a managed file holds.
#[derive(Debug, Clone, Copy, PartialEq, Eq)]
pub enum FileKind {
    Workflow,
    ActionDefinition,
}

/// A managed file and what it holds.
#[derive(Debug, Clone, PartialEq, Eq)]
pub struct ManagedFile {
    pub path: String,
    pub kind: FileKind,
}

impl Keyed for ManagedFile {
    open spec fn sort_key(&self) -> Seq<char> {
        self.path@
    }

    fn key_chars(&self) -> (r: Vec<char>) {
        chars_of(self.path.as_str())
    }
}

/// A directory searched for managed files, and the glob patterns searched there.
#[derive(Debug, Clone, PartialEq, Eq)]
pub struct GlobRoot {
    pub patterns: Vec<String>,
    pub kind: FileKind,
}

/// The patterns of one root: `<dir>/<stem>.yml`, then `<dir>/<stem>.yaml`.
pub open spec fn root_patterns(dir: Seq<char>, stem: Seq<char>) -> Seq<Seq<char>> {
    seq![path_join(dir, stem + ".yml"@), path_join(dir, stem + ".yaml"@)]
}

fn patterns_for(dir: &str, stem: &str) -> (r: Vec<String>)
    ensures
        r@.map_values(|s: String| s@) == root_patterns(dir@, stem@),
{
    let mut yml = String::from_str(stem);
    yml.append(".yml");
    let mut yaml = String::from_str(stem);
    yaml.append(".yaml");
    let mut out: Vec<String> = Vec::new();
    out.push(join_path(dir, yml.as_str()));
    out.push(join_path(dir, yaml.as_str()));
    assert(out@.map_values(|s: String| s@) =~= root_patterns(dir@, stem@));
    out
}

/// Where managed files are searched, in order: workflows, then action definitions.
pub fn glob_roots(repo_root: &str) -> (r: Vec<GlobRoot>)
    ensures
        r@.len() == 2,
        r@[0].kind == FileKind::Workflow,
        r@[0].patterns@.map_values(|s: String| s@) == root_patterns(
            path_join(path_join(repo_root@, ".github"@), "workflows"@),
            "*"@,
        ),
        r@[1].kind == FileKind::ActionDefinition,
        r@[1].patterns@.map_values(|s: String| s@) == root_patterns(
            path_join(path_join(repo_root@, ".github"@), "actions"@),
            "**/action"@,
        ),
{
    let github = join_path(repo_root, ".github");
    let workflows = join_path(github.as_str(), "workflows");
    let actions = join_path(github.as_str(), "actions");
    let mut out: Vec<GlobRoot> = Vec::new();
    out.push(GlobRoot { patterns: patterns_for(workflows.as_str(), "*"), kind: FileKind::Workflow });
    out.push(GlobRoot { patterns: patterns_for(actions.as_str(), "**/action"), kind: FileKind::ActionDefinition });
    out
}

/// The managed files of each root, in root order, each root's files sorted by
/// path (component by component, as paths compare).
pub fn managed_files(groups: Vec<Vec<ManagedFile>>) -> (r: Vec<ManagedFile>)
    ensures
        exists|sorted: Seq<Seq<ManagedFile>>|
            sorted.len() == groups@.len() && (forall|i: int|
                0 <= i < groups@.len() ==> (#[trigger] sorted[i]).to_multiset() == groups@[i]@.to_multiset()
                    && sorted_by_key(sorted[i], true)) && r@ == sorted.flatten(),
{
    let ghost orig = groups@;
    let mut rest = groups;
    let mut out: Vec<ManagedFile> = Vec::new();
    let ghost mut sorted: Seq<Seq<ManagedFile>> = Seq::empty();
    let ghost mut taken: int = 0;
    while rest.len() > 0
        invariant
            0 <= taken <= orig.len(),
            rest@ == orig.skip(taken),
            sorted.len() == taken,
            forall|i: int|
                0 <= i < taken ==> (#[trigger] sorted[i]).to_multiset() == orig[i]@.to_multiset()
                    && sorted_by_key(sorted[i], true),
            out@ == sorted.flatten(),
        decreases rest.len(),
    {
        let group = rest.remove(0);
        proof {
            assert(orig[taken] == group);
        }
        let mut s = sort_by_key(group, true);
        let ghost sv = s@;
        out.append(&mut s);
        proof {
            assert(sorted.push(sv).flatten() =~= sorted.flatten() + sv) by {
                sorted.lemma_flatten_push(sv);
            }
            sorted = sorted.push(sv);
            taken = taken + 1;
            assert(rest@ =~= orig.skip(taken));
        }
    }
    proof {
        assert(orig.skip(taken) =~= Seq::<Vec<ManagedFile>>::empty());
    }
    out
}

/// The paths of the managed files, in order.
pub fn managed_paths(files: &Vec<ManagedFile>) -> (r: Vec<String>)
    ensures
        r@.map_values(|s: String| s@) == files@.map_values(|f: ManagedFile| f.path@),
{
    let mut out: Vec<String> = Vec::new();
    let mut i: usize = 0;
    while i < files.len()
        invariant
            i <= files@.len(),
            out@.len() == i,
            forall|j: int| 0 <= j < i ==> (#[trigger] out@[j])@ == files@[j].path@,
        decreases files@.len() - i,
    {
        out.push(String::from_str(files[i].path.as_str()));
        i = i + 1;
    }
    assert(out@.map_values(|s: String| s@) =~= files@.map_values(|f: ManagedFile| f.path@));
    out
}

/// `path` relative to `root` when `root` is a leading run of its components;
/// otherwise `path` itself.
pub open spec fn relative_to(path: Seq<char>, root: Seq<char>) -> Seq<char> {
    if root.len() == 0 {
        path
    } else if path == root {
        Seq::empty()
    } else if root.last() == '/' && root.len() <= path.len() && path.take(root.len() as int) == root {
        path.skip(root.len() as int)
    } else if root.len() < path.len() && path.take(root.len() as int) == root && path[root.len() as int] == '/' {
        path.skip(root.len() as int + 1)
    } else {
        path
    }
}

/// Reads the managed files of one repository.
pub struct FileScanner {
    repo_root: String,
}

impl FileScanner {
    /// The repository the files are read from.
    pub closed spec fn root(&self) -> Seq<char> {
        self.repo_root@
    }

    pub fn new(repo_root: &str) -> (r: Self)
        ensures
            r.root() == repo_root@,
    {
        FileScanner { repo_root: String::from_str(repo_root) }
    }

    /// A file's path relative to the repository root.
    pub fn rel_path(&self, path: &str) -> (r: String)
        ensures
            r@ == relative_to(path@, self.root()),
    {
        let p = chars_of(path);
        let root = chars_of(self.repo_root.as_str());
        if root.len() == 0 {
            return String::from_str(path);
        }
        if crate::text::chars_eq(&p, &root) {
            return String::new();
        }
        if root.len() <= p.len() && crate::text::starts_with(&p, &root) {
            if root[root.len() - 1] == '/' {
                let rest = crate::identity::sub_chars(&p, root.len(), p.len());
                assert(rest@ == p@.skip(root@.len() as int));
                return crate::text::string_of(&rest);
            }
            if root.len() < p.len() && p[root.len()] == '/' {
                let rest = crate::identity::sub_chars(&p, root.len() + 1, p.len());
                assert(rest@ == p@.skip(root@.len() as int + 1));
                return crate::text::string_of(&rest);
            }
        }
        String::from_str(path)
    }

    /// The actions one managed file uses, given its text and its steps' `uses:` values.
    pub fn scan_file(&self, content: &str, uses: &Vec<String>) -> (r: crate::scan::ActionSet)
        ensures
            r.wf(),
            r.pair_views() == crate::scan::pairs_after(Seq::empty(), crate::scan::workflow_refs(content@, uses@)),
            r.sha_map() == crate::scan::shas_after(Map::empty(), crate::scan::workflow_refs(content@, uses@)),
    {
        let parser = crate::scan::WorkflowParser::new(self.repo_root.as_str());
        parser.scan(content, uses)
    }
}

} // verus!
