//! Where each action reference of a managed file stands: the file, the job
//! (none for a composite action's steps), the step's index and the line of its
//! `uses:`; and the action set those references make.

use vstd::prelude::*;
use crate::discovery::{FileKind, FileScanner, relative_to};
use crate::scan::{
    ActionSet, InterpretedRef, UsesRef, first_comment, interpretation, is_local_or_docker,
    line_comment, spec_split_uses, split_uses,
};
use crate::text::{chars_of, split_chars, split_on};
use vstd::string::StringExecFns;

verus! {

/// One step of a parsed managed file: its `uses:` value, if it has one, and
/// the line that value is on (counted from 1), when known.
#[derive(Debug, Clone, PartialEq, Eq)]
pub struct ParsedStep {
    pub uses: Option<String>,
    pub line: Option<u64>,
}

/// One job of a parsed workflow: its id and its steps, in order.
#[derive(Debug, Clone, PartialEq, Eq)]
pub struct ParsedJob {
    pub id: String,
    pub steps: Vec<ParsedStep>,
}

/// A managed file as its YAML reads: a workflow's jobs, or an action
/// definition's `runs.using` and `runs.steps`.
#[derive(Debug, Clone, PartialEq, Eq)]
pub struct ParsedFile {
    pub kind: FileKind,
    pub jobs: Vec<ParsedJob>,
    pub using: Option<String>,
    pub steps: Vec<ParsedStep>,
}

/// Where a reference stands.
#[derive(Debug, Clone, PartialEq, Eq)]
pub struct Location {
    /// The file, relative to the repository root.
    pub workflow: String,
    /// The job, for a workflow's step.
    pub job: Option<String>,
    /// The step's index in its list, when it fits a step index.
    pub step: Option<u16>,
    /// The line of the step's `uses:`, when known.
    pub line: Option<u64>,
}

/// An action reference and where it stands.
#[derive(Debug, Clone, PartialEq, Eq)]
pub struct Located {
    pub action: InterpretedRef,
    pub location: Location,
}

/// What a reference means (action, version, pinned commit) and where it stands
/// (file, job, step index, line).
pub type LocatedView = (
    (Seq<char>, Seq<char>, Option<Seq<char>>),
    (Seq<char>, Option<Seq<char>>, Option<u16>, Option<u64>),
);

pub open spec fn opt_text(o: Option<String>) -> Option<Seq<char>> {
    match o {
        Some(s) => Some(s@),
        None => None,
    }
}

/// The view of a located reference.
pub open spec fn located_view(l: Located) -> LocatedView {
    (
        (l.action.id@, l.action.version@, match l.action.sha {
            Some(s) => Some(s@),
            None => None,
        }),
        (l.location.workflow@, opt_text(l.location.job), l.location.step, l.location.line),
    )
}

/// The version comment on line `line` (counted from 1) of the file's lines:
/// the word after `#` following the `uses:` value there.
pub open spec fn step_comment(lines: Seq<Seq<char>>, line: Option<u64>) -> Option<Seq<char>> {
    match line {
        Some(n) => if 1 <= n && n <= lines.len() {
            match first_comment(lines[n - 1]) {
                Some((_, w)) => Some(w),
                None => None,
            }
        } else {
            None
        },
        None => None,
    }
}

/// The step index of position `i`, when it fits.
pub open spec fn step_index(i: int) -> Option<u16> {
    if 0 <= i && i <= u16::MAX {
        Some(i as u16)
    } else {
        None
    }
}

/// The references of a step list, in order, each with where it stands;
/// steps without `uses:`, values that do not split, local actions and Docker
/// images are left out.
pub open spec fn steps_located(
    steps: Seq<ParsedStep>,
    lines: Seq<Seq<char>>,
    workflow: Seq<char>,
    job: Option<Seq<char>>,
) -> Seq<LocatedView>
    decreases steps.len(),
{
    if steps.len() == 0 {
        Seq::empty()
    } else {
        let rest = steps_located(steps.drop_last(), lines, workflow, job);
        let s = steps.last();
        match s.uses {
            None => rest,
            Some(u) => match spec_split_uses(u@) {
                None => rest,
                Some((a, r)) => if is_local_or_docker(a) {
                    rest
                } else {
                    rest.push(
                        (
                            interpretation(a, r, step_comment(lines, s.line)),
                            (workflow, job, step_index(steps.len() - 1), s.line),
                        ),
                    )
                },
            },
        }
    }
}

fn step_comment_exec(lines: &Vec<Vec<char>>, line: Option<u64>) -> (r: Option<String>)
    ensures
        opt_text(r) == step_comment(lines@.map_values(|l: Vec<char>| l@), line),
{
    let ghost lv = lines@.map_values(|l: Vec<char>| l@);
    match line {
        None => None,
        Some(n) => {
            if n < 1 || n > lines.len() as u64 {
                return None;
            }
            let k = (n - 1) as usize;
            assert(lv[k as int] == lines@[k as int]@);
            match line_comment(&lines[k]) {
                Some((_, w)) => Some(w),
                None => None,
            }
        },
    }
}

/// Append the references of a step list to `out`, in order, each with where
/// it stands: the file `workflow`, the job `job` (none for a composite
/// action), the step's index and its line.
pub fn extract_steps(
    steps: &Vec<ParsedStep>,
    lines: &Vec<Vec<char>>,
    workflow: &str,
    job: Option<&str>,
    out: &mut Vec<Located>,
)
    ensures
        final(out)@.map_values(|l: Located| located_view(l)) == old(out)@.map_values(|l: Located| located_view(l))
            + steps_located(
            steps@,
            lines@.map_values(|l: Vec<char>| l@),
            workflow@,
            match job {
                Some(j) => Some(j@),
                None => None,
            },
        ),
{
    let ghost lv = lines@.map_values(|l: Vec<char>| l@);
    let ghost jv = match job {
        Some(j) => Some(j@),
        None => None,
    };
    let ghost start = out@.map_values(|l: Located| located_view(l));
    let mut i: usize = 0;
    assert(steps@.take(0) =~= Seq::<ParsedStep>::empty());
    assert(start + Seq::<LocatedView>::empty() =~= start);
    while i < steps.len()
        invariant
            i <= steps@.len(),
            lv == lines@.map_values(|l: Vec<char>| l@),
            jv == match job {
                Some(j) => Some(j@),
                None => None::<Seq<char>>,
            },
            out@.map_values(|l: Located| located_view(l)) == start + steps_located(steps@.take(i as int), lv, workflow@, jv),
        decreases steps@.len() - i,
    {
        proof {
            assert(steps@.take(i + 1).drop_last() =~= steps@.take(i as int));
            assert(steps@.take(i + 1).last() == steps@[i as int]);
        }
        let ghost before = out@.map_values(|l: Located| located_view(l));
        let step = &steps[i];
        match &step.uses {
            None => {},
            Some(u) => match split_uses(u.as_str()) {
                None => {},
                Some((a, r)) => {
                    if !crate::scan::local_or_docker(a.as_str()) {
                        let comment = step_comment_exec(lines, step.line);
                        let action = UsesRef::new(a, r, comment).interpret();
                        let job_text = match job {
                            Some(j) => Some(String::from_str(j)),
                            None => None,
                        };
                        let step_no: Option<u16> = if i <= 65535 {
                            Some(i as u16)
                        } else {
                            None
                        };
                        out.push(Located {
                            action,
                            location: Location {
                                workflow: String::from_str(workflow),
                                job: job_text,
                                step: step_no,
                                line: step.line,
                            },
                        });
                        assert(out@.map_values(|l: Located| located_view(l)) =~= before.push(
                            located_view(out@.last()),
                        ));
                    }
                },
            },
        }
        i = i + 1;
    }
    assert(steps@.take(steps@.len() as int) =~= steps@);
}

/// The references of a workflow's jobs, job by job, each tagged with its job.
pub open spec fn jobs_located(jobs: Seq<ParsedJob>, lines: Seq<Seq<char>>, workflow: Seq<char>) -> Seq<LocatedView>
    decreases jobs.len(),
{
    if jobs.len() == 0 {
        Seq::empty()
    } else {
        jobs_located(jobs.drop_last(), lines, workflow) + steps_located(
            jobs.last().steps@,
            lines,
            workflow,
            Some(jobs.last().id@),
        )
    }
}

/// The references of a managed file: a workflow's, job by job; a composite
/// action's steps, in no job; none for an action definition of another kind.
pub open spec fn file_located(f: ParsedFile, lines: Seq<Seq<char>>, workflow: Seq<char>) -> Seq<LocatedView> {
    match f.kind {
        FileKind::Workflow => jobs_located(f.jobs@, lines, workflow),
        FileKind::ActionDefinition => if opt_text(f.using) == Some("composite"@) {
            steps_located(f.steps@, lines, workflow, None)
        } else {
            Seq::empty()
        },
    }
}

fn text_lines(content: &str) -> (r: Vec<Vec<char>>)
    ensures
        r@.map_values(|l: Vec<char>| l@) == split_on(content@, '\n'),
{
    let v = chars_of(content);
    let lines = split_chars(&v, '\n');
    assert(lines@.map_values(|l: Vec<char>| l@) =~= split_on(content@, '\n'));
    lines
}

/// The references of one managed file, given as parsed and as text, located
/// in the file `workflow`.
pub fn extract_workflow(file: &ParsedFile, content: &str, workflow: &str) -> (r: Vec<Located>)
    ensures
        r@.map_values(|l: Located| located_view(l)) == file_located(*file, split_on(content@, '\n'), workflow@),
{
    let lines = text_lines(content);
    let ghost lv = split_on(content@, '\n');
    let mut out: Vec<Located> = Vec::new();
    assert(out@.map_values(|l: Located| located_view(l)) =~= Seq::<LocatedView>::empty());
    match file.kind {
        FileKind::Workflow => {
            let mut i: usize = 0;
            assert(file.jobs@.take(0) =~= Seq::<ParsedJob>::empty());
            while i < file.jobs.len()
                invariant
                    i <= file.jobs@.len(),
                    lines@.map_values(|l: Vec<char>| l@) == lv,
                    out@.map_values(|l: Located| located_view(l)) == jobs_located(file.jobs@.take(i as int), lv, workflow@),
                decreases file.jobs@.len() - i,
            {
                proof {
                    assert(file.jobs@.take(i + 1).drop_last() =~= file.jobs@.take(i as int));
                    assert(file.jobs@.take(i + 1).last() == file.jobs@[i as int]);
                }
                let job = &file.jobs[i];
                extract_steps(&job.steps, &lines, workflow, Some(job.id.as_str()), &mut out);
                i = i + 1;
            }
            assert(file.jobs@.take(file.jobs@.len() as int) =~= file.jobs@);
        },
        FileKind::ActionDefinition => {
            let composite = match &file.using {
                Some(u) => crate::text::str_is(u.as_str(), "composite"),
                None => false,
            };
            if composite {
                extract_steps(&file.steps, &lines, workflow, None, &mut out);
                assert(Seq::<LocatedView>::empty() + steps_located(file.steps@, lv, workflow@, None) =~= steps_located(
                    file.steps@,
                    lv,
                    workflow@,
                    None,
                ));
            }
        },
    }
    out
}

/// The references of a sequence of managed files, each given as its path,
/// parsed and as text, file by file; each located in its path relative to `root`.
pub open spec fn all_located(files: Seq<(String, ParsedFile, String)>, root: Seq<char>) -> Seq<LocatedView>
    decreases files.len(),
{
    if files.len() == 0 {
        Seq::empty()
    } else {
        let (path, parsed, content) = files.last();
        all_located(files.drop_last(), root) + file_located(parsed, split_on(content@, '\n'), relative_to(path@, root))
    }
}

impl FileScanner {
    /// The references of one managed file, located in its path relative to the
    /// repository root.
    pub fn located_from_file(&self, path: &str, parsed: &ParsedFile, content: &str) -> (r: Vec<Located>)
        ensures
            r@.map_values(|l: Located| located_view(l)) == file_located(
                *parsed,
                split_on(content@, '\n'),
                relative_to(path@, self.root()),
            ),
    {
        let rel = self.rel_path(path);
        extract_workflow(parsed, content, rel.as_str())
    }

    /// The references of the managed files, file by file.
    pub fn scan_all_with_parsed(&self, files: &Vec<(String, ParsedFile, String)>) -> (r: Vec<Located>)
        ensures
            r@.map_values(|l: Located| located_view(l)) == all_located(files@, self.root()),
    {
        let mut out: Vec<Located> = Vec::new();
        let mut i: usize = 0;
        assert(files@.take(0) =~= Seq::<(String, ParsedFile, String)>::empty());
        assert(out@.map_values(|l: Located| located_view(l)) =~= Seq::<LocatedView>::empty());
        while i < files.len()
            invariant
                i <= files@.len(),
                out@.map_values(|l: Located| located_view(l)) == all_located(files@.take(i as int), self.root()),
            decreases files@.len() - i,
        {
            proof {
                assert(files@.take(i + 1).drop_last() =~= files@.take(i as int));
                assert(files@.take(i + 1).last() == files@[i as int]);
            }
            let ghost before = out@.map_values(|l: Located| located_view(l));
            let mut found = self.located_from_file(files[i].0.as_str(), &files[i].1, files[i].2.as_str());
            let ghost added = found@.map_values(|l: Located| located_view(l));
            out.append(&mut found);
            assert(out@.map_values(|l: Located| located_view(l)) =~= before + added);
            i = i + 1;
        }
        assert(files@.take(files@.len() as int) =~= files@);
        out
    }
}

/// The (action, version) pairs of located references, each once, in the order first seen.
pub open spec fn located_pairs(xs: Seq<LocatedView>) -> Seq<(Seq<char>, Seq<char>)>
    decreases xs.len(),
{
    if xs.len() == 0 {
        Seq::empty()
    } else {
        let before = located_pairs(xs.drop_last());
        let t = xs.last().0;
        if before.contains((t.0, t.1)) {
            before
        } else {
            before.push((t.0, t.1))
        }
    }
}

/// The commit each action was last seen pinned to among located references.
pub open spec fn located_shas(xs: Seq<LocatedView>) -> Map<Seq<char>, Seq<char>>
    decreases xs.len(),
{
    if xs.len() == 0 {
        Map::empty()
    } else {
        let before = located_shas(xs.drop_last());
        let t = xs.last().0;
        match t.2 {
            Some(s) => before.insert(t.0, s),
            None => before,
        }
    }
}

/// The action set located references make.
pub fn action_set_from_located(located: &Vec<Located>) -> (r: ActionSet)
    ensures
        r.wf(),
        r.pair_views() == located_pairs(located@.map_values(|l: Located| located_view(l))),
        r.sha_map() == located_shas(located@.map_values(|l: Located| located_view(l))),
{
    let ghost xs = located@.map_values(|l: Located| located_view(l));
    let mut set = ActionSet::new();
    assert(set.pair_views() =~= Seq::<(Seq<char>, Seq<char>)>::empty());
    let mut i: usize = 0;
    assert(xs.take(0) =~= Seq::<LocatedView>::empty());
    while i < located.len()
        invariant
            i <= located@.len(),
            xs == located@.map_values(|l: Located| located_view(l)),
            set.wf(),
            set.pair_views() == located_pairs(xs.take(i as int)),
            set.sha_map() == located_shas(xs.take(i as int)),
        decreases located@.len() - i,
    {
        proof {
            assert(xs.take(i + 1).drop_last() =~= xs.take(i as int));
            assert(xs.take(i + 1).last() == xs[i as int]);
        }
        set.add(&located[i].action);
        i = i + 1;
    }
    assert(xs.take(located@.len() as int) =~= xs);
    set
}

} // verus!
