//! Rewriting the `uses:` references of workflow files to pinned commits.
//!
//! The rewriting goes through the `regex` crate: for each action, every
//! `uses: <action>@<ref>` (with any trailing comment) is replaced by
//! `uses: <action>@<pin>`.

use vstd::prelude::*;
use crate::assoc::{MapKey, map_of, distinct_keys, assoc_set};
use crate::identity::{ActionId, CommitSha, Version, copy_string};
use crate::lock::opt_view;
use vstd::string::StringExecFns;

verus! {

#[verifier::external_type_specification]
#[verifier::external_body]
pub struct ExRegex(regex::Regex);

/// Whether `c` has a meaning in a regular expression and is escaped by `regex::escape`.
pub open spec fn is_meta_character(c: char) -> bool {
    c == '\\' || c == '.' || c == '+' || c == '*' || c == '?' || c == '(' || c == ')' || c == '|'
        || c == '[' || c == ']' || c == '{' || c == '}' || c == '^' || c == '$' || c == '#' || c
        == '&' || c == '-' || c == '~'
}

/// `s` with a backslash before each meta character.
pub open spec fn escape_text(s: Seq<char>) -> Seq<char>
    decreases s.len(),
{
    if s.len() == 0 {
        Seq::empty()
    } else {
        escape_text(s.drop_last()) + if is_meta_character(s.last()) {
            seq!['\\', s.last()]
        } else {
            seq![s.last()]
        }
    }
}

/// The error message `regex::Regex::new` gives for a pattern, or none when it compiles.
pub uninterp spec fn regex_compile_error(pattern: Seq<char>) -> Option<Seq<char>>;

/// Whether `regex::Regex::is_match` finds the pattern in the text.
pub uninterp spec fn regex_is_match(pattern: Seq<char>, text: Seq<char>) -> bool;

/// The text `regex::Regex::replace_all` gives for a pattern, a text and a replacement.
pub uninterp spec fn regex_replace_all(pattern: Seq<char>, text: Seq<char>, replacement: Seq<char>) -> Seq<char>;

/// `regex::escape`: the text with a backslash put before each meta character,
/// as regex-syntax's `escape_into` does.
#[verifier::external_body]
fn regex_escape(s: &str) -> (r: String)
    ensures
        r@ == escape_text(s@),
{
    regex::escape(s)
}

/// A compiled regular expression and the pattern it was compiled from.
pub struct Pattern {
    re: regex::Regex,
    source: String,
}

impl Pattern {
    /// The pattern this was compiled from.
    pub closed spec fn text(&self) -> Seq<char> {
        self.source@
    }
}

/// `regex::Regex::new`: compiles when the pattern is valid; otherwise the
/// error's text. Which patterns compile, and with which message, is not stated.
#[verifier::external_body]
pub(crate) fn compile(pattern: &str) -> (r: Result<Pattern, String>)
    ensures
        r is Ok <==> regex_compile_error(pattern@) is None,
        r matches Ok(p) ==> p.text() == pattern@,
        r matches Err(e) ==> regex_compile_error(pattern@) == Some(e@),
{
    match regex::Regex::new(pattern) {
        Ok(re) => Ok(Pattern { re, source: pattern.to_string() }),
        Err(e) => Err(e.to_string()),
    }
}

/// `regex::Regex::is_match`.
#[verifier::external_body]
fn pattern_is_match(p: &Pattern, text: &str) -> (r: bool)
    ensures
        r == regex_is_match(p.text(), text@),
{
    p.re.is_match(text)
}

/// The capture groups of the leftmost match of a pattern in a text, group 0
/// (the whole match) first, each absent when it took no part in the match;
/// none when the pattern does not match.
pub uninterp spec fn regex_captures(pattern: Seq<char>, text: Seq<char>) -> Option<Seq<Option<Seq<char>>>>;

/// `regex::Regex::captures`, each group's text copied out.
#[verifier::external_body]
pub(crate) fn pattern_captures(p: &Pattern, text: &str) -> (r: Option<Vec<Option<String>>>)
    ensures
        r is Some <==> regex_captures(p.text(), text@) is Some,
        r matches Some(v) ==> regex_captures(p.text(), text@) matches Some(c) && c == v@.map_values(
            |o: Option<String>| opt_view(o),
        ),
{
    p.re.captures(text).map(|c| c.iter().map(|m| m.map(|m| m.as_str().to_string())).collect())
}

/// `regex::Regex::replace_all`, with `$1`-style references in the replacement.
#[verifier::external_body]
fn pattern_replace_all(p: &Pattern, text: &str, replacement: &str) -> (r: String)
    ensures
        r@ == regex_replace_all(p.text(), text@, replacement@),
{
    p.re.replace_all(text, replacement).into_owned()
}

/// An action pinned to a commit, with the version it was resolved from.
#[derive(Debug, Clone, PartialEq, Eq)]
pub struct ResolvedAction {
    pub id: ActionId,
    pub sha: CommitSha,
    pub version: Option<Version>,
}

/// What a pin is written as after `@`: the SHA, and the version as a comment when known.
pub open spec fn uses_ref_text(a: ResolvedAction) -> Seq<char> {
    match a.version {
        Some(v) => a.sha@ + " # "@ + v@,
        None => a.sha@,
    }
}

/// What `action` is written as after `@`.
pub fn format_uses_ref(action: &ResolvedAction) -> (r: String)
    ensures
        r@ == uses_ref_text(*action),
{
    let mut s = copy_string(&action.sha.0);
    match &action.version {
        Some(v) => {
            s.append(" # ");
            s.append(v.as_str());
        },
        None => {},
    }
    s
}

/// The pins as action to reference text; of two pins of one action the later wins.
pub fn pins_to_map(pins: &Vec<ResolvedAction>) -> (r: Vec<(ActionId, String)>)
    ensures
        distinct_keys(r@),
        map_of(r@) == pin_map(pins@),
{
    let mut out: Vec<(ActionId, String)> = Vec::new();
    let mut i: usize = 0;
    while i < pins.len()
        invariant
            i <= pins@.len(),
            distinct_keys(out@),
            map_of(out@) == pin_map(pins@.take(i as int)),
        decreases pins@.len() - i,
    {
        proof {
            assert(pins@.take(i + 1).drop_last() =~= pins@.take(i as int));
        }
        assoc_set(&mut out, pins[i].id.copy(), format_uses_ref(&pins[i]));
        i = i + 1;
    }
    assert(pins@.take(pins@.len() as int) =~= pins@);
    out
}

/// Action to reference text for a list of pins; the later of two pins of one action wins.
pub open spec fn pin_map(s: Seq<ResolvedAction>) -> Map<Seq<char>, Seq<char>>
    decreases s.len(),
{
    if s.len() == 0 {
        Map::empty()
    } else {
        pin_map(s.drop_last()).insert(s.last().id@, uses_ref_text(s.last()))
    }
}

/// The pattern that finds `uses: <action>@<ref>` with any trailing comment.
pub open spec fn uses_pattern(action: Seq<char>) -> Seq<char> {
    "(uses:\\s*"@ + escape_text(action) + ")@[^\\s#]+(\\s*#[^\\n]*)?"@
}

/// What a match is replaced by: the `uses: <action>` part, `@`, the new reference.
pub open spec fn uses_replacement(reference: Seq<char>) -> Seq<char> {
    "${1}@"@ + reference
}

/// How a change to one action is reported.
pub open spec fn change_label(action: Seq<char>, reference: Seq<char>) -> Seq<char> {
    action + "@"@ + reference
}

/// The first pattern among the first `n` pins that does not compile, with its error.
pub open spec fn first_compile_error(pins: Seq<(ActionId, String)>, n: int) -> Option<Seq<char>>
    decreases n,
{
    if n <= 0 {
        None
    } else {
        match first_compile_error(pins, n - 1) {
            Some(e) => Some(e),
            None => regex_compile_error(uses_pattern(pins[n - 1].0@)),
        }
    }
}

/// The content and the changes after rewriting the first `n` pins, in order:
/// a pin whose pattern matches and whose replacement changes the text
/// replaces the text and is reported.
pub open spec fn rewrite(content: Seq<char>, pins: Seq<(ActionId, String)>, n: int) -> (Seq<char>, Seq<Seq<char>>)
    decreases n,
{
    if n <= 0 {
        (content, Seq::empty())
    } else {
        let (text, changes) = rewrite(content, pins, n - 1);
        let (action, reference) = pins[n - 1];
        let p = uses_pattern(action@);
        if regex_is_match(p, text) && regex_replace_all(p, text, uses_replacement(reference@)) != text {
            (
                regex_replace_all(p, text, uses_replacement(reference@)),
                changes.push(change_label(action@, reference@)),
            )
        } else {
            (text, changes)
        }
    }
}

/// Why workflows could not be scanned, parsed or updated.
#[derive(Debug, Clone, PartialEq, Eq)]
pub enum WorkflowError {
    ScanFailed { reason: String },
    ParseFailed { path: String, reason: String },
    UpdateFailed { path: String, reason: String },
}

fn build_pattern(action: &ActionId) -> (r: String)
    ensures
        r@ == uses_pattern(action@),
{
    let mut p = String::from_str("(uses:\\s*");
    let escaped = regex_escape(action.as_str());
    p.append(escaped.as_str());
    p.append(")@[^\\s#]+(\\s*#[^\\n]*)?");
    p
}

/// Rewrite the `uses:` references of one workflow's content to the given pins,
/// in order, with the changes made; every pattern is compiled first, and the
/// first that does not compile fails the update.
pub fn update_content(content: String, pins: &Vec<(ActionId, String)>) -> (r: Result<(String, Vec<String>), WorkflowError>)
    ensures
        first_compile_error(pins@, pins@.len() as int) matches Some(e) ==> (r matches Err(
            WorkflowError::UpdateFailed { path, reason },
        ) && path@.len() == 0 && reason@ == e),
        first_compile_error(pins@, pins@.len() as int) is None ==> (r matches Ok((text, changes))
            && (text@, changes@.map_values(|c: String| c@)) == rewrite(content@, pins@, pins@.len() as int)),
{
    let mut compiled: Vec<Pattern> = Vec::new();
    let mut i: usize = 0;
    while i < pins.len()
        invariant
            i <= pins@.len(),
            first_compile_error(pins@, i as int) is None,
            compiled@.len() == i,
            forall|j: int| 0 <= j < i ==> (#[trigger] compiled@[j]).text() == uses_pattern(pins@[j].0@),
        decreases pins@.len() - i,
    {
        let pattern = build_pattern(&pins[i].0);
        match compile(pattern.as_str()) {
            Ok(p) => compiled.push(p),
            Err(e) => {
                proof {
                    lemma_compile_error_stays(pins@, i as int + 1);
                }
                return Err(WorkflowError::UpdateFailed { path: String::new(), reason: e });
            },
        }
        i = i + 1;
    }
    let mut text = content;
    let mut changes: Vec<String> = Vec::new();
    let mut i: usize = 0;
    while i < pins.len()
        invariant
            i <= pins@.len(),
            compiled@.len() == pins@.len(),
            forall|j: int| 0 <= j < pins@.len() ==> (#[trigger] compiled@[j]).text() == uses_pattern(pins@[j].0@),
            (text@, changes@.map_values(|c: String| c@)) == rewrite(content@, pins@, i as int),
        decreases pins@.len() - i,
    {
        let p = &compiled[i];
        let (action, reference) = (&pins[i].0, &pins[i].1);
        let ghost before = changes@.map_values(|c: String| c@);
        if pattern_is_match(p, text.as_str()) {
            let mut replacement = String::from_str("${1}@");
            replacement.append(reference.as_str());
            let replaced = pattern_replace_all(p, text.as_str(), replacement.as_str());
            if !(replaced == text) {
                let mut label = copy_string(&action.0);
                label.append("@");
                label.append(reference.as_str());
                changes.push(label);
                text = replaced;
                proof {
                    assert(changes@.map_values(|c: String| c@) =~= before.push(change_label(action@, reference@)));
                }
            }
        }
        i = i + 1;
    }
    Ok((text, changes))
}

/// Once a pattern fails to compile, it is the first failure of every longer list.
proof fn lemma_compile_error_stays(pins: Seq<(ActionId, String)>, n: int)
    requires
        0 <= n <= pins.len(),
        first_compile_error(pins, n) is Some,
    ensures
        first_compile_error(pins, pins.len() as int) == first_compile_error(pins, n),
    decreases pins.len() - n,
{
    if n < pins.len() {
        lemma_compile_error_stays(pins, n + 1);
    }
}

/// What updating one workflow file changed.
#[derive(Debug, Clone, PartialEq, Eq)]
pub struct UpdateResult {
    pub file: String,
    pub changes: Vec<String>,
}

/// The results that changed something, in order.
pub fn keep_changed(results: Vec<UpdateResult>) -> (r: Vec<UpdateResult>)
    ensures
        r@ == results@.filter(|u: UpdateResult| u.changes@.len() > 0),
{
    let mut out: Vec<UpdateResult> = Vec::new();
    let ghost orig = results@;
    let mut rest = results;
    let ghost mut taken: int = 0;
    assert(orig.take(0).filter(|u: UpdateResult| u.changes@.len() > 0) =~= Seq::<UpdateResult>::empty());
    while rest.len() > 0
        invariant
            0 <= taken <= orig.len(),
            rest@ == orig.skip(taken),
            out@ == orig.take(taken).filter(|u: UpdateResult| u.changes@.len() > 0),
        decreases rest.len(),
    {
        let u = rest.remove(0);
        proof {
            assert(orig[taken] == u);
            assert(orig.take(taken + 1).drop_last() =~= orig.take(taken));
            reveal(Seq::filter);
            taken = taken + 1;
            assert(rest@ =~= orig.skip(taken));
        }
        if u.changes.len() > 0 {
            out.push(u);
        }
    }
    assert(orig.take(taken) =~= orig);
    out
}

/// `dir` joined with the relative path `rest`, as `Path::join` does.
pub open spec fn path_join(dir: Seq<char>, rest: Seq<char>) -> Seq<char> {
    if dir.len() == 0 {
        rest
    } else if dir.last() == '/' {
        dir + rest
    } else {
        dir + "/"@ + rest
    }
}

/// `dir` joined with the relative path `rest`.
pub fn join_path(dir: &str, rest: &str) -> (r: String)
    ensures
        r@ == path_join(dir@, rest@),
{
    let v = crate::text::chars_of(dir);
    let mut s = String::from_str(dir);
    if v.len() == 0 {
        return String::from_str(rest);
    }
    if v[v.len() - 1] != '/' {
        s.append("/");
    }
    s.append(rest);
    s
}

/// Rewrites the workflows under a repository's `.github/workflows`.
pub struct WorkflowWriter {
    workflows_dir: String,
}

impl WorkflowWriter {
    /// The directory the workflows are in.
    pub closed spec fn dir(&self) -> Seq<char> {
        self.workflows_dir@
    }

    pub fn new(repo_root: &str) -> (r: Self)
        ensures
            r.dir() == path_join(path_join(repo_root@, ".github"@), "workflows"@),
    {
        let github = join_path(repo_root, ".github");
        WorkflowWriter { workflows_dir: join_path(github.as_str(), "workflows") }
    }

    pub fn workflows_dir(&self) -> (r: &str)
        ensures
            r@ == self.dir(),
    {
        self.workflows_dir.as_str()
    }
}

} // verus!
