//! The `init` command: refusing to run twice, what it announces, and the
//! report it ends with.

use vstd::prelude::*;
use crate::text::{decimal, push_decimal};
use vstd::string::StringExecFns;

verus! {

/// One line of a command's output.
#[derive(Debug, Clone, PartialEq, Eq)]
pub enum OutputLine {
    Blank,
    Summary { text: String },
}

/// What `init` did: how many actions it found, and whether it wrote the manifest.
#[derive(Debug, Clone, Default, PartialEq, Eq)]
pub struct InitReport {
    pub actions_discovered: usize,
    pub created: bool,
}

/// The summary line of a successful `init`.
pub open spec fn created_summary(n: nat) -> Seq<char> {
    decimal(n) + " action"@ + (if n == 1 { ""@ } else { "s"@ }) + " discovered · manifest created"@
}

impl InitReport {
    /// The lines shown for this report: without a manifest written, one line
    /// saying nothing was found; otherwise a blank line and the count.
    pub fn render(&self) -> (r: Vec<OutputLine>)
        ensures
            !self.created ==> r@.len() == 1 && (r@[0] matches OutputLine::Summary { text } && text@
                == "No actions found in workflows"@),
            self.created ==> r@.len() == 2 && r@[0] is Blank && (r@[1] matches OutputLine::Summary {
                text,
            } && text@ == created_summary(self.actions_discovered as nat)),
    {
        let mut lines: Vec<OutputLine> = Vec::new();
        if !self.created {
            lines.push(OutputLine::Summary { text: String::from_str("No actions found in workflows") });
            return lines;
        }
        lines.push(OutputLine::Blank);
        let n = self.actions_discovered;
        let mut text = String::new();
        push_decimal(&mut text, n as u64);
        text.append(" action");
        if n == 1 {
            text.append("");
        } else {
            text.append("s");
        }
        text.append(" discovered · manifest created");
        lines.push(OutputLine::Summary { text });
        lines
    }
}

/// Why `init` stopped.
#[derive(Debug, Clone, PartialEq, Eq)]
pub enum InitError {
    /// A manifest exists already.
    AlreadyInitialized,
    /// A step after the checks failed, with its message.
    Failed(String),
}

impl InitError {
    pub open spec fn spec_message(&self) -> Seq<char> {
        match self {
            InitError::AlreadyInitialized => "already initialized — use `gx tidy` to update"@,
            InitError::Failed(m) => m@,
        }
    }

    /// The message shown for this error.
    pub fn message(&self) -> (r: String)
        ensures
            r@ == self.spec_message(),
    {
        match self {
            InitError::AlreadyInitialized => String::from_str("already initialized — use `gx tidy` to update"),
            InitError::Failed(m) => String::from_str(m.as_str()),
        }
    }
}

/// The `init` command.
#[derive(Debug, Clone, Copy, Default)]
pub struct Init;

/// What `init` announces before it starts.
pub open spec fn start_notices(has_token: bool) -> Seq<Seq<char>> {
    if has_token {
        seq!["Reading actions from workflows into the manifest..."@]
    } else {
        seq![
            "Reading actions from workflows into the manifest..."@,
            "Warning: No GITHUB_TOKEN set — using unauthenticated GitHub API (60 requests/hour limit)."@,
        ]
    }
}

impl Init {
    /// Whether `init` may run, and what it announces first: it refuses when a
    /// manifest exists, and warns when no GitHub token is set.
    pub fn start(&self, manifest_exists: bool, has_token: bool) -> (r: Result<Vec<String>, InitError>)
        ensures
            manifest_exists ==> r == Err::<Vec<String>, InitError>(InitError::AlreadyInitialized),
            !manifest_exists ==> (r matches Ok(v) && v@.map_values(|s: String| s@) == start_notices(
                has_token,
            )),
    {
        if manifest_exists {
            return Err(InitError::AlreadyInitialized);
        }
        let mut notices: Vec<String> = Vec::new();
        notices.push(String::from_str("Reading actions from workflows into the manifest..."));
        if !has_token {
            notices.push(
                String::from_str(
                    "Warning: No GITHUB_TOKEN set — using unauthenticated GitHub API (60 requests/hour limit).",
                ),
            );
        }
        assert(notices@.map_values(|s: String| s@) =~= start_notices(has_token));
        Ok(notices)
    }

    /// The report of a run that planned `actions_added` new actions; the
    /// manifest is written only when the plan changes something.
    pub fn report(&self, actions_added: usize, plan_is_empty: bool) -> (r: InitReport)
        ensures
            r.actions_discovered == actions_added,
            r.created == !plan_is_empty,
    {
        InitReport { actions_discovered: actions_added, created: !plan_is_empty }
    }
}

} // verus!
