//! The shell-script analysis seam: which shell a `run:` body is checked as, how
//! `${{ ... }}` expressions are blanked before analysis, and how raw analyzer
//! output becomes findings.

use vstd::prelude::*;
use crate::text::{chars_of, str_is, push_char, string_of, utf8_width, char_width, byte_len,
    count_char, lemma_byte_len_concat, lemma_count_char_concat};
use vstd::string::StringExecFns;

verus! {

/// The shell dialect a `run:` body is analyzed as.
#[derive(Debug, Clone, Copy, PartialEq, Eq)]
pub enum Sh {
    Bash,
    Sh,
}

impl Sh {
    /// Parse an effective-shell token; `None` for shells other than `bash` and `sh`.
    pub fn from_token(token: &str) -> (r: Option<Sh>)
        ensures
            r == (if token@ == "bash"@ {
                Some(Sh::Bash)
            } else if token@ == "sh"@ {
                Some(Sh::Sh)
            } else {
                None
            }),
    {
        if str_is(token, "bash") {
            Some(Sh::Bash)
        } else if str_is(token, "sh") {
            Some(Sh::Sh)
        } else {
            None
        }
    }

    /// The `--shell` argument value.
    pub open spec fn spec_flag(self) -> Seq<char> {
        match self {
            Sh::Bash => "bash"@,
            Sh::Sh => "sh"@,
        }
    }

    /// The `--shell` argument value.
    pub fn flag(self) -> (r: &'static str)
        ensures
            r@ == self.spec_flag(),
    {
        match self {
            Sh::Bash => "bash",
            Sh::Sh => "sh",
        }
    }

    /// The runtime setup line GitHub prepends before running a body in this shell.
    pub open spec fn spec_setup_line(self) -> Seq<char> {
        match self {
            Sh::Bash => "set -eo pipefail"@,
            Sh::Sh => "set -e"@,
        }
    }

    /// The runtime setup line GitHub prepends before running a body in this shell.
    pub fn setup_line(self) -> (r: &'static str)
        ensures
            r@ == self.spec_setup_line(),
    {
        match self {
            Sh::Bash => "set -eo pipefail",
            Sh::Sh => "set -e",
        }
    }
}

/// Analyzer severity, as reported in its JSON `level` field.
#[derive(Debug, Clone, Copy, PartialEq, Eq)]
pub enum Severity {
    Error,
    Warning,
    Info,
    Style,
}

/// Map the analyzer's `level` string to a [`Severity`]; unknown levels are `Info`.
pub fn parse_severity(level: &str) -> (r: Severity)
    ensures
        r == (if level@ == "error"@ {
            Severity::Error
        } else if level@ == "warning"@ {
            Severity::Warning
        } else if level@ == "style"@ {
            Severity::Style
        } else {
            Severity::Info
        }),
{
    if str_is(level, "error") {
        Severity::Error
    } else if str_is(level, "warning") {
        Severity::Warning
    } else if str_is(level, "style") {
        Severity::Style
    } else {
        Severity::Info
    }
}

/// One analyzer finding. `line`/`column` are 1-based positions in the user's script.
#[derive(Debug, Clone, PartialEq, Eq)]
pub struct Finding {
    /// The numeric part of the `SCxxxx` code.
    pub code: u16,
    pub severity: Severity,
    pub line: i64,
    pub column: i64,
    pub message: String,
}

/// One entry of the analyzer's JSON array, holding only the fields gx maps.
#[derive(Debug, Clone)]
pub struct RawComment {
    /// 1-based line in the analyzed input (which includes the prepended setup line).
    pub line: i64,
    pub column: i64,
    pub level: String,
    pub code: u16,
    pub message: String,
}

/// The user-script line a reported line maps to: one less, to undo the prepended
/// setup line, and never below 1.
pub open spec fn script_line(reported: i64) -> i64 {
    if reported <= 1 {
        1
    } else {
        (reported - 1) as i64
    }
}

/// The finding a raw entry becomes.
pub open spec fn finding_of(c: RawComment) -> Finding {
    Finding {
        code: c.code,
        severity: if c.level@ == "error"@ {
            Severity::Error
        } else if c.level@ == "warning"@ {
            Severity::Warning
        } else if c.level@ == "style"@ {
            Severity::Style
        } else {
            Severity::Info
        },
        line: script_line(c.line),
        column: c.column,
        message: c.message,
    }
}

/// Turn decoded analyzer entries into findings, one for one and in order,
/// shifting each line back over the prepended setup line (clamped to 1).
pub fn findings_from_raw(raw: Vec<RawComment>) -> (out: Vec<Finding>)
    ensures
        out.len() == raw.len(),
        forall|i: int| 0 <= i < raw.len() ==> #[trigger] out@[i] == finding_of(raw@[i]),
{
    let mut out: Vec<Finding> = Vec::new();
    let mut i: usize = 0;
    while i < raw.len()
        invariant
            i <= raw.len(),
            out.len() == i,
            forall|j: int| 0 <= j < i ==> #[trigger] out@[j] == finding_of(raw@[j]),
        decreases raw.len() - i,
    {
        let c = &raw[i];
        let line = if c.line <= 1 { 1 } else { c.line - 1 };
        let severity = parse_severity(c.level.as_str());
        out.push(Finding {
            code: c.code,
            severity,
            line,
            column: c.column,
            message: c.message.clone(),
        });
        i = i + 1;
    }
    out
}

/// The text fed to the analyzer: the shell's setup line, a newline, then the script.
pub open spec fn spec_analyzer_input(script: Seq<char>, shell: Sh) -> Seq<char> {
    shell.spec_setup_line() + seq!['\n'] + script
}

/// Build the text fed to the analyzer for `script` run as `shell`.
pub fn analyzer_input(script: &str, shell: Sh) -> (r: String)
    ensures
        r@ == spec_analyzer_input(script@, shell),
{
    let mut input = String::from_str(shell.setup_line());
    push_char(&mut input, '\n');
    input.append(script);
    input
}

/// Codes excluded on every invocation: artifacts of gx's own preprocessing.
pub const EXCLUDED_CODES: &'static str = "SC1091,SC2194,SC2050,SC2153,SC2154,SC2157,SC2043";

/// The argument list the analyzer is invoked with for `shell`, reading the script on stdin.
pub fn analyzer_args(shell: Sh) -> (r: Vec<&'static str>)
    ensures
        r.len() == 9,
        r@[0]@ == "--norc"@,
        r@[1]@ == "-f"@,
        r@[2]@ == "json"@,
        r@[3]@ == "-x"@,
        r@[4]@ == "--shell"@,
        r@[5]@ == shell.spec_flag(),
        r@[6]@ == "-e"@,
        r@[7]@ == EXCLUDED_CODES@,
        r@[8]@ == "-"@,
{
    let mut r: Vec<&'static str> = Vec::new();
    r.push("--norc");
    r.push("-f");
    r.push("json");
    r.push("-x");
    r.push("--shell");
    r.push(shell.flag());
    r.push("-e");
    r.push(EXCLUDED_CODES);
    r.push("-");
    r
}

/// Adapter description for the system analyzer binary.
pub struct ShellcheckCli {
    /// The binary name or path to invoke.
    pub program: String,
}

impl ShellcheckCli {
    /// An adapter targeting `shellcheck` on `PATH`.
    pub fn new() -> (r: Self)
        ensures
            r.program@ == "shellcheck"@,
    {
        ShellcheckCli { program: String::from_str("shellcheck") }
    }
}

impl Default for ShellcheckCli {
    fn default() -> (r: Self)
        ensures
            r.program@ == "shellcheck"@,
    {
        Self::new()
    }
}

/// Static analyzer over a single shell script; an empty result means "clean".
pub trait ShellChecker {
    /// Analyze `script` as `shell` and return all findings.
    fn check(&self, script: &str, shell: Sh) -> Vec<Finding>;
}

/// Whether the analyzer is usable on this host.
pub enum Availability {
    Present(ShellcheckCli),
    Absent,
}

impl Availability {
    /// Decide availability from whether `shellcheck --version` ran successfully.
    pub fn probe(runs: bool) -> (r: Self)
        ensures
            runs ==> (r matches Availability::Present(cli) && cli.program@ == "shellcheck"@),
            !runs ==> r is Absent,
    {
        if runs {
            Availability::Present(ShellcheckCli::new())
        } else {
            Availability::Absent
        }
    }
}

// ---------------------------------------------------------------------------
// Expression blanking
// ---------------------------------------------------------------------------

/// An expression opener `${{` starts at position `k`.
pub open spec fn opens_at(s: Seq<char>, k: int) -> bool {
    0 <= k && k + 2 < s.len() && s[k] == '$' && s[k + 1] == '{' && s[k + 2] == '{'
}

/// Position of the first `}}` starting at or after `from`, or -1 when there is none.
pub open spec fn first_close(s: Seq<char>, from: int) -> int
    decreases s.len() - from,
{
    if from < 0 || from + 1 >= s.len() {
        -1
    } else if s[from] == '}' && s[from + 1] == '}' {
        from
    } else {
        first_close(s, from + 1)
    }
}

/// A close found by `first_close` lies at or after where the search started.
pub proof fn lemma_first_close_range(s: Seq<char>, from: int)
    ensures
        first_close(s, from) == -1 || (0 <= from <= first_close(s, from) && first_close(s, from)
            + 1 < s.len() && s[first_close(s, from)] == '}' && s[first_close(s, from) + 1]
            == '}'),
    decreases s.len() - from,
{
    if from < 0 || from + 1 >= s.len() {
    } else if s[from] == '}' && s[from + 1] == '}' {
    } else {
        lemma_first_close_range(s, from + 1);
    }
}

/// The half-open character spans of the complete `${{ ... }}` expressions at or
/// after position `k`, scanning left to right; each closes at the first `}}`
/// after its opener, and scanning resumes after that close.
pub open spec fn spans_from(s: Seq<char>, k: int) -> Seq<(int, int)>
    decreases s.len() - k,
{
    if k < 0 || k >= s.len() {
        seq![]
    } else if opens_at(s, k) && first_close(s, k + 3) >= 0 {
        proof {
            lemma_first_close_range(s, k + 3);
        }
        seq![(k, first_close(s, k + 3) + 2)] + spans_from(s, first_close(s, k + 3) + 2)
    } else {
        spans_from(s, k + 1)
    }
}

/// The expression spans of the whole script.
pub open spec fn expression_spans_of(s: Seq<char>) -> Seq<(int, int)> {
    spans_from(s, 0)
}

/// Spans are ordered, non-empty, disjoint, and lie within `[k, s.len())`.
pub open spec fn spans_well_formed(sp: Seq<(int, int)>, k: int, n: int) -> bool {
    &&& forall|m: int| 0 <= m < sp.len() ==> k <= (#[trigger] sp[m]).0 && sp[m].0 < sp[m].1
        && sp[m].1 <= n
    &&& forall|m: int, q: int| 0 <= m < q < sp.len() ==> (#[trigger] sp[m]).1 <= (#[trigger] sp[q]).0
}

pub proof fn lemma_spans_well_formed(s: Seq<char>, k: int)
    requires
        0 <= k,
    ensures
        spans_well_formed(spans_from(s, k), k, s.len() as int),
    decreases s.len() - k,
{
    if k >= s.len() {
    } else if opens_at(s, k) && first_close(s, k + 3) >= 0 {
        lemma_first_close_range(s, k + 3);
        let e = first_close(s, k + 3) + 2;
        lemma_spans_well_formed(s, e);
        let rest = spans_from(s, e);
        let all = seq![(k, e)] + rest;
        assert(spans_from(s, k) == all);
        assert forall|m: int| 0 <= m < all.len() implies k <= (#[trigger] all[m]).0 && all[m].0
            < all[m].1 && all[m].1 <= s.len() by {
            if m > 0 {
                assert(all[m] == rest[m - 1]);
            }
        }
        assert forall|m: int, q: int| 0 <= m < q < all.len() implies (#[trigger] all[m]).1 <= (
        #[trigger] all[q]).0 by {
            assert(all[q] == rest[q - 1]);
            if m > 0 {
                assert(all[m] == rest[m - 1]);
            }
        }
    } else {
        lemma_spans_well_formed(s, k + 1);
    }
}

/// Position `i` lies inside one of the spans.
pub open spec fn in_spans(sp: Seq<(int, int)>, i: int) -> bool {
    exists|m: int| 0 <= m < sp.len() && (#[trigger] sp[m]).0 <= i < sp[m].1
}

/// What one character inside an expression becomes: a newline stays a newline,
/// anything else becomes one `_` per UTF-8 byte.
pub open spec fn blank_of(c: char) -> Seq<char> {
    if c == '\n' {
        seq!['\n']
    } else {
        Seq::new(utf8_width(c), |_i: int| '_')
    }
}

/// The output for the first `n` characters of `s`, given the expression spans.
pub open spec fn sanitized_prefix(s: Seq<char>, sp: Seq<(int, int)>, n: int) -> Seq<char>
    decreases n,
{
    if n <= 0 {
        seq![]
    } else {
        sanitized_prefix(s, sp, n - 1) + (if in_spans(sp, n - 1) {
            blank_of(s[n - 1])
        } else {
            seq![s[n - 1]]
        })
    }
}

/// `s` with every complete `${{ ... }}` expression blanked.
pub open spec fn sanitized(s: Seq<char>) -> Seq<char> {
    sanitized_prefix(s, expression_spans_of(s), s.len() as int)
}

/// Byte position of the first `}}` at or after `from`, computed.
fn find_close(s: &Vec<char>, from: usize) -> (r: Option<usize>)
    ensures
        r matches Some(j) ==> j == first_close(s@, from as int),
        r is None ==> first_close(s@, from as int) == -1,
{
    let mut j = from;
    while j < s.len() && j + 1 < s.len()
        invariant
            from <= j,
            first_close(s@, from as int) == first_close(s@, j as int),
        decreases s.len() - j,
    {
        if s[j] == '}' && s[j + 1] == '}' {
            return Some(j);
        }
        j = j + 1;
    }
    None
}

/// The spans of the complete expressions in `s`, in order.
fn expression_spans(s: &Vec<char>) -> (r: Vec<(usize, usize)>)
    ensures
        r.len() == expression_spans_of(s@).len(),
        forall|m: int| 0 <= m < r.len() ==> (#[trigger] r@[m]).0 as int == expression_spans_of(
            s@,
        )[m].0 && r@[m].1 as int == expression_spans_of(s@)[m].1,
{
    let ghost full = spans_from(s@, 0);
    let mut r: Vec<(usize, usize)> = Vec::new();
    let mut k: usize = 0;
    while k < s.len()
        invariant
            k <= s.len(),
            r.len() + spans_from(s@, k as int).len() == full.len(),
            forall|m: int| 0 <= m < r.len() ==> (#[trigger] r@[m]).0 as int == full[m].0 && r@[m].1
                as int == full[m].1,
            forall|m: int|
                0 <= m < spans_from(s@, k as int).len() ==> #[trigger] spans_from(s@, k as int)[m]
                    == full[r.len() + m],
            full == spans_from(s@, 0),
        decreases s.len() - k,
    {
        let ghost old_k = k as int;
        if s.len() - k > 2 && s[k] == '$' && s[k + 1] == '{' && s[k + 2] == '{' {
            match find_close(s, k + 3) {
                Some(j) => {
                    proof {
                        lemma_first_close_range(s@, old_k + 3);
                    }
                    let ghost rest = spans_from(s@, j + 2);
                    assert(spans_from(s@, old_k) == seq![(old_k, j + 2)] + rest);
                    assert(spans_from(s@, old_k)[0] == (old_k, j as int + 2));
                    r.push((k, j + 2));
                    k = j + 2;
                    assert forall|m: int| 0 <= m < rest.len() implies #[trigger] rest[m]
                        == full[r.len() + m] by {
                        assert(rest[m] == spans_from(s@, old_k)[m + 1]);
                    }
                },
                None => {
                    k = k + 1;
                },
            }
        } else {
            k = k + 1;
        }
    }
    r
}

/// Append the blanked form of one expression-interior character.
fn blank_char(out: &mut Vec<char>, ch: char)
    ensures
        final(out)@ == old(out)@ + blank_of(ch),
{
    if ch == '\n' {
        out.push('\n');
    } else {
        let w = char_width(ch);
        let ghost start = out@;
        let mut i: usize = 0;
        while i < w
            invariant
                i <= w,
                w == utf8_width(ch),
                out@ == start + Seq::new(i as nat, |_i: int| '_'),
            decreases w - i,
        {
            out.push('_');
            i = i + 1;
            assert(out@ =~= start + Seq::new(i as nat, |_i: int| '_'));
        }
    }
}

/// Replace every `${{ ... }}` expression in `script` with blanks of equal byte
/// length (newlines kept), so every later byte column and every line number is
/// unchanged; an unterminated opener is copied through.
pub fn sanitize_expressions(script: &str) -> (r: String)
    ensures
        r@ == sanitized(script@),
        byte_len(r@) == byte_len(script@),
        count_char(r@, '\n') == count_char(script@, '\n'),
{
    let s = chars_of(script);
    let spans = expression_spans(&s);
    let ghost sp = expression_spans_of(s@);
    proof {
        lemma_spans_well_formed(s@, 0);
    }
    let mut out: Vec<char> = Vec::new();
    let mut r: usize = 0;
    let mut i: usize = 0;
    while i < s.len()
        invariant
            i <= s.len(),
            r <= spans.len(),
            spans.len() == sp.len(),
            forall|m: int| 0 <= m < spans.len() ==> (#[trigger] spans@[m]).0 as int == sp[m].0
                && spans@[m].1 as int == sp[m].1,
            spans_well_formed(sp, 0, s.len() as int),
            forall|m: int| 0 <= m < r ==> (#[trigger] sp[m]).1 <= i,
            out@ == sanitized_prefix(s@, sp, i as int),
            byte_len(out@) == byte_len(s@.take(i as int)),
            count_char(out@, '\n') == count_char(s@.take(i as int), '\n'),
            sp == expression_spans_of(s@),
        decreases s.len() - i,
    {
        while r < spans.len() && spans[r].1 <= i
            invariant
                r <= spans.len(),
                spans.len() == sp.len(),
                forall|m: int| 0 <= m < spans.len() ==> (#[trigger] spans@[m]).0 as int == sp[m].0
                    && spans@[m].1 as int == sp[m].1,
                forall|m: int| 0 <= m < r ==> (#[trigger] sp[m]).1 <= i,
            decreases spans.len() - r,
        {
            r = r + 1;
        }
        let ch = s[i];
        let inside = r < spans.len() && spans[r].0 <= i && i < spans[r].1;
        proof {
            if inside {
                assert(sp[r as int].0 <= i < sp[r as int].1);
                assert(in_spans(sp, i as int));
            } else {
                assert forall|m: int| 0 <= m < sp.len() implies !((#[trigger] sp[m]).0 <= i && i
                    < sp[m].1) by {
                    if m < r {
                    } else if m == r {
                    } else {
                        assert(sp[r as int].1 <= sp[m].0);
                    }
                }
                assert(!in_spans(sp, i as int));
            }
        }
        let ghost before = out@;
        if inside {
            blank_char(&mut out, ch);
        } else {
            out.push(ch);
        }
        proof {
            let piece = if inside { blank_of(ch) } else { seq![ch] };
            assert(out@ == before + piece);
            lemma_byte_len_concat(before, piece);
            lemma_count_char_concat(before, piece, '\n');
            let t = s@.take(i as int + 1);
            assert(t.drop_last() == s@.take(i as int));
            assert(t.last() == ch);
            lemma_byte_len_concat(s@.take(i as int), seq![ch]);
            lemma_count_char_concat(s@.take(i as int), seq![ch], '\n');
            assert(s@.take(i as int) + seq![ch] == t);
            assert(byte_len(seq![ch]) == utf8_width(ch)) by {
                assert(seq![ch].drop_last() =~= Seq::<char>::empty());
            }
            assert(count_char(seq![ch], '\n') == (if ch == '\n' { 1nat } else { 0nat })) by {
                assert(seq![ch].drop_last() =~= Seq::<char>::empty());
            }
            if inside {
                if ch == '\n' {
                    assert(piece == seq![ch]);
                } else {
                    lemma_underscores(utf8_width(ch));
                }
            }
        }
        i = i + 1;
    }
    assert(s@.take(s.len() as int) == s@);
    string_of(&out)
}

/// A run of `n` underscores is `n` bytes and holds no newline.
proof fn lemma_underscores(n: nat)
    ensures
        byte_len(Seq::new(n, |_i: int| '_')) == n,
        count_char(Seq::new(n, |_i: int| '_'), '\n') == 0,
    decreases n,
{
    let u = Seq::new(n, |_i: int| '_');
    if n > 0 {
        lemma_underscores((n - 1) as nat);
        assert(u.drop_last() =~= Seq::new((n - 1) as nat, |_i: int| '_'));
    } else {
        assert(u =~= Seq::<char>::empty());
    }
}

} // verus!
