use gx::shellcheck::{
    analyzer_args, analyzer_input, findings_from_raw, parse_severity, sanitize_expressions,
    Availability, RawComment, Severity, Sh, ShellcheckCli,
};

#[test]
fn sh_from_token() {
    assert_eq!(Sh::from_token("bash"), Some(Sh::Bash));
    assert_eq!(Sh::from_token("sh"), Some(Sh::Sh));
    assert_eq!(Sh::from_token("pwsh"), None);
    assert_eq!(Sh::from_token("python"), None);
}

#[test]
fn sanitize_blanks_expression_preserving_columns() {
    let got = sanitize_expressions("echo '${{ matrix.os }}'");
    assert_eq!(got, "echo '________________'");
    assert_eq!(got.len(), "echo '${{ matrix.os }}'".len());
}

#[test]
fn sanitize_preserves_newlines_inside_expression() {
    let src = "echo ${{\n  github.sha\n}}";
    let got = sanitize_expressions(src);
    assert_eq!(got.len(), src.len());
    assert_eq!(got.matches('\n').count(), 2);
    assert!(got.starts_with("echo _"));
}

#[test]
fn sanitize_leaves_plain_shell_untouched() {
    let src = "rm $RUNNER_TEMP/file";
    assert_eq!(sanitize_expressions(src), src);
}

#[test]
fn sanitize_leaves_unterminated_expression_untouched() {
    let src = "echo ${{ broken";
    assert_eq!(sanitize_expressions(src), src);
}

#[test]
fn sanitize_handles_multiple_expressions() {
    let got = sanitize_expressions("${{ a }}-${{ b }}");
    assert_eq!(got, "________-________");
}

#[test]
fn sanitize_blanks_multibyte_characters_one_underscore_per_byte() {
    let src = "x${{ é }}y";
    let got = sanitize_expressions(src);
    assert_eq!(got.len(), src.len());
    assert_eq!(got, "x_________y");
}

#[test]
fn sanitize_closes_at_first_double_brace() {
    assert_eq!(sanitize_expressions("${{ a }} }}"), "________ }}");
}

fn raw(line: i64, column: i64, level: &str, code: u16, message: &str) -> RawComment {
    RawComment {
        line,
        column,
        level: level.to_owned(),
        code,
        message: message.to_owned(),
    }
}

#[test]
fn parses_sample_offsetting_lines() {
    let findings = findings_from_raw(vec![
        raw(2, 6, "info", 2086, "Double quote to prevent globbing and word splitting."),
        raw(3, 4, "warning", 2086, "Double quote to prevent globbing and word splitting."),
    ]);
    assert_eq!(findings.len(), 2);
    assert_eq!(findings[0].line, 1);
    assert_eq!(findings[0].code, 2086);
    assert_eq!(findings[0].severity, Severity::Info);
    assert_eq!(findings[0].column, 6);
    assert_eq!(findings[1].line, 2);
    assert_eq!(findings[1].severity, Severity::Warning);
}

#[test]
fn empty_array_is_clean() {
    assert!(findings_from_raw(Vec::new()).is_empty());
}

#[test]
fn finding_on_setup_line_is_clamped_to_one() {
    let findings = findings_from_raw(vec![raw(1, 1, "error", 2148, "x")]);
    assert_eq!(findings[0].line, 1);
    let findings = findings_from_raw(vec![raw(i64::MIN, 1, "error", 2148, "x")]);
    assert_eq!(findings[0].line, 1);
}

#[test]
fn severity_mapping() {
    assert_eq!(parse_severity("error"), Severity::Error);
    assert_eq!(parse_severity("warning"), Severity::Warning);
    assert_eq!(parse_severity("style"), Severity::Style);
    assert_eq!(parse_severity("info"), Severity::Info);
    assert_eq!(parse_severity("mystery"), Severity::Info);
}

#[test]
fn analyzer_input_prepends_setup_line() {
    assert_eq!(analyzer_input("echo hi", Sh::Bash), "set -eo pipefail\necho hi");
    assert_eq!(analyzer_input("echo hi", Sh::Sh), "set -e\necho hi");
}

#[test]
fn analyzer_args_name_shell_and_exclusions() {
    let args = analyzer_args(Sh::Sh);
    assert_eq!(
        args,
        vec![
            "--norc",
            "-f",
            "json",
            "-x",
            "--shell",
            "sh",
            "-e",
            "SC1091,SC2194,SC2050,SC2153,SC2154,SC2157,SC2043",
            "-"
        ]
    );
}

#[test]
fn probe_maps_runnable_binary_to_present() {
    assert!(matches!(Availability::probe(false), Availability::Absent));
    match Availability::probe(true) {
        Availability::Present(cli) => assert_eq!(cli.program, "shellcheck"),
        Availability::Absent => panic!("a runnable binary must be present"),
    }
    assert_eq!(ShellcheckCli::default().program, "shellcheck");
}
