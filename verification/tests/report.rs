use summary_reporter::{
    Diagnostic, DiagnosticsPayload, ExecutionMode, FileToDiagnostics, LintsByCategory,
    MarkupFragment, Severity, StyleRole, TraversalSummary, aggregate, decimal, has_prefix,
    render_file_to_diagnostics, render_lints, report_diagnostics, report_summary, spaces,
    str_lex_cmp,
};

fn diag(file: Option<&str>, category: Option<&str>, severity: Severity, verbose: bool) -> Diagnostic {
    Diagnostic {
        file_path: file.map(|f| f.to_string()),
        category: category.map(|c| c.to_string()),
        severity,
        verbose,
    }
}

fn payload(diagnostics: Vec<Diagnostic>, verbose: bool, level: Severity) -> DiagnosticsPayload {
    DiagnosticsPayload { diagnostics, verbose, diagnostic_level: level }
}

fn text_of(frags: &[MarkupFragment]) -> String {
    let mut s = String::new();
    for f in frags {
        s.push_str(&f.text);
    }
    s
}

#[test]
fn unattributable_diagnostics_add_no_entry() {
    let p = payload(
        vec![
            diag(None, Some("lint/noUnusedVariables"), Severity::Error, false),
            diag(None, None, Severity::Fatal, false),
        ],
        false,
        Severity::Hint,
    );
    let files = aggregate(&ExecutionMode::Check, &p);
    assert_eq!(files.len(), 0);
}

#[test]
fn below_threshold_file_still_recorded() {
    let p = payload(
        vec![diag(Some("a.js"), Some("lint/noUnusedVariables"), Severity::Hint, false)],
        false,
        Severity::Warning,
    );
    let files = aggregate(&ExecutionMode::Check, &p);
    assert_eq!(files.len(), 1);
    assert_eq!(files.file_at(0), "a.js");
    let summary = files.get_summary("a.js");
    assert_eq!(summary.formats(), 0);
    assert_eq!(summary.lints().len(), 0);
}

#[test]
fn aggregating_twice_doubles_the_tally() {
    let d = diag(Some("a.js"), Some("lint/noVar"), Severity::Error, false);
    let d2 = diag(Some("a.js"), Some("lint/noVar"), Severity::Error, false);
    let p = payload(vec![d, d2], false, Severity::Hint);
    let files = aggregate(&ExecutionMode::Check, &p);
    let summary = files.get_summary("a.js");
    assert_eq!(summary.lints().len(), 1);
    assert_eq!(summary.lints().name_at(0), "lint/noVar");
    assert_eq!(summary.lints().count_at(0), 2);
}

#[test]
fn lint_tallied_in_check_lint_and_ci_never_in_format() {
    for mode in [ExecutionMode::Check, ExecutionMode::Lint, ExecutionMode::Ci] {
        let p = payload(
            vec![diag(Some("a.js"), Some("lint/noVar"), Severity::Error, false)],
            false,
            Severity::Warning,
        );
        let files = aggregate(&mode, &p);
        assert_eq!(files.get_summary("a.js").lints().count_at(0), 1);
    }
    let p = payload(
        vec![diag(Some("a.js"), Some("lint/noVar"), Severity::Error, false)],
        false,
        Severity::Warning,
    );
    let files = aggregate(&ExecutionMode::Format, &p);
    assert_eq!(files.get_summary("a.js").lints().len(), 0);
}

#[test]
fn verbose_diagnostic_skipped_without_verbose_request() {
    let p = payload(
        vec![diag(Some("a.js"), Some("lint/noVar"), Severity::Error, true)],
        false,
        Severity::Hint,
    );
    let files = aggregate(&ExecutionMode::Check, &p);
    assert_eq!(files.len(), 1);
    assert_eq!(files.get_summary("a.js").lints().len(), 0);
}

#[test]
fn verbose_lint_diagnostic_counted_exactly_once() {
    let p = payload(
        vec![diag(Some("a.js"), Some("lint/noVar"), Severity::Error, true)],
        true,
        Severity::Hint,
    );
    let files = aggregate(&ExecutionMode::Check, &p);
    assert_eq!(files.get_summary("a.js").lints().count_at(0), 1);
}

#[test]
fn verbose_lint_diagnostic_not_tallied_in_ci() {
    let p = payload(
        vec![diag(Some("a.js"), Some("lint/noVar"), Severity::Error, true)],
        true,
        Severity::Hint,
    );
    let files = aggregate(&ExecutionMode::Ci, &p);
    assert_eq!(files.get_summary("a.js").lints().len(), 0);
}

#[test]
fn format_diagnostics_counted_in_check_format_and_ci() {
    for mode in [ExecutionMode::Check, ExecutionMode::Format, ExecutionMode::Ci] {
        let p = payload(
            vec![diag(Some("a.js"), Some("format"), Severity::Warning, false)],
            false,
            Severity::Warning,
        );
        let files = aggregate(&mode, &p);
        assert_eq!(files.get_summary("a.js").formats(), 1);
    }
    let p = payload(
        vec![diag(Some("a.js"), Some("format"), Severity::Warning, false)],
        false,
        Severity::Warning,
    );
    let files = aggregate(&ExecutionMode::Lint, &p);
    assert_eq!(files.get_summary("a.js").formats(), 0);
}

#[test]
fn scenario_check_one_lint_one_format() {
    let p = payload(
        vec![
            diag(Some("a.js"), Some("lint/noUnusedVariables"), Severity::Error, false),
            diag(Some("a.js"), Some("format"), Severity::Warning, false),
        ],
        false,
        Severity::Warning,
    );
    let files = aggregate(&ExecutionMode::Check, &p);
    assert_eq!(files.len(), 1);
    assert_eq!(files.file_at(0), "a.js");
    let summary = files.get_summary("a.js");
    assert_eq!(summary.formats(), 1);
    assert_eq!(summary.lints().len(), 1);
    assert_eq!(summary.lints().name_at(0), "lint/noUnusedVariables");
    assert_eq!(summary.lints().count_at(0), 1);

    let out = report_diagnostics(&ExecutionMode::Check, &p);
    let text = text_of(&out);
    assert!(text.contains("Summarised report of diagnostics by file."));
    assert!(text.contains("\u{25b6} a.js\n"));
    assert!(text.contains("The file isn't formatted."));
    assert!(text.contains("Some lint rules were triggered"));
    assert!(text.contains("Rule Name"));
    assert!(text.contains("Diagnostics"));
    assert!(text.contains("lint/noUnusedVariables"));
    // exactly one table row: one count fragment of "1" before a newline
    let rows: Vec<&MarkupFragment> =
        out.iter().filter(|f| f.style == StyleRole::Emphasis && f.text.starts_with("lint/")).collect();
    assert_eq!(rows.len(), 1);
}

#[test]
fn file_sections_come_in_path_order() {
    let p = payload(
        vec![
            diag(Some("b.js"), Some("lint/noVar"), Severity::Error, false),
            diag(Some("a.js"), Some("lint/noVar"), Severity::Error, false),
            diag(Some("a/c.js"), None, Severity::Error, false),
        ],
        false,
        Severity::Hint,
    );
    let files = aggregate(&ExecutionMode::Check, &p);
    assert_eq!(files.len(), 3);
    assert_eq!(files.file_at(0), "a.js");
    assert_eq!(files.file_at(1), "a/c.js");
    assert_eq!(files.file_at(2), "b.js");
}

#[test]
fn equal_length_rule_names_stay_distinct_keys() {
    let p = payload(
        vec![
            diag(Some("a.js"), Some("lint/aa"), Severity::Error, false),
            diag(Some("a.js"), Some("lint/bb"), Severity::Error, false),
            diag(Some("a.js"), Some("lint/aa"), Severity::Error, false),
        ],
        false,
        Severity::Hint,
    );
    let files = aggregate(&ExecutionMode::Check, &p);
    let lints = files.get_summary("a.js").lints();
    assert_eq!(lints.len(), 2);
    assert_eq!(lints.name_at(0), "lint/aa");
    assert_eq!(lints.count_at(0), 2);
    assert_eq!(lints.name_at(1), "lint/bb");
    assert_eq!(lints.count_at(1), 1);
}

fn lints_with_lengths() -> LintsByCategory {
    // name lengths 3, 7 and 5
    let mut lints = LintsByCategory::new();
    lints.increment("abc");
    lints.increment("abcdefg");
    lints.increment("abcde");
    lints.increment("abcde");
    lints
}

#[test]
fn table_rows_descend_by_name_length() {
    let lints = lints_with_lengths();
    let mut out: Vec<MarkupFragment> = Vec::new();
    render_lints(&lints, &mut out);
    // eight header fragments, then five fragments per row; the name is the
    // second fragment of each row
    assert_eq!(out.len(), 8 + 3 * 5);
    assert_eq!(out[9].text, "abcdefg");
    assert_eq!(out[14].text, "abcde");
    assert_eq!(out[19].text, "abc");
    assert_eq!(out[9].style, StyleRole::Emphasis);
    // counts follow the padding fragment of each row
    assert_eq!(out[11].text, "1");
    assert_eq!(out[16].text, "2");
    assert_eq!(out[21].text, "1");
}

#[test]
fn count_column_starts_at_one_offset_on_every_row() {
    let lints = lints_with_lengths();
    let mut out: Vec<MarkupFragment> = Vec::new();
    render_lints(&lints, &mut out);
    let mut offsets: Vec<usize> = Vec::new();
    for row in 0..3 {
        let base = 8 + 5 * row;
        let offset = out[base].text.chars().count() + out[base + 1].text.chars().count()
            + out[base + 2].text.chars().count();
        offsets.push(offset);
    }
    // indentation (5) + longest name (7) + padding (15) + "Rule Name" (9)
    assert_eq!(offsets, vec![36, 36, 36]);
}

#[test]
fn empty_tally_renders_no_table() {
    let lints = LintsByCategory::new();
    let mut out: Vec<MarkupFragment> = Vec::new();
    render_lints(&lints, &mut out);
    assert!(out.is_empty());
}

#[test]
fn report_without_format_issues_has_no_notice() {
    let p = payload(
        vec![diag(Some("a.js"), Some("lint/noVar"), Severity::Error, false)],
        false,
        Severity::Hint,
    );
    let files = aggregate(&ExecutionMode::Check, &p);
    let out = render_file_to_diagnostics(&files);
    let text = text_of(&out);
    assert!(!text.contains("The file isn't formatted."));
}

#[test]
fn skipped_fixes_warning_in_check_mode() {
    let summary = TraversalSummary { suggested_fixes_skipped: 3, diagnostics_not_printed: 0 };
    let out = report_summary(&ExecutionMode::Check, &summary, "done.\n");
    let text = text_of(&out);
    assert!(text.contains("Skipped 3 suggested fixes.\n"));
    assert!(text.contains("If you wish to apply the suggested (unsafe) fixes, use the command "));
    assert!(text.contains("biome check --apply-unsafe\n"));
    assert!(text.ends_with("done.\n"));
}

#[test]
fn skipped_fixes_warning_omitted_outside_check_mode() {
    let summary = TraversalSummary { suggested_fixes_skipped: 3, diagnostics_not_printed: 0 };
    for mode in [ExecutionMode::Lint, ExecutionMode::Format, ExecutionMode::Ci] {
        let out = report_summary(&mode, &summary, "done.\n");
        let text = text_of(&out);
        assert!(!text.contains("Skipped"));
    }
}

#[test]
fn not_printed_warning_suppressed_in_ci() {
    let summary = TraversalSummary { suggested_fixes_skipped: 0, diagnostics_not_printed: 5 };
    let out = report_summary(&ExecutionMode::Ci, &summary, "done.\n");
    let text = text_of(&out);
    assert!(!text.contains("exceeds"));
    assert_eq!(text, "done.\n");
}

#[test]
fn not_printed_warning_shown_outside_ci() {
    let summary = TraversalSummary { suggested_fixes_skipped: 0, diagnostics_not_printed: 5 };
    let out = report_summary(&ExecutionMode::Lint, &summary, "done.\n");
    let text = text_of(&out);
    assert!(text.contains("The number of diagnostics exceeds the number allowed by Biome.\n"));
    assert!(text.contains("Diagnostics not shown: "));
    assert!(text.contains("5"));
}

#[test]
fn decimal_renders_exact_digits() {
    assert_eq!(decimal(0).as_str(), "0");
    assert_eq!(decimal(7).as_str(), "7");
    assert_eq!(decimal(10).as_str(), "10");
    assert_eq!(decimal(90127).as_str(), "90127");
}

#[test]
fn spaces_renders_a_run_of_spaces() {
    assert_eq!(spaces(0).as_str(), "");
    assert_eq!(spaces(5).as_str(), "     ");
}

#[test]
fn prefix_test_matches_starts_with() {
    assert!(has_prefix("lint/noVar", "lint/"));
    assert!(has_prefix("format", "format"));
    assert!(!has_prefix("lint", "lint/"));
    assert!(!has_prefix("style/noVar", "lint/"));
}

#[test]
fn lexicographic_comparison_orders_paths() {
    assert_eq!(str_lex_cmp("a.js", "b.js"), -1);
    assert_eq!(str_lex_cmp("b.js", "a.js"), 1);
    assert_eq!(str_lex_cmp("a.js", "a.js"), 0);
    assert_eq!(str_lex_cmp("a", "a.js"), -1);
}

#[test]
fn track_file_is_idempotent_on_the_map() {
    let mut files = FileToDiagnostics::new();
    files.track_file("a.js");
    files.track_file("a.js");
    assert_eq!(files.len(), 1);
    assert_eq!(files.get_summary("a.js").formats(), 0);
}
