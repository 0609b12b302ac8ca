//! Diagnostics summarization and tabular report rendering.
//!
//! Given a stream of diagnostics (each tagged with an optional file, an
//! optional category, a severity and a verbosity flag) and the execution
//! mode the tool ran in, this library groups diagnostics per file, tallies
//! how often each lint rule fired and whether formatting issues exist, and
//! renders a deterministic, column-aligned text report as a sequence of
//! styled markup fragments. Writing those fragments to a console is left
//! to the caller.

mod aggregate;
mod files;
mod laws;
mod model;
mod render;
mod tally;
mod text;

pub use aggregate::{
    aggregate, category_of, file_of, format_eligible, has_location, is_format_category,
    is_lint_category, lemma_step_props, lint_eligible, spec_aggregate, spec_step,
};
pub use files::{
    FileToDiagnostics, SummaryDiagnostics, SummaryV, counts_bounded, empty_summary, file_summary,
    files_wf, has_file, lemma_file_insert_format_props, lemma_file_insert_lint_props,
    lemma_file_summary_props, lemma_track_props, spec_file_insert_format, spec_file_insert_lint,
    spec_track, summary_bounded, summary_wf,
};
pub use laws::{
    count_column_offset, format_applies, lemma_aggregate_keys, lemma_aggregate_twice_counts,
    lemma_aggregate_wf, lemma_mode_gating, lemma_step_keys, lemma_step_lint_count,
    lemma_table_alignment, lemma_table_rows_descend, lemma_unattributable_ignored, spec_pad_of,
    table_row_name,
};
pub use model::{Diagnostic, DiagnosticsPayload, ExecutionMode, Severity, TraversalSummary};
pub use render::{
    MarkupFragment, StyleRole, NAME_PADDING, TAB_WIDTH, frags, render_file_to_diagnostics,
    render_lints, render_summary_diagnostics, report_diagnostics, report_summary, spec_file_block,
    spec_file_blocks, spec_pad, spec_render_files, spec_render_lints, spec_render_summary,
    spec_report_summary, spec_row, spec_rows,
};
pub use tally::{
    LintsByCategory, RuleName, display_before, has_rule, lints_wf, rule_count, same_rule,
    spec_insert_lint,
};
pub use text::{
    decimal, has_prefix, lex_lt, spaces, spec_dec, spec_digit, spec_has_prefix, spec_spaces,
    str_lex_cmp,
};
