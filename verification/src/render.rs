//! The report renderer: turns the per-file tally model and the run-level
//! counters into a deterministic sequence of styled markup fragments.
//! Writing fragments to a concrete console and styling them is the
//! caller's business; this module fixes exactly what is written.

use vstd::prelude::*;

use crate::aggregate::{aggregate, spec_aggregate};
use crate::files::{FileToDiagnostics, SummaryDiagnostics, SummaryV};
use crate::model::{DiagnosticsPayload, ExecutionMode, TraversalSummary};
use crate::tally::LintsByCategory;
use crate::text::{decimal, spaces, spec_dec, spec_spaces};

verus! {

/// Width of the indentation unit put before every rendered line.
pub const TAB_WIDTH: usize = 5;

/// Fixed padding added after the longest rule name when computing the
/// diagnostics-count column of the rule table.
pub const NAME_PADDING: usize = 15;

/// A named style role requested of the abstract text sink.
#[derive(Clone, Copy, Debug, PartialEq, Eq, Structural)]
pub enum StyleRole {
    Plain,
    Emphasis,
    Warn,
    Info,
    InfoEmphasis,
    InfoUnderline,
    InfoDim,
}

/// One styled piece of report text.
pub struct MarkupFragment {
    pub style: StyleRole,
    pub text: String,
}

impl View for MarkupFragment {
    type V = (StyleRole, Seq<char>);

    open spec fn view(&self) -> (StyleRole, Seq<char>) {
        (self.style, self.text@)
    }
}

/// The styled text carried by a fragment sequence.
pub open spec fn frags(v: Seq<MarkupFragment>) -> Seq<(StyleRole, Seq<char>)> {
    Seq::new(v.len(), |i: int| v[i]@)
}

/// Appends one styled fragment.
fn emit(out: &mut Vec<MarkupFragment>, style: StyleRole, text: String)
    ensures
        frags(final(out)@) == frags(old(out)@).push((style, text@)),
{
    let ghost t = text@;
    out.push(MarkupFragment { style, text });
    proof {
        assert(frags(out@) =~= frags(old(out)@).push((style, t)));
    }
}

/// The padding between a row's rule name and its count: the fixed padding,
/// the width of the column title, and the length the name falls short of
/// the longest one (so that all counts start at one character offset).
pub open spec fn spec_pad(name_len: nat, longest: nat) -> nat {
    if name_len <= longest {
        (longest - name_len + 24) as nat
    } else {
        24
    }
}

/// The fragments of one rule-table row.
pub open spec fn spec_row(name: Seq<char>, count: nat, longest: nat) -> Seq<
    (StyleRole, Seq<char>),
> {
    seq![
        (StyleRole::Plain, spec_spaces(5)),
        (StyleRole::Emphasis, name),
        (StyleRole::Plain, spec_spaces(spec_pad(name.len(), longest))),
        (StyleRole::Plain, spec_dec(count)),
        (StyleRole::Plain, "\n"@),
    ]
}

/// The rows for the tally entries at indices `i` down to `0`: the reverse
/// of the ascending display order, so the longest-named rules come first.
pub open spec fn spec_rows(s: Seq<(Seq<char>, nat)>, longest: nat, i: int) -> Seq<
    (StyleRole, Seq<char>),
>
    decreases i + 1,
{
    if i < 0 || i >= s.len() {
        Seq::empty()
    } else {
        spec_row(s[i].0, s[i].1, longest) + spec_rows(s, longest, i - 1)
    }
}

/// The rule table of one file: nothing for an empty tally, else a notice,
/// the two column titles, and one row per rule in descending name-length
/// order.
pub open spec fn spec_render_lints(s: Seq<(Seq<char>, nat)>) -> Seq<(StyleRole, Seq<char>)> {
    if s.len() == 0 {
        Seq::empty()
    } else {
        let longest = s.last().0.len();
        seq![
            (StyleRole::Plain, spec_spaces(5)),
            (StyleRole::Info, "Some lint rules were triggered"@),
            (StyleRole::Plain, "\n\n"@),
            (StyleRole::Plain, spec_spaces(5)),
            (StyleRole::InfoUnderline, "Rule Name"@),
            (StyleRole::Plain, spec_spaces((longest + 15) as nat)),
            (StyleRole::InfoDim, "Diagnostics"@),
            (StyleRole::Plain, "\n"@),
        ] + spec_rows(s, longest, s.len() - 1)
    }
}

/// One file's summary block: the not-formatted notice when format issues
/// were tallied, then the rule table.
pub open spec fn spec_render_summary(v: SummaryV) -> Seq<(StyleRole, Seq<char>)> {
    (if v.formats > 0 {
        seq![
            (StyleRole::Plain, spec_spaces(5)),
            (StyleRole::Info, "The file isn't formatted."@),
            (StyleRole::Plain, "\n\n"@),
        ]
    } else {
        Seq::<(StyleRole, Seq<char>)>::empty()
    }) + spec_render_lints(v.lints)
}

/// One file section: the header line naming the file, its summary block,
/// and a blank separator line.
pub open spec fn spec_file_block(e: (Seq<char>, SummaryV)) -> Seq<(StyleRole, Seq<char>)> {
    seq![
        (StyleRole::Plain, "\u{25b6} "@),
        (StyleRole::Emphasis, e.0),
        (StyleRole::Plain, "\n"@),
    ] + spec_render_summary(e.1) + seq![(StyleRole::Plain, "\n"@)]
}

/// The file sections from index `i` on, in ascending path order.
pub open spec fn spec_file_blocks(fs: Seq<(Seq<char>, SummaryV)>, i: int) -> Seq<
    (StyleRole, Seq<char>),
>
    decreases fs.len() - i,
{
    if i < 0 || i >= fs.len() {
        Seq::empty()
    } else {
        spec_file_block(fs[i]) + spec_file_blocks(fs, i + 1)
    }
}

/// The whole per-file report: its title, then every file section.
pub open spec fn spec_render_files(fs: Seq<(Seq<char>, SummaryV)>) -> Seq<(StyleRole, Seq<char>)> {
    seq![
        (StyleRole::Info, "Summarised report of diagnostics by file."@),
        (StyleRole::Plain, "\n\n"@),
    ] + spec_file_blocks(fs, 0)
}

/// The run-level summary: the skipped-fixes warning and its hint in check
/// mode, the display-cap warning outside CI mode, and always the
/// mode-specific traversal summary (rendered elsewhere, forwarded) last.
pub open spec fn spec_report_summary(
    mode: ExecutionMode,
    skipped: nat,
    not_printed: nat,
    traversal: Seq<char>,
) -> Seq<(StyleRole, Seq<char>)> {
    (if mode is Check && skipped > 0 {
        seq![
            (StyleRole::Warn, "Skipped "@),
            (StyleRole::Warn, spec_dec(skipped)),
            (StyleRole::Warn, " suggested fixes.\n"@),
            (StyleRole::Info, "If you wish to apply the suggested (unsafe) fixes, use the command "@),
            (StyleRole::InfoEmphasis, "biome check --apply-unsafe\n"@),
        ]
    } else {
        Seq::<(StyleRole, Seq<char>)>::empty()
    }) + (if !(mode is Ci) && not_printed > 0 {
        seq![
            (StyleRole::Warn, "The number of diagnostics exceeds the number allowed by Biome.\n"@),
            (StyleRole::Info, "Diagnostics not shown: "@),
            (StyleRole::Emphasis, spec_dec(not_printed)),
            (StyleRole::Info, "."@),
        ]
    } else {
        Seq::<(StyleRole, Seq<char>)>::empty()
    }) + seq![(StyleRole::Plain, traversal)]
}

/// Renders the rule table of one file.
pub fn render_lints(lints: &LintsByCategory, out: &mut Vec<MarkupFragment>)
    ensures
        frags(final(out)@) == frags(old(out)@) + spec_render_lints(lints@),
{
    let ghost base = frags(old(out)@);
    let ghost s = lints@;
    let n = lints.len();
    if n == 0 {
        proof {
            assert(frags(out@) =~= base + spec_render_lints(s));
        }
        return ;
    }
    let longest = lints.name_at(n - 1).unicode_len();
    proof {
        assert(s.last() == s[n - 1]);
    }
    emit(out, StyleRole::Plain, spaces(TAB_WIDTH as u128));
    emit(out, StyleRole::Info, String::from_str("Some lint rules were triggered"));
    emit(out, StyleRole::Plain, String::from_str("\n\n"));
    emit(out, StyleRole::Plain, spaces(TAB_WIDTH as u128));
    emit(out, StyleRole::InfoUnderline, String::from_str("Rule Name"));
    emit(out, StyleRole::Plain, spaces(longest as u128 + NAME_PADDING as u128));
    emit(out, StyleRole::InfoDim, String::from_str("Diagnostics"));
    emit(out, StyleRole::Plain, String::from_str("\n"));
    let ghost header = seq![
        (StyleRole::Plain, spec_spaces(5)),
        (StyleRole::Info, "Some lint rules were triggered"@),
        (StyleRole::Plain, "\n\n"@),
        (StyleRole::Plain, spec_spaces(5)),
        (StyleRole::InfoUnderline, "Rule Name"@),
        (StyleRole::Plain, spec_spaces((longest + 15) as nat)),
        (StyleRole::InfoDim, "Diagnostics"@),
        (StyleRole::Plain, "\n"@),
    ];
    proof {
        assert(frags(out@) =~= base + header);
    }
    let mut k: usize = n;
    while k > 0
        invariant
            s == lints@,
            n == s.len(),
            longest == s.last().0.len(),
            k <= n,
            frags(out@) + spec_rows(s, longest as nat, k - 1) =~= base + header + spec_rows(
                s,
                longest as nat,
                n - 1,
            ),
        decreases k,
    {
        let ghost before = frags(out@);
        let name = lints.name_at(k - 1);
        let nl = name.unicode_len();
        let pad: u128 = if nl <= longest {
            longest as u128 - nl as u128 + 24
        } else {
            24
        };
        emit(out, StyleRole::Plain, spaces(TAB_WIDTH as u128));
        emit(out, StyleRole::Emphasis, String::from_str(name));
        emit(out, StyleRole::Plain, spaces(pad));
        emit(out, StyleRole::Plain, decimal(lints.count_at(k - 1)));
        emit(out, StyleRole::Plain, String::from_str("\n"));
        proof {
            assert(pad as nat == spec_pad(s[k - 1].0.len(), longest as nat));
            assert(frags(out@) =~= before + spec_row(s[k - 1].0, s[k - 1].1, longest as nat));
            assert(spec_rows(s, longest as nat, k - 1) == spec_row(
                s[k - 1].0,
                s[k - 1].1,
                longest as nat,
            ) + spec_rows(s, longest as nat, k - 2));
            assert(frags(out@) + spec_rows(s, longest as nat, k - 2) =~= (before + spec_rows(
                s,
                longest as nat,
                k - 1,
            )));
        }
        k = k - 1;
    }
    proof {
        assert(spec_rows(s, longest as nat, -1) =~= Seq::<(StyleRole, Seq<char>)>::empty());
        assert(frags(out@) + spec_rows(s, longest as nat, -1) =~= frags(out@));
        assert(frags(out@) =~= base + spec_render_lints(s));
    }
}

/// Renders one file's summary block.
pub fn render_summary_diagnostics(summary: &SummaryDiagnostics, out: &mut Vec<MarkupFragment>)
    ensures
        frags(final(out)@) == frags(old(out)@) + spec_render_summary(summary@),
{
    let ghost base = frags(old(out)@);
    if summary.formats() > 0 {
        emit(out, StyleRole::Plain, spaces(TAB_WIDTH as u128));
        emit(out, StyleRole::Info, String::from_str("The file isn't formatted."));
        emit(out, StyleRole::Plain, String::from_str("\n\n"));
    }
    render_lints(summary.lints(), out);
    proof {
        assert(frags(out@) =~= base + spec_render_summary(summary@));
    }
}

/// Renders the whole per-file report.
pub fn render_file_to_diagnostics(files: &FileToDiagnostics) -> (out: Vec<MarkupFragment>)
    ensures
        frags(out@) == spec_render_files(files@),
{
    let ghost fs = files@;
    let mut out: Vec<MarkupFragment> = Vec::new();
    proof {
        assert(frags(out@) =~= Seq::<(StyleRole, Seq<char>)>::empty());
    }
    emit(&mut out, StyleRole::Info, String::from_str("Summarised report of diagnostics by file."));
    emit(&mut out, StyleRole::Plain, String::from_str("\n\n"));
    let ghost title = seq![
        (StyleRole::Info, "Summarised report of diagnostics by file."@),
        (StyleRole::Plain, "\n\n"@),
    ];
    proof {
        assert(frags(out@) =~= title);
    }
    let n = files.len();
    let mut i: usize = 0;
    while i < n
        invariant
            fs == files@,
            n == fs.len(),
            i <= n,
            frags(out@) + spec_file_blocks(fs, i as int) =~= title + spec_file_blocks(fs, 0),
        decreases n - i,
    {
        let ghost before = frags(out@);
        emit(&mut out, StyleRole::Plain, String::from_str("\u{25b6} "));
        emit(&mut out, StyleRole::Emphasis, String::from_str(files.file_at(i)));
        emit(&mut out, StyleRole::Plain, String::from_str("\n"));
        render_summary_diagnostics(files.summary_at(i), &mut out);
        emit(&mut out, StyleRole::Plain, String::from_str("\n"));
        proof {
            assert(frags(out@) =~= before + spec_file_block(fs[i as int]));
            assert(spec_file_blocks(fs, i as int) == spec_file_block(fs[i as int])
                + spec_file_blocks(fs, i as int + 1));
            assert(frags(out@) + spec_file_blocks(fs, i as int + 1) =~= before + spec_file_blocks(
                fs,
                i as int,
            ));
        }
        i = i + 1;
    }
    proof {
        assert(spec_file_blocks(fs, n as int) =~= Seq::<(StyleRole, Seq<char>)>::empty());
        assert(frags(out@) =~= spec_render_files(fs));
    }
    out
}

/// Aggregates the diagnostic stream and renders the per-file report: the
/// first of the two phases of the summary reporter.
pub fn report_diagnostics(execution: &ExecutionMode, diagnostics_payload: &DiagnosticsPayload) -> (
    out: Vec<MarkupFragment>)
    ensures
        frags(out@) == spec_render_files(
            spec_aggregate(
                *execution,
                diagnostics_payload.diagnostic_level,
                diagnostics_payload.verbose,
                diagnostics_payload.diagnostics@,
            ),
        ),
{
    let files = aggregate(execution, diagnostics_payload);
    render_file_to_diagnostics(&files)
}

/// Renders the run-level summary: the second phase of the summary
/// reporter. The mode-specific traversal summary is rendered by its own
/// layer and handed in as finished text.
pub fn report_summary(execution: &ExecutionMode, summary: &TraversalSummary, traversal: &str) -> (
    out: Vec<MarkupFragment>)
    ensures
        frags(out@) == spec_report_summary(
            *execution,
            summary.suggested_fixes_skipped as nat,
            summary.diagnostics_not_printed as nat,
            traversal@,
        ),
{
    let mut out: Vec<MarkupFragment> = Vec::new();
    proof {
        assert(frags(out@) =~= Seq::<(StyleRole, Seq<char>)>::empty());
    }
    if execution.is_check() && summary.suggested_fixes_skipped > 0 {
        emit(&mut out, StyleRole::Warn, String::from_str("Skipped "));
        emit(&mut out, StyleRole::Warn, decimal(summary.suggested_fixes_skipped));
        emit(&mut out, StyleRole::Warn, String::from_str(" suggested fixes.\n"));
        emit(
            &mut out,
            StyleRole::Info,
            String::from_str("If you wish to apply the suggested (unsafe) fixes, use the command "),
        );
        emit(&mut out, StyleRole::InfoEmphasis, String::from_str("biome check --apply-unsafe\n"));
    }
    let ghost first = frags(out@);
    if !execution.is_ci() && summary.diagnostics_not_printed > 0 {
        emit(
            &mut out,
            StyleRole::Warn,
            String::from_str("The number of diagnostics exceeds the number allowed by Biome.\n"),
        );
        emit(&mut out, StyleRole::Info, String::from_str("Diagnostics not shown: "));
        emit(&mut out, StyleRole::Emphasis, decimal(summary.diagnostics_not_printed));
        emit(&mut out, StyleRole::Info, String::from_str("."));
    }
    emit(&mut out, StyleRole::Plain, String::from_str(traversal));
    proof {
        assert(frags(out@) =~= spec_report_summary(
            *execution,
            summary.suggested_fixes_skipped as nat,
            summary.diagnostics_not_printed as nat,
            traversal@,
        ));
    }
    out
}

} // verus!
