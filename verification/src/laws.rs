//! The properties the library guarantees across its functions: which files
//! the aggregation records, that tallying never deduplicates, how the
//! execution mode gates lint tallying, and the order and column alignment
//! of the rendered rule table.

use vstd::prelude::*;

use crate::aggregate::{
    category_of, file_of, has_location, is_format_category, is_lint_category,
    lemma_category_exclusive, lemma_step_props, lint_eligible, spec_aggregate, spec_step,
};
use crate::files::{
    SummaryV, counts_bounded, file_summary, files_wf, has_file, lemma_file_insert_format_props,
    lemma_file_insert_lint_props, lemma_file_summary_absent, lemma_file_summary_props,
    lemma_track_props, spec_track,
};
use crate::model::{ExecutionMode, Severity};
use crate::model::Diagnostic;
use crate::render::{spec_render_lints, spec_row, spec_rows};
use crate::tally::{lemma_insert_lint_props, lints_wf, rule_count};
use crate::text::lemma_spaces_len;

verus! {

/// The aggregation result is a well-formed map whose counters do not
/// exceed the number of diagnostics consumed.
pub proof fn lemma_aggregate_wf(
    mode: ExecutionMode,
    level: Severity,
    verbose_requested: bool,
    ds: Seq<Diagnostic>,
)
    ensures
        files_wf(spec_aggregate(mode, level, verbose_requested, ds)),
        counts_bounded(spec_aggregate(mode, level, verbose_requested, ds), ds.len()),
    decreases ds.len(),
{
    if ds.len() > 0 {
        lemma_aggregate_wf(mode, level, verbose_requested, ds.drop_last());
        lemma_step_props(
            mode,
            level,
            verbose_requested,
            spec_aggregate(mode, level, verbose_requested, ds.drop_last()),
            ds.last(),
            (ds.len() - 1) as nat,
        );
    }
}

/// One step records exactly the keys of the old map, plus the
/// diagnostic's file when it has one.
pub proof fn lemma_step_keys(
    mode: ExecutionMode,
    level: Severity,
    verbose_requested: bool,
    fs: Seq<(Seq<char>, SummaryV)>,
    d: Diagnostic,
    b: nat,
)
    requires
        files_wf(fs),
        counts_bounded(fs, b),
    ensures
        forall|k: Seq<char>|
            #[trigger] has_file(spec_step(mode, level, verbose_requested, fs, d), k) == (has_file(
                fs,
                k,
            ) || (has_location(d) && k == file_of(d))),
{
    if has_location(d) {
        let f = file_of(d);
        lemma_track_props(fs, f, b);
        let tracked_fs = spec_track(fs, f);
        if lint_eligible(mode, verbose_requested, d.verbose) && is_lint_category(d) {
            lemma_file_insert_lint_props(tracked_fs, f, category_of(d), b);
        }
        if format_applies(mode, d) {
            lemma_file_insert_format_props(tracked_fs, f, b);
            lemma_file_insert_lint_props(tracked_fs, f, category_of(d), b);
        }
        assert forall|k: Seq<char>|
            #[trigger] has_file(spec_step(mode, level, verbose_requested, fs, d), k) == (has_file(
                fs,
                k,
            ) || k == f) by {
            assert(has_file(spec_track(fs, f), k) == (has_file(fs, k) || k == f));
            let linted = if lint_eligible(mode, verbose_requested, d.verbose)
                && is_lint_category(d) {
                crate::files::spec_file_insert_lint(tracked_fs, f, category_of(d))
            } else {
                tracked_fs
            };
            assert(has_file(linted, k) == has_file(tracked_fs, k));
            if format_applies(mode, d) {
                lemma_file_insert_format_props(linted, f, b + 1);
                assert(has_file(crate::files::spec_file_insert_format(linted, f), k) == has_file(
                    linted,
                    k,
                ));
            }
        }
    }
}

/// Whether the step's format branch fires for this mode and diagnostic.
pub open spec fn format_applies(mode: ExecutionMode, d: Diagnostic) -> bool {
    crate::aggregate::format_eligible(mode) && is_format_category(d)
}

/// A diagnostic without a file location leaves the whole mapping exactly
/// as it was: nothing in the result is attributable to it.
pub proof fn lemma_unattributable_ignored(
    mode: ExecutionMode,
    level: Severity,
    verbose_requested: bool,
    ds: Seq<Diagnostic>,
    d: Diagnostic,
)
    requires
        !has_location(d),
    ensures
        spec_aggregate(mode, level, verbose_requested, ds.push(d)) == spec_aggregate(
            mode,
            level,
            verbose_requested,
            ds,
        ),
{
    assert(ds.push(d).drop_last() =~= ds);
    assert(ds.push(d).last() == d);
}

/// The mapping holds exactly the files of the file-attributable
/// diagnostics: none gains an entry from an unattributable one, and a
/// file-attributable diagnostic records its file even when it is filtered
/// out of every tally.
pub proof fn lemma_aggregate_keys(
    mode: ExecutionMode,
    level: Severity,
    verbose_requested: bool,
    ds: Seq<Diagnostic>,
)
    ensures
        forall|k: Seq<char>|
            #[trigger] has_file(spec_aggregate(mode, level, verbose_requested, ds), k) <==> exists|
                i: int,
            |
                0 <= i < ds.len() && has_location(#[trigger] ds[i]) && file_of(ds[i]) == k,
    decreases ds.len(),
{
    let a = spec_aggregate(mode, level, verbose_requested, ds);
    if ds.len() == 0 {
        assert(a.len() == 0);
        assert forall|k: Seq<char>| !has_file(a, k) by {}
    } else {
        let dl = ds.drop_last();
        let a0 = spec_aggregate(mode, level, verbose_requested, dl);
        let d = ds.last();
        lemma_aggregate_keys(mode, level, verbose_requested, dl);
        lemma_aggregate_wf(mode, level, verbose_requested, dl);
        lemma_step_keys(mode, level, verbose_requested, a0, d, dl.len());
        assert forall|k: Seq<char>| has_file(a, k) <==> exists|i: int|
            0 <= i < ds.len() && has_location(#[trigger] ds[i]) && file_of(ds[i]) == k by {
            if has_file(a, k) {
                if has_file(a0, k) {
                    let i0 = choose|i: int|
                        0 <= i < dl.len() && has_location(#[trigger] dl[i]) && file_of(dl[i]) == k;
                    assert(ds[i0] == dl[i0]);
                    assert(has_location(ds[i0]) && file_of(ds[i0]) == k);
                } else {
                    assert(ds[ds.len() - 1] == d);
                    assert(has_location(ds[ds.len() - 1]) && file_of(ds[ds.len() - 1]) == k);
                }
            }
            if exists|i: int|
                0 <= i < ds.len() && has_location(#[trigger] ds[i]) && file_of(ds[i]) == k {
                let i0 = choose|i: int|
                    0 <= i < ds.len() && has_location(#[trigger] ds[i]) && file_of(ds[i]) == k;
                if i0 < ds.len() - 1 {
                    assert(dl[i0] == ds[i0]);
                    assert(has_file(a0, k));
                } else {
                    assert(ds[i0] == d);
                }
                assert(has_file(a, k));
            }
        }
    }
}

/// One step on a lint-eligible diagnostic raises exactly its rule's tally
/// for its file by one.
pub proof fn lemma_step_lint_count(
    mode: ExecutionMode,
    level: Severity,
    verbose_requested: bool,
    fs: Seq<(Seq<char>, SummaryV)>,
    d: Diagnostic,
    b: nat,
)
    requires
        files_wf(fs),
        counts_bounded(fs, b),
        has_location(d),
        d.severity.spec_at_least(level),
        !(d.verbose && !verbose_requested),
        lint_eligible(mode, verbose_requested, d.verbose),
        is_lint_category(d),
    ensures
        rule_count(
            file_summary(spec_step(mode, level, verbose_requested, fs, d), file_of(d)).lints,
            category_of(d),
        ) == rule_count(file_summary(fs, file_of(d)).lints, category_of(d)) + 1,
{
    let f = file_of(d);
    let rule = category_of(d);
    lemma_track_props(fs, f, b);
    let tracked_fs = spec_track(fs, f);
    if !has_file(fs, f) {
        lemma_file_summary_absent(fs, f);
    }
    assert(file_summary(tracked_fs, f) == file_summary(fs, f));
    lemma_file_summary_props(tracked_fs, f, b);
    lemma_file_insert_lint_props(tracked_fs, f, rule, b);
    lemma_insert_lint_props(file_summary(tracked_fs, f).lints, rule, b);
    lemma_category_exclusive(d);
    assert(!format_applies(mode, d));
}

/// Tallying never deduplicates: aggregating the same lint-eligible
/// diagnostic twice raises its rule's tally by exactly two.
pub proof fn lemma_aggregate_twice_counts(
    mode: ExecutionMode,
    level: Severity,
    verbose_requested: bool,
    ds: Seq<Diagnostic>,
    d: Diagnostic,
)
    requires
        has_location(d),
        d.severity.spec_at_least(level),
        !(d.verbose && !verbose_requested),
        lint_eligible(mode, verbose_requested, d.verbose),
        is_lint_category(d),
    ensures
        rule_count(
            file_summary(
                spec_aggregate(mode, level, verbose_requested, ds.push(d).push(d)),
                file_of(d),
            ).lints,
            category_of(d),
        ) == rule_count(
            file_summary(spec_aggregate(mode, level, verbose_requested, ds), file_of(d)).lints,
            category_of(d),
        ) + 2,
{
    let a0 = spec_aggregate(mode, level, verbose_requested, ds);
    let ds1 = ds.push(d);
    let ds2 = ds1.push(d);
    lemma_aggregate_wf(mode, level, verbose_requested, ds);
    assert(ds1.drop_last() =~= ds);
    assert(ds1.last() == d);
    let a1 = spec_aggregate(mode, level, verbose_requested, ds1);
    assert(a1 == spec_step(mode, level, verbose_requested, a0, d));
    lemma_step_lint_count(mode, level, verbose_requested, a0, d, ds.len());
    lemma_aggregate_wf(mode, level, verbose_requested, ds1);
    assert(ds2.drop_last() =~= ds1);
    assert(ds2.last() == d);
    let a2 = spec_aggregate(mode, level, verbose_requested, ds2);
    assert(a2 == spec_step(mode, level, verbose_requested, a1, d));
    lemma_step_lint_count(mode, level, verbose_requested, a1, d, ds1.len());
}

/// Mode gating of lint tallying for a diagnostic that is not verbose-only
/// and reaches the threshold: tallied exactly once in check, lint and CI
/// modes, and never in format mode.
pub proof fn lemma_mode_gating(
    mode: ExecutionMode,
    level: Severity,
    verbose_requested: bool,
    fs: Seq<(Seq<char>, SummaryV)>,
    d: Diagnostic,
    b: nat,
)
    requires
        files_wf(fs),
        counts_bounded(fs, b),
        has_location(d),
        d.severity.spec_at_least(level),
        !d.verbose,
        is_lint_category(d),
    ensures
        (mode is Check || mode is Lint || mode is Ci) ==> rule_count(
            file_summary(spec_step(mode, level, verbose_requested, fs, d), file_of(d)).lints,
            category_of(d),
        ) == rule_count(file_summary(fs, file_of(d)).lints, category_of(d)) + 1,
        mode is Format ==> rule_count(
            file_summary(spec_step(mode, level, verbose_requested, fs, d), file_of(d)).lints,
            category_of(d),
        ) == rule_count(file_summary(fs, file_of(d)).lints, category_of(d)),
{
    let f = file_of(d);
    if mode is Check || mode is Lint || mode is Ci {
        lemma_step_lint_count(mode, level, verbose_requested, fs, d, b);
    }
    if mode is Format {
        lemma_track_props(fs, f, b);
        if !has_file(fs, f) {
            lemma_file_summary_absent(fs, f);
        }
        lemma_category_exclusive(d);
        assert(!lint_eligible(mode, verbose_requested, d.verbose));
        assert(!format_applies(mode, d));
        assert(spec_step(mode, level, verbose_requested, fs, d) == spec_track(fs, f));
        assert(file_summary(spec_track(fs, f), f) == file_summary(fs, f));
    }
}

/// Length of the row block for entries `0..=i`.
proof fn lemma_rows_len(s: Seq<(Seq<char>, nat)>, longest: nat, i: int)
    requires
        i < s.len(),
    ensures
        spec_rows(s, longest, i).len() == if i < 0 {
            0
        } else {
            5 * (i + 1)
        },
    decreases i + 1,
{
    if i >= 0 {
        lemma_rows_len(s, longest, i - 1);
    }
}

/// The five fragments of the row showing entry `k` sit at offset
/// `5 * (i - k)` of the row block for entries `0..=i`.
proof fn lemma_rows_slice(s: Seq<(Seq<char>, nat)>, longest: nat, i: int, k: int)
    requires
        0 <= k <= i < s.len(),
    ensures
        spec_rows(s, longest, i).len() == 5 * (i + 1),
        spec_rows(s, longest, i).subrange(5 * (i - k), 5 * (i - k) + 5) =~= spec_row(
            s[k].0,
            s[k].1,
            longest,
        ),
    decreases i,
{
    lemma_rows_len(s, longest, i);
    lemma_rows_len(s, longest, i - 1);
    if k == i {
        assert(spec_rows(s, longest, i).subrange(0, 5) =~= spec_row(s[k].0, s[k].1, longest));
    } else {
        lemma_rows_slice(s, longest, i - 1, k);
        let lo = 5 * (i - k);
        assert(spec_rows(s, longest, i).subrange(lo, lo + 5) =~= spec_rows(
            s,
            longest,
            i - 1,
        ).subrange(lo - 5, lo));
    }
}

/// The name shown in table row `r` (row `0` is the first one rendered).
pub open spec fn table_row_name(s: Seq<(Seq<char>, nat)>, r: int) -> Seq<char> {
    spec_render_lints(s)[8 + 5 * r + 1].1
}

/// The character offset at which table row `r`'s count starts on its
/// line: the widths of the indentation, the name and the padding.
pub open spec fn count_column_offset(s: Seq<(Seq<char>, nat)>, r: int) -> int {
    spec_render_lints(s)[8 + 5 * r].1.len() + spec_render_lints(s)[8 + 5 * r + 1].1.len()
        + spec_render_lints(s)[8 + 5 * r + 2].1.len() as int
}

/// Table row `r` shows the entry at index `len - 1 - r`: the reverse of
/// the ascending display order.
proof fn lemma_table_row(s: Seq<(Seq<char>, nat)>, r: int)
    requires
        0 <= r < s.len(),
    ensures
        table_row_name(s, r) == s[s.len() - 1 - r].0,
        count_column_offset(s, r) == 5 + s[s.len() - 1 - r].0.len() + spec_pad_of(s, r),
{
    let longest = s.last().0.len();
    let k = s.len() - 1 - r;
    lemma_rows_slice(s, longest, s.len() - 1, k);
    let rows = spec_rows(s, longest, s.len() - 1);
    let row = spec_row(s[k].0, s[k].1, longest);
    assert(rows.subrange(5 * r, 5 * r + 5) =~= row);
    assert(rows[5 * r] == row[0] && rows[5 * r + 1] == row[1] && rows[5 * r + 2] == row[2]);
    assert(spec_render_lints(s)[8 + 5 * r] == rows[5 * r]);
    assert(spec_render_lints(s)[8 + 5 * r + 1] == rows[5 * r + 1]);
    assert(spec_render_lints(s)[8 + 5 * r + 2] == rows[5 * r + 2]);
    lemma_spaces_len(5);
    lemma_spaces_len(crate::render::spec_pad(s[k].0.len(), longest));
}

/// The padding width of table row `r`.
pub open spec fn spec_pad_of(s: Seq<(Seq<char>, nat)>, r: int) -> nat {
    crate::render::spec_pad(s[s.len() - 1 - r].0.len(), s.last().0.len())
}

/// Ordering invariant of the rendered table: rows come in descending
/// name-length order, so of two rules with names of unequal length the
/// longer one's row precedes the shorter one's.
pub proof fn lemma_table_rows_descend(s: Seq<(Seq<char>, nat)>, r1: int, r2: int)
    requires
        lints_wf(s),
        0 <= r1 <= r2 < s.len(),
    ensures
        table_row_name(s, r1) == s[s.len() - 1 - r1].0,
        table_row_name(s, r2) == s[s.len() - 1 - r2].0,
        table_row_name(s, r1).len() >= table_row_name(s, r2).len(),
{
    lemma_table_row(s, r1);
    lemma_table_row(s, r2);
    let k1 = s.len() - 1 - r1;
    let k2 = s.len() - 1 - r2;
    if k2 < k1 {
        assert(!crate::tally::display_before(s[k1].0, s[k2].0));
    }
}

/// Column alignment invariant of the rendered table: the count column
/// starts at the same character offset on every row, namely the width of
/// the indentation, the longest rule name, the fixed padding and the
/// column title.
pub proof fn lemma_table_alignment(s: Seq<(Seq<char>, nat)>, r: int)
    requires
        lints_wf(s),
        0 <= r < s.len(),
    ensures
        count_column_offset(s, r) == s.last().0.len() + 29,
{
    lemma_table_row(s, r);
    let k = s.len() - 1 - r;
    if k < s.len() - 1 {
        assert(!crate::tally::display_before(s[s.len() - 1].0, s[k].0));
    }
    assert(s[k].0.len() <= s.last().0.len());
}

} // verus!
