//! The aggregation pass: one walk over the diagnostic stream that filters
//! by mode, severity threshold and verbosity, and groups what passes into
//! the per-file tally model.

use vstd::prelude::*;

use crate::files::{
    FileToDiagnostics, SummaryV, counts_bounded, file_summary, files_wf,
    lemma_file_insert_format_props, lemma_file_insert_lint_props, lemma_file_summary_props,
    lemma_track_props, spec_file_insert_format, spec_file_insert_lint, spec_track,
};
use crate::model::{Diagnostic, DiagnosticsPayload, ExecutionMode, Severity};
use crate::tally::lemma_rule_count_bounded;
use crate::text::{has_prefix, spec_has_prefix};

verus! {

/// Whether the diagnostic carries a file location.
pub open spec fn has_location(d: Diagnostic) -> bool {
    d.file_path is Some
}

/// The file the diagnostic is attributed to (meaningful only when it has one).
pub open spec fn file_of(d: Diagnostic) -> Seq<char> {
    match d.file_path {
        Option::Some(f) => f@,
        Option::None => Seq::empty(),
    }
}

/// The category name (meaningful only when the category is present).
pub open spec fn category_of(d: Diagnostic) -> Seq<char> {
    match d.category {
        Option::Some(c) => c@,
        Option::None => Seq::empty(),
    }
}

/// Whether the category is present and names a lint rule.
pub open spec fn is_lint_category(d: Diagnostic) -> bool {
    d.category is Some && spec_has_prefix(category_of(d), "lint/"@)
}

/// Whether the category is present and names a format issue.
pub open spec fn is_format_category(d: Diagnostic) -> bool {
    d.category is Some && spec_has_prefix(category_of(d), "format"@)
}

/// The two lint-tally paths, mutually exclusive on the verbosity tag: a
/// verbose-only diagnostic is tallied only when verbose output was
/// requested and the mode is check or lint; a plain one is tallied in
/// check, lint and CI modes.
pub open spec fn lint_eligible(
    mode: ExecutionMode,
    verbose_requested: bool,
    diag_verbose: bool,
) -> bool {
    if diag_verbose {
        verbose_requested && (mode is Check || mode is Lint)
    } else {
        mode is Check || mode is Lint || mode is Ci
    }
}

/// Format issues are tallied in check, format and CI modes.
pub open spec fn format_eligible(mode: ExecutionMode) -> bool {
    mode is Check || mode is Format || mode is Ci
}

/// What one diagnostic does to the map: nothing without a file location;
/// otherwise the file is recorded as seen unconditionally, and, when the
/// severity reaches the threshold and the verbosity gate passes, the lint
/// tally and the format count are incremented per the category.
pub open spec fn spec_step(
    mode: ExecutionMode,
    level: Severity,
    verbose_requested: bool,
    fs: Seq<(Seq<char>, SummaryV)>,
    d: Diagnostic,
) -> Seq<(Seq<char>, SummaryV)> {
    if !has_location(d) {
        fs
    } else {
        let tracked_fs = spec_track(fs, file_of(d));
        if !d.severity.spec_at_least(level) {
            tracked_fs
        } else if d.verbose && !verbose_requested {
            tracked_fs
        } else {
            let linted = if lint_eligible(mode, verbose_requested, d.verbose) && is_lint_category(
                d,
            ) {
                spec_file_insert_lint(tracked_fs, file_of(d), category_of(d))
            } else {
                tracked_fs
            };
            if format_eligible(mode) && is_format_category(d) {
                spec_file_insert_format(linted, file_of(d))
            } else {
                linted
            }
        }
    }
}

/// The map built by one aggregation pass over the diagnostics, in order.
pub open spec fn spec_aggregate(
    mode: ExecutionMode,
    level: Severity,
    verbose_requested: bool,
    ds: Seq<Diagnostic>,
) -> Seq<(Seq<char>, SummaryV)>
    decreases ds.len(),
{
    if ds.len() == 0 {
        Seq::empty()
    } else {
        spec_step(
            mode,
            level,
            verbose_requested,
            spec_aggregate(mode, level, verbose_requested, ds.drop_last()),
            ds.last(),
        )
    }
}

/// A category cannot name a lint rule and a format issue at once.
pub proof fn lemma_category_exclusive(d: Diagnostic)
    ensures
        !(is_lint_category(d) && is_format_category(d)),
{
    reveal_strlit("lint/");
    reveal_strlit("format");
    if is_lint_category(d) && is_format_category(d) {
        let c = category_of(d);
        assert(c.subrange(0, 5)[0] == c[0]);
        assert(c.subrange(0, 6)[0] == c[0]);
        assert(c[0] == 'l' && c[0] == 'f');
    }
}

/// One step keeps the map well-formed and adds at most one to any counter.
pub proof fn lemma_step_props(
    mode: ExecutionMode,
    level: Severity,
    verbose_requested: bool,
    fs: Seq<(Seq<char>, SummaryV)>,
    d: Diagnostic,
    b: nat,
)
    requires
        files_wf(fs),
        counts_bounded(fs, b),
    ensures
        files_wf(spec_step(mode, level, verbose_requested, fs, d)),
        counts_bounded(spec_step(mode, level, verbose_requested, fs, d), b + 1),
{
    if has_location(d) {
        let f = file_of(d);
        lemma_track_props(fs, f, b);
        let tracked_fs = spec_track(fs, f);
        lemma_category_exclusive(d);
        if lint_eligible(mode, verbose_requested, d.verbose) && is_lint_category(d) {
            lemma_file_insert_lint_props(tracked_fs, f, category_of(d), b);
        }
        if format_eligible(mode) && is_format_category(d) {
            lemma_file_insert_format_props(tracked_fs, f, b);
        }
        assert forall|i: int|
            0 <= i < spec_step(mode, level, verbose_requested, fs, d).len() implies crate::files::summary_bounded(
            (#[trigger] spec_step(mode, level, verbose_requested, fs, d)[i]).1,
            b + 1,
        ) by {}
    } else {
        assert forall|i: int| 0 <= i < fs.len() implies crate::files::summary_bounded(
            (#[trigger] fs[i]).1,
            b + 1,
        ) by {
            assert(crate::files::summary_bounded(fs[i].1, b));
        }
    }
}

/// Builds the per-file tally model from the diagnostic stream: every
/// file-attributable diagnostic records its file as seen, and those that
/// pass the severity, verbosity and mode gates are tallied by category.
pub fn aggregate(mode: &ExecutionMode, payload: &DiagnosticsPayload) -> (r: FileToDiagnostics)
    ensures
        r@ == spec_aggregate(
            *mode,
            payload.diagnostic_level,
            payload.verbose,
            payload.diagnostics@,
        ),
        files_wf(r@),
        counts_bounded(r@, payload.diagnostics@.len() as nat),
{
    let ghost level = payload.diagnostic_level;
    let ghost verbose_requested = payload.verbose;
    let ghost ds = payload.diagnostics@;
    let mut fs = FileToDiagnostics::new();
    let mut i: usize = 0;
    while i < payload.diagnostics.len()
        invariant
            ds == payload.diagnostics@,
            level == payload.diagnostic_level,
            verbose_requested == payload.verbose,
            i <= ds.len(),
            fs@ == spec_aggregate(*mode, level, verbose_requested, ds.take(i as int)),
            files_wf(fs@),
            counts_bounded(fs@, i as nat),
        decreases ds.len() - i,
    {
        let ghost prev = fs@;
        let d = &payload.diagnostics[i];
        proof {
            assert(ds.take((i + 1) as int).drop_last() =~= ds.take(i as int));
            assert(ds.take((i + 1) as int).last() == ds[i as int]);
            lemma_step_props(*mode, level, verbose_requested, prev, ds[i as int], i as nat);
        }
        match &d.file_path {
            Option::None => {
                proof {
                    assert(fs@ == spec_step(*mode, level, verbose_requested, prev, ds[i as int]));
                }
            },
            Option::Some(f) => {
                proof {
                    lemma_track_props(prev, f@, i as nat);
                }
                fs.track_file(f.as_str());
                let ghost tracked_fs = fs@;
                proof {
                    assert(tracked_fs == spec_track(prev, f@));
                    lemma_file_summary_props(tracked_fs, f@, i as nat);
                }
                if d.severity.at_least(&payload.diagnostic_level) {
                    let skip_all = d.verbose && !payload.verbose;
                    if !skip_all {
                        let lint_gate = if d.verbose {
                            payload.verbose && (mode.is_check() || mode.is_lint())
                        } else {
                            mode.is_check() || mode.is_lint() || mode.is_ci()
                        };
                        proof {
                            assert(lint_gate == lint_eligible(
                                *mode,
                                verbose_requested,
                                ds[i as int].verbose,
                            ));
                        }
                        if lint_gate {
                            match &d.category {
                                Option::Some(c) => {
                                    if has_prefix(c.as_str(), "lint/") {
                                        proof {
                                            lemma_rule_count_bounded(
                                                file_summary(tracked_fs, f@).lints,
                                                c@,
                                                i as nat,
                                            );
                                            lemma_file_insert_lint_props(
                                                tracked_fs,
                                                f@,
                                                c@,
                                                i as nat,
                                            );
                                        }
                                        fs.insert_lint(f.as_str(), c.as_str());
                                    }
                                },
                                Option::None => {},
                            }
                        }
                        let ghost linted = fs@;
                        proof {
                            assert(linted == if lint_eligible(
                                *mode,
                                verbose_requested,
                                ds[i as int].verbose,
                            ) && is_lint_category(ds[i as int]) {
                                spec_file_insert_lint(tracked_fs, f@, category_of(ds[i as int]))
                            } else {
                                tracked_fs
                            });
                            lemma_file_summary_props(linted, f@, (i + 1) as nat);
                        }
                        if mode.is_check() || mode.is_format() || mode.is_ci() {
                            match &d.category {
                                Option::Some(c) => {
                                    if has_prefix(c.as_str(), "format") {
                                        fs.insert_format(f.as_str());
                                    }
                                },
                                Option::None => {},
                            }
                        }
                        proof {
                            assert(fs@ == spec_step(
                                *mode,
                                level,
                                verbose_requested,
                                prev,
                                ds[i as int],
                            ));
                        }
                    } else {
                        proof {
                            assert(fs@ == spec_step(
                                *mode,
                                level,
                                verbose_requested,
                                prev,
                                ds[i as int],
                            ));
                        }
                    }
                } else {
                    proof {
                        assert(fs@ == spec_step(
                            *mode,
                            level,
                            verbose_requested,
                            prev,
                            ds[i as int],
                        ));
                    }
                }
            },
        }
        i = i + 1;
    }
    proof {
        assert(ds.take(ds.len() as int) =~= ds);
    }
    fs
}

} // verus!
