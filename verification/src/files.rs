//! The file-to-diagnostics mapping: one tally record per file, keyed by
//! file path, kept in ascending lexicographic path order. A file is
//! recorded as seen the first time any of its diagnostics is observed,
//! even when every one of them is later filtered out of tallying.

use vstd::prelude::*;

use crate::tally::{
    LintsByCategory, lints_wf, rule_count, spec_insert_lint, lemma_insert_lint_props,
};
use crate::text::{
    lex_lt, lemma_lex_lt_irreflexive, lemma_lex_lt_transitive, lemma_lex_total, str_lex_cmp,
};

verus! {

/// The mathematical content of one file's summary record.
pub ghost struct SummaryV {
    /// Rule tally in ascending display order.
    pub lints: Seq<(Seq<char>, nat)>,
    /// How many format-category diagnostics were attributed to the file.
    pub formats: nat,
}

/// The record a freshly seen file starts with: everything at zero.
pub open spec fn empty_summary() -> SummaryV {
    SummaryV { lints: Seq::empty(), formats: 0 }
}

pub open spec fn summary_wf(v: SummaryV) -> bool {
    lints_wf(v.lints)
}

/// All counters of a summary are at most `b`.
pub open spec fn summary_bounded(v: SummaryV, b: nat) -> bool {
    &&& v.formats <= b
    &&& forall|j: int| 0 <= j < v.lints.len() ==> (#[trigger] v.lints[j]).1 <= b
}

/// A well-formed file map: paths strictly ascend lexicographically (hence
/// are unique), and every summary is well-formed.
pub open spec fn files_wf(fs: Seq<(Seq<char>, SummaryV)>) -> bool {
    &&& forall|i: int, j: int|
        0 <= i < j < fs.len() ==> lex_lt((#[trigger] fs[i]).0, (#[trigger] fs[j]).0)
    &&& forall|i: int| 0 <= i < fs.len() ==> summary_wf((#[trigger] fs[i]).1)
}

/// All counters of all summaries are at most `b`.
pub open spec fn counts_bounded(fs: Seq<(Seq<char>, SummaryV)>, b: nat) -> bool {
    forall|i: int| 0 <= i < fs.len() ==> summary_bounded((#[trigger] fs[i]).1, b)
}

/// Whether the map holds an entry for the path `name`.
pub open spec fn has_file(fs: Seq<(Seq<char>, SummaryV)>, name: Seq<char>) -> bool
    decreases fs.len(),
{
    if fs.len() == 0 {
        false
    } else {
        fs[0].0 == name || has_file(fs.drop_first(), name)
    }
}

/// The summary recorded for the path `name`; a zero record when absent.
pub open spec fn file_summary(fs: Seq<(Seq<char>, SummaryV)>, name: Seq<char>) -> SummaryV
    decreases fs.len(),
{
    if fs.len() == 0 {
        empty_summary()
    } else if fs[0].0 == name {
        fs[0].1
    } else {
        file_summary(fs.drop_first(), name)
    }
}

/// Records the path `name` as seen: inserts a zero record at its sorted
/// position when it is new, and changes nothing when it is present.
pub open spec fn spec_track(fs: Seq<(Seq<char>, SummaryV)>, name: Seq<char>) -> Seq<
    (Seq<char>, SummaryV),
>
    decreases fs.len(),
{
    if fs.len() == 0 {
        seq![(name, empty_summary())]
    } else if fs[0].0 == name {
        fs
    } else if lex_lt(name, fs[0].0) {
        seq![(name, empty_summary())] + fs
    } else {
        seq![fs[0]] + spec_track(fs.drop_first(), name)
    }
}

/// One more occurrence of the rule `rule` for the file `file`; no change
/// when the file is not present.
pub open spec fn spec_file_insert_lint(
    fs: Seq<(Seq<char>, SummaryV)>,
    file: Seq<char>,
    rule: Seq<char>,
) -> Seq<(Seq<char>, SummaryV)>
    decreases fs.len(),
{
    if fs.len() == 0 {
        fs
    } else if fs[0].0 == file {
        fs.update(
            0,
            (file, SummaryV { lints: spec_insert_lint(fs[0].1.lints, rule), formats: fs[0].1.formats }),
        )
    } else {
        seq![fs[0]] + spec_file_insert_lint(fs.drop_first(), file, rule)
    }
}

/// One more format issue for the file `file`; no change when the file is
/// not present.
pub open spec fn spec_file_insert_format(fs: Seq<(Seq<char>, SummaryV)>, file: Seq<char>) -> Seq<
    (Seq<char>, SummaryV),
>
    decreases fs.len(),
{
    if fs.len() == 0 {
        fs
    } else if fs[0].0 == file {
        fs.update(0, (file, SummaryV { lints: fs[0].1.lints, formats: fs[0].1.formats + 1 }))
    } else {
        seq![fs[0]] + spec_file_insert_format(fs.drop_first(), file)
    }
}

/// A path held by no entry has no record and the zero summary.
pub proof fn lemma_file_absent(fs: Seq<(Seq<char>, SummaryV)>, name: Seq<char>)
    requires
        forall|j: int| 0 <= j < fs.len() ==> (#[trigger] fs[j]).0 != name,
    ensures
        !has_file(fs, name),
        file_summary(fs, name) == empty_summary(),
    decreases fs.len(),
{
    if fs.len() > 0 {
        lemma_file_absent(fs.drop_first(), name);
    }
}

/// In a well-formed, bounded map any file's record is itself well-formed
/// and bounded.
pub proof fn lemma_file_summary_props(fs: Seq<(Seq<char>, SummaryV)>, name: Seq<char>, b: nat)
    requires
        files_wf(fs),
        counts_bounded(fs, b),
    ensures
        summary_wf(file_summary(fs, name)),
        summary_bounded(file_summary(fs, name), b),
    decreases fs.len(),
{
    if fs.len() == 0 {
        assert(lints_wf(empty_summary().lints));
    } else if fs[0].0 == name {
    } else {
        assert forall|i: int| 0 <= i < fs.drop_first().len() implies summary_wf(
            (#[trigger] fs.drop_first()[i]).1,
        ) && summary_bounded(fs.drop_first()[i].1, b) by {
            assert(fs.drop_first()[i] == fs[i + 1]);
        }
        assert forall|i: int, j: int| 0 <= i < j < fs.drop_first().len() implies lex_lt(
            (#[trigger] fs.drop_first()[i]).0,
            (#[trigger] fs.drop_first()[j]).0,
        ) by {
            assert(fs.drop_first()[i] == fs[i + 1] && fs.drop_first()[j] == fs[j + 1]);
        }
        lemma_file_summary_props(fs.drop_first(), name, b);
    }
}

/// A file that is not in the map has the zero summary.
pub proof fn lemma_file_summary_absent(fs: Seq<(Seq<char>, SummaryV)>, name: Seq<char>)
    requires
        !has_file(fs, name),
    ensures
        file_summary(fs, name) == empty_summary(),
    decreases fs.len(),
{
    if fs.len() > 0 {
        lemma_file_summary_absent(fs.drop_first(), name);
    }
}

/// A first match at index `k` is the file's record.
pub proof fn lemma_file_summary_at(fs: Seq<(Seq<char>, SummaryV)>, name: Seq<char>, k: int)
    requires
        0 <= k < fs.len(),
        forall|j: int| 0 <= j < k ==> (#[trigger] fs[j]).0 != name,
        fs[k].0 == name,
    ensures
        has_file(fs, name),
        file_summary(fs, name) == fs[k].1,
    decreases k,
{
    if k > 0 {
        lemma_file_summary_at(fs.drop_first(), name, k - 1);
    }
}

/// In a well-formed map, entries strictly before the sorted position of
/// `name` are exactly those the tracking recursion walks past.
proof fn lemma_track_skip(fs: Seq<(Seq<char>, SummaryV)>, name: Seq<char>, k: int)
    requires
        0 <= k <= fs.len(),
        forall|j: int| 0 <= j < k ==> lex_lt((#[trigger] fs[j]).0, name),
    ensures
        spec_track(fs, name) == fs.take(k) + spec_track(fs.skip(k), name),
    decreases k,
{
    if k == 0 {
        assert(fs.skip(0) =~= fs);
        assert(fs.take(0) + spec_track(fs, name) =~= spec_track(fs, name));
    } else {
        assert(lex_lt(fs[0].0, name));
        lemma_lex_lt_irreflexive(name);
        if lex_lt(name, fs[0].0) {
            lemma_lex_lt_transitive(name, fs[0].0, name);
        }
        assert(fs[0].0 != name);
        lemma_track_skip(fs.drop_first(), name, k - 1);
        assert(fs.drop_first().take(k - 1) =~= fs.take(k).drop_first());
        assert(fs.drop_first().skip(k - 1) =~= fs.skip(k));
        assert(seq![fs[0]] + (fs.drop_first().take(k - 1) + spec_track(fs.skip(k), name))
            =~= fs.take(k) + spec_track(fs.skip(k), name));
    }
}

/// Every entry of a tracked map is the fresh entry or one of the old map.
proof fn lemma_track_member(fs: Seq<(Seq<char>, SummaryV)>, name: Seq<char>, j: int)
    requires
        0 <= j < spec_track(fs, name).len(),
    ensures
        spec_track(fs, name)[j].0 == name || exists|i: int|
            0 <= i < fs.len() && (#[trigger] fs[i]).0 == spec_track(fs, name)[j].0,
    decreases fs.len(),
{
    let t = spec_track(fs, name);
    if fs.len() == 0 {
    } else if fs[0].0 == name {
        assert(fs[j].0 == t[j].0);
    } else if lex_lt(name, fs[0].0) {
        if j > 0 {
            assert(t[j] == fs[j - 1]);
        }
    } else {
        if j == 0 {
            assert(t[0] == fs[0]);
        } else {
            let t2 = spec_track(fs.drop_first(), name);
            assert(t[j] == t2[j - 1]);
            lemma_track_member(fs.drop_first(), name, j - 1);
            if t2[j - 1].0 != name {
                let i0 = choose|i: int|
                    0 <= i < fs.drop_first().len() && (#[trigger] fs.drop_first()[i]).0 == t2[j
                        - 1].0;
                assert(fs[i0 + 1] == fs.drop_first()[i0]);
            }
        }
    }
}

/// What tracking a file does: the file gains a record (a zero one when it
/// was new), every other record is untouched, and well-formedness and
/// bounds are preserved.
pub proof fn lemma_track_props(fs: Seq<(Seq<char>, SummaryV)>, name: Seq<char>, b: nat)
    requires
        files_wf(fs),
        counts_bounded(fs, b),
    ensures
        files_wf(spec_track(fs, name)),
        counts_bounded(spec_track(fs, name), b),
        has_file(spec_track(fs, name), name),
        forall|k: Seq<char>|
            #[trigger] has_file(spec_track(fs, name), k) == (has_file(fs, k) || k == name),
        file_summary(spec_track(fs, name), name) == if has_file(fs, name) {
            file_summary(fs, name)
        } else {
            empty_summary()
        },
        forall|k: Seq<char>|
            k != name ==> #[trigger] file_summary(spec_track(fs, name), k) == file_summary(fs, k),
        spec_track(fs, name).len() == if has_file(fs, name) {
            fs.len()
        } else {
            fs.len() + 1
        },
    decreases fs.len(),
{
    let t = spec_track(fs, name);
    if fs.len() == 0 {
        let e = Seq::<(Seq<char>, SummaryV)>::empty();
        assert(t == seq![(name, empty_summary())]);
        assert(t[0] == (name, empty_summary()));
        assert(t.drop_first() =~= e);
        assert(has_file(t, name));
        assert(file_summary(t, name) == empty_summary());
        assert forall|k: Seq<char>| k != name implies has_file(t, k) == (has_file(fs, k) || k
            == name) by {
            assert(!has_file(e, k));
            assert(has_file(t, k) == has_file(t.drop_first(), k));
        }
        assert forall|k: Seq<char>| k != name implies file_summary(t, k) == file_summary(
            fs,
            k,
        ) by {
            assert(file_summary(e, k) == empty_summary());
            assert(file_summary(t, k) == file_summary(t.drop_first(), k));
        }
    } else if fs[0].0 == name {
        assert(t == fs);
        assert(has_file(fs, name));
        assert(file_summary(fs, name) == fs[0].1);
    } else if lex_lt(name, fs[0].0) {
        assert(t == seq![(name, empty_summary())] + fs);
        assert(t[0] == (name, empty_summary()));
        assert(t.drop_first() =~= fs);
        assert forall|j: int| 0 <= j < fs.len() implies lex_lt(name, (#[trigger] fs[j]).0)
            && fs[j].0 != name by {
            if j > 0 {
                assert(lex_lt(fs[0].0, fs[j].0));
                lemma_lex_lt_transitive(name, fs[0].0, fs[j].0);
            }
            lemma_lex_lt_irreflexive(name);
            if fs[j].0 == name {
                assert(lex_lt(name, name));
            }
        }
        lemma_file_absent(fs, name);
        assert(has_file(t, name));
        assert(file_summary(t, name) == empty_summary());
        assert forall|k: Seq<char>| k != name implies has_file(t, k) == (has_file(fs, k) || k
            == name) by {
            assert(has_file(t, k) == (t[0].0 == k || has_file(t.drop_first(), k)));
        }
        assert forall|k: Seq<char>| k != name implies file_summary(t, k) == file_summary(
            fs,
            k,
        ) by {
            assert(file_summary(t, k) == file_summary(t.drop_first(), k));
        }
        assert forall|i: int, j: int| 0 <= i < j < t.len() implies lex_lt(
            (#[trigger] t[i]).0,
            (#[trigger] t[j]).0,
        ) by {
            if i == 0 {
                assert(t[j] == fs[j - 1]);
            } else {
                assert(t[i] == fs[i - 1] && t[j] == fs[j - 1]);
            }
        }
        assert forall|i: int| 0 <= i < t.len() implies summary_wf((#[trigger] t[i]).1)
            && summary_bounded(t[i].1, b) by {
            if i > 0 {
                assert(t[i] == fs[i - 1]);
            }
        }
    } else {
        lemma_lex_total(name, fs[0].0);
        assert(lex_lt(fs[0].0, name));
        lemma_track_props(fs.drop_first(), name, b);
        let t2 = spec_track(fs.drop_first(), name);
        assert(t == seq![fs[0]] + t2);
        assert(t[0] == fs[0]);
        assert(t.drop_first() =~= t2);
        assert forall|j: int| 0 <= j < t2.len() implies lex_lt(fs[0].0, (#[trigger] t2[j]).0) by {
            lemma_track_member(fs.drop_first(), name, j);
            if t2[j].0 != name {
                let i0 = choose|i: int|
                    0 <= i < fs.drop_first().len() && (#[trigger] fs.drop_first()[i]).0
                        == t2[j].0;
                assert(fs[i0 + 1] == fs.drop_first()[i0]);
                assert(lex_lt(fs[0].0, fs[i0 + 1].0));
            }
        }
        assert forall|i: int, j: int| 0 <= i < j < t.len() implies lex_lt(
            (#[trigger] t[i]).0,
            (#[trigger] t[j]).0,
        ) by {
            if i == 0 {
                assert(t[j] == t2[j - 1]);
            } else {
                assert(t[i] == t2[i - 1] && t[j] == t2[j - 1]);
            }
        }
        assert forall|i: int| 0 <= i < t.len() implies summary_wf((#[trigger] t[i]).1)
            && summary_bounded(t[i].1, b) by {
            if i > 0 {
                assert(t[i] == t2[i - 1]);
            }
        }
        assert(has_file(t, name) == (t[0].0 == name || has_file(t.drop_first(), name)));
        assert(has_file(fs, name) == (fs[0].0 == name || has_file(fs.drop_first(), name)));
        assert(file_summary(t, name) == file_summary(t.drop_first(), name));
        assert(file_summary(fs, name) == file_summary(fs.drop_first(), name));
        assert forall|k: Seq<char>| k != name implies has_file(t, k) == (has_file(fs, k) || k
            == name) by {
            assert(has_file(t, k) == (t[0].0 == k || has_file(t.drop_first(), k)));
            assert(has_file(fs, k) == (fs[0].0 == k || has_file(fs.drop_first(), k)));
        }
        assert forall|k: Seq<char>| k != name implies file_summary(t, k) == file_summary(
            fs,
            k,
        ) by {
            if fs[0].0 != k {
                assert(file_summary(t, k) == file_summary(t.drop_first(), k));
                assert(file_summary(fs, k) == file_summary(fs.drop_first(), k));
            } else {
                assert(file_summary(t, k) == t[0].1);
                assert(file_summary(fs, k) == fs[0].1);
            }
        }
    }
}

/// `spec_file_insert_lint` walks past a prefix that misses the file.
proof fn lemma_file_insert_lint_skip(
    fs: Seq<(Seq<char>, SummaryV)>,
    file: Seq<char>,
    rule: Seq<char>,
    k: int,
)
    requires
        0 <= k <= fs.len(),
        forall|j: int| 0 <= j < k ==> (#[trigger] fs[j]).0 != file,
    ensures
        spec_file_insert_lint(fs, file, rule) == fs.take(k) + spec_file_insert_lint(
            fs.skip(k),
            file,
            rule,
        ),
    decreases k,
{
    if k == 0 {
        assert(fs.skip(0) =~= fs);
        assert(fs.take(0) + spec_file_insert_lint(fs, file, rule) =~= spec_file_insert_lint(
            fs,
            file,
            rule,
        ));
    } else {
        lemma_file_insert_lint_skip(fs.drop_first(), file, rule, k - 1);
        assert(fs.drop_first().take(k - 1) =~= fs.take(k).drop_first());
        assert(fs.drop_first().skip(k - 1) =~= fs.skip(k));
        assert(seq![fs[0]] + (fs.drop_first().take(k - 1) + spec_file_insert_lint(
            fs.skip(k),
            file,
            rule,
        )) =~= fs.take(k) + spec_file_insert_lint(fs.skip(k), file, rule));
    }
}

/// `spec_file_insert_format` walks past a prefix that misses the file.
proof fn lemma_file_insert_format_skip(fs: Seq<(Seq<char>, SummaryV)>, file: Seq<char>, k: int)
    requires
        0 <= k <= fs.len(),
        forall|j: int| 0 <= j < k ==> (#[trigger] fs[j]).0 != file,
    ensures
        spec_file_insert_format(fs, file) == fs.take(k) + spec_file_insert_format(
            fs.skip(k),
            file,
        ),
    decreases k,
{
    if k == 0 {
        assert(fs.skip(0) =~= fs);
        assert(fs.take(0) + spec_file_insert_format(fs, file) =~= spec_file_insert_format(
            fs,
            file,
        ));
    } else {
        lemma_file_insert_format_skip(fs.drop_first(), file, k - 1);
        assert(fs.drop_first().take(k - 1) =~= fs.take(k).drop_first());
        assert(fs.drop_first().skip(k - 1) =~= fs.skip(k));
        assert(seq![fs[0]] + (fs.drop_first().take(k - 1) + spec_file_insert_format(
            fs.skip(k),
            file,
        )) =~= fs.take(k) + spec_file_insert_format(fs.skip(k), file));
    }
}

/// What tallying a lint does to the map: the file's rule tally gains one
/// occurrence of `rule`, its format count and every other record are
/// untouched, keys do not move, and well-formedness and bounds carry over.
pub proof fn lemma_file_insert_lint_props(
    fs: Seq<(Seq<char>, SummaryV)>,
    file: Seq<char>,
    rule: Seq<char>,
    b: nat,
)
    requires
        files_wf(fs),
        counts_bounded(fs, b),
    ensures
        files_wf(spec_file_insert_lint(fs, file, rule)),
        counts_bounded(spec_file_insert_lint(fs, file, rule), b + 1),
        spec_file_insert_lint(fs, file, rule).len() == fs.len(),
        forall|i: int|
            0 <= i < fs.len() ==> (#[trigger] spec_file_insert_lint(fs, file, rule)[i]).0
                == fs[i].0,
        forall|k: Seq<char>|
            #[trigger] has_file(spec_file_insert_lint(fs, file, rule), k) == has_file(fs, k),
        has_file(fs, file) ==> file_summary(spec_file_insert_lint(fs, file, rule), file)
            == (SummaryV {
            lints: spec_insert_lint(file_summary(fs, file).lints, rule),
            formats: file_summary(fs, file).formats,
        }),
        !has_file(fs, file) ==> spec_file_insert_lint(fs, file, rule) == fs,
        forall|k: Seq<char>|
            k != file ==> #[trigger] file_summary(spec_file_insert_lint(fs, file, rule), k)
                == file_summary(fs, k),
    decreases fs.len(),
{
    let t = spec_file_insert_lint(fs, file, rule);
    if fs.len() == 0 {
        assert(t == fs);
    } else if fs[0].0 == file {
        lemma_insert_lint_props(fs[0].1.lints, rule, b);
        let v = SummaryV { lints: spec_insert_lint(fs[0].1.lints, rule), formats: fs[0].1.formats };
        assert(t == fs.update(0, (file, v)));
        assert(t[0] == (file, v));
        assert(t.drop_first() =~= fs.drop_first());
        assert(has_file(fs, file));
        assert(file_summary(fs, file) == fs[0].1);
        assert(file_summary(t, file) == v);
        assert forall|i: int| 0 <= i < fs.len() implies (#[trigger] t[i]).0 == fs[i].0 by {}
        assert forall|k: Seq<char>| has_file(t, k) == has_file(fs, k) by {
            assert(has_file(t, k) == (t[0].0 == k || has_file(t.drop_first(), k)));
            assert(has_file(fs, k) == (fs[0].0 == k || has_file(fs.drop_first(), k)));
        }
        assert forall|k: Seq<char>| k != file implies file_summary(t, k) == file_summary(
            fs,
            k,
        ) by {
            assert(file_summary(t, k) == file_summary(t.drop_first(), k));
            assert(file_summary(fs, k) == file_summary(fs.drop_first(), k));
        }
        assert forall|i: int, j: int| 0 <= i < j < t.len() implies lex_lt(
            (#[trigger] t[i]).0,
            (#[trigger] t[j]).0,
        ) by {
            assert(t[i].0 == fs[i].0 && t[j].0 == fs[j].0);
        }
        assert forall|i: int| 0 <= i < t.len() implies summary_wf((#[trigger] t[i]).1)
            && summary_bounded(t[i].1, b + 1) by {
            if i > 0 {
                assert(t[i] == fs[i]);
                assert(summary_bounded(fs[i].1, b));
            }
        }
    } else {
        lemma_file_insert_lint_props(fs.drop_first(), file, rule, b);
        let t2 = spec_file_insert_lint(fs.drop_first(), file, rule);
        assert(t == seq![fs[0]] + t2);
        assert(t[0] == fs[0]);
        assert(t.drop_first() =~= t2);
        assert forall|i: int| 0 <= i < fs.len() implies (#[trigger] t[i]).0 == fs[i].0 by {
            if i > 0 {
                assert(t[i] == t2[i - 1]);
                assert(t2[i - 1].0 == fs.drop_first()[i - 1].0);
            }
        }
        assert forall|i: int, j: int| 0 <= i < j < t.len() implies lex_lt(
            (#[trigger] t[i]).0,
            (#[trigger] t[j]).0,
        ) by {
            assert(t[i].0 == fs[i].0 && t[j].0 == fs[j].0);
        }
        assert forall|i: int| 0 <= i < t.len() implies summary_wf((#[trigger] t[i]).1)
            && summary_bounded(t[i].1, b + 1) by {
            if i == 0 {
                assert(summary_bounded(fs[0].1, b));
            } else {
                assert(t[i] == t2[i - 1]);
            }
        }
        assert(has_file(t, file) == (t[0].0 == file || has_file(t.drop_first(), file)));
        assert(has_file(fs, file) == (fs[0].0 == file || has_file(fs.drop_first(), file)));
        assert(file_summary(t, file) == file_summary(t.drop_first(), file));
        assert(file_summary(fs, file) == file_summary(fs.drop_first(), file));
        if !has_file(fs, file) {
            assert(t2 == fs.drop_first());
            assert(t =~= fs);
        }
        assert forall|k: Seq<char>| has_file(t, k) == has_file(fs, k) by {
            assert(has_file(t, k) == (t[0].0 == k || has_file(t.drop_first(), k)));
            assert(has_file(fs, k) == (fs[0].0 == k || has_file(fs.drop_first(), k)));
        }
        assert forall|k: Seq<char>| k != file implies file_summary(t, k) == file_summary(
            fs,
            k,
        ) by {
            if fs[0].0 != k {
                assert(file_summary(t, k) == file_summary(t.drop_first(), k));
                assert(file_summary(fs, k) == file_summary(fs.drop_first(), k));
            } else {
                assert(file_summary(t, k) == t[0].1);
                assert(file_summary(fs, k) == fs[0].1);
            }
        }
    }
}

/// What tallying a format issue does to the map: the file's format count
/// grows by one, its rule tally and every other record are untouched, keys
/// do not move, and well-formedness and bounds carry over.
pub proof fn lemma_file_insert_format_props(fs: Seq<(Seq<char>, SummaryV)>, file: Seq<char>, b: nat)
    requires
        files_wf(fs),
        counts_bounded(fs, b),
    ensures
        files_wf(spec_file_insert_format(fs, file)),
        counts_bounded(spec_file_insert_format(fs, file), b + 1),
        spec_file_insert_format(fs, file).len() == fs.len(),
        forall|i: int|
            0 <= i < fs.len() ==> (#[trigger] spec_file_insert_format(fs, file)[i]).0 == fs[i].0,
        forall|k: Seq<char>|
            #[trigger] has_file(spec_file_insert_format(fs, file), k) == has_file(fs, k),
        has_file(fs, file) ==> file_summary(spec_file_insert_format(fs, file), file)
            == (SummaryV {
            lints: file_summary(fs, file).lints,
            formats: file_summary(fs, file).formats + 1,
        }),
        !has_file(fs, file) ==> spec_file_insert_format(fs, file) == fs,
        forall|k: Seq<char>|
            k != file ==> #[trigger] file_summary(spec_file_insert_format(fs, file), k)
                == file_summary(fs, k),
    decreases fs.len(),
{
    let t = spec_file_insert_format(fs, file);
    if fs.len() == 0 {
        assert(t == fs);
    } else if fs[0].0 == file {
        let v = SummaryV { lints: fs[0].1.lints, formats: fs[0].1.formats + 1 };
        assert(t == fs.update(0, (file, v)));
        assert(t[0] == (file, v));
        assert(t.drop_first() =~= fs.drop_first());
        assert(has_file(fs, file));
        assert(file_summary(fs, file) == fs[0].1);
        assert(file_summary(t, file) == v);
        assert forall|k: Seq<char>| has_file(t, k) == has_file(fs, k) by {
            assert(has_file(t, k) == (t[0].0 == k || has_file(t.drop_first(), k)));
            assert(has_file(fs, k) == (fs[0].0 == k || has_file(fs.drop_first(), k)));
        }
        assert forall|k: Seq<char>| k != file implies file_summary(t, k) == file_summary(
            fs,
            k,
        ) by {
            assert(file_summary(t, k) == file_summary(t.drop_first(), k));
            assert(file_summary(fs, k) == file_summary(fs.drop_first(), k));
        }
        assert forall|i: int, j: int| 0 <= i < j < t.len() implies lex_lt(
            (#[trigger] t[i]).0,
            (#[trigger] t[j]).0,
        ) by {
            assert(t[i].0 == fs[i].0 && t[j].0 == fs[j].0);
        }
        assert forall|i: int| 0 <= i < t.len() implies summary_wf((#[trigger] t[i]).1)
            && summary_bounded(t[i].1, b + 1) by {
            if i > 0 {
                assert(t[i] == fs[i]);
                assert(summary_bounded(fs[i].1, b));
            } else {
                assert(summary_bounded(fs[0].1, b));
            }
        }
    } else {
        lemma_file_insert_format_props(fs.drop_first(), file, b);
        let t2 = spec_file_insert_format(fs.drop_first(), file);
        assert(t == seq![fs[0]] + t2);
        assert(t[0] == fs[0]);
        assert(t.drop_first() =~= t2);
        assert forall|i: int| 0 <= i < fs.len() implies (#[trigger] t[i]).0 == fs[i].0 by {
            if i > 0 {
                assert(t[i] == t2[i - 1]);
                assert(t2[i - 1].0 == fs.drop_first()[i - 1].0);
            }
        }
        assert forall|i: int, j: int| 0 <= i < j < t.len() implies lex_lt(
            (#[trigger] t[i]).0,
            (#[trigger] t[j]).0,
        ) by {
            assert(t[i].0 == fs[i].0 && t[j].0 == fs[j].0);
        }
        assert forall|i: int| 0 <= i < t.len() implies summary_wf((#[trigger] t[i]).1)
            && summary_bounded(t[i].1, b + 1) by {
            if i == 0 {
                assert(summary_bounded(fs[0].1, b));
            } else {
                assert(t[i] == t2[i - 1]);
            }
        }
        assert(has_file(t, file) == (t[0].0 == file || has_file(t.drop_first(), file)));
        assert(has_file(fs, file) == (fs[0].0 == file || has_file(fs.drop_first(), file)));
        assert(file_summary(t, file) == file_summary(t.drop_first(), file));
        assert(file_summary(fs, file) == file_summary(fs.drop_first(), file));
        if !has_file(fs, file) {
            assert(t2 == fs.drop_first());
            assert(t =~= fs);
        }
        assert forall|k: Seq<char>| has_file(t, k) == has_file(fs, k) by {
            assert(has_file(t, k) == (t[0].0 == k || has_file(t.drop_first(), k)));
            assert(has_file(fs, k) == (fs[0].0 == k || has_file(fs.drop_first(), k)));
        }
        assert forall|k: Seq<char>| k != file implies file_summary(t, k) == file_summary(
            fs,
            k,
        ) by {
            if fs[0].0 != k {
                assert(file_summary(t, k) == file_summary(t.drop_first(), k));
                assert(file_summary(fs, k) == file_summary(fs.drop_first(), k));
            } else {
                assert(file_summary(t, k) == t[0].1);
                assert(file_summary(fs, k) == fs[0].1);
            }
        }
    }
}

/// One file's summary record: the rule tally and the format-issue count.
pub struct SummaryDiagnostics {
    lints: LintsByCategory,
    formats: usize,
}

impl View for SummaryDiagnostics {
    type V = SummaryV;

    closed spec fn view(&self) -> SummaryV {
        SummaryV { lints: self.lints@, formats: self.formats as nat }
    }
}

impl SummaryDiagnostics {
    pub fn new() -> (r: SummaryDiagnostics)
        ensures
            r@ == empty_summary(),
    {
        let r = SummaryDiagnostics { lints: LintsByCategory::new(), formats: 0 };
        proof {
            assert(r@.lints =~= empty_summary().lints);
        }
        r
    }

    /// The rule tally of this file.
    pub fn lints(&self) -> (r: &LintsByCategory)
        ensures
            r@ == self@.lints,
    {
        &self.lints
    }

    /// How many format-category diagnostics this file collected.
    pub fn formats(&self) -> (r: usize)
        ensures
            r == self@.formats,
    {
        self.formats
    }
}

/// The per-file mapping that one aggregation pass builds and the renderer
/// then reads; file sections come out in ascending lexicographic path order.
pub struct FileToDiagnostics {
    files: Vec<(String, SummaryDiagnostics)>,
}

impl View for FileToDiagnostics {
    type V = Seq<(Seq<char>, SummaryV)>;

    closed spec fn view(&self) -> Seq<(Seq<char>, SummaryV)> {
        Seq::new(self.files@.len(), |i: int| (self.files@[i].0@, self.files@[i].1@))
    }
}

impl FileToDiagnostics {
    pub fn new() -> (r: FileToDiagnostics)
        ensures
            r@ == Seq::<(Seq<char>, SummaryV)>::empty(),
    {
        let r = FileToDiagnostics { files: Vec::new() };
        proof {
            assert(r@ =~= Seq::<(Seq<char>, SummaryV)>::empty());
        }
        r
    }

    /// Number of files recorded.
    pub fn len(&self) -> (l: usize)
        ensures
            l == self@.len(),
    {
        self.files.len()
    }

    /// The path of the file section at `i`, in ascending path order.
    pub fn file_at(&self, i: usize) -> (r: &str)
        requires
            i < self@.len(),
        ensures
            r@ == self@[i as int].0,
    {
        self.files[i].0.as_str()
    }

    /// The summary record of the file section at `i`.
    pub fn summary_at(&self, i: usize) -> (r: &SummaryDiagnostics)
        requires
            i < self@.len(),
        ensures
            r@ == self@[i as int].1,
    {
        &self.files[i].1
    }

    /// Records the file as seen, creating an empty record the first time
    /// a diagnostic for that path is observed.
    pub fn track_file(&mut self, file_name: &str)
        requires
            files_wf(old(self)@),
        ensures
            final(self)@ == spec_track(old(self)@, file_name@),
    {
        let ghost s = old(self)@;
        let mut k: usize = 0;
        while k < self.files.len()
            invariant
                files_wf(s),
                s == old(self)@,
                self@ == s,
                k <= s.len(),
                forall|j: int| 0 <= j < k ==> lex_lt((#[trigger] s[j]).0, file_name@),
            decreases s.len() - k,
        {
            let c = str_lex_cmp(self.files[k].0.as_str(), file_name);
            if c == 0 {
                proof {
                    lemma_track_skip(s, file_name@, k as int);
                    assert(s.skip(k as int)[0] == s[k as int]);
                    assert(spec_track(s.skip(k as int), file_name@) == s.skip(k as int));
                    assert(s.take(k as int) + s.skip(k as int) =~= s);
                }
                return ;
            }
            if c == 1 {
                // this entry comes after the new path: insert here
                proof {
                    lemma_track_skip(s, file_name@, k as int);
                    assert(s.skip(k as int)[0] == s[k as int]);
                    assert(spec_track(s.skip(k as int), file_name@) == seq![
                        (file_name@, empty_summary()),
                    ] + s.skip(k as int));
                }
                self.files.insert(k, (String::from_str(file_name), SummaryDiagnostics::new()));
                proof {
                    assert(self@ =~= s.take(k as int) + (seq![(file_name@, empty_summary())]
                        + s.skip(k as int)));
                }
                return ;
            }
            k = k + 1;
        }
        proof {
            lemma_track_skip(s, file_name@, s.len() as int);
            assert(s.skip(s.len() as int) =~= Seq::<(Seq<char>, SummaryV)>::empty());
        }
        self.files.push((String::from_str(file_name), SummaryDiagnostics::new()));
        proof {
            assert(self@ =~= s.take(s.len() as int) + seq![(file_name@, empty_summary())]);
        }
    }

    /// The summary record tracked for the file.
    pub fn get_summary(&self, file_name: &str) -> (r: &SummaryDiagnostics)
        requires
            has_file(self@, file_name@),
        ensures
            r@ == file_summary(self@, file_name@),
    {
        let ghost s = self@;
        let mut k: usize = 0;
        while k < self.files.len()
            invariant
                self@ == s,
                has_file(s, file_name@),
                k <= s.len(),
                forall|j: int| 0 <= j < k ==> (#[trigger] s[j]).0 != file_name@,
            decreases s.len() - k,
        {
            let c = str_lex_cmp(self.files[k].0.as_str(), file_name);
            if c == 0 {
                proof {
                    lemma_file_summary_at(s, file_name@, k as int);
                }
                return &self.files[k].1;
            }
            k = k + 1;
        }
        proof {
            lemma_file_absent(s, file_name@);
        }
        unreached()
    }

    /// Increments the tally of the named rule for the file.
    pub fn insert_lint(&mut self, location: &str, rule_name: &str)
        requires
            has_file(old(self)@, location@),
            lints_wf(file_summary(old(self)@, location@).lints),
            rule_count(file_summary(old(self)@, location@).lints, rule_name@) < usize::MAX,
        ensures
            final(self)@ == spec_file_insert_lint(old(self)@, location@, rule_name@),
    {
        let ghost s = old(self)@;
        let mut k: usize = 0;
        while k < self.files.len()
            invariant
                s == old(self)@,
                self@ == s,
                has_file(s, location@),
                lints_wf(file_summary(s, location@).lints),
                rule_count(file_summary(s, location@).lints, rule_name@) < usize::MAX,
                k <= s.len(),
                forall|j: int| 0 <= j < k ==> (#[trigger] s[j]).0 != location@,
            decreases s.len() - k,
        {
            let c = str_lex_cmp(self.files[k].0.as_str(), location);
            if c == 0 {
                proof {
                    lemma_file_summary_at(s, location@, k as int);
                    lemma_file_insert_lint_skip(s, location@, rule_name@, k as int);
                    assert(s.skip(k as int)[0] == s[k as int]);
                }
                let mut entry = self.files.remove(k);
                entry.1.lints.increment(rule_name);
                self.files.insert(k, entry);
                proof {
                    assert(spec_file_insert_lint(s.skip(k as int), location@, rule_name@)
                        =~= s.skip(k as int).update(
                        0,
                        (
                            location@,
                            SummaryV {
                                lints: spec_insert_lint(s[k as int].1.lints, rule_name@),
                                formats: s[k as int].1.formats,
                            },
                        ),
                    ));
                    assert(self@ =~= s.take(k as int) + spec_file_insert_lint(
                        s.skip(k as int),
                        location@,
                        rule_name@,
                    ));
                }
                return ;
            }
            k = k + 1;
        }
        proof {
            lemma_file_absent(s, location@);
        }
        unreached()
    }

    /// Increments the format-issue count of the file.
    pub fn insert_format(&mut self, location: &str)
        requires
            has_file(old(self)@, location@),
            file_summary(old(self)@, location@).formats < usize::MAX,
        ensures
            final(self)@ == spec_file_insert_format(old(self)@, location@),
    {
        let ghost s = old(self)@;
        let mut k: usize = 0;
        while k < self.files.len()
            invariant
                s == old(self)@,
                self@ == s,
                has_file(s, location@),
                file_summary(s, location@).formats < usize::MAX,
                k <= s.len(),
                forall|j: int| 0 <= j < k ==> (#[trigger] s[j]).0 != location@,
            decreases s.len() - k,
        {
            let c = str_lex_cmp(self.files[k].0.as_str(), location);
            if c == 0 {
                proof {
                    lemma_file_summary_at(s, location@, k as int);
                    lemma_file_insert_format_skip(s, location@, k as int);
                    assert(s.skip(k as int)[0] == s[k as int]);
                }
                let mut entry = self.files.remove(k);
                entry.1.formats = entry.1.formats + 1;
                self.files.insert(k, entry);
                proof {
                    assert(spec_file_insert_format(s.skip(k as int), location@) =~= s.skip(
                        k as int,
                    ).update(
                        0,
                        (
                            location@,
                            SummaryV {
                                lints: s[k as int].1.lints,
                                formats: s[k as int].1.formats + 1,
                            },
                        ),
                    ));
                    assert(self@ =~= s.take(k as int) + spec_file_insert_format(
                        s.skip(k as int),
                        location@,
                    ));
                }
                return ;
            }
            k = k + 1;
        }
        proof {
            lemma_file_absent(s, location@);
        }
        unreached()
    }
}

} // verus!
