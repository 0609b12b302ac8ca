//! The per-file tally model: which lint rules fired how often, and how many
//! formatting issues were attributed to each file.
//!
//! Rule names carry two distinct notions of comparison: equality is by exact
//! string content (map-key uniqueness), while the display order is by name
//! length, shorter names first. Equal-length names compare equal for display
//! purposes; among themselves they keep insertion order (first inserted
//! first in the ascending table). File sections are keyed by file path and
//! ordered lexicographically.

use vstd::prelude::*;

use crate::text::str_lex_cmp;

verus! {

/// Identifies a lint rule by name.
pub struct RuleName {
    name: String,
}

impl View for RuleName {
    type V = Seq<char>;

    closed spec fn view(&self) -> Seq<char> {
        self.name@
    }
}

impl RuleName {
    pub fn new(name: String) -> (r: RuleName)
        ensures
            r@ == name@,
    {
        RuleName { name }
    }

    /// The rule name itself.
    pub fn as_ref(&self) -> (r: &str)
        ensures
            r@ == self@,
    {
        self.name.as_str()
    }

    /// The length of the rule name in characters; this is the display
    /// ordering key and the input of the column-width computation.
    pub fn name_len(&self) -> (l: usize)
        ensures
            l == self@.len(),
    {
        self.name.as_str().unicode_len()
    }
}

/// Display order of two rule names: strictly earlier means strictly shorter.
/// This is deliberately distinct from equality of names, which is by content.
pub open spec fn display_before(a: Seq<char>, b: Seq<char>) -> bool {
    a.len() < b.len()
}

/// Equality of rule names as map keys: exact string content.
pub open spec fn same_rule(a: Seq<char>, b: Seq<char>) -> bool {
    a == b
}

/// A well-formed rule tally: entries ascend (weakly) in name length,
/// names are unique, and every materialized count is at least one.
pub open spec fn lints_wf(s: Seq<(Seq<char>, nat)>) -> bool {
    &&& forall|i: int, j: int|
        0 <= i < j < s.len() ==> !display_before(#[trigger] s[j].0, #[trigger] s[i].0)
    &&& forall|i: int, j: int|
        0 <= i < j < s.len() ==> !same_rule(#[trigger] s[i].0, #[trigger] s[j].0)
    &&& forall|i: int| 0 <= i < s.len() ==> (#[trigger] s[i]).1 >= 1
}

/// The tally of the rule named `name`: the count of its first entry, zero
/// when it is absent.
pub open spec fn rule_count(s: Seq<(Seq<char>, nat)>, name: Seq<char>) -> nat
    decreases s.len(),
{
    if s.len() == 0 {
        0
    } else if s[0].0 == name {
        s[0].1
    } else {
        rule_count(s.drop_first(), name)
    }
}

/// Whether the tally holds an entry for `name`.
pub open spec fn has_rule(s: Seq<(Seq<char>, nat)>, name: Seq<char>) -> bool
    decreases s.len(),
{
    if s.len() == 0 {
        false
    } else {
        s[0].0 == name || has_rule(s.drop_first(), name)
    }
}

/// One more occurrence of the rule `name`: its entry's count grows by one,
/// or a fresh entry with count one is inserted after all entries of the
/// same or a shorter name length.
pub open spec fn spec_insert_lint(s: Seq<(Seq<char>, nat)>, name: Seq<char>) -> Seq<
    (Seq<char>, nat),
>
    decreases s.len(),
{
    if s.len() == 0 {
        seq![(name, 1nat)]
    } else if s[0].0 == name {
        s.update(0, (name, (s[0].1 + 1) as nat))
    } else if display_before(name, s[0].0) {
        seq![(name, 1nat)] + s
    } else {
        seq![s[0]] + spec_insert_lint(s.drop_first(), name)
    }
}

/// `spec_insert_lint` walks past a prefix that holds neither the name nor
/// any longer name.
proof fn lemma_insert_lint_skip(s: Seq<(Seq<char>, nat)>, name: Seq<char>, k: int)
    requires
        0 <= k <= s.len(),
        forall|j: int| 0 <= j < k ==> (#[trigger] s[j]).0 != name,
        forall|j: int| 0 <= j < k ==> !display_before(name, (#[trigger] s[j]).0),
    ensures
        spec_insert_lint(s, name) == s.take(k) + spec_insert_lint(s.skip(k), name),
    decreases k,
{
    if k == 0 {
        assert(s.skip(0) =~= s);
        assert(s.take(0) + spec_insert_lint(s, name) =~= spec_insert_lint(s, name));
    } else {
        lemma_insert_lint_skip(s.drop_first(), name, k - 1);
        assert(s.drop_first().take(k - 1) =~= s.take(k).drop_first());
        assert(s.drop_first().skip(k - 1) =~= s.skip(k));
        assert(seq![s[0]] + (s.drop_first().take(k - 1) + spec_insert_lint(s.skip(k), name))
            =~= s.take(k) + spec_insert_lint(s.skip(k), name));
    }
}

/// What one insertion does: the named rule's count grows by one, every
/// other rule's count is untouched, well-formedness is preserved, and no
/// count exceeds the old bound plus one.
pub proof fn lemma_insert_lint_props(s: Seq<(Seq<char>, nat)>, name: Seq<char>, b: nat)
    requires
        lints_wf(s),
        forall|i: int| 0 <= i < s.len() ==> (#[trigger] s[i]).1 <= b,
    ensures
        lints_wf(spec_insert_lint(s, name)),
        rule_count(spec_insert_lint(s, name), name) == rule_count(s, name) + 1,
        forall|r: Seq<char>|
            r != name ==> #[trigger] rule_count(spec_insert_lint(s, name), r) == rule_count(s, r),
        has_rule(spec_insert_lint(s, name), name),
        forall|r: Seq<char>|
            r != name ==> #[trigger] has_rule(spec_insert_lint(s, name), r) == has_rule(s, r),
        forall|i: int|
            0 <= i < spec_insert_lint(s, name).len() ==> (#[trigger] spec_insert_lint(s, name)[i]).1
                <= b + 1,
        spec_insert_lint(s, name).len() == if has_rule(s, name) {
            s.len()
        } else {
            s.len() + 1
        },
    decreases s.len(),
{
    let t = spec_insert_lint(s, name);
    if s.len() == 0 {
        let e = Seq::<(Seq<char>, nat)>::empty();
        assert(t == seq![(name, 1nat)]);
        assert(t.len() == 1);
        assert(t[0] == (name, 1nat));
        assert(t.drop_first() =~= e);
        assert(rule_count(t, name) == 1);
        assert(has_rule(t, name));
        assert(!has_rule(s, name));
        assert forall|r: Seq<char>| r != name implies rule_count(t, r) == rule_count(s, r) by {
            assert(rule_count(e, r) == 0);
            assert(rule_count(t, r) == rule_count(t.drop_first(), r));
            assert(rule_count(s, r) == 0);
        }
        assert forall|r: Seq<char>| r != name implies has_rule(t, r) == has_rule(s, r) by {
            assert(!has_rule(e, r));
            assert(has_rule(t, r) == has_rule(t.drop_first(), r));
            assert(!has_rule(s, r));
        }
    } else if s[0].0 == name {
        assert(t == s.update(0, (name, (s[0].1 + 1) as nat)));
        assert(t[0].0 == name && t[0].1 == s[0].1 + 1);
        assert(t.drop_first() =~= s.drop_first());
        assert(rule_count(t, name) == t[0].1);
        assert(rule_count(s, name) == s[0].1);
        assert(has_rule(t, name));
        assert(has_rule(s, name));
        assert forall|i: int| 0 <= i < t.len() implies t[i].0 == s[i].0 && (i != 0 ==> t[i].1
            == s[i].1) by {}
        assert forall|r: Seq<char>| r != name implies rule_count(t, r) == rule_count(s, r) by {
            assert(rule_count(t, r) == rule_count(t.drop_first(), r));
            assert(rule_count(s, r) == rule_count(s.drop_first(), r));
        }
        assert forall|r: Seq<char>| r != name implies has_rule(t, r) == has_rule(s, r) by {
            assert(has_rule(t, r) == (t[0].0 == r || has_rule(t.drop_first(), r)));
            assert(has_rule(s, r) == (s[0].0 == r || has_rule(s.drop_first(), r)));
        }
    } else if display_before(name, s[0].0) {
        assert(t == seq![(name, 1nat)] + s);
        assert(t[0] == (name, 1nat));
        assert(t.drop_first() =~= s);
        assert forall|j: int| 0 <= j < s.len() implies (#[trigger] s[j]).0 != name by {
            if j > 0 {
                assert(!display_before(s[j].0, s[0].0));
            }
            assert(s[j].0.len() >= s[0].0.len() > name.len());
        }
        lemma_rule_absent(s, name);
        assert(rule_count(t, name) == 1);
        assert(has_rule(t, name));
        assert forall|r: Seq<char>| r != name implies rule_count(t, r) == rule_count(s, r) by {
            assert(rule_count(t, r) == rule_count(t.drop_first(), r));
        }
        assert forall|r: Seq<char>| r != name implies has_rule(t, r) == has_rule(s, r) by {
            assert(has_rule(t, r) == (t[0].0 == r || has_rule(t.drop_first(), r)));
        }
        assert forall|i: int| 0 <= i < t.len() implies (#[trigger] t[i]).1 >= 1 && t[i].1 <= b
            + 1 by {
            if i > 0 {
                assert(t[i] == s[i - 1]);
            }
        }
        // every later entry is at least as long as s[0], hence longer than name
        assert forall|i: int, j: int| 0 <= i < j < t.len() implies !display_before(
            t[j].0,
            t[i].0,
        ) by {
            if i == 0 {
                assert(t[j] == s[j - 1]);
                if j - 1 > 0 {
                    assert(!display_before(s[j - 1].0, s[0].0));
                }
            } else {
                assert(t[i] == s[i - 1] && t[j] == s[j - 1]);
            }
        }
        assert forall|i: int, j: int| 0 <= i < j < t.len() implies !same_rule(t[i].0, t[j].0) by {
            if i == 0 {
                assert(t[j] == s[j - 1]);
                if j - 1 > 0 {
                    assert(!display_before(s[j - 1].0, s[0].0));
                }
                assert(s[j - 1].0.len() >= s[0].0.len() > name.len());
            } else {
                assert(t[i] == s[i - 1] && t[j] == s[j - 1]);
            }
        }
    } else {
        lemma_insert_lint_props(s.drop_first(), name, b);
        let t2 = spec_insert_lint(s.drop_first(), name);
        assert(t == seq![s[0]] + t2);
        assert(t[0] == s[0]);
        assert(t.drop_first() =~= t2);
        // order and uniqueness against the head
        assert forall|j: int| 0 <= j < t2.len() implies !display_before(t2[j].0, s[0].0)
            && t2[j].0 != s[0].0 by {
            lemma_insert_lint_member(s.drop_first(), name, j);
        }
        assert forall|i: int, j: int| 0 <= i < j < t.len() implies !display_before(
            t[j].0,
            t[i].0,
        ) && !same_rule(t[i].0, t[j].0) by {
            if i == 0 {
                assert(t[j] == t2[j - 1]);
            } else {
                assert(t[i] == t2[i - 1] && t[j] == t2[j - 1]);
            }
        }
        assert(rule_count(t, name) == rule_count(t2, name));
        assert(rule_count(s, name) == rule_count(s.drop_first(), name));
        assert(has_rule(t, name) == (t[0].0 == name || has_rule(t.drop_first(), name)));
        assert(has_rule(s, name) == (s[0].0 == name || has_rule(s.drop_first(), name)));
        assert forall|r: Seq<char>| r != name implies rule_count(t, r) == rule_count(s, r) by {
            if s[0].0 != r {
                assert(rule_count(t, r) == rule_count(t2, r));
                assert(rule_count(s, r) == rule_count(s.drop_first(), r));
            } else {
                assert(rule_count(t, r) == t[0].1);
                assert(rule_count(s, r) == s[0].1);
            }
        }
        assert forall|r: Seq<char>| r != name implies has_rule(t, r) == has_rule(s, r) by {
            assert(has_rule(t, r) == (t[0].0 == r || has_rule(t.drop_first(), r)));
            assert(has_rule(s, r) == (s[0].0 == r || has_rule(s.drop_first(), r)));
        }
        assert forall|i: int| 0 <= i < t.len() implies (#[trigger] t[i]).1 >= 1 && t[i].1 <= b
            + 1 by {
            if i > 0 {
                assert(t[i] == t2[i - 1]);
            }
        }
    }
}

/// A tally whose entries are all at most `b` reports at most `b` for any rule.
pub proof fn lemma_rule_count_bounded(s: Seq<(Seq<char>, nat)>, name: Seq<char>, b: nat)
    requires
        forall|i: int| 0 <= i < s.len() ==> (#[trigger] s[i]).1 <= b,
    ensures
        rule_count(s, name) <= b,
    decreases s.len(),
{
    if s.len() > 0 && s[0].0 != name {
        lemma_rule_count_bounded(s.drop_first(), name, b);
    }
}

/// A name held by no entry has tally zero.
proof fn lemma_rule_absent(s: Seq<(Seq<char>, nat)>, name: Seq<char>)
    requires
        forall|j: int| 0 <= j < s.len() ==> (#[trigger] s[j]).0 != name,
    ensures
        rule_count(s, name) == 0,
        !has_rule(s, name),
    decreases s.len(),
{
    if s.len() > 0 {
        lemma_rule_absent(s.drop_first(), name);
    }
}

/// Every entry of an updated tally is either the fresh entry for `name`
/// or an entry of the original tally.
proof fn lemma_insert_lint_member(s: Seq<(Seq<char>, nat)>, name: Seq<char>, j: int)
    requires
        0 <= j < spec_insert_lint(s, name).len(),
    ensures
        spec_insert_lint(s, name)[j].0 == name || exists|i: int|
            0 <= i < s.len() && (#[trigger] s[i]).0 == spec_insert_lint(s, name)[j].0
                && s[i].0.len() == spec_insert_lint(s, name)[j].0.len(),
    decreases s.len(),
{
    let t = spec_insert_lint(s, name);
    if s.len() == 0 {
    } else if s[0].0 == name {
        if j > 0 {
            assert(t[j] == s[j]);
        }
    } else if display_before(name, s[0].0) {
        if j > 0 {
            assert(t[j] == s[j - 1]);
        }
    } else {
        if j == 0 {
            assert(t[0] == s[0]);
        } else {
            let t2 = spec_insert_lint(s.drop_first(), name);
            assert(t[j] == t2[j - 1]);
            lemma_insert_lint_member(s.drop_first(), name, j - 1);
            if t2[j - 1].0 != name {
                let i0 = choose|i: int|
                    0 <= i < s.drop_first().len() && (#[trigger] s.drop_first()[i]).0 == t2[j
                        - 1].0 && s.drop_first()[i].0.len() == t2[j - 1].0.len();
                assert(s[i0 + 1] == s.drop_first()[i0]);
            }
        }
    }
}

/// Rule tally of one file: occurrence counts per lint rule, kept in the
/// ascending display order described at the top of this module.
pub struct LintsByCategory {
    entries: Vec<(RuleName, usize)>,
}

impl View for LintsByCategory {
    type V = Seq<(Seq<char>, nat)>;

    closed spec fn view(&self) -> Seq<(Seq<char>, nat)> {
        Seq::new(self.entries@.len(), |i: int| (self.entries@[i].0@, self.entries@[i].1 as nat))
    }
}

impl LintsByCategory {
    pub fn new() -> (r: LintsByCategory)
        ensures
            r@ =~= Seq::<(Seq<char>, nat)>::empty(),
    {
        LintsByCategory { entries: Vec::new() }
    }

    /// Number of distinct rules tallied.
    pub fn len(&self) -> (l: usize)
        ensures
            l == self@.len(),
    {
        self.entries.len()
    }

    /// The rule name of the entry at `i` in ascending display order.
    pub fn name_at(&self, i: usize) -> (r: &str)
        requires
            i < self@.len(),
        ensures
            r@ == self@[i as int].0,
    {
        self.entries[i].0.as_ref()
    }

    /// The occurrence count of the entry at `i`.
    pub fn count_at(&self, i: usize) -> (c: usize)
        requires
            i < self@.len(),
        ensures
            c == self@[i as int].1,
    {
        self.entries[i].1
    }

    /// Records one more occurrence of the rule `name`.
    pub fn increment(&mut self, name: &str)
        requires
            lints_wf(old(self)@),
            rule_count(old(self)@, name@) < usize::MAX,
        ensures
            final(self)@ == spec_insert_lint(old(self)@, name@),
    {
        let ghost s = old(self)@;
        let mut k: usize = 0;
        while k < self.entries.len()
            invariant
                lints_wf(s),
                s == old(self)@,
                self@ == s,
                rule_count(s, name@) < usize::MAX,
                k <= s.len(),
                forall|j: int| 0 <= j < k ==> (#[trigger] s[j]).0 != name@,
                forall|j: int| 0 <= j < k ==> !display_before(name@, (#[trigger] s[j]).0),
            decreases s.len() - k,
        {
            let is_same = str_lex_cmp(self.entries[k].0.as_ref(), name) == 0;
            if is_same {
                proof {
                    lemma_insert_lint_skip(s, name@, k as int);
                    assert(s.skip(k as int)[0] == s[k as int]);
                    lemma_rule_count_at(s, name@, k as int);
                }
                let count = self.entries[k].1;
                let rule = self.entries.remove(k);
                self.entries.insert(k, (rule.0, count + 1));
                proof {
                    assert(spec_insert_lint(s.skip(k as int), name@) =~= s.skip(k as int).update(
                        0,
                        (name@, (s[k as int].1 + 1) as nat),
                    ));
                    assert(self@ =~= s.take(k as int) + spec_insert_lint(
                        s.skip(k as int),
                        name@,
                    ));
                }
                return ;
            }
            let longer = self.entries[k].0.name_len() > name.unicode_len();
            if longer {
                proof {
                    lemma_insert_lint_skip(s, name@, k as int);
                    assert(s.skip(k as int)[0] == s[k as int]);
                    assert(spec_insert_lint(s.skip(k as int), name@) == seq![(name@, 1nat)]
                        + s.skip(k as int));
                }
                self.entries.insert(k, (RuleName::new(String::from_str(name)), 1));
                proof {
                    assert(self@ =~= s.take(k as int) + (seq![(name@, 1nat)] + s.skip(
                        k as int,
                    )));
                }
                return ;
            }
            k = k + 1;
        }
        proof {
            lemma_insert_lint_skip(s, name@, s.len() as int);
            assert(s.skip(s.len() as int) =~= Seq::<(Seq<char>, nat)>::empty());
        }
        self.entries.push((RuleName::new(String::from_str(name)), 1));
        proof {
            assert(self@ =~= s.take(s.len() as int) + seq![(name@, 1nat)]);
        }
    }
}

/// When the first `k` entries miss the name, the count, if any, sits in the
/// rest; in particular a match at `k` after such a prefix is the count.
proof fn lemma_rule_count_at(s: Seq<(Seq<char>, nat)>, name: Seq<char>, k: int)
    requires
        0 <= k < s.len(),
        forall|j: int| 0 <= j < k ==> (#[trigger] s[j]).0 != name,
        s[k].0 == name,
    ensures
        rule_count(s, name) == s[k].1,
    decreases k,
{
    if k == 0 {
    } else {
        lemma_rule_count_at(s.drop_first(), name, k - 1);
    }
}

} // verus!
