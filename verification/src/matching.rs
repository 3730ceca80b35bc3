//! Suffix matching of an observed port sequence against knock sequences.

use crate::config::{rule_views, Rule, RuleView};
use vstd::prelude::*;

verus! {

/// `pattern` is a suffix of `observed`: the trailing elements of `observed`
/// equal `pattern` in order and length.
pub open spec fn is_suffix(observed: Seq<i32>, pattern: Seq<i32>) -> bool {
    pattern.len() <= observed.len() && observed.subrange(
        observed.len() - pattern.len(),
        observed.len() as int,
    ) == pattern
}

/// Decides whether `observed` ends with `pattern`.
pub fn ends_with(observed: &[i32], pattern: &[i32]) -> (matched: bool)
    ensures
        matched == is_suffix(observed@, pattern@),
{
    let n: usize = observed.len();
    let m: usize = pattern.len();
    if m > n {
        return false;
    }
    let offset: usize = n - m;
    let mut i: usize = 0;
    while i < m
        invariant
            n == observed@.len(),
            m == pattern@.len(),
            m <= n,
            offset == n - m,
            i <= m,
            forall|j: int| 0 <= j < i ==> observed@[offset + j] == pattern@[j],
        decreases m - i,
    {
        if observed[offset + i] != pattern[i] {
            proof {
                let tail = observed@.subrange(n - m, n as int);
                assert(tail[i as int] == observed@[offset + i]);
            }
            return false;
        }
        i += 1;
    }
    proof {
        assert(observed@.subrange(n - m, n as int) =~= pattern@);
    }
    true
}

/// Rule number `i` is completed by `observed`.
pub open spec fn matches_at(rules: Seq<RuleView>, observed: Seq<i32>, i: int) -> bool {
    0 <= i < rules.len() && is_suffix(observed, rules[i].sequence)
}

/// Rule number `i` is completed by `observed` and no rule declared before it is.
pub open spec fn is_first_match(rules: Seq<RuleView>, observed: Seq<i32>, i: int) -> bool {
    matches_at(rules, observed, i) && forall|j: int|
        0 <= j < i ==> !#[trigger] matches_at(rules, observed, j)
}

/// The rule that fires for `observed`: of the rules it completes, the one
/// declared first. Declaration order is the tie-break between rules that
/// share a suffix.
pub open spec fn first_match(rules: Seq<RuleView>, observed: Seq<i32>) -> Option<int> {
    if exists|i: int| is_first_match(rules, observed, i) {
        Some(choose|i: int| is_first_match(rules, observed, i))
    } else {
        None
    }
}

/// There is at most one first match.
pub proof fn lemma_first_match_is(rules: Seq<RuleView>, observed: Seq<i32>, i: int)
    requires
        is_first_match(rules, observed, i),
    ensures
        first_match(rules, observed) == Some(i),
{
    let k = choose|k: int| is_first_match(rules, observed, k);
    if k < i {
        assert(matches_at(rules, observed, k));
    } else if i < k {
        assert(matches_at(rules, observed, i));
    }
}

/// Where no rule is completed, none fires.
pub proof fn lemma_first_match_none(rules: Seq<RuleView>, observed: Seq<i32>)
    requires
        forall|i: int| !#[trigger] matches_at(rules, observed, i),
    ensures
        first_match(rules, observed).is_none(),
{
}

/// What `first_match` returns is a first match, and `None` means that no
/// rule is completed.
pub proof fn lemma_first_match_sound(rules: Seq<RuleView>, observed: Seq<i32>)
    ensures
        match first_match(rules, observed) {
            Some(i) => is_first_match(rules, observed, i),
            None => forall|i: int| !#[trigger] matches_at(rules, observed, i),
        },
{
    if first_match(rules, observed).is_none() {
        assert forall|i: int| !#[trigger] matches_at(rules, observed, i) by {
            if matches_at(rules, observed, i) {
                lemma_least_match(rules, observed, i);
            }
        }
    }
}

/// A completed rule implies a first completed rule at or before it.
proof fn lemma_least_match(rules: Seq<RuleView>, observed: Seq<i32>, i: int)
    requires
        matches_at(rules, observed, i),
    ensures
        exists|k: int| 0 <= k <= i && is_first_match(rules, observed, k),
    decreases i,
{
    if exists|j: int| 0 <= j < i && matches_at(rules, observed, j) {
        let j = choose|j: int| 0 <= j < i && matches_at(rules, observed, j);
        lemma_least_match(rules, observed, j);
    } else {
        assert(is_first_match(rules, observed, i));
    }
}

/// Finds the rule that fires for `observed`, trying the rules in
/// declaration order.
pub fn find_match(rules: &Vec<Rule>, observed: &[i32]) -> (found: Option<usize>)
    ensures
        match found {
            Some(i) => first_match(rule_views(rules@), observed@) == Some(i as int),
            None => first_match(rule_views(rules@), observed@).is_none(),
        },
{
    let ghost views = rule_views(rules@);
    let mut i: usize = 0;
    while i < rules.len()
        invariant
            i <= rules.len(),
            views == rule_views(rules@),
            forall|j: int| 0 <= j < i ==> !#[trigger] matches_at(views, observed@, j),
        decreases rules.len() - i,
    {
        if ends_with(observed, rules[i].sequence.as_slice()) {
            proof {
                assert(views[i as int] == rules[i as int]@);
                assert(is_first_match(views, observed@, i as int));
                lemma_first_match_is(views, observed@, i as int);
            }
            return Some(i);
        }
        proof {
            assert(views[i as int] == rules[i as int]@);
        }
        i += 1;
    }
    proof {
        lemma_first_match_none(views, observed@);
    }
    None
}

} // verus!
