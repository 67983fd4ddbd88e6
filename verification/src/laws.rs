//! What holds of every search, whatever the orbit.

use vstd::prelude::*;
use crate::escape::{escapes, escapes_at, lemma_escape_decides, verdict_of, Verdict, MAX_ITERATIONS};

verus! {

/// Every sequence of outcomes has exactly one of three readings: an escape
/// at its first bailout within the bound, a bounded orbit, or no verdict yet.
pub proof fn lemma_verdict_cases(flags: Seq<bool>)
    ensures
        match verdict_of(flags) {
            Some(Verdict::Escaped(i)) => escapes_at(flags, i as int),
            Some(Verdict::Bounded) => flags.len() >= MAX_ITERATIONS && forall|j: int|
                0 <= j < MAX_ITERATIONS ==> !flags[j],
            None => flags.len() < MAX_ITERATIONS && forall|j: int|
                0 <= j < flags.len() ==> !flags[j],
        },
{
    if escapes(flags) {
        let i = choose|i: int| escapes_at(flags, i);
        lemma_escape_decides(flags, i);
    } else {
        assert forall|j: int| 0 <= j < flags.len() && j < MAX_ITERATIONS implies !flags[j] by {
            if flags[j] {
                lemma_first_bailout(flags, j);
            }
        }
    }
}

/// Where the bailout test held at some index within the bound, the orbit
/// escapes, at that index or before it.
pub proof fn lemma_first_bailout(flags: Seq<bool>, at: int)
    requires
        0 <= at < flags.len(),
        at < MAX_ITERATIONS,
        flags[at],
    ensures
        exists|i: int| 0 <= i <= at && escapes_at(flags, i),
    decreases at,
{
    if exists|j: int| 0 <= j < at && flags[j] {
        let j = choose|j: int| 0 <= j < at && flags[j];
        lemma_first_bailout(flags, j);
    } else {
        assert(escapes_at(flags, at));
    }
}

/// The score of every verdict that a search reaches lies in the range from 0
/// to 999 thousandths, and is the index of the escaping iteration where it
/// is not zero.
pub proof fn lemma_score_in_range(flags: Seq<bool>, verdict: Verdict)
    requires
        verdict_of(flags) == Some(verdict),
    ensures
        verdict.score_per_mille_spec() < MAX_ITERATIONS,
        verdict.score_per_mille_spec() == 0 || escapes_at(
            flags,
            verdict.score_per_mille_spec() as int,
        ),
{
    lemma_verdict_cases(flags);
}

/// The verdict is a function of the outcomes observed: two searches that
/// saw the same outcomes in the same order decide alike.
pub proof fn lemma_same_outcomes_same_verdict(first: Seq<bool>, second: Seq<bool>)
    requires
        first.len() == second.len(),
        forall|k: int| 0 <= k < first.len() ==> first[k] == second[k],
    ensures
        verdict_of(first) == verdict_of(second),
{
    assert(first =~= second);
}

/// A verdict, once reached, stands: no later outcome changes it. This is
/// what lets a caller stop iterating at the first verdict.
pub proof fn lemma_verdict_is_final(flags: Seq<bool>, next: bool)
    requires
        verdict_of(flags).is_some(),
    ensures
        verdict_of(flags.push(next)) == verdict_of(flags),
{
    let longer = flags.push(next);
    assert forall|j: int| 0 <= j < flags.len() implies longer[j] == flags[j] by {}
    lemma_verdict_cases(flags);
    match verdict_of(flags) {
        Some(Verdict::Escaped(i)) => {
            assert(escapes_at(longer, i as int));
            lemma_escape_decides(longer, i as int);
        },
        Some(Verdict::Bounded) => {
            assert forall|i: int| !escapes_at(longer, i) by {
                if 0 <= i < MAX_ITERATIONS {
                    assert(!flags[i]);
                }
            }
        },
        None => {},
    }
}

/// Only the first `MAX_ITERATIONS` outcomes count: the verdict of a longer
/// sequence is that of its first `MAX_ITERATIONS` entries.
pub proof fn lemma_verdict_of_prefix(flags: Seq<bool>)
    requires
        flags.len() >= MAX_ITERATIONS,
    ensures
        verdict_of(flags) == verdict_of(flags.take(MAX_ITERATIONS as int)),
{
    let head = flags.take(MAX_ITERATIONS as int);
    assert forall|j: int| 0 <= j < MAX_ITERATIONS implies head[j] == flags[j] by {}
    lemma_verdict_cases(flags);
    match verdict_of(flags) {
        Some(Verdict::Escaped(i)) => {
            assert(escapes_at(head, i as int));
            lemma_escape_decides(head, i as int);
        },
        _ => {
            assert forall|i: int| !escapes_at(head, i) by {
                if 0 <= i < MAX_ITERATIONS {
                    assert(!flags[i]);
                }
            }
        },
    }
}

/// The search always ends: after `MAX_ITERATIONS` outcomes there is a
/// verdict, and before the first outcome there is none.
pub proof fn lemma_verdict_within_bound(flags: Seq<bool>)
    ensures
        flags.len() >= MAX_ITERATIONS ==> verdict_of(flags).is_some(),
        flags.len() == 0 ==> verdict_of(flags).is_none(),
{
    lemma_verdict_cases(flags);
}

} // verus!
