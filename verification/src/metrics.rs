//! Statistics over the outcomes of a run.
//!
//! The summary counts sessions, not files: with several servers every file
//! is sent several times, and every one of those sessions has an outcome of
//! its own. The average is the total time divided by the number of sessions,
//! and a run without sessions has no average.

use crate::session::{OutcomeView, Status, TransferOutcome};
use vstd::prelude::*;

verus! {

/// The figures of a run.
#[derive(Clone, Copy, Debug, PartialEq, Eq, Structural)]
pub struct Summary {
    /// The number of sessions that ran.
    pub attempted: usize,
    /// The number of sessions that stored their artifact.
    pub succeeded: usize,
    /// The number of sessions that did not.
    pub failed: usize,
    /// The sum of the sessions' elapsed times, in nanoseconds.
    pub total_elapsed: u128,
    /// The total time divided by the number of sessions, rounded down; none
    /// for a run without sessions.
    pub average_elapsed: Option<u128>,
}

/// The contents of a list of outcomes.
pub open spec fn outcome_views(outcomes: Seq<TransferOutcome>) -> Seq<OutcomeView> {
    Seq::new(outcomes.len(), |i: int| outcomes[i]@)
}

/// The number of successful sessions among `outcomes`.
pub open spec fn succeeded_among(outcomes: Seq<OutcomeView>) -> nat
    decreases outcomes.len(),
{
    if outcomes.len() == 0 {
        0
    } else {
        succeeded_among(outcomes.drop_last()) + if outcomes.last().status == Status::Success {
            1nat
        } else {
            0nat
        }
    }
}

/// The sum of the elapsed times of `outcomes`.
pub open spec fn total_elapsed(outcomes: Seq<OutcomeView>) -> nat
    decreases outcomes.len(),
{
    if outcomes.len() == 0 {
        0
    } else {
        total_elapsed(outcomes.drop_last()) + outcomes.last().elapsed
    }
}

/// The average time of a session: the total time over the number of
/// sessions, rounded down, and nothing where there was no session.
pub open spec fn average_elapsed(outcomes: Seq<OutcomeView>) -> Option<nat> {
    if outcomes.len() == 0 {
        None
    } else {
        Some(total_elapsed(outcomes) / outcomes.len())
    }
}

/// Taking one outcome out of a list takes its share out of the tallies.
proof fn lemma_tally_remove(outcomes: Seq<OutcomeView>, at: int)
    requires
        0 <= at < outcomes.len(),
    ensures
        total_elapsed(outcomes) == total_elapsed(outcomes.remove(at)) + outcomes[at].elapsed,
        succeeded_among(outcomes) == succeeded_among(outcomes.remove(at)) + if outcomes[at].status
            == Status::Success {
            1nat
        } else {
            0nat
        },
    decreases outcomes.len(),
{
    if at == outcomes.len() - 1 {
        assert(outcomes.remove(at) =~= outcomes.drop_last());
    } else {
        lemma_tally_remove(outcomes.drop_last(), at);
        assert(outcomes.remove(at).drop_last() =~= outcomes.drop_last().remove(at));
        assert(outcomes.remove(at).last() == outcomes.last());
    }
}

/// The figures of a run do not depend on the order in which the sessions
/// ended: two lists that hold the same outcomes, each as often as the other,
/// have the same count, the same number of successes, the same total and the
/// same average.
pub proof fn lemma_summary_ignores_order(first: Seq<OutcomeView>, second: Seq<OutcomeView>)
    requires
        first.to_multiset() == second.to_multiset(),
    ensures
        first.len() == second.len(),
        succeeded_among(first) == succeeded_among(second),
        total_elapsed(first) == total_elapsed(second),
        average_elapsed(first) == average_elapsed(second),
    decreases first.len(),
{
    first.to_multiset_ensures();
    second.to_multiset_ensures();
    if first.len() > 0 {
        let last = first.last();
        assert(first[first.len() - 1] == last);
        assert(first.contains(last));
        assert(first.to_multiset().count(last) > 0);
        assert(second.to_multiset().count(last) > 0);
        assert(second.contains(last));
        let at = choose|at: int| 0 <= at < second.len() && second[at] == last;
        assert(first.drop_last() =~= first.remove(first.len() - 1));
        lemma_summary_ignores_order(first.drop_last(), second.remove(at));
        lemma_tally_remove(second, at);
    }
}

/// Computes the figures of a run from the outcomes of its sessions.
pub fn summarize(outcomes: &Vec<TransferOutcome>) -> (summary: Summary)
    ensures
        summary.attempted == outcomes@.len(),
        summary.succeeded == succeeded_among(outcome_views(outcomes@)),
        summary.failed == summary.attempted - summary.succeeded,
        summary.total_elapsed == total_elapsed(outcome_views(outcomes@)),
        match summary.average_elapsed {
            Some(average) => average_elapsed(outcome_views(outcomes@)) == Some(average as nat),
            None => average_elapsed(outcome_views(outcomes@)) is None,
        },
{
    let ghost views = outcome_views(outcomes@);
    let mut succeeded: usize = 0;
    let mut total: u128 = 0;
    let mut i: usize = 0;
    while i < outcomes.len()
        invariant
            i <= outcomes.len(),
            views == outcome_views(outcomes@),
            succeeded == succeeded_among(views.subrange(0, i as int)),
            succeeded <= i,
            total == total_elapsed(views.subrange(0, i as int)),
            total <= i * u64::MAX,
        decreases outcomes.len() - i,
    {
        let ghost head = views.subrange(0, i as int);
        let ghost next = views.subrange(0, i + 1);
        proof {
            assert(next.drop_last() =~= head);
            assert(next.last() == outcomes@[i as int]@);
            assert(i * u64::MAX + u64::MAX == (i + 1) * u64::MAX) by (nonlinear_arith);
            assert((i + 1) * u64::MAX <= usize::MAX * u64::MAX) by (nonlinear_arith)
                requires
                    i + 1 <= usize::MAX,
            ;
            assert(usize::MAX * u64::MAX <= u128::MAX) by (nonlinear_arith)
                requires
                    usize::MAX <= u64::MAX,
                    u64::MAX == 0xffff_ffff_ffff_ffff,
                    u128::MAX == 0xffff_ffff_ffff_ffff_ffff_ffff_ffff_ffff,
            ;
        }
        match outcomes[i].status {
            Status::Success => {
                succeeded = succeeded + 1;
            },
            Status::Failure(_) => {},
        }
        total = total + outcomes[i].elapsed as u128;
        i = i + 1;
    }
    assert(views.subrange(0, views.len() as int) =~= views);
    let attempted = outcomes.len();
    let average_elapsed = if attempted == 0 {
        None
    } else {
        Some(total / attempted as u128)
    };
    Summary { attempted, succeeded, failed: attempted - succeeded, total_elapsed: total, average_elapsed }
}

} // verus!
