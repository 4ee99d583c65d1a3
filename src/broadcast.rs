use vstd::prelude::*;
use crate::registry::{ClientId, Registry};

verus! {

/// Number of sends in `outcomes` that succeeded.
pub open spec fn count_delivered(outcomes: Seq<bool>) -> nat
    decreases outcomes.len(),
{
    if outcomes.len() == 0 {
        0
    } else {
        count_delivered(outcomes.drop_last()) + if outcomes.last() {
            1nat
        } else {
            0nat
        }
    }
}

/// Number of sends in `outcomes` that failed.
pub open spec fn count_failed(outcomes: Seq<bool>) -> nat {
    count_delivered(outcomes.map_values(|b: bool| !b))
}

/// Outcome of one broadcast over the registered connections.
pub struct BroadcastReport {
    pub delivered: usize,
    pub failed: usize,
}

/// The connections a broadcast is sent to: every one registered now, each once. A failed
/// send to one of them does not stop the others, nor evict it.
pub fn broadcast_targets<H>(registry: &Registry<H>) -> (r: Vec<ClientId>)
    ensures
        r@ == registry.ids(),
{
    registry.snapshot()
}

/// Tallies the send outcomes of a broadcast, one per target: a failure is counted, never
/// raised.
pub fn tally(outcomes: &Vec<bool>) -> (r: BroadcastReport)
    ensures
        r.delivered == count_delivered(outcomes@),
        r.failed == count_failed(outcomes@),
        r.delivered + r.failed == outcomes@.len(),
{
    let mut delivered: usize = 0;
    let mut failed: usize = 0;
    let mut i: usize = 0;
    while i < outcomes.len()
        invariant
            i <= outcomes@.len(),
            delivered == count_delivered(outcomes@.take(i as int)),
            delivered + failed == i,
        decreases outcomes@.len() - i,
    {
        proof {
            assert(outcomes@.take(i + 1).drop_last() =~= outcomes@.take(i as int));
        }
        if outcomes[i] {
            delivered = delivered + 1;
        } else {
            failed = failed + 1;
        }
        i = i + 1;
    }
    proof {
        assert(outcomes@.take(i as int) =~= outcomes@);
        lemma_negated_count(outcomes@);
    }
    BroadcastReport { delivered, failed }
}

/// Broadcast resilience, as far as the tally goes: each of the `n` sends of a broadcast is
/// counted either delivered or failed, so when `k` of them fail the tally counts the other
/// `n - k` as delivered. (That every registered connection is tried is `broadcast_targets`.)
pub proof fn lemma_failures_spare_the_rest(outcomes: Seq<bool>, k: nat)
    requires
        count_failed(outcomes) == k,
    ensures
        count_delivered(outcomes) + count_failed(outcomes) == outcomes.len(),
        count_delivered(outcomes) == outcomes.len() - k,
{
    lemma_negated_count(outcomes);
}

proof fn lemma_negated_count(outcomes: Seq<bool>)
    ensures
        count_delivered(outcomes.map_values(|b: bool| !b)) + count_delivered(outcomes)
            == outcomes.len(),
    decreases outcomes.len(),
{
    if outcomes.len() > 0 {
        lemma_negated_count(outcomes.drop_last());
        assert(outcomes.map_values(|b: bool| !b).drop_last() =~= outcomes.drop_last().map_values(
            |b: bool| !b,
        ));
    }
}

} // verus!
