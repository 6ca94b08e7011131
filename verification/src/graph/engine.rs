//! The error policy of graph execution.
//!
//! When a graph stops, every element that is still running reports
//! [`GraphError::NotRunning`]. Those reports are cancellations, not causes:
//! the error a run returns is the first one that is not a cancellation, if any.
use crate::graph::error::GraphError;
use vstd::prelude::*;

verus! {

/// Whether `error` only reports that the graph was stopped.
pub open spec fn cancellation(error: GraphError) -> bool {
    error is NotRunning
}

/// The error kept after `candidate` arrives, given the one kept so far.
pub open spec fn selected_error(current: Option<GraphError>, candidate: GraphError) -> Option<GraphError> {
    match current {
        Some(existing) => if !cancellation(existing) || cancellation(candidate) {
            Some(existing)
        } else {
            Some(candidate)
        },
        None => Some(candidate),
    }
}

pub fn is_cancellation(error: &GraphError) -> (r: bool)
    ensures
        r == cancellation(*error),
{
    matches!(error, GraphError::NotRunning)
}

/// Keeps the first root cause: an existing error stays unless it is a
/// cancellation and the candidate is not.
pub fn select_error(current: Option<GraphError>, candidate: GraphError) -> (r: Option<GraphError>)
    ensures
        r == selected_error(current, candidate),
{
    match current {
        Some(existing) => {
            if !is_cancellation(&existing) || is_cancellation(&candidate) {
                Some(existing)
            } else {
                Some(candidate)
            }
        },
        None => Some(candidate),
    }
}

/// The error kept after a whole sequence of reports, folded left to right.
pub open spec fn fold_errors(current: Option<GraphError>, reports: Seq<GraphError>) -> Option<GraphError>
    decreases reports.len(),
{
    if reports.len() == 0 {
        current
    } else {
        fold_errors(selected_error(current, reports[0]), reports.drop_first())
    }
}

/// Once a root cause (an error that is not a cancellation) is kept, no later
/// report replaces it.
pub proof fn lemma_root_cause_is_kept(cause: GraphError, reports: Seq<GraphError>)
    requires
        !cancellation(cause),
    ensures
        fold_errors(Some(cause), reports) == Some(cause),
    decreases reports.len(),
{
    if reports.len() > 0 {
        lemma_root_cause_is_kept(cause, reports.drop_first());
    }
}

/// A run whose reports hold at least one root cause ends with the first of
/// them, whatever cancellations came before or after it.
pub proof fn lemma_first_root_cause_wins(current: Option<GraphError>, reports: Seq<GraphError>, i: int)
    requires
        0 <= i < reports.len(),
        !cancellation(reports[i]),
        forall|j: int| 0 <= j < i ==> cancellation(#[trigger] reports[j]),
        current is None || cancellation(current->0),
    ensures
        fold_errors(current, reports) == Some(reports[i]),
    decreases reports.len(),
{
    if i == 0 {
        lemma_root_cause_is_kept(reports[0], reports.drop_first());
    } else {
        assert(cancellation(reports[0]));
        let next = selected_error(current, reports[0]);
        assert forall|j: int| 0 <= j < i - 1 implies cancellation(#[trigger] reports.drop_first()[j]) by {
            assert(reports.drop_first()[j] == reports[j + 1]);
        }
        lemma_first_root_cause_wins(next, reports.drop_first(), i - 1);
    }
}

/// The items of each sink batch, batch after batch, in one list (how a run's
/// report gathers what a sink collected).
pub fn flatten_batches<T: Copy>(batches: &Vec<Vec<T>>) -> (r: Vec<T>)
    ensures
        r@ == batches@.map_values(|b: Vec<T>| b@).flatten(),
{
    let ghost all = batches@.map_values(|b: Vec<T>| b@);
    let mut out: Vec<T> = Vec::new();
    let mut i: usize = 0;
    while i < batches.len()
        invariant
            all == batches@.map_values(|b: Vec<T>| b@),
            i <= batches@.len(),
            out@ == all.take(i as int).flatten_alt(),
        decreases batches@.len() - i,
    {
        let batch = &batches[i];
        let ghost before = out@;
        let mut j: usize = 0;
        while j < batch.len()
            invariant
                j <= batch@.len(),
                out@ == before + batch@.take(j as int),
            decreases batch@.len() - j,
        {
            out.push(batch[j]);
            assert(batch@.take(j + 1) =~= batch@.take(j as int).push(batch@[j as int]));
            assert(out@ =~= before + batch@.take(j + 1));
            j += 1;
        }
        proof {
            assert(batch@.take(batch@.len() as int) =~= batch@);
            assert(all.take(i + 1).drop_last() =~= all.take(i as int));
            assert(all.take(i + 1).last() == batch@);
        }
        i += 1;
    }
    proof {
        assert(all.take(batches@.len() as int) =~= all);
        all.lemma_flatten_and_flatten_alt_are_equivalent();
    }
    out
}

} // verus!
