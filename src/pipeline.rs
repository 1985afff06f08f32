use vstd::prelude::*;
use crate::events::{build_records, mint_records, TransferEvent, TransferRecord};
use crate::registry::{build_registry, lists_map, registry_spec, Token};

verus! {

/// The stages of one run, in the order they are taken.
#[derive(Clone, Copy, Debug, PartialEq, Eq)]
pub enum Step {
    ResolveCursor,
    FetchEvents,
    ReconcileTokens,
    FetchPriceSeries,
    MatchAndNormalize,
    PersistBatch,
    Done,
}

/// The stage that follows `step`, given whether it produced what the rest of
/// the run needs. Reading the cursor fails open and a failed token upsert is
/// only logged, so both always go on; a failed or empty event fetch, and a
/// failed or empty price fetch, end the run before anything more is written.
pub open spec fn next_step_spec(step: Step, ok: bool) -> Step {
    match step {
        Step::ResolveCursor => Step::FetchEvents,
        Step::FetchEvents => if ok {
            Step::ReconcileTokens
        } else {
            Step::Done
        },
        Step::ReconcileTokens => Step::FetchPriceSeries,
        Step::FetchPriceSeries => if ok {
            Step::MatchAndNormalize
        } else {
            Step::Done
        },
        Step::MatchAndNormalize => Step::PersistBatch,
        Step::PersistBatch => Step::Done,
        Step::Done => Step::Done,
    }
}

/// Whether `step` writes to the store.
pub open spec fn writes(step: Step) -> bool {
    step == Step::ReconcileTokens || step == Step::PersistBatch
}

/// Advances a run by one stage.
pub fn next_step(step: Step, ok: bool) -> (r: Step)
    ensures
        r == next_step_spec(step, ok),
{
    match step {
        Step::ResolveCursor => Step::FetchEvents,
        Step::FetchEvents => if ok {
            Step::ReconcileTokens
        } else {
            Step::Done
        },
        Step::ReconcileTokens => Step::FetchPriceSeries,
        Step::FetchPriceSeries => if ok {
            Step::MatchAndNormalize
        } else {
            Step::Done
        },
        Step::MatchAndNormalize => Step::PersistBatch,
        Step::PersistBatch => Step::Done,
        Step::Done => Step::Done,
    }
}

/// The stage reached from `step` after the given outcomes, one per stage.
pub open spec fn run_from(step: Step, outcomes: Seq<bool>) -> Step
    decreases outcomes.len(),
{
    if outcomes.len() == 0 {
        step
    } else {
        run_from(next_step_spec(step, outcomes[0]), outcomes.drop_first())
    }
}

proof fn lemma_done_stays(outcomes: Seq<bool>)
    ensures
        run_from(Step::Done, outcomes) == Step::Done,
    decreases outcomes.len(),
{
    if outcomes.len() > 0 {
        lemma_done_stays(outcomes.drop_first());
    }
}

/// A fetch with nothing to keep ends the run at once: whatever follows, no
/// stage that writes to the store is reached, and the run ends as done
/// rather than in an error.
pub proof fn lemma_empty_fetch_writes_nothing(outcomes: Seq<bool>)
    ensures
        next_step_spec(Step::FetchEvents, false) == Step::Done,
        run_from(Step::Done, outcomes) == Step::Done,
        !writes(run_from(Step::Done, outcomes)),
{
    lemma_done_stays(outcomes);
}

/// What one run writes: the records of the mint transfers, and the tokens they
/// reference.
pub struct Batch {
    pub records: Vec<TransferRecord>,
    pub tokens: Vec<Token>,
}

/// Filters a fetch and reconciles its tokens. `None` when no mint transfer
/// was fetched: the run then ends cleanly with nothing to write.
pub fn prepare_batch(events: &Vec<TransferEvent>) -> (r: Option<Batch>)
    ensures
        r is None <==> mint_records(events@).len() == 0,
        r matches Some(b) ==> b.records@ == mint_records(events@) && lists_map(
            b.tokens@,
            registry_spec(events@),
        ),
{
    let records = build_records(events);
    if records.len() == 0 {
        return None;
    }
    let tokens = build_registry(events);
    Some(Batch { records, tokens })
}

} // verus!
