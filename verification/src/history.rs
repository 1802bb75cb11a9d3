//! What holds after any history of operations, whatever each of them came to.

use vstd::prelude::*;

use crate::append::{PipelineRequest, StageRequest};
use crate::digest::Sha256Digest;
use crate::guarantees::{
    beginnings_stay, definition_stays, lemma_appending_a_pipeline_event_keeps_beginnings,
    lemma_appending_a_stage_event_keeps_beginnings, lemma_creating_a_run_keeps_beginnings,
    lemma_loaded_pipeline_is_replayed, lemma_loaded_stage_is_replayed,
    lemma_registering_a_pipeline_keeps_beginnings, lemma_registering_a_stage_keeps_beginnings,
    pipeline_beginning_stays, stage_beginning_stays,
};
use crate::identifier::{RunId, StageInstanceId};
use crate::integrity::{
    lemma_appending_a_pipeline_event_keeps_integrity, lemma_appending_a_stage_event_keeps_integrity,
    lemma_creating_a_run_keeps_integrity, lemma_every_pipeline_loads, lemma_every_stage_loads,
    lemma_registering_a_pipeline_keeps_integrity, lemma_registering_a_stage_keeps_integrity,
};
use crate::journal::{pipeline_events, stage_events};
use crate::model::StoreView;
use crate::pipeline::{PipelineTransitionError, PipelineView};
use crate::stage::{StageState, StageTransitionError};

verus! {

/// An operation that may change a store.
pub enum Operation {
    CreateRun(RunId, Option<Sha256Digest>),
    RegisterStage(RunId, StageState),
    RegisterPipeline(RunId, PipelineView),
    AppendStageEvent(StageRequest),
    AppendPipelineEvent(PipelineRequest),
}

impl StoreView {
    /// The store after an operation; where the operation is refused, the store as it was.
    pub open spec fn after(self, operation: Operation) -> Self {
        match operation {
            Operation::CreateRun(run, definition) => match self.with_run(run, definition) {
                Ok(after) => after,
                Err(_) => self,
            },
            Operation::RegisterStage(run, state) => match self.with_stage(run, state) {
                Ok(after) => after,
                Err(_) => self,
            },
            Operation::RegisterPipeline(run, state) => match self.with_pipeline(run, state) {
                Ok(after) => after,
                Err(_) => self,
            },
            Operation::AppendStageEvent(request) => match self.with_stage_event(request) {
                Ok((after, _)) => after,
                Err(_) => self,
            },
            Operation::AppendPipelineEvent(request) => match self.with_pipeline_event(request) {
                Ok((after, _)) => after,
                Err(_) => self,
            },
        }
    }

    /// The store after a history of operations.
    pub open spec fn after_all(self, history: Seq<Operation>) -> Self
        decreases history.len(),
    {
        if history.len() == 0 {
            self
        } else {
            self.after_all(history.drop_last()).after(history.last())
        }
    }
}

/// No operation breaks a store, rewrites what it started from, or removes or rewrites an event.
pub proof fn lemma_operation_keeps_the_store(store: StoreView, operation: Operation)
    ensures
        store.intact() ==> store.after(operation).intact(),
        beginnings_stay(store, store.after(operation)),
        store.events.is_prefix_of(store.after(operation).events),
        store.pipeline_events.is_prefix_of(store.after(operation).pipeline_events),
{
    match operation {
        Operation::CreateRun(run, definition) => {
            lemma_creating_a_run_keeps_beginnings(store, run, definition);
            if store.intact() {
                lemma_creating_a_run_keeps_integrity(store, run, definition);
            }
        },
        Operation::RegisterStage(run, state) => {
            lemma_registering_a_stage_keeps_beginnings(store, run, state);
            if store.intact() {
                lemma_registering_a_stage_keeps_integrity(store, run, state);
            }
        },
        Operation::RegisterPipeline(run, state) => {
            lemma_registering_a_pipeline_keeps_beginnings(store, run, state);
            if store.intact() {
                lemma_registering_a_pipeline_keeps_integrity(store, run, state);
            }
        },
        Operation::AppendStageEvent(request) => {
            lemma_appending_a_stage_event_keeps_beginnings(store, request);
            if store.intact() {
                lemma_appending_a_stage_event_keeps_integrity(store, request);
            }
        },
        Operation::AppendPipelineEvent(request) => {
            lemma_appending_a_pipeline_event_keeps_beginnings(store, request);
            if store.intact() {
                lemma_appending_a_pipeline_event_keeps_integrity(store, request);
            }
        },
    }
}

/// No history of operations breaks a store, rewrites what it started from, or removes or
/// rewrites an event.
pub proof fn lemma_history_keeps_the_store(store: StoreView, history: Seq<Operation>)
    ensures
        store.intact() ==> store.after_all(history).intact(),
        beginnings_stay(store, store.after_all(history)),
        store.events.is_prefix_of(store.after_all(history).events),
        store.pipeline_events.is_prefix_of(store.after_all(history).pipeline_events),
    decreases history.len(),
{
    if history.len() > 0 {
        let before = store.after_all(history.drop_last());
        lemma_history_keeps_the_store(store, history.drop_last());
        lemma_operation_keeps_the_store(before, history.last());
        let after = store.after_all(history);
        assert(beginnings_stay(store, after)) by {
            assert forall|run: RunId| #[trigger] definition_stays(store, after, run) by {
                assert(definition_stays(store, before, run));
                assert(definition_stays(before, after, run));
            }
            assert forall|run: RunId| #[trigger] pipeline_beginning_stays(store, after, run) by {
                assert(pipeline_beginning_stays(store, before, run));
                assert(pipeline_beginning_stays(before, after, run));
            }
            assert forall|stage: StageInstanceId| #[trigger]
                stage_beginning_stays(store, after, stage) by {
                assert(stage_beginning_stays(store, before, stage));
                assert(stage_beginning_stays(before, after, stage));
            }
        }
        assert(store.events.is_prefix_of(after.events)) by {
            assert(store.events =~= after.events.subrange(0, store.events.len() as int));
        }
        assert(store.pipeline_events.is_prefix_of(after.pipeline_events)) by {
            assert(store.pipeline_events =~= after.pipeline_events.subrange(
                0,
                store.pipeline_events.len() as int,
            ));
        }
    }
}

/// From its registration on, whatever happens to the store, a stage loads in the state that
/// replaying its events from the registered state gives.
pub proof fn lemma_registered_stage_always_replays(
    store: StoreView,
    run: RunId,
    state: StageState,
    history: Seq<Operation>,
)
    requires
        store.intact(),
    ensures
        store.with_stage(run, state) matches Ok(registered) ==> {
            let after = registered.after_all(history);
            &&& after.loaded_stage(run, state.stage_instance_id) matches Ok(current)
            &&& after.loaded_stage_events(run, state.stage_instance_id) matches Ok(events)
            &&& state.replayed(stage_events(events)) == Ok::<StageState, StageTransitionError>(
                current,
            )
        },
{
    if let Ok(registered) = store.with_stage(run, state) {
        let id = state.stage_instance_id;
        let after = registered.after_all(history);
        lemma_registering_a_stage_keeps_beginnings(store, run, state);
        lemma_registering_a_stage_keeps_integrity(store, run, state);
        lemma_history_keeps_the_store(registered, history);
        assert(stage_beginning_stays(registered, after, id));
        assert(after.stage_belongs(run, id));
        lemma_every_stage_loads(after, run, id);
        lemma_loaded_stage_is_replayed(after, run, id);
    }
}

/// From its registration on, whatever happens to the store, a pipeline loads in the state that
/// replaying its events from the registered state gives.
pub proof fn lemma_registered_pipeline_always_replays(
    store: StoreView,
    run: RunId,
    state: PipelineView,
    history: Seq<Operation>,
)
    requires
        store.intact(),
    ensures
        store.with_pipeline(run, state) matches Ok(registered) ==> {
            let after = registered.after_all(history);
            &&& after.loaded_pipeline(run) matches Ok(current)
            &&& after.loaded_pipeline_events(run) matches Ok(events)
            &&& state.replayed(pipeline_events(events)) == Ok::<
                PipelineView,
                PipelineTransitionError,
            >(current)
        },
{
    if let Ok(registered) = store.with_pipeline(run, state) {
        let after = registered.after_all(history);
        lemma_registering_a_pipeline_keeps_beginnings(store, run, state);
        lemma_registering_a_pipeline_keeps_integrity(store, run, state);
        lemma_history_keeps_the_store(registered, history);
        assert(pipeline_beginning_stays(registered, after, run));
        lemma_every_pipeline_loads(after, run);
        lemma_loaded_pipeline_is_replayed(after, run);
    }
}

} // verus!
