//! What holds of an intact store from the creation of a run to the last retry.

use vstd::prelude::*;

use crate::append::{AppendOutcome, AppendPipelineOutcome, PipelineRequest, StageRequest};
use crate::contiguity::{lemma_each_decoded, lemma_each_pipeline_decoded};
use crate::digest::Sha256Digest;
use crate::error::StoreError;
use crate::guarantees::lemma_known_message;
use crate::identifier::{RunId, StageInstanceId};
use crate::integrity::{
    lemma_creating_a_run_keeps_integrity, lemma_every_pipeline_loads, lemma_every_stage_loads,
    lemma_registering_a_pipeline_keeps_integrity, lemma_registering_a_stage_keeps_integrity,
};
use crate::journal::{
    decoded_events, lemma_pipeline_row_is_determined, lemma_stage_row_is_determined, stage_events,
    StoredPipelineEvent, StoredStageEvent,
};
use crate::model::{
    by_pipeline_sequence, by_sequence, event_for_message, event_of_stage,
    pipeline_event_for_message, pipeline_event_in_run, pipeline_of, run_named, stage_in_run,
    stage_named, StoreView,
};
use crate::pipeline::PipelineView;
use crate::registration::{new_pipeline, new_run, new_stage};
use crate::select::{
    first, first_index, lemma_count, lemma_count_push, lemma_first_index, lemma_first_push,
    lemma_is_first_index, lemma_ordered_members,
};
use crate::stage::{StageState, MAX_CONTROL_REVISION};

verus! {

/// A run that was created verifies with 1 as its next sequence, and cannot be created again.
pub proof fn lemma_created_run_starts_at_one(
    store: StoreView,
    run: RunId,
    definition: Option<Sha256Digest>,
    again: Option<Sha256Digest>,
)
    requires
        store.intact(),
    ensures
        store.with_run(run, definition) matches Ok(after) ==> {
            &&& after.run_rows(run).verified(run) == Ok::<nat, StoreError>(1)
            &&& after.with_run(run, again) == Err::<StoreView, StoreError>(
                StoreError::RunAlreadyExists,
            )
        },
{
    if let Ok(after) = store.with_run(run, definition) {
        lemma_creating_a_run_keeps_integrity(store, run, definition);
        lemma_first_push(store.runs, new_run(run, definition), run_named(run.text()));
        assert(after.run_rows(run).run is Some);
        assert(after.run_rows(run).verified(run) is Ok);
    }
}

/// A stage that was registered loads as it was registered, without events, and cannot be
/// registered again.
pub proof fn lemma_registered_stage_is_read_back(
    store: StoreView,
    run: RunId,
    state: StageState,
    other_run: RunId,
    again: StageState,
)
    requires
        store.intact(),
        again.untouched(),
        again.stage_instance_id == state.stage_instance_id,
        store.run_rows(other_run).run is Some,
        store.run_rows(other_run).pipeline is None,
    ensures
        store.with_stage(run, state) matches Ok(after) ==> {
            &&& after.loaded_stage(run, state.stage_instance_id) == Ok::<StageState, StoreError>(
                state,
            )
            &&& after.loaded_stage_events(run, state.stage_instance_id) == Ok::<
                Seq<StoredStageEvent>,
                StoreError,
            >(Seq::empty())
            &&& after.with_stage(other_run, again) == Err::<StoreView, StoreError>(
                StoreError::StageAlreadyExists,
            )
        },
{
    if let Ok(after) = store.with_stage(run, state) {
        let id = state.stage_instance_id;
        lemma_registering_a_stage_keeps_integrity(store, run, state);
        lemma_first_push(
            store.stage_snapshots,
            new_stage(run, state),
            stage_named(id.text()),
        );
        assert(after.stage_belongs(run, id));
        lemma_every_stage_loads(after, run, id);
        assert(after.loaded_stage_events(run, id)->Ok_0 =~= Seq::empty());
    }
}

/// A pipeline that was registered loads as it was registered, without events, cannot be
/// registered again, and leaves no room for stages of the run's own.
pub proof fn lemma_registered_pipeline_is_read_back(
    store: StoreView,
    run: RunId,
    state: PipelineView,
    stage: StageState,
)
    requires
        store.intact(),
        stage.untouched(),
    ensures
        store.with_pipeline(run, state) matches Ok(after) ==> {
            &&& after.loaded_pipeline(run) == Ok::<PipelineView, StoreError>(state)
            &&& after.loaded_pipeline_events(run) == Ok::<Seq<StoredPipelineEvent>, StoreError>(
                Seq::empty(),
            )
            &&& after.with_pipeline(run, state) == Err::<StoreView, StoreError>(
                StoreError::PipelineAlreadyExists,
            )
            &&& after.with_stage(run, stage) == Err::<StoreView, StoreError>(
                StoreError::PipelineStageRegistrationRequired,
            )
        },
{
    if let Ok(after) = store.with_pipeline(run, state) {
        lemma_registering_a_pipeline_keeps_integrity(store, run, state);
        lemma_first_push(
            store.pipeline_snapshots,
            new_pipeline(run, state),
            pipeline_of(run.text()),
        );
        assert(after.has_pipeline(run.text()));
        lemma_every_pipeline_loads(after, run);
        assert(after.loaded_pipeline_events(run)->Ok_0 =~= Seq::empty());
    }
}

/// A run with a stage of its own takes no pipeline.
pub proof fn lemma_stage_roots_reject_a_pipeline(
    store: StoreView,
    run: RunId,
    stage: StageState,
    state: PipelineView,
)
    requires
        store.intact(),
        state.untouched(),
    ensures
        store.with_stage(run, stage) matches Ok(after) ==> after.with_pipeline(run, state)
            == Err::<StoreView, StoreError>(StoreError::PipelineRootConflict),
{
    if let Ok(after) = store.with_stage(run, stage) {
        lemma_registering_a_stage_keeps_integrity(store, run, stage);
        lemma_count_push(
            store.stage_snapshots,
            new_stage(run, stage),
            stage_in_run(run.text()),
        );
        assert(after.run_rows(run).run is Some);
        assert(after.run_rows(run).verified(run) is Ok);
    }
}

/// A pipeline is registered only with a run that was created for its definition.
pub proof fn lemma_pipeline_needs_its_definition(
    store: StoreView,
    run: RunId,
    definition: Option<Sha256Digest>,
    state: PipelineView,
)
    requires
        store.intact(),
        state.untouched(),
        definition != Some(state.definition_digest),
    ensures
        store.with_run(run, definition) matches Ok(after) ==> after.with_pipeline(run, state)
            == Err::<StoreView, StoreError>(StoreError::PipelineDefinitionMismatch),
{
    if let Ok(after) = store.with_run(run, definition) {
        lemma_creating_a_run_keeps_integrity(store, run, definition);
        lemma_first_push(store.runs, new_run(run, definition), run_named(run.text()));
        assert(after.run_rows(run).run is Some);
        assert(after.run_rows(run).verified(run) is Ok);
        lemma_count(store.stage_snapshots, stage_in_run(run.text()));
        lemma_first_index(store.stage_snapshots, stage_in_run(run.text()));
        if let Some(index) = first_index(store.stage_snapshots, stage_in_run(run.text())) {
            assert(store.has_run(store.stage_snapshots[index].run_id));
        }
        if let Some(digest) = definition {
            digest.lemma_text(digest.text());
        }
    }
}

/// An event that loads answers every retry of its message, however much later: the same
/// request, whatever event identifier it proposes, gets that event back and changes nothing,
/// and any other request with the message's identifier is a conflict.
pub proof fn lemma_loaded_event_answers_retries(
    store: StoreView,
    stage: StageInstanceId,
    i: int,
    request: StageRequest,
)
    requires
        store.intact(),
        store.loaded_stage_events(request.run_id, stage) matches Ok(events) && 0 <= i
            < events.len() && events[i].message_id == request.message_id,
    ensures
        store.with_stage_event(request) == ({
            let stored = store.loaded_stage_events(request.run_id, stage)->Ok_0[i];
            if request.asks_for(stored) {
                Ok((store, AppendOutcome::Duplicate(stored)))
            } else {
                Err(StoreError::MessageIdConflict)
            }
        }),
{
    let rows = store.stage_rows(request.run_id, stage);
    let matches = event_of_stage(request.run_id.text(), stage.text());
    lemma_each_decoded(rows);
    let row = rows[i];
    lemma_stage_row_is_determined(row);
    lemma_ordered_members(store.events, matches, by_sequence());
    assert(store.events.contains(row));
    let at = choose|k: int| 0 <= k < store.events.len() && store.events[k] == row;
    lemma_is_first_index(store.events, event_for_message(request.message_id.text()), at);
    lemma_known_message(store, request, row);
}

/// A pipeline's event that loads answers every retry of its message, however much later.
pub proof fn lemma_loaded_pipeline_event_answers_retries(
    store: StoreView,
    i: int,
    request: PipelineRequest,
)
    requires
        store.intact(),
        store.loaded_pipeline_events(request.run_id) matches Ok(events) && 0 <= i < events.len()
            && events[i].message_id == request.message_id,
    ensures
        store.with_pipeline_event(request) == ({
            let stored = store.loaded_pipeline_events(request.run_id)->Ok_0[i];
            if request.asks_for(stored) {
                Ok((store, AppendPipelineOutcome::Duplicate(stored)))
            } else {
                Err(StoreError::MessageIdConflict)
            }
        }),
{
    let rows = store.run_rows(request.run_id).pipeline_events;
    let matches = pipeline_event_in_run(request.run_id.text());
    let name = request.message_id.text();
    lemma_each_pipeline_decoded(rows);
    let row = rows[i];
    lemma_pipeline_row_is_determined(row);
    lemma_ordered_members(store.pipeline_events, matches, by_pipeline_sequence());
    assert(store.pipeline_events.contains(row));
    let at = choose|k: int|
        0 <= k < store.pipeline_events.len() && store.pipeline_events[k] == row;
    lemma_is_first_index(store.pipeline_events, pipeline_event_for_message(name), at);
    lemma_first_index(store.events, event_for_message(name));
}

/// In an intact store a request whose message and event are new is accepted where the stage
/// takes the event and the run has a sequence left for it, and is refused for one of those
/// reasons otherwise.
pub proof fn lemma_new_request_is_decided_by_the_stage(
    store: StoreView,
    request: StageRequest,
)
    requires
        store.intact(),
        store.stage_belongs(request.run_id, request.event.stage_instance_id),
        first(store.events, event_for_message(request.message_id.text())) is None,
        first(
            store.pipeline_events,
            pipeline_event_for_message(request.message_id.text()),
        ) is None,
        !store.event_id_taken(request.event_id),
    ensures
        store.loaded_stage(request.run_id, request.event.stage_instance_id) matches Ok(prior)
            && store.run_rows(request.run_id).verified(request.run_id) matches Ok(sequence) && (
        match prior.applied(request.event) {
            Err(error) => store.with_stage_event(request) == Err::<
                (StoreView, AppendOutcome),
                StoreError,
            >(StoreError::StageTransition(error)),
            Ok(_) => if sequence >= MAX_CONTROL_REVISION {
                store.with_stage_event(request) == Err::<(StoreView, AppendOutcome), StoreError>(
                    StoreError::EventSequenceExhausted,
                )
            } else {
                store.with_stage_event(request) matches Ok(
                    (after, AppendOutcome::Committed(stored)),
                ) && stored.sequence == sequence
            },
        }),
{
    let stage = request.event.stage_instance_id;
    lemma_every_stage_loads(store, request.run_id, stage);
    let prior = store.loaded_stage(request.run_id, stage)->Ok_0;
    prior.lemma_applied(request.event);
    assert(store.stage_recovers(request.run_id, stage));
    let initial = store.stage(stage)->Some_0.initial_state->Ok_0;
    let stored = decoded_events(store.stage_rows(request.run_id, stage))->Ok_0;
    initial.lemma_attempts_are_bounded(stage_events(stored));
}

/// In an intact store a request for a pipeline whose message and event are new is accepted
/// where the pipeline takes the event and the run has a sequence left for it, and is refused
/// for one of those reasons otherwise.
pub proof fn lemma_new_request_is_decided_by_the_pipeline(
    store: StoreView,
    request: PipelineRequest,
)
    requires
        store.intact(),
        store.has_pipeline(request.run_id.text()),
        first(store.events, event_for_message(request.message_id.text())) is None,
        first(
            store.pipeline_events,
            pipeline_event_for_message(request.message_id.text()),
        ) is None,
        !store.event_id_taken(request.event_id),
    ensures
        store.loaded_pipeline(request.run_id) matches Ok(prior) && store.run_rows(
            request.run_id,
        ).verified(request.run_id) matches Ok(sequence) && (match prior.applied(request.event) {
            Err(error) => store.with_pipeline_event(request) == Err::<
                (StoreView, AppendPipelineOutcome),
                StoreError,
            >(StoreError::PipelineTransition(error)),
            Ok(_) => if sequence >= MAX_CONTROL_REVISION {
                store.with_pipeline_event(request) == Err::<
                    (StoreView, AppendPipelineOutcome),
                    StoreError,
                >(StoreError::EventSequenceExhausted)
            } else {
                store.with_pipeline_event(request) matches Ok(
                    (after, AppendPipelineOutcome::Committed(stored)),
                ) && stored.sequence == sequence
            },
        }),
{
    lemma_every_pipeline_loads(store, request.run_id);
    let prior = store.loaded_pipeline(request.run_id)->Ok_0;
    prior.lemma_applied(request.event);
}

} // verus!
