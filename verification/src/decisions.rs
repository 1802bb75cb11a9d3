//! What the rows that a transaction has read decide, whatever database they come from.

use vstd::prelude::*;

use crate::admission::{
    event_was_used, lemma_lookups, message_was_used, message_was_used_for_a_pipeline,
    stage_is_there,
};
use crate::append::{
    PipelineAppendRows, PipelineAppendView, PipelineCommit, PipelineCommitView,
    PipelineDecisionView, PipelineRequest, StageAppendRows, StageAppendView, StageCommit,
    StageCommitView, StageDecisionView, StageRequest,
};
use crate::digest::Sha256Digest;
use crate::error::StoreError;
use crate::identifier::RunId;
use crate::lifecycle::lemma_untouched_is_pending;
use crate::model::{event_for_message, pipeline_event_for_message, stage_named, StoreView};
use crate::pipeline::PipelineView;
use crate::reading::{
    lemma_pipeline_row_is_read_where_it_agrees, lemma_row_is_read_where_it_agrees,
    pipeline_row_agrees, stage_row_agrees,
};
use crate::recovery::{recovered_stage, RunRowsView};
use crate::registration::{new_run, pipeline_registration, stage_registration};
use crate::rows::{PipelineRowView, StageRowView};
use crate::select::lemma_first_index;
use crate::stage::{StageEventKind, StageState};

verus! {

/// A store that was just opened has no row in any table.
pub proof fn lemma_empty_store_has_no_rows()
    ensures
        StoreView::empty().runs.len() == 0,
        StoreView::empty().stage_snapshots.len() == 0,
        StoreView::empty().events.len() == 0,
        StoreView::empty().pipeline_snapshots.len() == 0,
        StoreView::empty().pipeline_events.len() == 0,
{
}

/// The values of the rows that a transaction has read hold each of them.
pub proof fn lemma_append_views_are_faithful(stage: StageAppendRows, pipeline: PipelineAppendRows)
    ensures
        stage@.run == stage.run@,
        stage.message is None <==> stage@.message is None,
        stage.message matches Some(row) ==> stage@.message == Some(row@),
        stage@.pipeline_message == stage.pipeline_message,
        stage@.event_id_taken == stage.event_id_taken,
        stage.stage is None <==> stage@.stage is None,
        stage.stage matches Some(row) ==> stage@.stage == Some(row@),
        stage@.stage_events.len() == stage.stage_events@.len(),
        forall|i: int|
            0 <= i < stage.stage_events@.len() ==> stage@.stage_events[i] == (
            #[trigger] stage.stage_events@[i])@,
        pipeline@.run == pipeline.run@,
        pipeline.message is None <==> pipeline@.message is None,
        pipeline.message matches Some(row) ==> pipeline@.message == Some(row@),
        pipeline.stage_message is None <==> pipeline@.stage_message is None,
        pipeline.stage_message matches Some(row) ==> pipeline@.stage_message == Some(row@),
        pipeline@.event_id_taken == pipeline.event_id_taken,
{
}

/// What a transaction reads to append an event of a stage: of the message the event that came
/// from it, whether a pipeline's event did, whether the event identifier is in use anywhere,
/// and the stage with its journal.
pub proof fn lemma_what_a_stage_append_reads(store: StoreView, request: StageRequest)
    ensures
        ({
            let rows = store.stage_append_rows(request);
            let stage = request.event.stage_instance_id;
            &&& rows.run == store.run_rows(request.run_id)
            &&& rows.message is Some <==> message_was_used(store, request.message_id)
            &&& rows.message matches Some(row) ==> {
                &&& store.events.contains(row)
                &&& row.message_id == request.message_id.text()
            }
            &&& rows.pipeline_message <==> message_was_used_for_a_pipeline(
                store,
                request.message_id,
            )
            &&& rows.event_id_taken <==> event_was_used(store, request.event_id)
            &&& rows.stage is Some <==> stage_is_there(store, stage)
            &&& rows.stage matches Some(row) ==> {
                &&& store.stage_snapshots.contains(row)
                &&& row.stage_instance_id == stage.text()
            }
            &&& rows.stage_events == store.stage_rows(request.run_id, stage)
        }),
{
    lemma_lookups(
        store,
        request.run_id,
        request.event.stage_instance_id,
        request.message_id,
        request.event_id,
    );
    lemma_first_index(store.events, event_for_message(request.message_id.text()));
    lemma_first_index(
        store.stage_snapshots,
        stage_named(request.event.stage_instance_id.text()),
    );
}

/// What a transaction reads to append an event of a pipeline: of the message the events of
/// pipelines and of stages that came from it, and whether the event identifier is in use
/// anywhere.
pub proof fn lemma_what_a_pipeline_append_reads(store: StoreView, request: PipelineRequest)
    ensures
        ({
            let rows = store.pipeline_append_rows(request);
            &&& rows.run == store.run_rows(request.run_id)
            &&& rows.message is Some <==> message_was_used_for_a_pipeline(
                store,
                request.message_id,
            )
            &&& rows.message matches Some(row) ==> {
                &&& store.pipeline_events.contains(row)
                &&& row.message_id == request.message_id.text()
            }
            &&& rows.stage_message is Some <==> message_was_used(store, request.message_id)
            &&& rows.stage_message matches Some(row) ==> {
                &&& store.events.contains(row)
                &&& row.message_id == request.message_id.text()
            }
            &&& rows.event_id_taken <==> event_was_used(store, request.event_id)
        }),
{
    lemma_lookups(
        store,
        request.run_id,
        arbitrary(),
        request.message_id,
        request.event_id,
    );
    lemma_first_index(store.events, event_for_message(request.message_id.text()));
    lemma_first_index(
        store.pipeline_events,
        pipeline_event_for_message(request.message_id.text()),
    );
}

/// The row of a run counts from 1 and names the definition that the run is for, if any.
pub proof fn lemma_row_of_a_run(run: RunId, definition: Sha256Digest)
    ensures
        new_run(run, None).run_id == run.text(),
        new_run(run, None).next_event_sequence == 1,
        new_run(run, None).pipeline_definition_digest is None,
        new_run(run, Some(definition)).run_id == run.text(),
        new_run(run, Some(definition)).next_event_sequence == 1,
        new_run(run, Some(definition)).pipeline_definition_digest == Some(definition.text()),
{
}

/// A stage gets a row exactly where it is pending at revision 0 and attempt 0, without inputs
/// and without a reason, its run is there, and the run has no pipeline.
pub proof fn lemma_stage_registration_decision(
    run_exists: bool,
    pipeline_exists: bool,
    run: RunId,
    state: StageState,
)
    ensures
        ({
            let result = stage_registration(run_exists, pipeline_exists, run, state);
            let pristine = state.status is Pending && state.control_revision == 0 && state.attempt
                == 0 && state.input_manifest_digest is None && state.status_reason_digest is None;
            &&& result is Ok <==> pristine && run_exists && !pipeline_exists
            &&& !pristine ==> result == Err::<StageRowView, StoreError>(
                StoreError::InvalidInitialStage,
            )
            &&& pristine && !run_exists ==> result == Err::<StageRowView, StoreError>(
                StoreError::RunNotFound,
            )
            &&& pristine && run_exists && pipeline_exists ==> result == Err::<
                StageRowView,
                StoreError,
            >(StoreError::PipelineStageRegistrationRequired)
            &&& result matches Ok(row) ==> {
                &&& row.stage_instance_id == state.stage_instance_id.text()
                &&& row.run_id == run.text()
                &&& row.control_revision == 0
                &&& row.initial_state == Ok::<StageState, String>(state)
                &&& row.state == Ok::<StageState, String>(state)
            }
        }),
{
    lemma_untouched_is_pending(state);
}

/// A pipeline gets a row exactly where nothing has happened to it, its run is believed, has no
/// stages, and names the pipeline's definition; whatever the pipeline is made of. Otherwise the
/// first of these that fails is said.
pub proof fn lemma_pipeline_registration_decision(
    rows: RunRowsView,
    stage_count: nat,
    run: RunId,
    state: PipelineView,
    other: Sha256Digest,
)
    ensures
        ({
            let result = pipeline_registration(rows, stage_count, run, state);
            let believed = state.untouched() && rows.verified(run) is Ok;
            let alone = believed && stage_count == 0;
            let named = rows.run matches Some(row) && row.pipeline_definition_digest == Some(
                state.definition_digest.text(),
            );
            &&& result is Ok <==> alone && named
            &&& !state.untouched() ==> result == Err::<PipelineRowView, StoreError>(
                StoreError::InvalidInitialPipeline,
            )
            &&& state.untouched() ==> (rows.verified(run) matches Err(error) ==> result == Err::<
                PipelineRowView,
                StoreError,
            >(error))
            &&& believed && stage_count != 0 ==> result == Err::<PipelineRowView, StoreError>(
                StoreError::PipelineRootConflict,
            )
            &&& alone ==> (rows.run matches Some(row) ==> {
                &&& row.pipeline_definition_digest is None ==> result == Err::<
                    PipelineRowView,
                    StoreError,
                >(StoreError::PipelineDefinitionMismatch)
                &&& row.pipeline_definition_digest == Some(other.text()) && other
                    != state.definition_digest ==> result == Err::<PipelineRowView, StoreError>(
                    StoreError::PipelineDefinitionMismatch,
                )
                &&& row.pipeline_definition_digest matches Some(text) ==> (Sha256Digest::parsed(
                    text,
                ) matches Err(error) ==> result == Err::<PipelineRowView, StoreError>(
                    StoreError::Digest(error),
                ))
            })
            &&& result matches Ok(row) ==> {
                &&& row.run_id == run.text()
                &&& row.control_revision == 0
                &&& row.initial_state == Ok::<PipelineView, String>(state)
                &&& row.state == Ok::<PipelineView, String>(state)
            }
        }),
{
    other.lemma_text(other.text());
    if let Some(row) = rows.run {
        if let Some(text) = row.pipeline_definition_digest {
            state.definition_digest.lemma_text(text);
        }
    }
}

/// What the rows make of a request for a stage: the run has to be believed; a message that led
/// to an event of a stage gets that event back where it is for the same run, digest and event,
/// and is a conflict otherwise, as is a message that led to an event of a pipeline; an event
/// identifier in use is a conflict; the stage has to be believed and to take the event; the run
/// has to have a sequence left, and the record a text.
pub proof fn lemma_stage_decision(rows: StageAppendView, request: StageRequest)
    ensures
        rows.run.verified(request.run_id) matches Err(error) ==> rows.decided(request) == Err::<
            StageDecisionView,
            StoreError,
        >(error),
        rows.run.verified(request.run_id) matches Ok(sequence) ==> match rows.message {
            Some(row) => match row.decoded() {
                Err(error) => rows.decided(request) == Err::<StageDecisionView, StoreError>(error),
                Ok(stored) => {
                    let same = stored.run_id == request.run_id && stored.message_digest
                        == request.message_digest && stored.event == request.event;
                    &&& same ==> rows.decided(request) == Ok::<StageDecisionView, StoreError>(
                        StageDecisionView::Duplicate(stored),
                    )
                    &&& !same ==> rows.decided(request) == Err::<StageDecisionView, StoreError>(
                        StoreError::MessageIdConflict,
                    )
                },
            },
            None => {
                &&& rows.pipeline_message ==> rows.decided(request) == Err::<
                    StageDecisionView,
                    StoreError,
                >(StoreError::MessageIdConflict)
                &&& !rows.pipeline_message && rows.event_id_taken ==> rows.decided(request)
                    == Err::<StageDecisionView, StoreError>(StoreError::EventIdConflict)
                &&& !rows.pipeline_message && !rows.event_id_taken ==> match recovered_stage(
                    rows.stage,
                    rows.stage_events,
                    request.run_id,
                    request.event.stage_instance_id,
                ) {
                    Err(error) => rows.decided(request) == Err::<StageDecisionView, StoreError>(
                        error,
                    ),
                    Ok(prior) => match prior.applied(request.event) {
                        Err(error) => rows.decided(request) == Err::<
                            StageDecisionView,
                            StoreError,
                        >(StoreError::StageTransition(error)),
                        Ok(next) => {
                            &&& sequence >= 9007199254740991 ==> rows.decided(request) == Err::<
                                StageDecisionView,
                                StoreError,
                            >(StoreError::EventSequenceExhausted)
                            &&& sequence < 9007199254740991 ==> stage_commit_is_asked(
                                rows,
                                request,
                                sequence,
                                prior,
                                next,
                            )
                        },
                    },
                }
            },
        },
{
}

/// The rows ask for a commit of what the request says, at the sequence, from one state to the
/// next; but where a number of the record has no place in a JSON text, they say so.
pub open spec fn stage_commit_is_asked(
    rows: StageAppendView,
    request: StageRequest,
    sequence: nat,
    prior: StageState,
    next: StageState,
) -> bool {
    match rows.decided(request) {
        Ok(StageDecisionView::Commit(commit)) => {
            &&& commit.prior == prior
            &&& commit.next == next
            &&& commit.record.sequence == sequence
            &&& commit.record.event_id == request.event_id
            &&& commit.record.run_id == request.run_id
            &&& commit.record.message_id == request.message_id
            &&& commit.record.message_digest == request.message_digest
            &&& commit.record.stage_instance_id == request.event.stage_instance_id
            &&& commit.record.prior_control_revision == request.event.prior_control_revision
            &&& commit.record.event == request.event
            &&& request.event.prior_control_revision <= 9007199254740991
        },
        Ok(_) => false,
        Err(error) => {
            &&& error is Canonicalization
            &&& request.event.prior_control_revision > 9007199254740991 || (
            request.event.kind matches StageEventKind::NodeStarted { attempt } && attempt
                > 9007199254740991)
        },
    }
}

/// What the rows make of a request for a pipeline: the run has to be believed; a message that
/// led to an event of a stage is a conflict; one that led to an event of a pipeline gets that
/// event back where it is for the same run, digest and event, and is a conflict otherwise; an
/// event identifier in use is a conflict; the pipeline has to be believed and to take the
/// event; the run has to have a sequence left, and the record a text.
pub proof fn lemma_pipeline_decision(rows: PipelineAppendView, request: PipelineRequest)
    ensures
        rows.run.verified(request.run_id) matches Err(error) ==> rows.decided(request) == Err::<
            PipelineDecisionView,
            StoreError,
        >(error),
        rows.run.verified(request.run_id) is Ok ==> (rows.stage_message matches Some(row)
            ==> match row.decoded() {
            Err(error) => rows.decided(request) == Err::<PipelineDecisionView, StoreError>(error),
            Ok(_) => rows.decided(request) == Err::<PipelineDecisionView, StoreError>(
                StoreError::MessageIdConflict,
            ),
        }),
        rows.run.verified(request.run_id) matches Ok(sequence) ==> rows.stage_message is None
            ==> match rows.message {
            Some(row) => match row.decoded() {
                Err(error) => rows.decided(request) == Err::<PipelineDecisionView, StoreError>(
                    error,
                ),
                Ok(stored) => {
                    let same = stored.run_id == request.run_id && stored.message_digest
                        == request.message_digest && stored.event == request.event;
                    &&& same ==> rows.decided(request) == Ok::<PipelineDecisionView, StoreError>(
                        PipelineDecisionView::Duplicate(stored),
                    )
                    &&& !same ==> rows.decided(request) == Err::<PipelineDecisionView, StoreError>(
                        StoreError::MessageIdConflict,
                    )
                },
            },
            None => {
                &&& rows.event_id_taken ==> rows.decided(request) == Err::<
                    PipelineDecisionView,
                    StoreError,
                >(StoreError::EventIdConflict)
                &&& !rows.event_id_taken ==> match rows.run.verified_pipeline() {
                    Err(error) => rows.decided(request) == Err::<PipelineDecisionView, StoreError>(
                        error,
                    ),
                    Ok(prior) => match prior.applied(request.event) {
                        Err(error) => rows.decided(request) == Err::<
                            PipelineDecisionView,
                            StoreError,
                        >(StoreError::PipelineTransition(error)),
                        Ok(next) => {
                            &&& sequence >= 9007199254740991 ==> rows.decided(request) == Err::<
                                PipelineDecisionView,
                                StoreError,
                            >(StoreError::EventSequenceExhausted)
                            &&& sequence < 9007199254740991 ==> pipeline_commit_is_asked(
                                rows,
                                request,
                                sequence,
                                prior,
                                next,
                            )
                        },
                    },
                }
            },
        },
{
}

/// The rows ask for a commit of what the request says, at the sequence, from one revision to
/// the next state; but where a number of the record has no place in a JSON text, they say so.
pub open spec fn pipeline_commit_is_asked(
    rows: PipelineAppendView,
    request: PipelineRequest,
    sequence: nat,
    prior: PipelineView,
    next: PipelineView,
) -> bool {
    match rows.decided(request) {
        Ok(PipelineDecisionView::Commit(commit)) => {
            &&& commit.prior_control_revision == prior.control_revision
            &&& commit.next == next
            &&& commit.record.sequence == sequence
            &&& commit.record.event_id == request.event_id
            &&& commit.record.run_id == request.run_id
            &&& commit.record.message_id == request.message_id
            &&& commit.record.message_digest == request.message_digest
            &&& commit.record.prior_control_revision == request.event.prior_control_revision
            &&& commit.record.event == request.event
            &&& request.event.prior_control_revision <= 9007199254740991
        },
        Ok(_) => false,
        Err(error) => {
            &&& error is Canonicalization
            &&& request.event.prior_control_revision > 9007199254740991
        },
    }
}

/// What a commit of a stage writes: a row that reads as the stored event, which has every part
/// from the record; the states as they are; and the counter, one past the record's sequence.
pub proof fn lemma_what_a_stage_commit_writes(commit: StageCommit, asked: StageCommitView)
    ensures
        commit.writes(asked) ==> {
            &&& asked.record.canonical() is Ok && asked.record.stage_instance_id
                == asked.record.event.stage_instance_id && asked.record.prior_control_revision
                == asked.record.event.prior_control_revision ==> stage_row_agrees(
                commit.row@,
                commit.stored,
            )
            &&& commit.stored.event_id == asked.record.event_id
            &&& commit.stored.run_id == asked.record.run_id
            &&& commit.stored.sequence == asked.record.sequence
            &&& commit.stored.message_id == asked.record.message_id
            &&& commit.stored.message_digest == asked.record.message_digest
            &&& commit.stored.event == asked.record.event
            &&& commit.prior == asked.prior
            &&& commit.next == asked.next
            &&& commit.next_event_sequence == asked.record.sequence + 1
        },
{
    lemma_row_is_read_where_it_agrees(commit.row@, commit.stored);
}

/// What a commit of a pipeline writes: a row that reads as the stored event, which has every
/// part from the record; the revision and the state as they are; and the counter, one past the
/// record's sequence.
pub proof fn lemma_what_a_pipeline_commit_writes(
    commit: PipelineCommit,
    asked: PipelineCommitView,
)
    ensures
        commit.writes(asked) ==> {
            &&& asked.record.canonical() is Ok && asked.record.prior_control_revision
                == asked.record.event.prior_control_revision ==> pipeline_row_agrees(
                commit.row@,
                commit.stored,
            )
            &&& commit.stored.event_id == asked.record.event_id
            &&& commit.stored.run_id == asked.record.run_id
            &&& commit.stored.sequence == asked.record.sequence
            &&& commit.stored.message_id == asked.record.message_id
            &&& commit.stored.message_digest == asked.record.message_digest
            &&& commit.stored.event == asked.record.event
            &&& commit.prior_control_revision == asked.prior_control_revision
            &&& commit.next@ == asked.next
            &&& commit.next_event_sequence == asked.record.sequence + 1
        },
{
    lemma_pipeline_row_is_read_where_it_agrees(commit.row@, commit.stored);
}

} // verus!
