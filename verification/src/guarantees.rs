//! What callers of a store can rely on.

use vstd::prelude::*;

use crate::append::{
    AppendOutcome, AppendPipelineOutcome, PipelineCommitView, PipelineRequest, StageCommitView,
    StageRequest,
};
use crate::contiguity::{
    lemma_journal_end_push_event, lemma_journal_end_push_taken, lemma_sequences_are_contiguous,
};
use crate::digest::Sha256Digest;
use crate::effects::{
    lemma_pipeline_commit_run_rows, lemma_run_names, lemma_stage_commit_run_rows,
    lemma_stage_commit_snapshots, lemma_stage_commit_stage_rows, lemma_stage_names,
};
use crate::error::StoreError;
use crate::identifier::{RunId, StageInstanceId};
use crate::journal::{
    decoded_events, decoded_pipeline_events, lemma_pipeline_row_is_determined,
    lemma_pipeline_row_reads_back, lemma_stage_row_is_determined, lemma_stage_row_reads_back,
    pipeline_events, sequences, stage_events, StoredPipelineEvent, StoredStageEvent,
};
use crate::model::{
    event_for_message, event_in_run, event_named, pipeline_event_for_message, pipeline_of,
    run_named, stage_named, StoreView,
};
use crate::pipeline::{PipelineTransitionError, PipelineView};
use crate::recovery::{recovered_stage, RunRowsView};
use crate::registration::{new_pipeline, new_run, new_stage};
use crate::rows::{EventRowView, PipelineEventRowView, StageRowView};
use crate::select::{count, first, lemma_count_push, lemma_first_push};
use crate::stage::{StageState, StageTransitionError, MAX_CONTROL_REVISION};

verus! {

/// A commit of a stage's event was decided on what the store holds: the run's next sequence,
/// and a state of the stage that takes the event.
pub proof fn lemma_stage_commit_is_due(
    store: StoreView,
    request: StageRequest,
    commit: StageCommitView,
)
    requires
        store.commits_stage_event(request, commit),
    ensures
        store.run_rows(request.run_id).verified(request.run_id) == Ok::<nat, StoreError>(
            commit.record.sequence as nat,
        ),
        commit.record.sequence < MAX_CONTROL_REVISION,
        commit.record == request.record(commit.record.sequence as nat),
        commit.record.canonical() is Ok,
        store.loaded_stage(request.run_id, request.event.stage_instance_id) == Ok::<
            StageState,
            StoreError,
        >(commit.prior),
        commit.prior.applied(request.event) == Ok::<
            StageState,
            StageTransitionError,
        >(commit.next),
        commit.next.control_revision == commit.prior.control_revision + 1,
        commit.next.control_revision <= MAX_CONTROL_REVISION,
        EventRowView::of_record(commit.record).decoded() == Ok::<StoredStageEvent, StoreError>(
            StoredStageEvent::of_record(commit.record),
        ),
{
    commit.prior.lemma_applied(request.event);
    lemma_stage_row_reads_back(commit.record);
}

/// A run still verifies behind the commit of a stage's event, with the next sequence one up.
pub proof fn lemma_run_verifies_after_stage_commit(
    store: StoreView,
    request: StageRequest,
    commit: StageCommitView,
)
    requires
        store.commits_stage_event(request, commit),
    ensures
        store.with_stage_commit(commit).run_rows(request.run_id).verified(request.run_id) == Ok::<
            nat,
            StoreError,
        >((commit.record.sequence + 1) as nat),
{
    let run = request.run_id;
    let before = store.run_rows(run);
    lemma_stage_commit_is_due(store, request, commit);
    lemma_stage_commit_run_rows(store, request, commit, run);
    let after = store.with_stage_commit(commit).run_rows(run);
    assert(after.verified_pipeline() == before.verified_pipeline());
    let taken = before.verified_pipeline_journal()->Ok_0;
    assert(after.verified_pipeline_journal() == before.verified_pipeline_journal());
    lemma_journal_end_push_event(
        run,
        taken,
        before.events,
        EventRowView::of_record(commit.record),
    );
}

/// A stage's events behind the commit of one more are those before it and the one.
pub proof fn lemma_stage_events_after_commit(
    store: StoreView,
    request: StageRequest,
    commit: StageCommitView,
)
    requires
        store.commits_stage_event(request, commit),
    ensures
        decoded_events(
            store.with_stage_commit(commit).stage_rows(
                request.run_id,
                request.event.stage_instance_id,
            ),
        ) == Ok::<Seq<StoredStageEvent>, StoreError>(
            decoded_events(
                store.stage_rows(request.run_id, request.event.stage_instance_id),
            )->Ok_0.push(StoredStageEvent::of_record(commit.record)),
        ),
{
    let rows = store.stage_rows(request.run_id, request.event.stage_instance_id);
    let row = EventRowView::of_record(commit.record);
    lemma_stage_commit_is_due(store, request, commit);
    lemma_stage_commit_stage_rows(
        store,
        request,
        commit,
        request.run_id,
        request.event.stage_instance_id,
    );
    assert(rows.push(row).drop_last() =~= rows);
}

/// What a commit of a stage's event writes is what a load reads: the stage is in the state
/// that the event leads to, and its events are those before and the one appended.
pub proof fn lemma_stage_load_reads_commit(
    store: StoreView,
    request: StageRequest,
    commit: StageCommitView,
)
    requires
        store.commits_stage_event(request, commit),
    ensures
        store.with_stage_commit(commit).loaded_stage(
            request.run_id,
            request.event.stage_instance_id,
        ) == Ok::<StageState, StoreError>(commit.next),
        store.loaded_stage_events(request.run_id, request.event.stage_instance_id) matches Ok(
            events,
        ) && store.with_stage_commit(commit).loaded_stage_events(
            request.run_id,
            request.event.stage_instance_id,
        ) == Ok::<Seq<StoredStageEvent>, StoreError>(
            events.push(StoredStageEvent::of_record(commit.record)),
        ),
        count(store.with_stage_commit(commit).events, event_in_run(request.run_id.text()))
            == count(store.events, event_in_run(request.run_id.text())) + 1,
{
    let stage = request.event.stage_instance_id;
    lemma_stage_commit_is_due(store, request, commit);
    lemma_run_verifies_after_stage_commit(store, request, commit);
    lemma_stage_events_after_commit(store, request, commit);
    lemma_stage_commit_snapshots(store, request, commit, stage);
    let initial = store.stage(stage)->Some_0.initial_state->Ok_0;
    let stored = decoded_events(store.stage_rows(request.run_id, stage))->Ok_0;
    let longer = stored.push(StoredStageEvent::of_record(commit.record));
    assert(stage_events(longer).drop_last() =~= stage_events(stored));
    assert(stage_events(longer).last() == request.event);
    commit.prior.lemma_applied(request.event);
    lemma_count_push(
        store.events,
        EventRowView::of_record(commit.record),
        event_in_run(request.run_id.text()),
    );
}

/// A commit of a pipeline's event was decided on what the store holds: the run's next
/// sequence, and a state of the pipeline that takes the event.
pub proof fn lemma_pipeline_commit_is_due(
    store: StoreView,
    request: PipelineRequest,
    commit: PipelineCommitView,
)
    requires
        store.commits_pipeline_event(request, commit),
    ensures
        store.run_rows(request.run_id).verified(request.run_id) == Ok::<nat, StoreError>(
            commit.record.sequence as nat,
        ),
        commit.record.sequence < MAX_CONTROL_REVISION,
        commit.record == request.record(commit.record.sequence as nat),
        commit.record.canonical() is Ok,
        store.loaded_pipeline(request.run_id) matches Ok(prior) && prior.applied(request.event)
            == Ok::<PipelineView, PipelineTransitionError>(commit.next)
            && commit.prior_control_revision == prior.control_revision
            && commit.next.control_revision == prior.control_revision + 1,
        commit.next.control_revision <= MAX_CONTROL_REVISION,
        PipelineEventRowView::of_record(commit.record).decoded() == Ok::<
            StoredPipelineEvent,
            StoreError,
        >(StoredPipelineEvent::of_record(commit.record)),
{
    let prior = store.loaded_pipeline(request.run_id)->Ok_0;
    prior.lemma_applied(request.event);
    lemma_pipeline_row_reads_back(commit.record);
}

/// Behind the commit of a pipeline's event the run still verifies, with the next sequence one
/// up; the pipeline is in the state that the event leads to, and its events are those before
/// and the one appended.
pub proof fn lemma_pipeline_load_reads_commit(
    store: StoreView,
    request: PipelineRequest,
    commit: PipelineCommitView,
)
    requires
        store.commits_pipeline_event(request, commit),
    ensures
        store.with_pipeline_commit(commit).run_rows(request.run_id).verified(request.run_id)
            == Ok::<nat, StoreError>((commit.record.sequence + 1) as nat),
        store.with_pipeline_commit(commit).loaded_pipeline(request.run_id) == Ok::<
            PipelineView,
            StoreError,
        >(commit.next),
        store.loaded_pipeline_events(request.run_id) matches Ok(events)
            && store.with_pipeline_commit(commit).loaded_pipeline_events(request.run_id) == Ok::<
            Seq<StoredPipelineEvent>,
            StoreError,
        >(events.push(StoredPipelineEvent::of_record(commit.record))),
{
    let run = request.run_id;
    let before = store.run_rows(run);
    lemma_pipeline_commit_is_due(store, request, commit);
    lemma_pipeline_commit_run_rows(store, request, commit, run);
    let after = store.with_pipeline_commit(commit).run_rows(run);
    let row = PipelineEventRowView::of_record(commit.record);
    let event = StoredPipelineEvent::of_record(commit.record);
    let stored = decoded_pipeline_events(before.pipeline_events)->Ok_0;
    let longer = stored.push(event);
    assert(before.pipeline_events.push(row).drop_last() =~= before.pipeline_events);
    assert(decoded_pipeline_events(after.pipeline_events) == Ok::<
        Seq<StoredPipelineEvent>,
        StoreError,
    >(longer));
    assert(pipeline_events(longer).drop_last() =~= pipeline_events(stored));
    assert(pipeline_events(longer).last() == request.event);
    let prior = store.loaded_pipeline(run)->Ok_0;
    prior.lemma_applied(request.event);
    assert(after.verified_pipeline() == Ok::<PipelineView, StoreError>(commit.next));
    let taken = sequences(stored);
    assert(sequences(longer) =~= taken.push(commit.record.sequence));
    lemma_journal_end_push_taken(run, taken, commit.record.sequence, before.events);
}

/// What is appended to a stage is read back: the stage loads in the state that the event
/// leads to, its events load with the one appended behind those before, the appended event has
/// the run's next sequence, and the run has one more event.
pub proof fn lemma_appended_stage_event_is_read_back(store: StoreView, request: StageRequest)
    ensures
        store.with_stage_event(request) matches Ok((after, AppendOutcome::Committed(stored))) ==> {
            let run = request.run_id;
            let stage = request.event.stage_instance_id;
            &&& store.loaded_stage(run, stage) matches Ok(prior) && prior.applied(
                request.event,
            ) matches Ok(next) && after.loaded_stage(run, stage) == Ok::<StageState, StoreError>(
                next,
            )
            &&& store.loaded_stage_events(run, stage) matches Ok(events)
                && after.loaded_stage_events(run, stage) == Ok::<
                Seq<StoredStageEvent>,
                StoreError,
            >(events.push(stored))
            &&& store.run_rows(run).verified(run) == Ok::<nat, StoreError>(stored.sequence as nat)
            &&& after.run_rows(run).verified(run) == Ok::<nat, StoreError>(
                (stored.sequence + 1) as nat,
            )
            &&& count(after.events, event_in_run(run.text())) == count(
                store.events,
                event_in_run(run.text()),
            ) + 1
            &&& stored.event_id == request.event_id
            &&& stored.message_id == request.message_id
            &&& request.asks_for(stored)
        },
{
    if store.with_stage_event(request) matches Ok((_, AppendOutcome::Committed(_))) {
        let commit = store.stage_append_rows(request).decided(request)->Ok_0->Commit_0;
        lemma_stage_commit_is_due(store, request, commit);
        lemma_run_verifies_after_stage_commit(store, request, commit);
        lemma_stage_load_reads_commit(store, request, commit);
    }
}

/// What is appended to a pipeline is read back: the pipeline loads in the state that the event
/// leads to, its events load with the one appended behind those before, and the appended event
/// has the run's next sequence.
pub proof fn lemma_appended_pipeline_event_is_read_back(
    store: StoreView,
    request: PipelineRequest,
)
    ensures
        store.with_pipeline_event(request) matches Ok(
            (after, AppendPipelineOutcome::Committed(stored)),
        ) ==> {
            let run = request.run_id;
            &&& store.loaded_pipeline(run) matches Ok(prior) && prior.applied(
                request.event,
            ) matches Ok(next) && after.loaded_pipeline(run) == Ok::<PipelineView, StoreError>(
                next,
            )
            &&& store.loaded_pipeline_events(run) matches Ok(events)
                && after.loaded_pipeline_events(run) == Ok::<
                Seq<StoredPipelineEvent>,
                StoreError,
            >(events.push(stored))
            &&& store.run_rows(run).verified(run) == Ok::<nat, StoreError>(stored.sequence as nat)
            &&& after.run_rows(run).verified(run) == Ok::<nat, StoreError>(
                (stored.sequence + 1) as nat,
            )
            &&& stored.event_id == request.event_id
            &&& stored.message_id == request.message_id
            &&& request.asks_for(stored)
        },
{
    if store.with_pipeline_event(request) matches Ok((_, AppendPipelineOutcome::Committed(_))) {
        let commit = store.pipeline_append_rows(request).decided(request)->Ok_0->Commit_0;
        lemma_pipeline_commit_is_due(store, request, commit);
        lemma_pipeline_load_reads_commit(store, request, commit);
    }
}

/// A message that led to an event in a run that verifies leads to nothing else: the same
/// request again is answered with that event, whatever event identifier it proposes, any
/// other use of the message's identifier is a conflict, and neither changes the store.
pub proof fn lemma_known_message(store: StoreView, request: StageRequest, row: EventRowView)
    requires
        store.run_rows(request.run_id).verified(request.run_id) is Ok,
        first(store.events, event_for_message(request.message_id.text())) == Some(row),
        row.decoded() is Ok,
    ensures
        store.with_stage_event(request) == (if request.asks_for(row.decoded()->Ok_0) {
            Ok((store, AppendOutcome::Duplicate(row.decoded()->Ok_0)))
        } else {
            Err(StoreError::MessageIdConflict)
        }),
{
}

/// Retrying a request right after it was committed is answered with the committed event, and
/// changes nothing.
pub proof fn lemma_retry_is_idempotent(store: StoreView, request: StageRequest)
    ensures
        store.with_stage_event(request) matches Ok((after, AppendOutcome::Committed(stored)))
            ==> after.with_stage_event(request) == Ok::<(StoreView, AppendOutcome), StoreError>(
            (after, AppendOutcome::Duplicate(stored)),
        ),
{
    if store.with_stage_event(request) matches Ok((_, AppendOutcome::Committed(_))) {
        let commit = store.stage_append_rows(request).decided(request)->Ok_0->Commit_0;
        let row = EventRowView::of_record(commit.record);
        lemma_stage_commit_is_due(store, request, commit);
        lemma_run_verifies_after_stage_commit(store, request, commit);
        lemma_first_push(store.events, row, event_for_message(request.message_id.text()));
        lemma_known_message(store.with_stage_commit(commit), request, row);
    }
}

/// A message's identifier, once used, is not accepted with another digest, with another event
/// or for another run.
pub proof fn lemma_reused_message_id_is_rejected(
    store: StoreView,
    request: StageRequest,
    other: StageRequest,
)
    requires
        other.message_id == request.message_id,
        other.run_id != request.run_id || other.message_digest != request.message_digest
            || other.event != request.event,
        other.run_id != request.run_id ==> store.run_rows(other.run_id).verified(
            other.run_id,
        ) is Ok,
    ensures
        store.with_stage_event(request) matches Ok((after, AppendOutcome::Committed(stored)))
            ==> after.with_stage_event(other) == Err::<(StoreView, AppendOutcome), StoreError>(
            StoreError::MessageIdConflict,
        ),
{
    if store.with_stage_event(request) matches Ok((_, AppendOutcome::Committed(_))) {
        let commit = store.stage_append_rows(request).decided(request)->Ok_0->Commit_0;
        let row = EventRowView::of_record(commit.record);
        lemma_stage_commit_is_due(store, request, commit);
        lemma_run_verifies_after_stage_commit(store, request, commit);
        lemma_stage_commit_run_rows(store, request, commit, other.run_id);
        lemma_first_push(store.events, row, event_for_message(request.message_id.text()));
        lemma_known_message(store.with_stage_commit(commit), other, row);
    }
}

/// Retrying a request for a pipeline right after it was committed is answered with the
/// committed event, and changes nothing.
pub proof fn lemma_pipeline_retry_is_idempotent(store: StoreView, request: PipelineRequest)
    ensures
        store.with_pipeline_event(request) matches Ok(
            (after, AppendPipelineOutcome::Committed(stored)),
        ) ==> after.with_pipeline_event(request) == Ok::<
            (StoreView, AppendPipelineOutcome),
            StoreError,
        >((after, AppendPipelineOutcome::Duplicate(stored))),
{
    if store.with_pipeline_event(request) matches Ok((_, AppendPipelineOutcome::Committed(_))) {
        let commit = store.pipeline_append_rows(request).decided(request)->Ok_0->Commit_0;
        let row = PipelineEventRowView::of_record(commit.record);
        lemma_pipeline_commit_is_due(store, request, commit);
        lemma_pipeline_load_reads_commit(store, request, commit);
        lemma_first_push(
            store.pipeline_events,
            row,
            pipeline_event_for_message(request.message_id.text()),
        );
    }
}

/// A message that led to an event of a stage cannot lead to one of a pipeline.
pub proof fn lemma_stage_message_id_is_rejected_for_pipelines(
    store: StoreView,
    request: PipelineRequest,
)
    requires
        store.run_rows(request.run_id).verified(request.run_id) is Ok,
        first(store.events, event_for_message(request.message_id.text())) matches Some(row)
            && row.decoded() is Ok,
    ensures
        store.with_pipeline_event(request) == Err::<
            (StoreView, AppendPipelineOutcome),
            StoreError,
        >(StoreError::MessageIdConflict),
{
}

/// A message that led to an event of a pipeline cannot lead to one of a stage.
pub proof fn lemma_pipeline_message_id_is_rejected_for_stages(
    store: StoreView,
    request: StageRequest,
)
    requires
        store.run_rows(request.run_id).verified(request.run_id) is Ok,
        first(store.events, event_for_message(request.message_id.text())) is None,
        first(
            store.pipeline_events,
            pipeline_event_for_message(request.message_id.text()),
        ) is Some,
    ensures
        store.with_stage_event(request) == Err::<(StoreView, AppendOutcome), StoreError>(
            StoreError::MessageIdConflict,
        ),
{
}

/// An event's identifier, once used, is not accepted for the event of another message, in
/// whatever run or stage.
pub proof fn lemma_event_ids_are_globally_unique(
    store: StoreView,
    request: StageRequest,
    other: StageRequest,
)
    requires
        other.event_id == request.event_id,
        other.message_id != request.message_id,
        first(store.events, event_for_message(other.message_id.text())) is None,
        first(store.pipeline_events, pipeline_event_for_message(other.message_id.text())) is None,
        other.run_id != request.run_id ==> store.run_rows(other.run_id).verified(
            other.run_id,
        ) is Ok,
    ensures
        store.with_stage_event(request) matches Ok((after, AppendOutcome::Committed(stored)))
            ==> after.event_id_taken(request.event_id) && after.with_stage_event(other) == Err::<
            (StoreView, AppendOutcome),
            StoreError,
        >(StoreError::EventIdConflict),
{
    if store.with_stage_event(request) matches Ok((_, AppendOutcome::Committed(_))) {
        let commit = store.stage_append_rows(request).decided(request)->Ok_0->Commit_0;
        let row = EventRowView::of_record(commit.record);
        lemma_stage_commit_is_due(store, request, commit);
        lemma_run_verifies_after_stage_commit(store, request, commit);
        lemma_stage_commit_run_rows(store, request, commit, other.run_id);
        other.message_id.lemma_text(request.message_id.text());
        request.message_id.lemma_text(request.message_id.text());
        lemma_first_push(store.events, row, event_for_message(other.message_id.text()));
        lemma_first_push(store.events, row, event_named(request.event_id.text()));
    }
}

/// Appending an event of a stage is felt by that stage alone: every other stage, of whatever
/// run, and every pipeline loads as before, and so do their events. The stage journal has at
/// most one row more; nothing in it is removed or rewritten.
pub proof fn lemma_stage_append_leaves_the_rest_alone(
    store: StoreView,
    request: StageRequest,
    run: RunId,
    stage: StageInstanceId,
)
    requires
        run != request.run_id || stage != request.event.stage_instance_id,
    ensures
        store.with_stage_event(request) matches Ok((after, _)) ==> {
            &&& after.loaded_stage(run, stage) == store.loaded_stage(run, stage)
            &&& after.loaded_stage_events(run, stage) == store.loaded_stage_events(run, stage)
            &&& after.loaded_pipeline(run) == store.loaded_pipeline(run)
            &&& after.loaded_pipeline_events(run) == store.loaded_pipeline_events(run)
            &&& after.pipeline_events == store.pipeline_events
            &&& store.events.is_prefix_of(after.events)
            &&& after.events.len() <= store.events.len() + 1
        },
{
    if store.with_stage_event(request) matches Ok((_, AppendOutcome::Committed(_))) {
        let commit = store.stage_append_rows(request).decided(request)->Ok_0->Commit_0;
        lemma_stage_commit_is_due(store, request, commit);
        lemma_run_verifies_after_stage_commit(store, request, commit);
        lemma_stage_commit_run_rows(store, request, commit, run);
        lemma_stage_commit_snapshots(store, request, commit, stage);
        lemma_stage_commit_stage_rows(store, request, commit, run, stage);
        lemma_stage_compare_and_swap_succeeds(store, request, commit);
        lemma_run_names(run, request.run_id);
        let after = store.with_stage_commit(commit);
        assert(after.run_rows(run).verified_pipeline() == store.run_rows(run).verified_pipeline());
    }
}

/// Appending an event of a pipeline is felt by that pipeline alone: every stage and every
/// other pipeline loads as before, and so do their events. The pipeline journal has at most
/// one row more; nothing in it is removed or rewritten.
pub proof fn lemma_pipeline_append_leaves_the_rest_alone(
    store: StoreView,
    request: PipelineRequest,
    run: RunId,
    stage: StageInstanceId,
)
    ensures
        store.with_pipeline_event(request) matches Ok((after, _)) ==> {
            &&& after.loaded_stage(run, stage) == store.loaded_stage(run, stage)
            &&& after.loaded_stage_events(run, stage) == store.loaded_stage_events(run, stage)
            &&& run != request.run_id ==> after.loaded_pipeline(run) == store.loaded_pipeline(run)
                && after.loaded_pipeline_events(run) == store.loaded_pipeline_events(run)
            &&& after.events == store.events
            &&& store.pipeline_events.is_prefix_of(after.pipeline_events)
            &&& after.pipeline_events.len() <= store.pipeline_events.len() + 1
        },
{
    if store.with_pipeline_event(request) matches Ok((_, AppendPipelineOutcome::Committed(_))) {
        let commit = store.pipeline_append_rows(request).decided(request)->Ok_0->Commit_0;
        lemma_pipeline_commit_is_due(store, request, commit);
        lemma_pipeline_load_reads_commit(store, request, commit);
        lemma_pipeline_commit_run_rows(store, request, commit, run);
    }
}

/// Within a transaction the compare-and-swap updates of a stage event's commit find the rows
/// that they look for: the stage's snapshot is at the prior revision, and the run's counter at
/// the event's sequence.
pub proof fn lemma_stage_compare_and_swap_succeeds(
    store: StoreView,
    request: StageRequest,
    commit: StageCommitView,
)
    requires
        store.commits_stage_event(request, commit),
    ensures
        store.stage(request.event.stage_instance_id) matches Some(row) && row.run_id
            == request.run_id.text() && row.control_revision == commit.prior.control_revision,
        store.run_rows(request.run_id).run matches Some(row) && row.next_event_sequence
            == commit.record.sequence,
{
}

/// Within a transaction the compare-and-swap updates of a pipeline event's commit find the
/// rows that they look for: the pipeline's snapshot is at the prior revision, and the run's
/// counter at the event's sequence.
pub proof fn lemma_pipeline_compare_and_swap_succeeds(
    store: StoreView,
    request: PipelineRequest,
    commit: PipelineCommitView,
)
    requires
        store.commits_pipeline_event(request, commit),
    ensures
        store.run_rows(request.run_id).pipeline matches Some(row) && row.control_revision
            == commit.prior_control_revision,
        store.run_rows(request.run_id).run matches Some(row) && row.next_event_sequence
            == commit.record.sequence,
{
}

/// What the commit of a stage's event writes keeps within the ranges that the columns allow:
/// sequences and counters from 1, revisions from 0, all of them up to the largest revision.
pub proof fn lemma_stage_commit_fits_the_columns(
    store: StoreView,
    request: StageRequest,
    commit: StageCommitView,
)
    requires
        store.commits_stage_event(request, commit),
    ensures
        ({
            let row = EventRowView::of_record(commit.record);
            &&& 1 <= row.sequence < MAX_CONTROL_REVISION
            &&& 0 <= row.prior_control_revision < MAX_CONTROL_REVISION
        }),
        store.with_stage_commit(commit).stage(request.event.stage_instance_id) matches Some(row)
            && 0 <= row.control_revision <= MAX_CONTROL_REVISION,
        store.with_stage_commit(commit).run_rows(request.run_id).run matches Some(row) && 1
            <= row.next_event_sequence <= MAX_CONTROL_REVISION,
{
    lemma_stage_commit_is_due(store, request, commit);
    lemma_sequences_are_contiguous(store.run_rows(request.run_id), request.run_id);
    lemma_stage_commit_run_rows(store, request, commit, request.run_id);
    lemma_stage_commit_snapshots(store, request, commit, request.event.stage_instance_id);
    commit.prior.lemma_applied(request.event);
}

/// What the commit of a pipeline's event writes keeps within the ranges that the columns
/// allow.
pub proof fn lemma_pipeline_commit_fits_the_columns(
    store: StoreView,
    request: PipelineRequest,
    commit: PipelineCommitView,
)
    requires
        store.commits_pipeline_event(request, commit),
    ensures
        ({
            let row = PipelineEventRowView::of_record(commit.record);
            &&& 1 <= row.sequence < MAX_CONTROL_REVISION
            &&& 0 <= row.prior_revision < MAX_CONTROL_REVISION
        }),
        store.with_pipeline_commit(commit).run_rows(request.run_id).pipeline matches Some(row)
            && 0 <= row.control_revision <= MAX_CONTROL_REVISION,
        store.with_pipeline_commit(commit).run_rows(request.run_id).run matches Some(row) && 1
            <= row.next_event_sequence <= MAX_CONTROL_REVISION,
{
    lemma_pipeline_commit_is_due(store, request, commit);
    lemma_sequences_are_contiguous(store.run_rows(request.run_id), request.run_id);
    lemma_pipeline_commit_run_rows(store, request, commit, request.run_id);
    store.loaded_pipeline(request.run_id)->Ok_0.lemma_applied(request.event);
}

/// A stage's snapshot is determined by its initial state and its journal: of two stage rows
/// with the same initial state that load over the same journal, neither the state nor the
/// revision can differ. So any other snapshot is noticed.
pub proof fn lemma_snapshot_is_determined(
    left: StageRowView,
    right: StageRowView,
    rows: Seq<EventRowView>,
    run: RunId,
    stage: StageInstanceId,
)
    requires
        left.initial_state == right.initial_state,
        recovered_stage(Some(left), rows, run, stage) is Ok,
        recovered_stage(Some(right), rows, run, stage) is Ok,
    ensures
        left.state == right.state,
        left.control_revision == right.control_revision,
        recovered_stage(Some(left), rows, run, stage) == recovered_stage(
            Some(right),
            rows,
            run,
            stage,
        ),
{
}

/// A pipeline's snapshot is determined by its initial state and its journal. So any other
/// snapshot is noticed.
pub proof fn lemma_pipeline_snapshot_is_determined(left: RunRowsView, right: RunRowsView)
    requires
        left.pipeline matches Some(l) && right.pipeline matches Some(r) && l.initial_state
            == r.initial_state,
        left.pipeline_events == right.pipeline_events,
        left.verified_pipeline() is Ok,
        right.verified_pipeline() is Ok,
    ensures
        left.pipeline->Some_0.state == right.pipeline->Some_0.state,
        left.pipeline->Some_0.control_revision == right.pipeline->Some_0.control_revision,
        left.verified_pipeline() == right.verified_pipeline(),
{
}

/// The bytes of a journal row determine its other columns: of two rows with the same bytes
/// that read as events, none of the columns can differ. So any other column is noticed.
pub proof fn lemma_stage_row_bytes_determine_columns(left: EventRowView, right: EventRowView)
    requires
        left.event_json == right.event_json,
        left.decoded() is Ok,
        right.decoded() is Ok,
    ensures
        left == right,
{
    lemma_stage_row_is_determined(left);
    lemma_stage_row_is_determined(right);
    left.record->Ok_0.lemma_canonical_injective(right.record->Ok_0);
}

/// The bytes of a pipeline journal row determine its other columns. So any other column is
/// noticed.
pub proof fn lemma_pipeline_row_bytes_determine_columns(
    left: PipelineEventRowView,
    right: PipelineEventRowView,
)
    requires
        left.event_json == right.event_json,
        left.decoded() is Ok,
        right.decoded() is Ok,
    ensures
        left == right,
{
    lemma_pipeline_row_is_determined(left);
    lemma_pipeline_row_is_determined(right);
    left.record->Ok_0.lemma_canonical_injective(right.record->Ok_0);
}

/// A counter that is not one past the journal is noticed: whatever else a run's row says, only
/// one counter verifies.
pub proof fn lemma_counter_is_determined(left: RunRowsView, right: RunRowsView, run: RunId)
    requires
        left.run matches Some(l) && right.run matches Some(r) && l.pipeline_definition_digest
            == r.pipeline_definition_digest,
        left.events == right.events,
        left.pipeline == right.pipeline,
        left.pipeline_events == right.pipeline_events,
        left.verified(run) is Ok,
        right.verified(run) is Ok,
    ensures
        left.run->Some_0.next_event_sequence == right.run->Some_0.next_event_sequence,
{
    assert(left.verified_pipeline() == right.verified_pipeline());
}

/// Creating a run leaves every other run alone: its stages, its pipeline and their events load
/// as before.
pub proof fn lemma_creating_a_run_leaves_the_rest_alone(
    store: StoreView,
    created: RunId,
    definition: Option<Sha256Digest>,
    run: RunId,
    stage: StageInstanceId,
)
    requires
        run != created,
    ensures
        store.with_run(created, definition) matches Ok(after) ==> {
            &&& after.loaded_stage(run, stage) == store.loaded_stage(run, stage)
            &&& after.loaded_stage_events(run, stage) == store.loaded_stage_events(run, stage)
            &&& after.loaded_pipeline(run) == store.loaded_pipeline(run)
            &&& after.loaded_pipeline_events(run) == store.loaded_pipeline_events(run)
            &&& after.events == store.events
            &&& after.pipeline_events == store.pipeline_events
        },
{
    if store.with_run(created, definition) is Ok {
        lemma_run_names(run, created);
        lemma_first_push(store.runs, new_run(created, definition), run_named(run.text()));
    }
}

/// Registering a stage leaves everything else alone: every other stage, of whatever run, every
/// pipeline and all events load as before.
pub proof fn lemma_registering_a_stage_leaves_the_rest_alone(
    store: StoreView,
    target: RunId,
    state: StageState,
    run: RunId,
    stage: StageInstanceId,
)
    ensures
        store.with_stage(target, state) matches Ok(after) ==> {
            &&& stage != state.stage_instance_id ==> after.loaded_stage(run, stage)
                == store.loaded_stage(run, stage)
            &&& after.loaded_stage_events(run, stage) == store.loaded_stage_events(run, stage)
            &&& after.loaded_pipeline(run) == store.loaded_pipeline(run)
            &&& after.loaded_pipeline_events(run) == store.loaded_pipeline_events(run)
            &&& after.events == store.events
            &&& after.pipeline_events == store.pipeline_events
        },
{
    if store.with_stage(target, state) is Ok {
        lemma_stage_names(stage, state.stage_instance_id);
        lemma_first_push(
            store.stage_snapshots,
            new_stage(target, state),
            stage_named(stage.text()),
        );
    }
}

/// Registering a pipeline leaves everything else alone: every stage, every other pipeline and
/// all events load as before.
pub proof fn lemma_registering_a_pipeline_leaves_the_rest_alone(
    store: StoreView,
    target: RunId,
    state: PipelineView,
    run: RunId,
    stage: StageInstanceId,
)
    ensures
        store.with_pipeline(target, state) matches Ok(after) ==> {
            &&& after.loaded_stage(run, stage) == store.loaded_stage(run, stage)
            &&& after.loaded_stage_events(run, stage) == store.loaded_stage_events(run, stage)
            &&& run != target ==> after.loaded_pipeline(run) == store.loaded_pipeline(run)
            &&& after.loaded_pipeline_events(run) == store.loaded_pipeline_events(run)
            &&& after.events == store.events
            &&& after.pipeline_events == store.pipeline_events
        },
{
    if let Ok(after) = store.with_pipeline(target, state) {
        let row = new_pipeline(target, state);
        lemma_run_names(run, target);
        lemma_first_push(store.pipeline_snapshots, row, pipeline_of(run.text()));
        if run == target {
            let before = store.run_rows(run);
            let rows = after.run_rows(run);
            assert(before.pipeline_events.len() == 0);
            assert(rows.replayed_pipeline(row, state, state) == Ok::<PipelineView, StoreError>(
                state,
            ));
            assert(rows.verified_pipeline() == Ok::<PipelineView, StoreError>(state));
            assert(rows.verified_pipeline_journal() == before.verified_pipeline_journal());
        } else {
            assert(after.run_rows(run) == store.run_rows(run));
        }
    }
}

/// The run, where the one store has it, is for the same definition in the other.
pub open spec fn definition_stays(before: StoreView, after: StoreView, run: RunId) -> bool {
    before.run_rows(run).run matches Some(row) ==> {
        &&& after.run_rows(run).run matches Some(next)
        &&& next.pipeline_definition_digest == row.pipeline_definition_digest
    }
}

/// The stage, where the one store has it, belongs to the same run and started from the same
/// state in the other.
pub open spec fn stage_beginning_stays(
    before: StoreView,
    after: StoreView,
    stage: StageInstanceId,
) -> bool {
    before.stage(stage) matches Some(row) ==> {
        &&& after.stage(stage) matches Some(next)
        &&& next.run_id == row.run_id
        &&& next.initial_state == row.initial_state
    }
}

/// The run's pipeline, where the one store has it, started from the same state in the other.
pub open spec fn pipeline_beginning_stays(
    before: StoreView,
    after: StoreView,
    run: RunId,
) -> bool {
    before.run_rows(run).pipeline matches Some(row) ==> {
        &&& after.run_rows(run).pipeline matches Some(next)
        &&& next.initial_state == row.initial_state
    }
}

/// What there was in the one store started in the other as it did there: a run keeps its
/// definition, and a stage and a pipeline their run and their initial state.
pub open spec fn beginnings_stay(before: StoreView, after: StoreView) -> bool {
    &&& forall|run: RunId| #[trigger] definition_stays(before, after, run)
    &&& forall|stage: StageInstanceId| #[trigger] stage_beginning_stays(before, after, stage)
    &&& forall|run: RunId| #[trigger] pipeline_beginning_stays(before, after, run)
}

/// Creating a run rewrites no definition and no initial state.
pub proof fn lemma_creating_a_run_keeps_beginnings(
    store: StoreView,
    created: RunId,
    definition: Option<Sha256Digest>,
)
    ensures
        store.with_run(created, definition) matches Ok(after) ==> beginnings_stay(store, after),
{
    if let Ok(after) = store.with_run(created, definition) {
        assert forall|run: RunId| #[trigger] definition_stays(store, after, run) by {
            lemma_first_push(store.runs, new_run(created, definition), run_named(run.text()));
        }
    }
}

/// Registering a stage rewrites no definition and no initial state, and the stage starts from
/// what was registered.
pub proof fn lemma_registering_a_stage_keeps_beginnings(
    store: StoreView,
    target: RunId,
    state: StageState,
)
    ensures
        store.with_stage(target, state) matches Ok(after) ==> {
            &&& beginnings_stay(store, after)
            &&& after.stage(state.stage_instance_id) == Some(new_stage(target, state))
        },
{
    if let Ok(after) = store.with_stage(target, state) {
        let row = new_stage(target, state);
        lemma_first_push(
            store.stage_snapshots,
            row,
            stage_named(state.stage_instance_id.text()),
        );
        assert forall|stage: StageInstanceId| #[trigger]
            stage_beginning_stays(store, after, stage) by {
            lemma_first_push(store.stage_snapshots, row, stage_named(stage.text()));
        }
    }
}

/// Registering a pipeline rewrites no definition and no initial state, and the pipeline starts
/// from what was registered.
pub proof fn lemma_registering_a_pipeline_keeps_beginnings(
    store: StoreView,
    target: RunId,
    state: PipelineView,
)
    ensures
        store.with_pipeline(target, state) matches Ok(after) ==> {
            &&& beginnings_stay(store, after)
            &&& after.run_rows(target).pipeline == Some(new_pipeline(target, state))
        },
{
    if let Ok(after) = store.with_pipeline(target, state) {
        let row = new_pipeline(target, state);
        lemma_first_push(store.pipeline_snapshots, row, pipeline_of(target.text()));
        assert forall|run: RunId| #[trigger] pipeline_beginning_stays(store, after, run) by {
            lemma_first_push(store.pipeline_snapshots, row, pipeline_of(run.text()));
        }
    }
}

/// Appending an event of a stage rewrites no definition and no initial state.
pub proof fn lemma_appending_a_stage_event_keeps_beginnings(
    store: StoreView,
    request: StageRequest,
)
    ensures
        store.with_stage_event(request) matches Ok((after, _)) ==> beginnings_stay(store, after),
{
    if store.with_stage_event(request) matches Ok((_, AppendOutcome::Committed(_))) {
        let commit = store.stage_append_rows(request).decided(request)->Ok_0->Commit_0;
        let after = store.with_stage_commit(commit);
        assert forall|run: RunId| #[trigger] definition_stays(store, after, run) by {
            lemma_stage_commit_run_rows(store, request, commit, run);
        }
        assert forall|stage: StageInstanceId| #[trigger]
            stage_beginning_stays(store, after, stage) by {
            lemma_stage_commit_snapshots(store, request, commit, stage);
        }
    }
}

/// Appending an event of a pipeline rewrites no definition and no initial state.
pub proof fn lemma_appending_a_pipeline_event_keeps_beginnings(
    store: StoreView,
    request: PipelineRequest,
)
    ensures
        store.with_pipeline_event(request) matches Ok((after, _)) ==> beginnings_stay(
            store,
            after,
        ),
{
    if store.with_pipeline_event(request) matches Ok((_, AppendPipelineOutcome::Committed(_))) {
        let commit = store.pipeline_append_rows(request).decided(request)->Ok_0->Commit_0;
        let after = store.with_pipeline_commit(commit);
        assert forall|run: RunId| #[trigger] definition_stays(store, after, run) by {
            lemma_pipeline_commit_run_rows(store, request, commit, run);
        }
        assert forall|run: RunId| #[trigger] pipeline_beginning_stays(store, after, run) by {
            lemma_pipeline_commit_run_rows(store, request, commit, run);
        }
    }
}

/// A stage that loads is in the state that replaying its events from its initial state gives.
pub proof fn lemma_loaded_stage_is_replayed(store: StoreView, run: RunId, stage: StageInstanceId)
    ensures
        store.loaded_stage(run, stage) matches Ok(state) ==> {
            &&& store.stage(stage) matches Some(row)
            &&& row.run_id == run.text()
            &&& row.initial_state matches Ok(initial)
            &&& store.loaded_stage_events(run, stage) matches Ok(events)
            &&& initial.replayed(stage_events(events)) == Ok::<StageState, StageTransitionError>(
                state,
            )
        },
{
}

/// A pipeline that loads is in the state that replaying its events from its initial state
/// gives.
pub proof fn lemma_loaded_pipeline_is_replayed(store: StoreView, run: RunId)
    ensures
        store.loaded_pipeline(run) matches Ok(state) ==> {
            &&& store.run_rows(run).pipeline matches Some(row)
            &&& row.initial_state matches Ok(initial)
            &&& store.loaded_pipeline_events(run) matches Ok(events)
            &&& initial.replayed(pipeline_events(events)) == Ok::<
                PipelineView,
                PipelineTransitionError,
            >(state)
        },
{
}

} // verus!
