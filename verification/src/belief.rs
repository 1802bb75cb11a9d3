//! What it takes for a stage, a pipeline and a run to be believed, and what is said of those
//! that are not.

use vstd::prelude::*;

use crate::contiguity::{accounts_for, lemma_accounted_journal_ends, lemma_each_pipeline_decoded};
use crate::digest::Sha256Digest;
use crate::error::StoreError;
use crate::identifier::{RunId, StageInstanceId};
use crate::journal::{
    decoded_events, decoded_pipeline_events, pipeline_events, sequences, stage_events,
    StoredPipelineEvent, StoredStageEvent,
};
use crate::pipeline::{PipelineTransitionError, PipelineView};
use crate::recovery::{counted, recovered_stage, RunRows, RunRowsView};
use crate::rows::{EventRowView, PipelineRow, RunRow, StageRow, StageRowView};
use crate::stage::{StageState, StageTransitionError};

verus! {

/// The values of rows hold every column of them.
pub proof fn lemma_row_views_are_faithful(run: RunRow, stage: StageRow, pipeline: PipelineRow)
    ensures
        run@.run_id == run.run_id@,
        run@.next_event_sequence == run.next_event_sequence,
        run.pipeline_definition_digest matches Some(text) ==> run@.pipeline_definition_digest
            == Some(text@),
        run.pipeline_definition_digest is None ==> run@.pipeline_definition_digest is None,
        stage@.stage_instance_id == stage.stage_instance_id@,
        stage@.run_id == stage.run_id@,
        stage@.control_revision == stage.control_revision,
        stage@.initial_state == stage.initial_state,
        stage@.state == stage.state,
        pipeline@.run_id == pipeline.run_id@,
        pipeline@.control_revision == pipeline.control_revision,
        pipeline.initial_state matches Ok(state) ==> pipeline@.initial_state == Ok::<
            PipelineView,
            String,
        >(state@),
        pipeline.initial_state matches Err(reason) ==> pipeline@.initial_state == Err::<
            PipelineView,
            String,
        >(reason),
        pipeline.state matches Ok(state) ==> pipeline@.state == Ok::<PipelineView, String>(state@),
        pipeline.state matches Err(reason) ==> pipeline@.state == Err::<PipelineView, String>(
            reason,
        ),
{
}

/// The value of what a transaction reads of a run holds every row of it, in order.
pub proof fn lemma_run_rows_view_is_faithful(rows: RunRows)
    ensures
        rows.run matches Some(row) ==> rows@.run == Some(row@),
        rows.run is None ==> rows@.run is None,
        rows.pipeline matches Some(row) ==> rows@.pipeline == Some(row@),
        rows.pipeline is None ==> rows@.pipeline is None,
        rows@.events.len() == rows.events@.len(),
        forall|i: int|
            0 <= i < rows.events@.len() ==> rows@.events[i] == (#[trigger] rows.events@[i])@,
        rows@.pipeline_events.len() == rows.pipeline_events@.len(),
        forall|i: int|
            0 <= i < rows.pipeline_events@.len() ==> rows@.pipeline_events[i] == (
            #[trigger] rows.pipeline_events@[i])@,
{
}

/// The events, and the sequences, that stored events hold are theirs, one for each and in
/// order.
pub proof fn lemma_held_events(stage: Seq<StoredStageEvent>, pipeline: Seq<StoredPipelineEvent>)
    ensures
        stage_events(stage).len() == stage.len(),
        forall|i: int|
            0 <= i < stage.len() ==> stage_events(stage)[i] == (#[trigger] stage[i]).event,
        pipeline_events(pipeline).len() == pipeline.len(),
        forall|i: int|
            0 <= i < pipeline.len() ==> pipeline_events(pipeline)[i] == (
            #[trigger] pipeline[i]).event,
        sequences(pipeline).len() == pipeline.len(),
        forall|i: int|
            0 <= i < pipeline.len() ==> sequences(pipeline)[i] == (
            #[trigger] pipeline[i]).sequence,
{
}

/// A stage is believed to be in a state exactly where its row belongs to the run, holds that
/// state at that state's revision, started as the same stage, and replaying its events from its
/// initial state gives that very state.
pub proof fn lemma_stage_is_believed(
    row: Option<StageRowView>,
    rows: Seq<EventRowView>,
    run: RunId,
    stage: StageInstanceId,
    state: StageState,
)
    ensures
        recovered_stage(row, rows, run, stage) == Ok::<StageState, StoreError>(state) <==> {
            &&& row matches Some(row)
            &&& row.run_id == run.text()
            &&& row.state == Ok::<StageState, String>(state)
            &&& row.control_revision == state.control_revision
            &&& state.stage_instance_id == stage
            &&& row.initial_state matches Ok(initial)
            &&& initial.stage_instance_id == stage
            &&& decoded_events(rows) matches Ok(events)
            &&& initial.replayed(stage_events(events)) == Ok::<StageState, StageTransitionError>(
                state,
            )
        },
{
}

/// What is said of a stage that is not there, or belongs to another run.
pub proof fn lemma_stage_that_is_elsewhere(
    row: Option<StageRowView>,
    rows: Seq<EventRowView>,
    run: RunId,
    stage: StageInstanceId,
)
    ensures
        recovered_stage(row, rows, run, stage) == Err::<StageState, StoreError>(
            StoreError::StageNotFound,
        ) <== row is None,
        recovered_stage(row, rows, run, stage) == Err::<StageState, StoreError>(
            StoreError::StageRunMismatch,
        ) <== row is Some && row->Some_0.run_id != run.text(),
{
}

/// What is said of a stage's row in its own run that is not believed: a state that cannot be
/// read gives the reader's reason, the initial state's before the snapshot's; then another
/// stage's states mismatch; then a negative revision is corrupt, and any other wrong one a
/// mismatch; then what is wrong with the journal is said, then why the journal does not replay,
/// and a snapshot that it does not lead to is a mismatch.
pub proof fn lemma_stage_that_is_not_believed(
    row: StageRowView,
    rows: Seq<EventRowView>,
    run: RunId,
    stage: StageInstanceId,
)
    requires
        row.run_id == run.text(),
    ensures
        ({
            let result = recovered_stage(Some(row), rows, run, stage);
            &&& row.initial_state matches Err(reason) ==> result == Err::<StageState, StoreError>(
                StoreError::Serialization(reason),
            )
            &&& row.initial_state is Ok ==> (row.state matches Err(reason) ==> result == Err::<
                StageState,
                StoreError,
            >(StoreError::Serialization(reason)))
            &&& row.initial_state matches Ok(initial) ==> row.state matches Ok(snapshot) ==> {
                let own = initial.stage_instance_id == stage && snapshot.stage_instance_id
                    == stage;
                let right = own && row.control_revision == snapshot.control_revision;
                &&& !own ==> result == Err::<StageState, StoreError>(StoreError::SnapshotMismatch)
                &&& own && row.control_revision < 0 ==> result == Err::<StageState, StoreError>(
                    StoreError::CorruptData("negative SQLite integer"),
                )
                &&& own && row.control_revision >= 0 && !right ==> result == Err::<
                    StageState,
                    StoreError,
                >(StoreError::SnapshotMismatch)
                &&& right ==> (decoded_events(rows) matches Err(error) ==> result == Err::<
                    StageState,
                    StoreError,
                >(error))
                &&& right ==> (decoded_events(rows) matches Ok(events) ==> {
                    let replayed = initial.replayed(stage_events(events));
                    &&& replayed matches Err(error) ==> result == Err::<StageState, StoreError>(
                        StoreError::StageTransition(error),
                    )
                    &&& replayed is Ok && replayed->Ok_0 != snapshot ==> result == Err::<
                        StageState,
                        StoreError,
                    >(StoreError::SnapshotMismatch)
                })
            }
        }),
{
}

/// A pipeline is believed to be in a state exactly where its row holds that state at that
/// state's revision, started untouched and from the run's own definition, and replaying its
/// events from its initial state gives that very state.
pub proof fn lemma_pipeline_is_believed(rows: RunRowsView, state: PipelineView)
    ensures
        rows.verified_pipeline() == Ok::<PipelineView, StoreError>(state) <==> {
            &&& rows.pipeline matches Some(row)
            &&& row.state == Ok::<PipelineView, String>(state)
            &&& row.control_revision == state.control_revision
            &&& row.initial_state matches Ok(initial)
            &&& initial.untouched()
            &&& rows.run matches Some(run)
            &&& run.pipeline_definition_digest == Some(initial.definition_digest.text())
            &&& state.definition_digest == initial.definition_digest
            &&& decoded_pipeline_events(rows.pipeline_events) matches Ok(events)
            &&& initial.replayed(pipeline_events(events)) == Ok::<
                PipelineView,
                PipelineTransitionError,
            >(state)
        },
{
    if let Some(row) = rows.pipeline {
        if let Ok(initial) = row.initial_state {
            if let Some(definition) = rows.definition() {
                initial.definition_digest.lemma_text(definition);
            }
        }
    }
}

/// What is said of a pipeline that is not believed: that there is none; then, where a state
/// cannot be read, the reader's reason; then that the run was made for another definition or
/// for none; then that it started touched or with another definition than its snapshot's; then
/// that its revision is corrupt or wrong; then what is wrong with its journal, why the journal
/// does not replay, and that its snapshot is not what the journal leads to.
pub proof fn lemma_pipeline_that_is_not_believed(rows: RunRowsView)
    ensures
        ({
            let result = rows.verified_pipeline();
            &&& rows.pipeline is None ==> result == Err::<PipelineView, StoreError>(
                StoreError::PipelineNotFound,
            )
            &&& rows.pipeline matches Some(row) ==> {
                &&& row.initial_state matches Err(reason) ==> result == Err::<
                    PipelineView,
                    StoreError,
                >(StoreError::Serialization(reason))
                &&& row.initial_state is Ok ==> (row.state matches Err(reason) ==> result == Err::<
                    PipelineView,
                    StoreError,
                >(StoreError::Serialization(reason)))
                &&& row.initial_state matches Ok(initial) ==> row.state matches Ok(snapshot) ==> {
                    let named = rows.run is Some && rows.run->Some_0.pipeline_definition_digest
                        is Some;
                    let name = rows.run->Some_0.pipeline_definition_digest->Some_0;
                    let own = named && name == initial.definition_digest.text();
                    let sound = own && initial.untouched() && initial.definition_digest
                        == snapshot.definition_digest;
                    let right = sound && row.control_revision == snapshot.control_revision;
                    &&& !named ==> result == Err::<PipelineView, StoreError>(
                        StoreError::PipelineDefinitionMismatch,
                    )
                    &&& named && !own ==> (match Sha256Digest::parsed(name) {
                        Err(error) => result == Err::<PipelineView, StoreError>(
                            StoreError::Digest(error),
                        ),
                        Ok(_) => result == Err::<PipelineView, StoreError>(
                            StoreError::PipelineDefinitionMismatch,
                        ),
                    })
                    &&& own && !sound ==> result == Err::<PipelineView, StoreError>(
                        StoreError::PipelineSnapshotMismatch,
                    )
                    &&& sound && row.control_revision < 0 ==> result == Err::<
                        PipelineView,
                        StoreError,
                    >(StoreError::CorruptData("negative SQLite integer"))
                    &&& sound && row.control_revision >= 0 && !right ==> result == Err::<
                        PipelineView,
                        StoreError,
                    >(StoreError::PipelineSnapshotMismatch)
                    &&& right ==> (decoded_pipeline_events(
                        rows.pipeline_events,
                    ) matches Err(error) ==> result == Err::<PipelineView, StoreError>(error))
                    &&& right ==> (decoded_pipeline_events(rows.pipeline_events) matches Ok(events)
                        ==> {
                        let replayed = initial.replayed(pipeline_events(events));
                        &&& replayed matches Err(error) ==> result == Err::<
                            PipelineView,
                            StoreError,
                        >(StoreError::PipelineTransition(error))
                        &&& replayed is Ok && replayed->Ok_0 != snapshot ==> result == Err::<
                            PipelineView,
                            StoreError,
                        >(StoreError::PipelineSnapshotMismatch)
                    })
                }
            }
        }),
{
    if let Some(row) = rows.pipeline {
        if let Ok(initial) = row.initial_state {
            if let Some(definition) = rows.definition() {
                initial.definition_digest.lemma_text(definition);
                if let Ok(digest) = Sha256Digest::parsed(definition) {
                    digest.lemma_text(definition);
                }
            }
        }
    }
}

/// A run's pipeline journal is believed exactly where its rows read as events and, where there
/// is a pipeline, that is believed, or else there are no rows; it gives the events' sequences.
/// Otherwise what is wrong with the rows is said first, then what is wrong with the pipeline,
/// and rows without a pipeline miss it.
pub proof fn lemma_pipeline_journal_is_believed(rows: RunRowsView)
    ensures
        ({
            let result = rows.verified_pipeline_journal();
            &&& decoded_pipeline_events(rows.pipeline_events) matches Err(error) ==> result
                == Err::<Seq<u64>, StoreError>(error)
            &&& decoded_pipeline_events(rows.pipeline_events) matches Ok(events) ==> {
                &&& rows.pipeline is Some && rows.verified_pipeline() is Err ==> result == Err::<
                    Seq<u64>,
                    StoreError,
                >(rows.verified_pipeline()->Err_0)
                &&& rows.pipeline is Some && rows.verified_pipeline() is Ok ==> result == Ok::<
                    Seq<u64>,
                    StoreError,
                >(sequences(events))
                &&& rows.pipeline is None && rows.pipeline_events.len() > 0 ==> result == Err::<
                    Seq<u64>,
                    StoreError,
                >(StoreError::PipelineNotFound)
                &&& rows.pipeline is None && rows.pipeline_events.len() == 0 ==> result == Ok::<
                    Seq<u64>,
                    StoreError,
                >(Seq::empty())
            }
        }),
{
    lemma_each_pipeline_decoded(rows.pipeline_events);
    if rows.pipeline_events.len() == 0 {
        assert(sequences(Seq::<StoredPipelineEvent>::empty()) =~= Seq::<u64>::empty());
    }
}

proof fn lemma_counting_alone(run_id: RunId, rows: Seq<EventRowView>, end: int)
    requires
        0 <= end <= rows.len(),
        forall|k: int|
            0 <= k < end ==> (#[trigger] rows[k]).decoded() is Ok
                && rows[k].decoded()->Ok_0.run_id == run_id && rows[k].decoded()->Ok_0.sequence
                == k + 1,
    ensures
        counted(run_id, Seq::empty(), rows.take(end)) == Ok::<(nat, nat), StoreError>(
            ((end + 1) as nat, 0nat),
        ),
    decreases end,
{
    if end > 0 {
        lemma_counting_alone(run_id, rows, end - 1);
        assert(rows.take(end).drop_last() =~= rows.take(end - 1));
    }
}

proof fn lemma_counting_fails(run_id: RunId, rows: Seq<EventRowView>, end: int, error: StoreError)
    requires
        0 <= end <= rows.len(),
        counted(run_id, Seq::empty(), rows.take(end)) == Err::<(nat, nat), StoreError>(error),
    ensures
        counted(run_id, Seq::empty(), rows) == Err::<(nat, nat), StoreError>(error),
    decreases rows.len(),
{
    if end < rows.len() {
        assert(rows.drop_last().take(end) =~= rows.take(end));
        lemma_counting_fails(run_id, rows.drop_last(), end, error);
    } else {
        assert(rows.take(end) =~= rows);
    }
}

/// What is said of a run that is not believed, at the first thing that is wrong. Without a
/// pipeline journal: rows from the first on are events of the run with the sequences 1, 2, 3
/// and so on; the first that cannot be read says why, the first that is out of place breaks the
/// sequence, and a counter that is not one past the last does not match.
pub proof fn lemma_run_that_is_not_believed(rows: RunRowsView, run_id: RunId, good: int)
    ensures
        rows.run is None ==> rows.verified(run_id) == Err::<nat, StoreError>(
            StoreError::RunNotFound,
        ),
        rows.run matches Some(run) ==> run.next_event_sequence < 0 ==> rows.verified(run_id)
            == Err::<nat, StoreError>(StoreError::CorruptData("negative SQLite integer")),
        rows.run matches Some(run) ==> run.next_event_sequence >= 0 ==> (
        rows.verified_pipeline_journal() matches Err(error) ==> rows.verified(run_id) == Err::<
            nat,
            StoreError,
        >(error)),
        rows.run matches Some(run) ==> run.next_event_sequence >= 0
            && rows.verified_pipeline_journal() == Ok::<Seq<u64>, StoreError>(Seq::empty()) && 0
            <= good <= rows.events.len() && (forall|k: int|
            0 <= k < good ==> (#[trigger] rows.events[k]).decoded() is Ok
                && rows.events[k].decoded()->Ok_0.run_id == run_id
                && rows.events[k].decoded()->Ok_0.sequence == k + 1) ==> {
            &&& good < rows.events.len() ==> (match rows.events[good].decoded() {
                Err(error) => rows.verified(run_id) == Err::<nat, StoreError>(error),
                Ok(event) => event.run_id != run_id || event.sequence != good + 1
                    ==> rows.verified(run_id) == Err::<nat, StoreError>(
                    StoreError::CorruptData("run event sequence is not contiguous"),
                ),
            })
            &&& good == rows.events.len() ==> rows.verified(run_id) == (
            if run.next_event_sequence == good + 1 {
                Ok((good + 1) as nat)
            } else {
                Err(StoreError::CorruptData("run sequence counter does not match the journal"))
            })
        },
{
    if rows.run is Some && rows.run->Some_0.next_event_sequence >= 0
        && rows.verified_pipeline_journal() == Ok::<Seq<u64>, StoreError>(Seq::empty()) && 0
        <= good <= rows.events.len() && (forall|k: int|
        0 <= k < good ==> (#[trigger] rows.events[k]).decoded() is Ok
            && rows.events[k].decoded()->Ok_0.run_id == run_id
            && rows.events[k].decoded()->Ok_0.sequence == k + 1) {
        lemma_counting_alone(run_id, rows.events, good);
        if good < rows.events.len() {
            let longer = rows.events.take(good + 1);
            assert(longer.drop_last() =~= rows.events.take(good));
            assert(longer.last() == rows.events[good]);
            if let Err(error) = counted(run_id, Seq::empty(), longer) {
                lemma_counting_fails(run_id, rows.events, good + 1, error);
            }
        } else {
            assert(rows.events.take(good) =~= rows.events);
        }
    }
}

/// A run whose journals account for each sequence once, but whose counter is another, has a
/// counter that does not match.
pub proof fn lemma_counter_that_does_not_match(rows: RunRowsView, run_id: RunId, next: nat)
    requires
        next >= 1,
        rows.run matches Some(run) && 0 <= run.next_event_sequence && run.next_event_sequence
            != next,
        rows.verified_pipeline_journal() matches Ok(taken) && accounts_for(
            run_id,
            taken,
            rows.events,
            next,
        ),
    ensures
        rows.verified(run_id) == Err::<nat, StoreError>(
            StoreError::CorruptData("run sequence counter does not match the journal"),
        ),
{
    lemma_accounted_journal_ends(
        run_id,
        rows.verified_pipeline_journal()->Ok_0,
        rows.events,
        next,
    );
}

} // verus!
