//! What is admitted to a store and what is not, and what exactly the admitted changes: told
//! row by row.

use vstd::prelude::*;

use crate::append::{
    allotted, AppendOutcome, AppendPipelineEvent, AppendPipelineOutcome, AppendStageEvent,
    PipelineRequest, StageRequest,
};
use crate::contiguity::{lemma_each_pipeline_decoded, lemma_run_verifies_exactly_where_accounted};
use crate::digest::Sha256Digest;
use crate::effects::lemma_run_names;
use crate::error::StoreError;
use crate::guarantees::{
    lemma_pipeline_commit_is_due, lemma_stage_commit_is_due, lemma_stage_compare_and_swap_succeeds,
};
use crate::identifier::{EventId, MessageId, RunId, StageInstanceId};
use crate::integrity::{lemma_every_pipeline_loads, lemma_every_stage_loads};
use crate::journal::{
    decoded_events, decoded_pipeline_events, lemma_pipeline_row_is_determined,
    lemma_stage_row_is_determined, stage_events, StoredPipelineEvent, StoredStageEvent,
};
use crate::lifecycle::lemma_untouched_is_pending;
use crate::model::{
    by_pipeline_sequence, by_sequence, event_for_message, event_in_run, event_named, event_of_stage,
    pipeline_event_for_message, pipeline_event_in_run, pipeline_event_named, pipeline_of, run_named,
    stage_in_run, stage_named, StoreView,
};
use crate::pipeline::PipelineView;
use crate::reading::{
    lemma_pipeline_row_is_read_where_it_agrees, lemma_row_is_read_where_it_agrees,
    pipeline_row_agrees, stage_row_agrees,
};
use crate::recovery::recovered_stage;
use crate::rows::{EventRowView, PipelineEventRowView};
use crate::select::{
    count, first, first_index, lemma_count, lemma_first_index, lemma_is_first_index, lemma_ordered,
    lemma_ordered_members,
};
use crate::stage::StageState;
use crate::store::SqliteStore;

verus! {

/// The value of a store holds every row of it, table by table and in order.
pub proof fn lemma_store_view_is_faithful(store: SqliteStore)
    ensures
        store@.runs.len() == store.runs@.len(),
        forall|i: int|
            0 <= i < store.runs@.len() ==> store@.runs[i] == (#[trigger] store.runs@[i])@,
        store@.stage_snapshots.len() == store.stage_snapshots@.len(),
        forall|i: int|
            0 <= i < store.stage_snapshots@.len() ==> store@.stage_snapshots[i] == (
            #[trigger] store.stage_snapshots@[i])@,
        store@.events.len() == store.events@.len(),
        forall|i: int|
            0 <= i < store.events@.len() ==> store@.events[i] == (#[trigger] store.events@[i])@,
        store@.pipeline_snapshots.len() == store.pipeline_snapshots@.len(),
        forall|i: int|
            0 <= i < store.pipeline_snapshots@.len() ==> store@.pipeline_snapshots[i] == (
            #[trigger] store.pipeline_snapshots@[i])@,
        store@.pipeline_events.len() == store.pipeline_events@.len(),
        forall|i: int|
            0 <= i < store.pipeline_events@.len() ==> store@.pipeline_events[i] == (
            #[trigger] store.pipeline_events@[i])@,
{
}

/// The values of requests hold every part of them.
pub proof fn lemma_request_views_are_faithful(
    stage: AppendStageEvent<'_>,
    pipeline: AppendPipelineEvent<'_>,
)
    ensures
        stage@.run_id == *stage.run_id,
        stage@.event_id == *stage.event_id,
        stage@.message_id == *stage.message_id,
        stage@.message_digest == *stage.message_digest,
        stage@.event == *stage.event,
        pipeline@.run_id == *pipeline.run_id,
        pipeline@.event_id == *pipeline.event_id,
        pipeline@.message_id == *pipeline.message_id,
        pipeline@.message_digest == *pipeline.message_digest,
        pipeline@.event == *pipeline.event,
{
}

/// A run's next sequence is given out as it is, up to the last but one that there is.
pub proof fn lemma_allotment(next: nat, sequence: u64)
    ensures
        allotted(next) == Ok::<u64, StoreError>(sequence) <==> sequence == next && next
            < 9007199254740991,
        allotted(next) is Err ==> allotted(next)->Err_0 == StoreError::EventSequenceExhausted,
{
}

/// The store has a row of the run.
pub open spec fn run_is_there(store: StoreView, run: RunId) -> bool {
    exists|i: int| 0 <= i < store.runs.len() && (#[trigger] store.runs[i]).run_id == run.text()
}

/// The store has a row of a stage with the identifier.
pub open spec fn stage_is_there(store: StoreView, stage: StageInstanceId) -> bool {
    exists|i: int|
        0 <= i < store.stage_snapshots.len() && (
        #[trigger] store.stage_snapshots[i]).stage_instance_id == stage.text()
}

/// The store has a row of a stage of the run.
pub open spec fn run_has_stages(store: StoreView, run: RunId) -> bool {
    exists|i: int|
        0 <= i < store.stage_snapshots.len() && (#[trigger] store.stage_snapshots[i]).run_id
            == run.text()
}

/// The store has a row of a pipeline of the run.
pub open spec fn run_has_pipeline(store: StoreView, run: RunId) -> bool {
    exists|i: int|
        0 <= i < store.pipeline_snapshots.len() && (#[trigger] store.pipeline_snapshots[i]).run_id
            == run.text()
}

/// Some event of a stage came from the message.
pub open spec fn message_was_used(store: StoreView, message: MessageId) -> bool {
    exists|i: int|
        0 <= i < store.events.len() && (#[trigger] store.events[i]).message_id == message.text()
}

/// Some event of a pipeline came from the message.
pub open spec fn message_was_used_for_a_pipeline(store: StoreView, message: MessageId) -> bool {
    exists|i: int|
        0 <= i < store.pipeline_events.len() && (#[trigger] store.pipeline_events[i]).message_id
            == message.text()
}

/// Some event, of a stage or of a pipeline, has the identifier.
pub open spec fn event_was_used(store: StoreView, event: EventId) -> bool {
    ||| exists|i: int|
        0 <= i < store.events.len() && (#[trigger] store.events[i]).event_id == event.text()
    ||| exists|i: int|
        0 <= i < store.pipeline_events.len() && (#[trigger] store.pipeline_events[i]).event_id
            == event.text()
}

/// What a query finds is there, and what it does not find is not.
pub proof fn lemma_lookups(
    store: StoreView,
    run: RunId,
    stage: StageInstanceId,
    message: MessageId,
    event: EventId,
)
    ensures
        store.run_rows(run).run is Some <==> run_is_there(store, run),
        store.run_rows(run).run matches Some(row) ==> row.run_id == run.text(),
        store.run_rows(run).pipeline is Some <==> run_has_pipeline(store, run),
        store.run_rows(run).pipeline matches Some(row) ==> row.run_id == run.text(),
        store.stage(stage) is Some <==> stage_is_there(store, stage),
        store.stage(stage) matches Some(row) ==> row.stage_instance_id == stage.text(),
        count(store.stage_snapshots, stage_in_run(run.text())) > 0 <==> run_has_stages(store, run),
        first(store.events, event_for_message(message.text())) is Some <==> message_was_used(
            store,
            message,
        ),
        first(store.pipeline_events, pipeline_event_for_message(message.text())) is Some
            <==> message_was_used_for_a_pipeline(store, message),
        store.event_id_taken(event) <==> event_was_used(store, event),
{
    lemma_first_index(store.runs, run_named(run.text()));
    lemma_first_index(store.pipeline_snapshots, pipeline_of(run.text()));
    lemma_first_index(store.stage_snapshots, stage_named(stage.text()));
    lemma_first_index(store.stage_snapshots, stage_in_run(run.text()));
    lemma_count(store.stage_snapshots, stage_in_run(run.text()));
    lemma_first_index(store.events, event_for_message(message.text()));
    lemma_first_index(store.pipeline_events, pipeline_event_for_message(message.text()));
    lemma_first_index(store.events, event_named(event.text()));
    lemma_first_index(store.pipeline_events, pipeline_event_named(event.text()));
}

/// What is read of a run and of a stage are their rows, each as often as it is there, in
/// ascending order of their sequence.
pub proof fn lemma_journals_are_whole(store: StoreView, run: RunId, stage: StageInstanceId)
    ensures
        store.run_rows(run).events.to_multiset() == store.events.filter(
            |row: EventRowView| row.run_id == run.text(),
        ).to_multiset(),
        forall|i: int, j: int|
            0 <= i <= j < store.run_rows(run).events.len() ==> (
            #[trigger] store.run_rows(run).events[i]).sequence <= (
            #[trigger] store.run_rows(run).events[j]).sequence,
        store.run_rows(run).pipeline_events.to_multiset() == store.pipeline_events.filter(
            |row: PipelineEventRowView| row.run_id == run.text(),
        ).to_multiset(),
        forall|i: int, j: int|
            0 <= i <= j < store.run_rows(run).pipeline_events.len() ==> (
            #[trigger] store.run_rows(run).pipeline_events[i]).sequence <= (
            #[trigger] store.run_rows(run).pipeline_events[j]).sequence,
        store.stage_rows(run, stage).to_multiset() == store.events.filter(
            |row: EventRowView| row.run_id == run.text() && row.stage_instance_id == stage.text(),
        ).to_multiset(),
        forall|i: int, j: int|
            0 <= i <= j < store.stage_rows(run, stage).len() ==> (
            #[trigger] store.stage_rows(run, stage)[i]).sequence <= (
            #[trigger] store.stage_rows(run, stage)[j]).sequence,
{
    let all = event_in_run(run.text());
    let own = event_of_stage(run.text(), stage.text());
    let piped = pipeline_event_in_run(run.text());
    lemma_ordered(store.events, all, by_sequence());
    lemma_ordered(store.events, own, by_sequence());
    lemma_ordered(store.pipeline_events, piped, by_pipeline_sequence());
    assert(all =~= (|row: EventRowView| row.run_id == run.text()));
    assert(own =~= (|row: EventRowView|
        row.run_id == run.text() && row.stage_instance_id == stage.text()));
    assert(piped =~= (|row: PipelineEventRowView| row.run_id == run.text()));
    let events = store.run_rows(run).events;
    assert forall|i: int, j: int| 0 <= i <= j < events.len() implies (
    #[trigger] events[i]).sequence <= (#[trigger] events[j]).sequence by {
        assert(by_sequence()(events[i]) <= by_sequence()(events[j]));
    }
    let rows = store.stage_rows(run, stage);
    assert forall|i: int, j: int| 0 <= i <= j < rows.len() implies (#[trigger] rows[i]).sequence
        <= (#[trigger] rows[j]).sequence by {
        assert(by_sequence()(rows[i]) <= by_sequence()(rows[j]));
    }
    let pipeline_rows = store.run_rows(run).pipeline_events;
    assert forall|i: int, j: int| 0 <= i <= j < pipeline_rows.len() implies (
    #[trigger] pipeline_rows[i]).sequence <= (#[trigger] pipeline_rows[j]).sequence by {
        assert(by_pipeline_sequence()(pipeline_rows[i]) <= by_pipeline_sequence()(
            pipeline_rows[j],
        ));
    }
}

/// The number of a run's events is the number of rows that name the run.
pub proof fn lemma_event_count(events: Seq<EventRowView>, run: RunId)
    ensures
        count(events, event_in_run(run.text())) == events.filter(
            |row: EventRowView| row.run_id == run.text(),
        ).len(),
    decreases events.len(),
{
    reveal(Seq::filter);
    let matches = event_in_run(run.text());
    assert(matches =~= (|row: EventRowView| row.run_id == run.text()));
    if events.len() > 0 {
        lemma_event_count(events.drop_last(), run);
    }
}

/// A load of anything of a run says what is wrong with the run where something is.
pub proof fn lemma_loads_verify_the_run(store: StoreView, run: RunId, stage: StageInstanceId)
    ensures
        store.run_rows(run).verified(run) matches Err(error) ==> {
            &&& store.loaded_stage(run, stage) == Err::<StageState, StoreError>(error)
            &&& store.loaded_stage_events(run, stage) == Err::<Seq<StoredStageEvent>, StoreError>(
                error,
            )
            &&& store.loaded_pipeline(run) == Err::<PipelineView, StoreError>(error)
            &&& store.loaded_pipeline_events(run) == Err::<Seq<StoredPipelineEvent>, StoreError>(
                error,
            )
        },
        store.run_rows(run).verified(run) is Ok ==> {
            &&& store.loaded_stage(run, stage) == recovered_stage(
                store.stage(stage),
                store.stage_rows(run, stage),
                run,
                stage,
            )
            &&& store.loaded_stage_events(run, stage) == decoded_events(
                store.stage_rows(run, stage),
            )
            &&& store.loaded_pipeline(run) == store.run_rows(run).verified_pipeline()
            &&& store.loaded_pipeline_events(run) == decoded_pipeline_events(
                store.run_rows(run).pipeline_events,
            )
        },
{
}

/// A run is created exactly where there is none of its name. Its row is the one more: it has
/// the run's name, counts from 1 and names the definition; nothing else changes.
pub proof fn lemma_run_creation(store: StoreView, run: RunId, definition: Option<Sha256Digest>)
    ensures
        store.with_run(run, definition) is Ok <==> !run_is_there(store, run),
        store.with_run(run, definition) matches Err(error) ==> error
            == StoreError::RunAlreadyExists,
        store.with_run(run, definition) matches Ok(after) ==> {
            let row = after.runs[store.runs.len() as int];
            &&& after.runs.len() == store.runs.len() + 1
            &&& forall|i: int|
                0 <= i < store.runs.len() ==> #[trigger] after.runs[i] == store.runs[i]
            &&& row.run_id == run.text()
            &&& row.next_event_sequence == 1
            &&& definition is None ==> row.pipeline_definition_digest is None
            &&& definition matches Some(digest) ==> row.pipeline_definition_digest == Some(
                digest.text(),
            )
            &&& after.stage_snapshots == store.stage_snapshots
            &&& after.events == store.events
            &&& after.pipeline_snapshots == store.pipeline_snapshots
            &&& after.pipeline_events == store.pipeline_events
        },
{
    lemma_first_index(store.runs, run_named(run.text()));
}

/// A stage is registered exactly where it is pending at revision 0 and attempt 0, without
/// inputs and without a reason for its status, its run is there and has no pipeline, and no
/// stage of its name is; and it is refused for the first of these that fails. Its row is the
/// one more: it names the stage and the run, and holds the state at revision 0 twice; nothing
/// else changes.
pub proof fn lemma_stage_registration(store: StoreView, run: RunId, state: StageState)
    ensures
        ({
            let result = store.with_stage(run, state);
            let pristine = state.status is Pending && state.control_revision == 0 && state.attempt
                == 0 && state.input_manifest_digest is None && state.status_reason_digest is None;
            let there = run_is_there(store, run);
            let piped = run_has_pipeline(store, run);
            let taken = stage_is_there(store, state.stage_instance_id);
            &&& result is Ok <==> pristine && there && !piped && !taken
            &&& !pristine ==> result == Err::<StoreView, StoreError>(
                StoreError::InvalidInitialStage,
            )
            &&& pristine && !there ==> result == Err::<StoreView, StoreError>(
                StoreError::RunNotFound,
            )
            &&& pristine && there && piped ==> result == Err::<StoreView, StoreError>(
                StoreError::PipelineStageRegistrationRequired,
            )
            &&& pristine && there && !piped && taken ==> result == Err::<StoreView, StoreError>(
                StoreError::StageAlreadyExists,
            )
            &&& result matches Ok(after) ==> {
                let row = after.stage_snapshots[store.stage_snapshots.len() as int];
                &&& after.stage_snapshots.len() == store.stage_snapshots.len() + 1
                &&& forall|i: int|
                    0 <= i < store.stage_snapshots.len() ==> #[trigger] after.stage_snapshots[i]
                        == store.stage_snapshots[i]
                &&& row.stage_instance_id == state.stage_instance_id.text()
                &&& row.run_id == run.text()
                &&& row.control_revision == 0
                &&& row.initial_state == Ok::<StageState, String>(state)
                &&& row.state == Ok::<StageState, String>(state)
                &&& after.runs == store.runs
                &&& after.events == store.events
                &&& after.pipeline_snapshots == store.pipeline_snapshots
                &&& after.pipeline_events == store.pipeline_events
            }
        }),
{
    lemma_untouched_is_pending(state);
    lemma_first_index(store.runs, run_named(run.text()));
    lemma_first_index(store.pipeline_snapshots, pipeline_of(run.text()));
    lemma_first_index(store.stage_snapshots, stage_named(state.stage_instance_id.text()));
}

/// The run was created for the definition.
pub open spec fn run_is_for(store: StoreView, run: RunId, definition: Sha256Digest) -> bool {
    exists|i: int|
        0 <= i < store.runs.len() && (#[trigger] store.runs[i]).run_id == run.text()
            && store.runs[i].pipeline_definition_digest == Some(definition.text())
}

/// In an intact store a pipeline is registered exactly where nothing has happened to it, its
/// run is there, was created for its definition, and has neither stages of its own nor a
/// pipeline, whatever the pipeline is made of; and it is refused for the first of these that
/// fails. Its row is the one more: it names the run, and holds the state at revision 0 twice;
/// nothing else changes.
pub proof fn lemma_pipeline_registration(store: StoreView, run: RunId, state: PipelineView)
    requires
        store.intact(),
    ensures
        ({
            let result = store.with_pipeline(run, state);
            let pristine = state.untouched();
            let there = run_is_there(store, run);
            let rooted = run_has_stages(store, run);
            let own = run_is_for(store, run, state.definition_digest);
            let taken = run_has_pipeline(store, run);
            &&& result is Ok <==> pristine && there && !rooted && own && !taken
            &&& !pristine ==> result == Err::<StoreView, StoreError>(
                StoreError::InvalidInitialPipeline,
            )
            &&& pristine && !there ==> result == Err::<StoreView, StoreError>(
                StoreError::RunNotFound,
            )
            &&& pristine && there && rooted ==> result == Err::<StoreView, StoreError>(
                StoreError::PipelineRootConflict,
            )
            &&& pristine && there && !rooted && own && taken ==> result == Err::<
                StoreView,
                StoreError,
            >(StoreError::PipelineAlreadyExists)
            &&& pristine && there && !rooted && !own ==> (result == Err::<StoreView, StoreError>(
                StoreError::PipelineDefinitionMismatch,
            ) || (result is Err && result->Err_0 is Digest))
            &&& result matches Ok(after) ==> {
                let row = after.pipeline_snapshots[store.pipeline_snapshots.len() as int];
                &&& after.pipeline_snapshots.len() == store.pipeline_snapshots.len() + 1
                &&& forall|i: int|
                    0 <= i < store.pipeline_snapshots.len()
                        ==> #[trigger] after.pipeline_snapshots[i] == store.pipeline_snapshots[i]
                &&& row.run_id == run.text()
                &&& row.control_revision == 0
                &&& row.initial_state == Ok::<PipelineView, String>(state)
                &&& row.state == Ok::<PipelineView, String>(state)
                &&& after.runs == store.runs
                &&& after.stage_snapshots == store.stage_snapshots
                &&& after.events == store.events
                &&& after.pipeline_events == store.pipeline_events
            }
        }),
{
    lemma_first_index(store.runs, run_named(run.text()));
    lemma_first_index(store.pipeline_snapshots, pipeline_of(run.text()));
    lemma_first_index(store.stage_snapshots, stage_in_run(run.text()));
    lemma_count(store.stage_snapshots, stage_in_run(run.text()));
    let rows = store.run_rows(run);
    if let Some(row) = rows.run {
        assert(rows.verified(run) is Ok);
        let index = first_index(store.runs, run_named(run.text()))->Some_0;
        assert(store.runs[index] == row);
        if let Some(name) = row.pipeline_definition_digest {
            state.definition_digest.lemma_text(name);
        }
        if run_is_for(store, run, state.definition_digest) {
            let i = choose|i: int|
                0 <= i < store.runs.len() && (#[trigger] store.runs[i]).run_id == run.text()
                    && store.runs[i].pipeline_definition_digest == Some(
                    state.definition_digest.text(),
                );
            assert(i == index);
        }
    }
}

/// In an intact store every row of either journal reads as an event.
pub proof fn lemma_every_row_reads(store: StoreView, i: int)
    requires
        store.intact(),
    ensures
        0 <= i < store.events.len() ==> store.events[i].decoded() is Ok,
        0 <= i < store.pipeline_events.len() ==> store.pipeline_events[i].decoded() is Ok,
{
    if 0 <= i < store.events.len() {
        let row = store.events[i];
        assert(store.has_stage(row.run_id, row.stage_instance_id));
        lemma_first_index(store.stage_snapshots, stage_named(row.stage_instance_id));
        let at = first_index(
            store.stage_snapshots,
            stage_named(row.stage_instance_id),
        )->Some_0;
        assert(store.has_run(store.stage_snapshots[at].run_id));
        lemma_first_index(store.runs, run_named(row.run_id));
        let place = first_index(store.runs, run_named(row.run_id))->Some_0;
        let run = RunId::parsed(store.runs[place].run_id)->Ok_0;
        run.lemma_text(row.run_id);
        let rows = store.run_rows(run);
        assert(rows.run is Some);
        lemma_run_verifies_exactly_where_accounted(rows, run, rows.verified(run)->Ok_0);
        lemma_ordered_members(store.events, event_in_run(run.text()), by_sequence());
        assert(event_in_run(run.text())(row));
        assert(rows.events.contains(row));
        let k = choose|k: int| 0 <= k < rows.events.len() && rows.events[k] == row;
        assert(rows.events[k].decoded() is Ok);
    }
    if 0 <= i < store.pipeline_events.len() {
        let row = store.pipeline_events[i];
        assert(store.has_pipeline(row.run_id));
        lemma_first_index(store.pipeline_snapshots, pipeline_of(row.run_id));
        let at = first_index(store.pipeline_snapshots, pipeline_of(row.run_id))->Some_0;
        assert(store.has_run(store.pipeline_snapshots[at].run_id));
        lemma_first_index(store.runs, run_named(row.run_id));
        let place = first_index(store.runs, run_named(row.run_id))->Some_0;
        let run = RunId::parsed(store.runs[place].run_id)->Ok_0;
        run.lemma_text(row.run_id);
        let rows = store.run_rows(run);
        assert(rows.run is Some);
        assert(rows.verified(run) is Ok);
        lemma_each_pipeline_decoded(rows.pipeline_events);
        lemma_ordered_members(
            store.pipeline_events,
            pipeline_event_in_run(run.text()),
            by_pipeline_sequence(),
        );
        assert(pipeline_event_in_run(run.text())(row));
        assert(rows.pipeline_events.contains(row));
        let k = choose|k: int|
            0 <= k < rows.pipeline_events.len() && rows.pipeline_events[k] == row;
        assert(rows.pipeline_events[k].decoded() is Ok);
    }
}

/// A request for a run that is not believed is answered with what is wrong with the run.
pub proof fn lemma_request_for_a_broken_run(
    store: StoreView,
    request: StageRequest,
    pipeline_request: PipelineRequest,
)
    ensures
        store.run_rows(request.run_id).verified(request.run_id) matches Err(error)
            ==> store.with_stage_event(request) == Err::<(StoreView, AppendOutcome), StoreError>(
            error,
        ),
        store.run_rows(pipeline_request.run_id).verified(
            pipeline_request.run_id,
        ) matches Err(error) ==> store.with_pipeline_event(pipeline_request) == Err::<
            (StoreView, AppendPipelineOutcome),
            StoreError,
        >(error),
{
}

/// A journal row is for what the request asks: the same run, message digest and event.
pub open spec fn row_answers(row: EventRowView, request: StageRequest) -> bool {
    &&& row.run_id == request.run_id.text()
    &&& row.message_digest == request.message_digest.text()
    &&& row.record matches Ok(record)
    &&& record.event == request.event
}

/// In an intact store, with the run there, a message that was used gets the event that it led
/// to back, as the journal has it, where the request is for the same run, digest and event, and
/// is a conflict otherwise; the store stays as it is.
pub proof fn lemma_answer_to_a_used_message(store: StoreView, request: StageRequest, i: int)
    requires
        store.intact(),
        run_is_there(store, request.run_id),
        0 <= i < store.events.len(),
        store.events[i].message_id == request.message_id.text(),
    ensures
        row_answers(store.events[i], request) ==> (store.with_stage_event(request) matches Ok(
            (after, AppendOutcome::Duplicate(stored)),
        ) && after == store && stage_row_agrees(store.events[i], stored)),
        !row_answers(store.events[i], request) ==> store.with_stage_event(request) == Err::<
            (StoreView, AppendOutcome),
            StoreError,
        >(StoreError::MessageIdConflict),
{
    let row = store.events[i];
    lemma_every_row_reads(store, i);
    lemma_stage_row_is_determined(row);
    let stored = row.decoded()->Ok_0;
    lemma_row_is_read_where_it_agrees(row, stored);
    lemma_run_names(stored.run_id, request.run_id);
    stored.message_digest.lemma_text(request.message_digest.text());
    request.message_digest.lemma_text(request.message_digest.text());
    lemma_is_first_index(store.events, event_for_message(request.message_id.text()), i);
    lemma_first_index(store.runs, run_named(request.run_id.text()));
    assert(store.run_rows(request.run_id).run is Some);
    assert(store.run_rows(request.run_id).verified(request.run_id) is Ok);
}

/// The change that appending an event of a stage makes, and no other: the journal has one more
/// row, at the run's next sequence, that says what the request says; the stage's snapshot is
/// the next state at its revision; the run counts one up.
pub open spec fn only_appended(
    store: StoreView,
    after: StoreView,
    request: StageRequest,
    stored: StoredStageEvent,
    next: StageState,
) -> bool {
    &&& stored.event_id == request.event_id
    &&& stored.run_id == request.run_id
    &&& stored.message_id == request.message_id
    &&& stored.message_digest == request.message_digest
    &&& stored.event == request.event
    &&& after.events.len() == store.events.len() + 1
    &&& forall|i: int| 0 <= i < store.events.len() ==> #[trigger] after.events[i] == store.events[i]
    &&& stage_row_agrees(after.events[store.events.len() as int], stored)
    &&& after.runs.len() == store.runs.len()
    &&& forall|i: int|
        #![trigger after.runs[i]]
        0 <= i < store.runs.len() ==> {
            let before = store.runs[i];
            let own = before.run_id == request.run_id.text();
            &&& !own ==> after.runs[i] == before
            &&& own ==> {
                &&& stored.sequence == before.next_event_sequence
                &&& after.runs[i].run_id == before.run_id
                &&& after.runs[i].next_event_sequence == before.next_event_sequence + 1
                &&& after.runs[i].pipeline_definition_digest == before.pipeline_definition_digest
            }
        }
    &&& after.stage_snapshots.len() == store.stage_snapshots.len()
    &&& forall|i: int|
        #![trigger after.stage_snapshots[i]]
        0 <= i < store.stage_snapshots.len() ==> {
            let before = store.stage_snapshots[i];
            let own = before.stage_instance_id == request.event.stage_instance_id.text();
            &&& !own ==> after.stage_snapshots[i] == before
            &&& own ==> {
                &&& after.stage_snapshots[i].stage_instance_id == before.stage_instance_id
                &&& after.stage_snapshots[i].run_id == before.run_id
                &&& after.stage_snapshots[i].initial_state == before.initial_state
                &&& after.stage_snapshots[i].control_revision == next.control_revision
                &&& after.stage_snapshots[i].state == Ok::<StageState, String>(next)
            }
        }
    &&& after.pipeline_snapshots == store.pipeline_snapshots
    &&& after.pipeline_events == store.pipeline_events
}

/// In an intact store a request whose message is new is answered so. Without the run: there is
/// none. With a message of a pipeline: a conflict. With an event identifier in use: that
/// conflict. Without the stage: there is none; with a stage of another run: a mismatch. Where
/// the stage does not take the event: why. Where the run has no sequence left: that. Otherwise
/// the event is committed, and exactly that changes.
pub proof fn lemma_answer_to_a_new_message(store: StoreView, request: StageRequest)
    requires
        store.intact(),
        !message_was_used(store, request.message_id),
    ensures
        ({
            let result = store.with_stage_event(request);
            let stage = request.event.stage_instance_id;
            let there = run_is_there(store, request.run_id);
            let clear = there && !message_was_used_for_a_pipeline(store, request.message_id);
            let fresh = clear && !event_was_used(store, request.event_id);
            &&& !there ==> result == Err::<(StoreView, AppendOutcome), StoreError>(
                StoreError::RunNotFound,
            )
            &&& there && !clear ==> result == Err::<(StoreView, AppendOutcome), StoreError>(
                StoreError::MessageIdConflict,
            )
            &&& clear && !fresh ==> result == Err::<(StoreView, AppendOutcome), StoreError>(
                StoreError::EventIdConflict,
            )
            &&& fresh && !stage_is_there(store, stage) ==> result == Err::<
                (StoreView, AppendOutcome),
                StoreError,
            >(StoreError::StageNotFound)
            &&& fresh ==> (store.stage(stage) matches Some(row) ==> row.run_id
                != request.run_id.text() ==> result == Err::<
                (StoreView, AppendOutcome),
                StoreError,
            >(StoreError::StageRunMismatch))
            &&& fresh && store.stage_belongs(request.run_id, stage) ==> {
                &&& store.loaded_stage(request.run_id, stage) matches Ok(prior)
                &&& match prior.applied(request.event) {
                    Err(error) => result == Err::<(StoreView, AppendOutcome), StoreError>(
                        StoreError::StageTransition(error),
                    ),
                    Ok(next) => {
                        let counter = store.run_rows(
                            request.run_id,
                        ).run->Some_0.next_event_sequence;
                        &&& counter >= 9007199254740991 ==> result == Err::<
                            (StoreView, AppendOutcome),
                            StoreError,
                        >(StoreError::EventSequenceExhausted)
                        &&& counter < 9007199254740991 ==> (result matches Ok(
                            (after, AppendOutcome::Committed(stored)),
                        ) && only_appended(store, after, request, stored, next))
                    },
                }
            }
        }),
{
    let stage = request.event.stage_instance_id;
    let run = request.run_id;
    lemma_lookups(store, run, stage, request.message_id, request.event_id);
    if run_is_there(store, run) {
        assert(store.run_rows(run).run is Some);
        assert(store.run_rows(run).verified(run) is Ok);
    }
    if run_is_there(store, run) && !message_was_used_for_a_pipeline(store, request.message_id)
        && !event_was_used(store, request.event_id) && store.stage_belongs(run, stage) {
        lemma_every_stage_loads(store, run, stage);
        let prior = store.loaded_stage(run, stage)->Ok_0;
        prior.lemma_applied(request.event);
        assert(store.stage_recovers(run, stage));
        let initial = store.stage(stage)->Some_0.initial_state->Ok_0;
        let read = decoded_events(store.stage_rows(run, stage))->Ok_0;
        initial.lemma_attempts_are_bounded(stage_events(read));
        if prior.applied(request.event) is Ok && store.run_rows(
            run,
        ).run->Some_0.next_event_sequence < 9007199254740991 {
            let commit = store.stage_append_rows(request).decided(request)->Ok_0->Commit_0;
            lemma_stage_commit_is_due(store, request, commit);
            lemma_stage_compare_and_swap_succeeds(store, request, commit);
            let after = store.with_stage_commit(commit);
            let stored = StoredStageEvent::of_record(commit.record);
            let row = EventRowView::of_record(commit.record);
            lemma_row_is_read_where_it_agrees(row, stored);
            lemma_first_index(store.runs, run_named(run.text()));
            lemma_first_index(store.stage_snapshots, stage_named(stage.text()));
            assert(after.events[store.events.len() as int] == row);
            assert(only_appended(store, after, request, stored, commit.next));
        }
    }
}

/// A pipeline's journal row is for what the request asks: the same run, message digest and
/// event.
pub open spec fn pipeline_row_answers(
    row: PipelineEventRowView,
    request: PipelineRequest,
) -> bool {
    &&& row.run_id == request.run_id.text()
    &&& row.message_digest == request.message_digest.text()
    &&& row.record matches Ok(record)
    &&& record.event == request.event
}

/// In an intact store, with the run there, a message that a pipeline's event came from gets
/// that event back, as the journal has it, where the request is for the same run, digest and
/// event, and is a conflict otherwise; the store stays as it is.
pub proof fn lemma_answer_to_a_used_pipeline_message(
    store: StoreView,
    request: PipelineRequest,
    i: int,
)
    requires
        store.intact(),
        run_is_there(store, request.run_id),
        0 <= i < store.pipeline_events.len(),
        store.pipeline_events[i].message_id == request.message_id.text(),
    ensures
        pipeline_row_answers(store.pipeline_events[i], request) ==> (store.with_pipeline_event(
            request,
        ) matches Ok((after, AppendPipelineOutcome::Duplicate(stored))) && after == store
            && pipeline_row_agrees(store.pipeline_events[i], stored)),
        !pipeline_row_answers(store.pipeline_events[i], request) ==> store.with_pipeline_event(
            request,
        ) == Err::<(StoreView, AppendPipelineOutcome), StoreError>(StoreError::MessageIdConflict),
{
    let row = store.pipeline_events[i];
    lemma_every_row_reads(store, i);
    lemma_pipeline_row_is_determined(row);
    let stored = row.decoded()->Ok_0;
    lemma_pipeline_row_is_read_where_it_agrees(row, stored);
    lemma_run_names(stored.run_id, request.run_id);
    stored.message_digest.lemma_text(request.message_digest.text());
    request.message_digest.lemma_text(request.message_digest.text());
    lemma_is_first_index(
        store.pipeline_events,
        pipeline_event_for_message(request.message_id.text()),
        i,
    );
    lemma_first_index(store.events, event_for_message(request.message_id.text()));
    lemma_first_index(store.runs, run_named(request.run_id.text()));
    assert(store.run_rows(request.run_id).run is Some);
    assert(store.run_rows(request.run_id).verified(request.run_id) is Ok);
}

/// The change that appending an event of a pipeline makes, and no other.
pub open spec fn only_appended_to_the_pipeline(
    store: StoreView,
    after: StoreView,
    request: PipelineRequest,
    stored: StoredPipelineEvent,
    next: PipelineView,
) -> bool {
    &&& stored.event_id == request.event_id
    &&& stored.run_id == request.run_id
    &&& stored.message_id == request.message_id
    &&& stored.message_digest == request.message_digest
    &&& stored.event == request.event
    &&& after.pipeline_events.len() == store.pipeline_events.len() + 1
    &&& forall|i: int|
        0 <= i < store.pipeline_events.len() ==> #[trigger] after.pipeline_events[i]
            == store.pipeline_events[i]
    &&& pipeline_row_agrees(after.pipeline_events[store.pipeline_events.len() as int], stored)
    &&& after.runs.len() == store.runs.len()
    &&& forall|i: int|
        #![trigger after.runs[i]]
        0 <= i < store.runs.len() ==> {
            let before = store.runs[i];
            let own = before.run_id == request.run_id.text();
            &&& !own ==> after.runs[i] == before
            &&& own ==> {
                &&& stored.sequence == before.next_event_sequence
                &&& after.runs[i].run_id == before.run_id
                &&& after.runs[i].next_event_sequence == before.next_event_sequence + 1
                &&& after.runs[i].pipeline_definition_digest == before.pipeline_definition_digest
            }
        }
    &&& after.pipeline_snapshots.len() == store.pipeline_snapshots.len()
    &&& forall|i: int|
        #![trigger after.pipeline_snapshots[i]]
        0 <= i < store.pipeline_snapshots.len() ==> {
            let before = store.pipeline_snapshots[i];
            let own = before.run_id == request.run_id.text();
            &&& !own ==> after.pipeline_snapshots[i] == before
            &&& own ==> {
                &&& after.pipeline_snapshots[i].run_id == before.run_id
                &&& after.pipeline_snapshots[i].initial_state == before.initial_state
                &&& after.pipeline_snapshots[i].control_revision == next.control_revision
                &&& after.pipeline_snapshots[i].state == Ok::<PipelineView, String>(next)
            }
        }
    &&& after.stage_snapshots == store.stage_snapshots
    &&& after.events == store.events
}

/// In an intact store a request for a pipeline whose message is new to pipelines is answered
/// so. Without the run: there is none. With a message of a stage: a conflict. With an event
/// identifier in use: that conflict. Without a pipeline: there is none. Where the pipeline does
/// not take the event: why. Where the run has no sequence left: that. Otherwise the event is
/// committed, and exactly that changes.
pub proof fn lemma_answer_to_a_new_pipeline_message(store: StoreView, request: PipelineRequest)
    requires
        store.intact(),
        !message_was_used_for_a_pipeline(store, request.message_id),
    ensures
        ({
            let result = store.with_pipeline_event(request);
            let there = run_is_there(store, request.run_id);
            let clear = there && !message_was_used(store, request.message_id);
            let fresh = clear && !event_was_used(store, request.event_id);
            &&& !there ==> result == Err::<(StoreView, AppendPipelineOutcome), StoreError>(
                StoreError::RunNotFound,
            )
            &&& there && !clear ==> result == Err::<(StoreView, AppendPipelineOutcome), StoreError>(
                StoreError::MessageIdConflict,
            )
            &&& clear && !fresh ==> result == Err::<(StoreView, AppendPipelineOutcome), StoreError>(
                StoreError::EventIdConflict,
            )
            &&& fresh && !run_has_pipeline(store, request.run_id) ==> result == Err::<
                (StoreView, AppendPipelineOutcome),
                StoreError,
            >(StoreError::PipelineNotFound)
            &&& fresh && run_has_pipeline(store, request.run_id) ==> {
                &&& store.loaded_pipeline(request.run_id) matches Ok(prior)
                &&& match prior.applied(request.event) {
                    Err(error) => result == Err::<(StoreView, AppendPipelineOutcome), StoreError>(
                        StoreError::PipelineTransition(error),
                    ),
                    Ok(next) => {
                        let counter = store.run_rows(
                            request.run_id,
                        ).run->Some_0.next_event_sequence;
                        &&& counter >= 9007199254740991 ==> result == Err::<
                            (StoreView, AppendPipelineOutcome),
                            StoreError,
                        >(StoreError::EventSequenceExhausted)
                        &&& counter < 9007199254740991 ==> (result matches Ok(
                            (after, AppendPipelineOutcome::Committed(stored)),
                        ) && only_appended_to_the_pipeline(store, after, request, stored, next))
                    },
                }
            }
        }),
{
    let run = request.run_id;
    lemma_lookups(store, run, arbitrary(), request.message_id, request.event_id);
    if run_is_there(store, run) {
        assert(store.run_rows(run).run is Some);
        assert(store.run_rows(run).verified(run) is Ok);
        if message_was_used(store, request.message_id) {
            let found = first_index(
                store.events,
                event_for_message(request.message_id.text()),
            )->Some_0;
            lemma_first_index(store.events, event_for_message(request.message_id.text()));
            lemma_every_row_reads(store, found);
        }
    }
    if run_is_there(store, run) && !message_was_used(store, request.message_id) && !event_was_used(
        store,
        request.event_id,
    ) && run_has_pipeline(store, run) {
        lemma_first_index(store.pipeline_snapshots, pipeline_of(run.text()));
        lemma_every_pipeline_loads(store, run);
        let prior = store.loaded_pipeline(run)->Ok_0;
        prior.lemma_applied(request.event);
        if prior.applied(request.event) is Ok && store.run_rows(
            run,
        ).run->Some_0.next_event_sequence < 9007199254740991 {
            let commit = store.pipeline_append_rows(request).decided(request)->Ok_0->Commit_0;
            lemma_pipeline_commit_is_due(store, request, commit);
            let after = store.with_pipeline_commit(commit);
            let stored = StoredPipelineEvent::of_record(commit.record);
            let row = PipelineEventRowView::of_record(commit.record);
            lemma_pipeline_row_is_read_where_it_agrees(row, stored);
            lemma_first_index(store.runs, run_named(run.text()));
            assert(after.pipeline_events[store.pipeline_events.len() as int] == row);
            assert(only_appended_to_the_pipeline(store, after, request, stored, commit.next));
        }
    }
}

} // verus!
