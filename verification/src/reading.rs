//! What a row that is believed says, what it takes to be believed, and what is said of a row
//! that is not.

use vstd::prelude::*;

use crate::canonical_json::CanonicalJsonError;
use crate::digest::Sha256Digest;
use crate::error::StoreError;
use crate::identifier::{EventId, MessageId, RunId, StageInstanceId};
use crate::journal::{
    decoded_events, decoded_pipeline_events, lemma_pipeline_row_is_determined,
    lemma_stage_row_is_determined, StoredPipelineEvent, StoredStageEvent,
};
use crate::rows::{
    sql_integer, unsigned, EventRowView, PipelineEventRowView, RawEventRow, RawPipelineEventRow,
};

verus! {

/// An integer column holds the numbers from 0 to its largest, each as itself, and reads back
/// every integer that is not negative as itself.
pub proof fn lemma_column_integers(value: u64, integer: i64)
    ensures
        sql_integer(value) == Ok::<i64, StoreError>(integer) <==> integer == value,
        sql_integer(value) is Err <==> value > 0x7fff_ffff_ffff_ffff,
        sql_integer(value) matches Err(error) ==> error == StoreError::CorruptData(
            "integer exceeds SQLite range",
        ),
        unsigned(integer) == Ok::<u64, StoreError>(value) <==> value == integer,
        unsigned(integer) is Err <==> integer < 0,
        unsigned(integer) matches Err(error) ==> error == StoreError::CorruptData(
            "negative SQLite integer",
        ),
{
}

/// The value of an event's row holds every column of it.
pub proof fn lemma_event_row_view_is_faithful(row: RawEventRow)
    ensures
        row@.event_id == row.event_id@,
        row@.run_id == row.run_id@,
        row@.sequence == row.sequence,
        row@.message_id == row.message_id@,
        row@.message_digest == row.message_digest@,
        row@.stage_instance_id == row.stage_instance_id@,
        row@.prior_control_revision == row.prior_control_revision,
        row@.event_digest == row.event_digest@,
        row@.event_json == row.event_json@,
        row@.record == row.record,
{
}

/// The value of a pipeline event's row holds every column of it.
pub proof fn lemma_pipeline_event_row_view_is_faithful(row: RawPipelineEventRow)
    ensures
        row@.event_id == row.event_id@,
        row@.run_id == row.run_id@,
        row@.sequence == row.sequence,
        row@.message_id == row.message_id@,
        row@.message_digest == row.message_digest@,
        row@.prior_revision == row.prior_revision,
        row@.event_digest == row.event_digest@,
        row@.event_json == row.event_json@,
        row@.record == row.record,
{
}

/// What a row says agrees with what it is read as: each part of the event is in its column,
/// the bytes are the canonical JSON of a record with the very same parts, and the event's
/// digest is that of the bytes and the one in the digest column.
pub open spec fn stage_row_agrees(row: EventRowView, event: StoredStageEvent) -> bool {
    &&& row.event_id == event.event_id.text()
    &&& row.run_id == event.run_id.text()
    &&& row.sequence == event.sequence
    &&& row.message_id == event.message_id.text()
    &&& row.message_digest == event.message_digest.text()
    &&& row.stage_instance_id == event.event.stage_instance_id.text()
    &&& row.prior_control_revision == event.event.prior_control_revision
    &&& row.event_digest == event.event_digest.text()
    &&& event.event_digest == Sha256Digest::of(row.event_json)
    &&& row.record matches Ok(record)
    &&& record.canonical() == Ok::<Seq<u8>, CanonicalJsonError>(row.event_json)
    &&& record.event_id == event.event_id
    &&& record.run_id == event.run_id
    &&& record.sequence == event.sequence
    &&& record.message_id == event.message_id
    &&& record.message_digest == event.message_digest
    &&& record.stage_instance_id == event.event.stage_instance_id
    &&& record.prior_control_revision == event.event.prior_control_revision
    &&& record.event == event.event
}

/// A row is read as an event exactly where all that it says agrees with the event.
pub proof fn lemma_row_is_read_where_it_agrees(row: EventRowView, event: StoredStageEvent)
    ensures
        row.decoded() == Ok::<StoredStageEvent, StoreError>(event) <==> stage_row_agrees(
            row,
            event,
        ),
{
    if row.decoded() is Ok {
        lemma_stage_row_is_determined(row);
    }
    if stage_row_agrees(row, event) {
        reveal(EventRowView::decoded);
        event.event_id.lemma_text(row.event_id);
        event.run_id.lemma_text(row.run_id);
        event.message_id.lemma_text(row.message_id);
        event.message_digest.lemma_text(row.message_digest);
        event.event.stage_instance_id.lemma_text(row.stage_instance_id);
        event.event_digest.lemma_text(row.event_digest);
    }
}

/// What a pipeline's row says agrees with what it is read as.
pub open spec fn pipeline_row_agrees(
    row: PipelineEventRowView,
    event: StoredPipelineEvent,
) -> bool {
    &&& row.event_id == event.event_id.text()
    &&& row.run_id == event.run_id.text()
    &&& row.sequence == event.sequence
    &&& row.message_id == event.message_id.text()
    &&& row.message_digest == event.message_digest.text()
    &&& row.prior_revision == event.event.prior_control_revision
    &&& row.event_digest == event.event_digest.text()
    &&& event.event_digest == Sha256Digest::of(row.event_json)
    &&& row.record matches Ok(record)
    &&& record.canonical() == Ok::<Seq<u8>, CanonicalJsonError>(row.event_json)
    &&& record.event_id == event.event_id
    &&& record.run_id == event.run_id
    &&& record.sequence == event.sequence
    &&& record.message_id == event.message_id
    &&& record.message_digest == event.message_digest
    &&& record.prior_control_revision == event.event.prior_control_revision
    &&& record.event == event.event
}

/// A pipeline's row is read as an event exactly where all that it says agrees with the event:
/// the event's digest, in particular, is that of the row's bytes and the one in its column.
pub proof fn lemma_pipeline_row_is_read_where_it_agrees(
    row: PipelineEventRowView,
    event: StoredPipelineEvent,
)
    ensures
        row.decoded() == Ok::<StoredPipelineEvent, StoreError>(event) <==> pipeline_row_agrees(
            row,
            event,
        ),
{
    if row.decoded() is Ok {
        lemma_pipeline_row_is_determined(row);
    }
    if pipeline_row_agrees(row, event) {
        reveal(PipelineEventRowView::decoded);
        event.event_id.lemma_text(row.event_id);
        event.run_id.lemma_text(row.run_id);
        event.message_id.lemma_text(row.message_id);
        event.message_digest.lemma_text(row.message_digest);
        event.event_digest.lemma_text(row.event_digest);
    }
}

/// Rows are read as events exactly where each of them is, one event for each row and in the
/// order of the rows; otherwise what is said is said of the first row that is not.
pub proof fn lemma_rows_are_read_one_by_one(
    rows: Seq<EventRowView>,
    events: Seq<StoredStageEvent>,
    broken: int,
)
    ensures
        decoded_events(rows) == Ok::<Seq<StoredStageEvent>, StoreError>(events) <==> {
            &&& events.len() == rows.len()
            &&& forall|i: int|
                0 <= i < rows.len() ==> (#[trigger] rows[i]).decoded() == Ok::<
                    StoredStageEvent,
                    StoreError,
                >(events[i])
        },
        0 <= broken < rows.len() && rows[broken].decoded() is Err && (forall|i: int|
            0 <= i < broken ==> (#[trigger] rows[i]).decoded() is Ok) ==> decoded_events(rows)
            == Err::<Seq<StoredStageEvent>, StoreError>(rows[broken].decoded()->Err_0),
    decreases rows.len(),
{
    if rows.len() > 0 {
        let front = rows.drop_last();
        assert forall|i: int| 0 <= i < front.len() implies front[i] == #[trigger] rows[i] by {}
        if events.len() > 0 {
            lemma_rows_are_read_one_by_one(front, events.drop_last(), broken);
            assert(events =~= events.drop_last().push(events.last()));
        } else {
            lemma_rows_are_read_one_by_one(front, events, broken);
        }
        if decoded_events(front) is Ok {
            lemma_rows_are_read_one_by_one(front, decoded_events(front)->Ok_0, broken);
        }
        if broken == rows.len() - 1 && forall|i: int|
            0 <= i < broken ==> (#[trigger] rows[i]).decoded() is Ok {
            let read = Seq::new(front.len(), |i: int| front[i].decoded()->Ok_0);
            lemma_rows_are_read_one_by_one(front, read, broken);
        }
    } else {
        assert(decoded_events(rows)->Ok_0 =~= Seq::empty());
        if events.len() == 0 {
            assert(events =~= Seq::empty());
        }
    }
}

/// A pipeline's rows are read as events exactly where each of them is.
pub proof fn lemma_pipeline_rows_are_read_one_by_one(
    rows: Seq<PipelineEventRowView>,
    events: Seq<StoredPipelineEvent>,
    broken: int,
)
    ensures
        decoded_pipeline_events(rows) == Ok::<Seq<StoredPipelineEvent>, StoreError>(events) <==> {
            &&& events.len() == rows.len()
            &&& forall|i: int|
                0 <= i < rows.len() ==> (#[trigger] rows[i]).decoded() == Ok::<
                    StoredPipelineEvent,
                    StoreError,
                >(events[i])
        },
        0 <= broken < rows.len() && rows[broken].decoded() is Err && (forall|i: int|
            0 <= i < broken ==> (#[trigger] rows[i]).decoded() is Ok) ==> decoded_pipeline_events(
            rows,
        ) == Err::<Seq<StoredPipelineEvent>, StoreError>(rows[broken].decoded()->Err_0),
    decreases rows.len(),
{
    if rows.len() > 0 {
        let front = rows.drop_last();
        assert forall|i: int| 0 <= i < front.len() implies front[i] == #[trigger] rows[i] by {}
        if events.len() > 0 {
            lemma_pipeline_rows_are_read_one_by_one(front, events.drop_last(), broken);
            assert(events =~= events.drop_last().push(events.last()));
        } else {
            lemma_pipeline_rows_are_read_one_by_one(front, events, broken);
        }
        if decoded_pipeline_events(front) is Ok {
            lemma_pipeline_rows_are_read_one_by_one(
                front,
                decoded_pipeline_events(front)->Ok_0,
                broken,
            );
        }
        if broken == rows.len() - 1 && forall|i: int|
            0 <= i < broken ==> (#[trigger] rows[i]).decoded() is Ok {
            let read = Seq::new(front.len(), |i: int| front[i].decoded()->Ok_0);
            lemma_pipeline_rows_are_read_one_by_one(front, read, broken);
        }
    } else {
        assert(decoded_pipeline_events(rows)->Ok_0 =~= Seq::empty());
        if events.len() == 0 {
            assert(events =~= Seq::empty());
        }
    }
}

/// Of an event's row the first column that cannot be read is named, then the reason why the
/// record cannot, then that the record has no canonical form; only a row that has all of them
/// can be an event or fail the integrity verification.
pub proof fn lemma_first_broken_column(row: EventRowView)
    ensures
        ({
            let result = row.decoded();
            let said = result->Err_0;
            let event_id_reads = EventId::parsed(row.event_id) is Ok;
            let run_id_reads = event_id_reads && RunId::parsed(row.run_id) is Ok;
            let sequence_reads = run_id_reads && row.sequence >= 0;
            let message_id_reads = sequence_reads && MessageId::parsed(row.message_id) is Ok;
            let message_digest_reads = message_id_reads && Sha256Digest::parsed(
                row.message_digest,
            ) is Ok;
            let stage_instance_id_reads = message_digest_reads && StageInstanceId::parsed(
                row.stage_instance_id,
            ) is Ok;
            let prior_control_revision_reads = stage_instance_id_reads
                && row.prior_control_revision >= 0;
            let event_digest_reads = prior_control_revision_reads && Sha256Digest::parsed(
                row.event_digest,
            ) is Ok;
            &&& !event_id_reads ==> result is Err && said
                == StoreError::Identifier(EventId::parsed(row.event_id)->Err_0)
            &&& event_id_reads && !run_id_reads ==> result is Err && said
                == StoreError::Identifier(RunId::parsed(row.run_id)->Err_0)
            &&& run_id_reads && !sequence_reads ==> result is Err && said
                == StoreError::CorruptData("negative SQLite integer")
            &&& sequence_reads && !message_id_reads ==> result is Err && said
                == StoreError::Identifier(MessageId::parsed(row.message_id)->Err_0)
            &&& message_id_reads && !message_digest_reads ==> result is Err && said
                == StoreError::Digest(Sha256Digest::parsed(row.message_digest)->Err_0)
            &&& message_digest_reads && !stage_instance_id_reads ==> result is Err && said
                == StoreError::Identifier(StageInstanceId::parsed(row.stage_instance_id)->Err_0)
            &&& stage_instance_id_reads && !prior_control_revision_reads ==> result is Err && said
                == StoreError::CorruptData("negative SQLite integer")
            &&& prior_control_revision_reads && !event_digest_reads ==> result is Err && said
                == StoreError::Digest(Sha256Digest::parsed(row.event_digest)->Err_0)
            &&& event_digest_reads ==> (row.record matches Err(reason) ==> result is Err && said
                == StoreError::Serialization(reason))
            &&& event_digest_reads ==> (row.record matches Ok(record) ==> {
                &&& record.canonical() matches Err(error) ==> result is Err && said
                    == StoreError::Canonicalization(error)
                &&& record.canonical() is Ok ==> result is Ok || said == StoreError::CorruptData(
                    "stored committed event failed integrity verification",
                )
            })
        }),
{
    reveal(EventRowView::decoded);
}

/// Of a pipeline event's row the first column that cannot be read is named, then the reason why
/// the record cannot, then that the record has no canonical form; only a row that has all of
/// them can be an event or fail the integrity verification.
pub proof fn lemma_first_broken_pipeline_column(row: PipelineEventRowView)
    ensures
        ({
            let result = row.decoded();
            let said = result->Err_0;
            let event_id_reads = EventId::parsed(row.event_id) is Ok;
            let run_id_reads = event_id_reads && RunId::parsed(row.run_id) is Ok;
            let sequence_reads = run_id_reads && row.sequence >= 0;
            let message_id_reads = sequence_reads && MessageId::parsed(row.message_id) is Ok;
            let message_digest_reads = message_id_reads && Sha256Digest::parsed(
                row.message_digest,
            ) is Ok;
            let prior_revision_reads = message_digest_reads && row.prior_revision >= 0;
            let event_digest_reads = prior_revision_reads && Sha256Digest::parsed(
                row.event_digest,
            ) is Ok;
            &&& !event_id_reads ==> result is Err && said
                == StoreError::Identifier(EventId::parsed(row.event_id)->Err_0)
            &&& event_id_reads && !run_id_reads ==> result is Err && said
                == StoreError::Identifier(RunId::parsed(row.run_id)->Err_0)
            &&& run_id_reads && !sequence_reads ==> result is Err && said
                == StoreError::CorruptData("negative SQLite integer")
            &&& sequence_reads && !message_id_reads ==> result is Err && said
                == StoreError::Identifier(MessageId::parsed(row.message_id)->Err_0)
            &&& message_id_reads && !message_digest_reads ==> result is Err && said
                == StoreError::Digest(Sha256Digest::parsed(row.message_digest)->Err_0)
            &&& message_digest_reads && !prior_revision_reads ==> result is Err && said
                == StoreError::CorruptData("negative SQLite integer")
            &&& prior_revision_reads && !event_digest_reads ==> result is Err && said
                == StoreError::Digest(Sha256Digest::parsed(row.event_digest)->Err_0)
            &&& event_digest_reads ==> (row.record matches Err(reason) ==> result is Err && said
                == StoreError::Serialization(reason))
            &&& event_digest_reads ==> (row.record matches Ok(record) ==> {
                &&& record.canonical() matches Err(error) ==> result is Err && said
                    == StoreError::Canonicalization(error)
                &&& record.canonical() is Ok ==> result is Ok || said == StoreError::CorruptData(
                    "stored pipeline event failed integrity verification",
                )
            })
        }),
{
    reveal(PipelineEventRowView::decoded);
}

} // verus!
