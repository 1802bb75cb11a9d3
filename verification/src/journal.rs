//! Reading a journal back: what its rows say is believed only where it all fits together.

use vstd::prelude::*;

use crate::canonical_json::{
    CanonicalCommittedEvent, CanonicalCommittedPipelineEvent, CanonicalJsonError,
};
use crate::digest::{DigestParseError, Sha256Digest};
use crate::error::StoreError;
use crate::identifier::{EventId, MessageId, RunId, StageInstanceId};
use crate::pipeline::PipelineEvent;
use crate::rows::{
    from_sql_integer, unsigned, EventRowView, PipelineEventRowView, RawEventRow,
    RawPipelineEventRow,
};
use crate::stage::StageEvent;

verus! {

/// The sequence of the first event of a run.
pub const INITIAL_EVENT_SEQUENCE: u64 = 1;

/// An event of a stage as its run's journal keeps it.
#[derive(Clone, Copy, Debug, PartialEq, Eq, Structural)]
pub struct StoredStageEvent {
    pub event_id: EventId,
    pub run_id: RunId,
    pub sequence: u64,
    pub message_id: MessageId,
    pub message_digest: Sha256Digest,
    pub event_digest: Sha256Digest,
    pub event: StageEvent,
}

/// An event of a pipeline as its run's journal keeps it.
#[derive(Clone, Copy, Debug, PartialEq, Eq, Structural)]
pub struct StoredPipelineEvent {
    pub event_id: EventId,
    pub run_id: RunId,
    pub sequence: u64,
    pub message_id: MessageId,
    pub message_digest: Sha256Digest,
    pub event_digest: Sha256Digest,
    pub event: PipelineEvent,
}

/// The journal row of each event, as values.
pub open spec fn event_rows(rows: Seq<RawEventRow>) -> Seq<EventRowView> {
    rows.map_values(|row: RawEventRow| row@)
}

/// The pipeline journal row of each event, as values.
pub open spec fn pipeline_event_rows(rows: Seq<RawPipelineEventRow>) -> Seq<PipelineEventRowView> {
    rows.map_values(|row: RawPipelineEventRow| row@)
}

/// The events that stored events hold.
pub open spec fn stage_events(stored: Seq<StoredStageEvent>) -> Seq<StageEvent> {
    stored.map_values(|event: StoredStageEvent| event.event)
}

/// The events that stored pipeline events hold.
pub open spec fn pipeline_events(stored: Seq<StoredPipelineEvent>) -> Seq<PipelineEvent> {
    stored.map_values(|event: StoredPipelineEvent| event.event)
}

/// The sequences of stored pipeline events.
pub open spec fn sequences(stored: Seq<StoredPipelineEvent>) -> Seq<u64> {
    stored.map_values(|event: StoredPipelineEvent| event.sequence)
}

fn same_bytes(left: &Vec<u8>, right: &Vec<u8>) -> (same: bool)
    ensures
        same == (left@ == right@),
{
    if left.len() != right.len() {
        return false;
    }
    let mut i: usize = 0;
    while i < left.len()
        invariant
            i <= left.len(),
            left.len() == right.len(),
            forall|k: int| 0 <= k < i ==> left@[k] == right@[k],
        decreases left.len() - i,
    {
        if left[i] != right[i] {
            return false;
        }
        i = i + 1;
    }
    assert(left@ =~= right@);
    true
}

impl EventRowView {
    /// The record that the columns other than the JSON column speak of, given the event.
    pub open spec fn expected_record(self, event: StageEvent) -> CanonicalCommittedEvent {
        CanonicalCommittedEvent {
            event_id: EventId::parsed(self.event_id)->Ok_0,
            run_id: RunId::parsed(self.run_id)->Ok_0,
            sequence: unsigned(self.sequence)->Ok_0,
            message_id: MessageId::parsed(self.message_id)->Ok_0,
            message_digest: Sha256Digest::parsed(self.message_digest)->Ok_0,
            stage_instance_id: StageInstanceId::parsed(self.stage_instance_id)->Ok_0,
            prior_control_revision: unsigned(self.prior_control_revision)->Ok_0,
            event,
        }
    }

    /// The row fits together: its columns say what its record says, its bytes are the
    /// record's canonical JSON, and its digest is that of the bytes.
    pub open spec fn holds(self, record: CanonicalCommittedEvent) -> bool {
        &&& record == self.expected_record(record.event)
        &&& record.event.stage_instance_id == record.stage_instance_id
        &&& record.event.prior_control_revision == record.prior_control_revision
        &&& record.canonical() == Ok::<Seq<u8>, CanonicalJsonError>(self.event_json)
        &&& Sha256Digest::parsed(self.event_digest) == Ok::<Sha256Digest, DigestParseError>(
            Sha256Digest::of(self.event_json),
        )
    }

    /// The event that the row keeps, or the first thing that is wrong with the row.
    #[verifier::opaque]
    pub open spec fn decoded(self) -> Result<StoredStageEvent, StoreError> {
        if EventId::parsed(self.event_id) is Err {
            Err(StoreError::Identifier(EventId::parsed(self.event_id)->Err_0))
        } else if RunId::parsed(self.run_id) is Err {
            Err(StoreError::Identifier(RunId::parsed(self.run_id)->Err_0))
        } else if unsigned(self.sequence) is Err {
            Err(unsigned(self.sequence)->Err_0)
        } else if MessageId::parsed(self.message_id) is Err {
            Err(StoreError::Identifier(MessageId::parsed(self.message_id)->Err_0))
        } else if Sha256Digest::parsed(self.message_digest) is Err {
            Err(StoreError::Digest(Sha256Digest::parsed(self.message_digest)->Err_0))
        } else if StageInstanceId::parsed(self.stage_instance_id) is Err {
            Err(StoreError::Identifier(StageInstanceId::parsed(self.stage_instance_id)->Err_0))
        } else if unsigned(self.prior_control_revision) is Err {
            Err(unsigned(self.prior_control_revision)->Err_0)
        } else if Sha256Digest::parsed(self.event_digest) is Err {
            Err(StoreError::Digest(Sha256Digest::parsed(self.event_digest)->Err_0))
        } else {
            match self.record {
                Err(reason) => Err(StoreError::Serialization(reason)),
                Ok(record) => if record.canonical() is Err {
                    Err(StoreError::Canonicalization(record.canonical()->Err_0))
                } else if self.holds(record) {
                    Ok(
                        StoredStageEvent {
                            event_id: record.event_id,
                            run_id: record.run_id,
                            sequence: record.sequence,
                            message_id: record.message_id,
                            message_digest: record.message_digest,
                            event_digest: Sha256Digest::of(self.event_json),
                            event: record.event,
                        },
                    )
                } else {
                    Err(
                        StoreError::CorruptData(
                            "stored committed event failed integrity verification",
                        ),
                    )
                },
            }
        }
    }

    /// The row that keeps a record.
    pub open spec fn of_record(record: CanonicalCommittedEvent) -> Self {
        EventRowView {
            event_id: record.event_id.text(),
            run_id: record.run_id.text(),
            sequence: record.sequence as i64,
            message_id: record.message_id.text(),
            message_digest: record.message_digest.text(),
            stage_instance_id: record.stage_instance_id.text(),
            prior_control_revision: record.prior_control_revision as i64,
            event_digest: Sha256Digest::of(record.canonical()->Ok_0).text(),
            event_json: record.canonical()->Ok_0,
            record: Ok(record),
        }
    }
}

impl StoredStageEvent {
    /// The stored event that a record stands for.
    pub open spec fn of_record(record: CanonicalCommittedEvent) -> Self {
        StoredStageEvent {
            event_id: record.event_id,
            run_id: record.run_id,
            sequence: record.sequence,
            message_id: record.message_id,
            message_digest: record.message_digest,
            event_digest: Sha256Digest::of(record.canonical()->Ok_0),
            event: record.event,
        }
    }
}

/// A journal row gives back the event that was written to it.
pub proof fn lemma_stage_row_reads_back(record: CanonicalCommittedEvent)
    requires
        record.canonical() is Ok,
        record.event.stage_instance_id == record.stage_instance_id,
        record.event.prior_control_revision == record.prior_control_revision,
    ensures
        EventRowView::of_record(record).decoded() == Ok::<StoredStageEvent, StoreError>(
            StoredStageEvent::of_record(record),
        ),
{
    let row = EventRowView::of_record(record);
    reveal(EventRowView::decoded);
    record.event_id.lemma_text(row.event_id);
    record.run_id.lemma_text(row.run_id);
    record.message_id.lemma_text(row.message_id);
    record.message_digest.lemma_text(row.message_digest);
    record.stage_instance_id.lemma_text(row.stage_instance_id);
    Sha256Digest::of(row.event_json).lemma_text(row.event_digest);
}

/// A row that reads as an event is the row of that event, to the last column: nothing in it
/// can be changed, other than to another event's row, without its being noticed.
pub proof fn lemma_stage_row_is_determined(row: EventRowView)
    requires
        row.decoded() is Ok,
    ensures
        row.record matches Ok(record) && {
            &&& row == EventRowView::of_record(record)
            &&& row.decoded() == Ok::<StoredStageEvent, StoreError>(
                StoredStageEvent::of_record(record),
            )
            &&& record.canonical() is Ok
            &&& record.event.stage_instance_id == record.stage_instance_id
            &&& record.event.prior_control_revision == record.prior_control_revision
        },
{
    reveal(EventRowView::decoded);
    let record = row.record->Ok_0;
    record.event_id.lemma_text(row.event_id);
    record.run_id.lemma_text(row.run_id);
    record.message_id.lemma_text(row.message_id);
    record.message_digest.lemma_text(row.message_digest);
    record.stage_instance_id.lemma_text(row.stage_instance_id);
    Sha256Digest::of(row.event_json).lemma_text(row.event_digest);
    assert(row =~= EventRowView::of_record(record));
}

/// Reads the event that a row keeps.
pub fn decode_event_row(row: &RawEventRow) -> (event: Result<StoredStageEvent, StoreError>)
    ensures
        event == row@.decoded(),
{
    proof {
        reveal(EventRowView::decoded);
    }
    let event_id = match EventId::parse(row.event_id.as_str()) {
        Ok(id) => id,
        Err(error) => return Err(StoreError::Identifier(error)),
    };
    let run_id = match RunId::parse(row.run_id.as_str()) {
        Ok(id) => id,
        Err(error) => return Err(StoreError::Identifier(error)),
    };
    let sequence: u64 = match from_sql_integer(row.sequence) {
        Ok(sequence) => sequence,
        Err(error) => return Err(error),
    };
    let message_id = match MessageId::parse(row.message_id.as_str()) {
        Ok(id) => id,
        Err(error) => return Err(StoreError::Identifier(error)),
    };
    let message_digest = match Sha256Digest::parse(row.message_digest.as_str()) {
        Ok(digest) => digest,
        Err(error) => return Err(StoreError::Digest(error)),
    };
    let stage_instance_id = match StageInstanceId::parse(row.stage_instance_id.as_str()) {
        Ok(id) => id,
        Err(error) => return Err(StoreError::Identifier(error)),
    };
    let prior_control_revision: u64 = match from_sql_integer(row.prior_control_revision) {
        Ok(revision) => revision,
        Err(error) => return Err(error),
    };
    let event_digest = match Sha256Digest::parse(row.event_digest.as_str()) {
        Ok(digest) => digest,
        Err(error) => return Err(StoreError::Digest(error)),
    };
    let record = match &row.record {
        Ok(record) => *record,
        Err(reason) => return Err(StoreError::Serialization(reason.clone())),
    };
    let canonical = match record.to_canonical_json() {
        Ok(canonical) => canonical,
        Err(error) => return Err(StoreError::Canonicalization(error)),
    };
    let columns_match = record.event_id == event_id && record.run_id == run_id && record.sequence
        == sequence && record.message_id == message_id && record.message_digest == message_digest
        && record.stage_instance_id == stage_instance_id
        && record.prior_control_revision == prior_control_revision
        && record.event.stage_instance_id == stage_instance_id
        && record.event.prior_control_revision == prior_control_revision;
    if !columns_match || !same_bytes(&canonical, &row.event_json) || Sha256Digest::of_bytes(
        canonical.as_slice(),
    ) != event_digest {
        return Err(
            StoreError::CorruptData("stored committed event failed integrity verification"),
        );
    }
    Ok(
        StoredStageEvent {
            event_id,
            run_id,
            sequence,
            message_id,
            message_digest,
            event_digest,
            event: record.event,
        },
    )
}

/// The events that rows keep, in the order of the rows, or what is wrong with the first row
/// that keeps none.
pub open spec fn decoded_events(rows: Seq<EventRowView>) -> Result<
    Seq<StoredStageEvent>,
    StoreError,
>
    decreases rows.len(),
{
    if rows.len() == 0 {
        Ok(Seq::empty())
    } else {
        match decoded_events(rows.drop_last()) {
            Err(error) => Err(error),
            Ok(events) => match rows.last().decoded() {
                Err(error) => Err(error),
                Ok(event) => Ok(events.push(event)),
            },
        }
    }
}

proof fn lemma_stage_decoding_stops(rows: Seq<EventRowView>, end: int)
    requires
        0 <= end <= rows.len(),
        decoded_events(rows.take(end)) is Err,
    ensures
        decoded_events(rows) == decoded_events(rows.take(end)),
    decreases rows.len(),
{
    if end < rows.len() {
        assert(rows.drop_last().take(end) =~= rows.take(end));
        lemma_stage_decoding_stops(rows.drop_last(), end);
    } else {
        assert(rows.take(end) =~= rows);
    }
}

/// Reads the events that rows keep.
pub fn load_events(rows: &Vec<RawEventRow>) -> (events: Result<Vec<StoredStageEvent>, StoreError>)
    ensures
        match events {
            Ok(events) => decoded_events(event_rows(rows@)) == Ok::<
                Seq<StoredStageEvent>,
                StoreError,
            >(events@),
            Err(error) => decoded_events(event_rows(rows@)) == Err::<
                Seq<StoredStageEvent>,
                StoreError,
            >(error),
        },
{
    let ghost views = event_rows(rows@);
    let mut events: Vec<StoredStageEvent> = Vec::new();
    let mut i: usize = 0;
    while i < rows.len()
        invariant
            i <= rows.len(),
            views == event_rows(rows@),
            decoded_events(views.take(i as int)) == Ok::<Seq<StoredStageEvent>, StoreError>(
                events@,
            ),
        decreases rows.len() - i,
    {
        assert(views.take(i + 1).drop_last() =~= views.take(i as int));
        assert(views.take(i + 1).last() == rows@[i as int]@);
        match decode_event_row(&rows[i]) {
            Ok(event) => {
                events.push(event);
            },
            Err(error) => {
                proof {
                    lemma_stage_decoding_stops(views, i + 1);
                }
                return Err(error);
            },
        }
        i = i + 1;
    }
    assert(views.take(i as int) =~= views);
    Ok(events)
}

impl PipelineEventRowView {
    /// The record that the columns other than the JSON column speak of, given the event.
    pub open spec fn expected_record(
        self,
        event: PipelineEvent,
    ) -> CanonicalCommittedPipelineEvent {
        CanonicalCommittedPipelineEvent {
            event_id: EventId::parsed(self.event_id)->Ok_0,
            run_id: RunId::parsed(self.run_id)->Ok_0,
            sequence: unsigned(self.sequence)->Ok_0,
            message_id: MessageId::parsed(self.message_id)->Ok_0,
            message_digest: Sha256Digest::parsed(self.message_digest)->Ok_0,
            prior_control_revision: unsigned(self.prior_revision)->Ok_0,
            event,
        }
    }

    /// The row fits together: its columns say what its record says, its bytes are the
    /// record's canonical JSON, and its digest is that of the bytes.
    pub open spec fn holds(self, record: CanonicalCommittedPipelineEvent) -> bool {
        &&& record == self.expected_record(record.event)
        &&& record.event.prior_control_revision == record.prior_control_revision
        &&& record.canonical() == Ok::<Seq<u8>, CanonicalJsonError>(self.event_json)
        &&& Sha256Digest::parsed(self.event_digest) == Ok::<Sha256Digest, DigestParseError>(
            Sha256Digest::of(self.event_json),
        )
    }

    /// The event that the row keeps, or the first thing that is wrong with the row.
    #[verifier::opaque]
    pub open spec fn decoded(self) -> Result<StoredPipelineEvent, StoreError> {
        if EventId::parsed(self.event_id) is Err {
            Err(StoreError::Identifier(EventId::parsed(self.event_id)->Err_0))
        } else if RunId::parsed(self.run_id) is Err {
            Err(StoreError::Identifier(RunId::parsed(self.run_id)->Err_0))
        } else if unsigned(self.sequence) is Err {
            Err(unsigned(self.sequence)->Err_0)
        } else if MessageId::parsed(self.message_id) is Err {
            Err(StoreError::Identifier(MessageId::parsed(self.message_id)->Err_0))
        } else if Sha256Digest::parsed(self.message_digest) is Err {
            Err(StoreError::Digest(Sha256Digest::parsed(self.message_digest)->Err_0))
        } else if unsigned(self.prior_revision) is Err {
            Err(unsigned(self.prior_revision)->Err_0)
        } else if Sha256Digest::parsed(self.event_digest) is Err {
            Err(StoreError::Digest(Sha256Digest::parsed(self.event_digest)->Err_0))
        } else {
            match self.record {
                Err(reason) => Err(StoreError::Serialization(reason)),
                Ok(record) => if record.canonical() is Err {
                    Err(StoreError::Canonicalization(record.canonical()->Err_0))
                } else if self.holds(record) {
                    Ok(
                        StoredPipelineEvent {
                            event_id: record.event_id,
                            run_id: record.run_id,
                            sequence: record.sequence,
                            message_id: record.message_id,
                            message_digest: record.message_digest,
                            event_digest: Sha256Digest::of(self.event_json),
                            event: record.event,
                        },
                    )
                } else {
                    Err(
                        StoreError::CorruptData(
                            "stored pipeline event failed integrity verification",
                        ),
                    )
                },
            }
        }
    }

    /// The row that keeps a record.
    pub open spec fn of_record(record: CanonicalCommittedPipelineEvent) -> Self {
        PipelineEventRowView {
            event_id: record.event_id.text(),
            run_id: record.run_id.text(),
            sequence: record.sequence as i64,
            message_id: record.message_id.text(),
            message_digest: record.message_digest.text(),
            prior_revision: record.prior_control_revision as i64,
            event_digest: Sha256Digest::of(record.canonical()->Ok_0).text(),
            event_json: record.canonical()->Ok_0,
            record: Ok(record),
        }
    }
}

impl StoredPipelineEvent {
    /// The stored event that a record stands for.
    pub open spec fn of_record(record: CanonicalCommittedPipelineEvent) -> Self {
        StoredPipelineEvent {
            event_id: record.event_id,
            run_id: record.run_id,
            sequence: record.sequence,
            message_id: record.message_id,
            message_digest: record.message_digest,
            event_digest: Sha256Digest::of(record.canonical()->Ok_0),
            event: record.event,
        }
    }
}

/// A journal row gives back the event that was written to it.
pub proof fn lemma_pipeline_row_reads_back(record: CanonicalCommittedPipelineEvent)
    requires
        record.canonical() is Ok,
        record.event.prior_control_revision == record.prior_control_revision,
    ensures
        PipelineEventRowView::of_record(record).decoded() == Ok::<StoredPipelineEvent, StoreError>(
            StoredPipelineEvent::of_record(record),
        ),
{
    let row = PipelineEventRowView::of_record(record);
    reveal(PipelineEventRowView::decoded);
    record.event_id.lemma_text(row.event_id);
    record.run_id.lemma_text(row.run_id);
    record.message_id.lemma_text(row.message_id);
    record.message_digest.lemma_text(row.message_digest);
    Sha256Digest::of(row.event_json).lemma_text(row.event_digest);
}

/// A row that reads as an event is the row of that event, to the last column: nothing in it
/// can be changed, other than to another event's row, without its being noticed.
pub proof fn lemma_pipeline_row_is_determined(row: PipelineEventRowView)
    requires
        row.decoded() is Ok,
    ensures
        row.record matches Ok(record) && {
            &&& row == PipelineEventRowView::of_record(record)
            &&& row.decoded() == Ok::<StoredPipelineEvent, StoreError>(
                StoredPipelineEvent::of_record(record),
            )
            &&& record.canonical() is Ok
            &&& record.event.prior_control_revision == record.prior_control_revision
        },
{
    reveal(PipelineEventRowView::decoded);
    let record = row.record->Ok_0;
    record.event_id.lemma_text(row.event_id);
    record.run_id.lemma_text(row.run_id);
    record.message_id.lemma_text(row.message_id);
    record.message_digest.lemma_text(row.message_digest);
    Sha256Digest::of(row.event_json).lemma_text(row.event_digest);
    assert(row =~= PipelineEventRowView::of_record(record));
}

/// Reads the event that a row keeps.
pub fn decode_pipeline_event(row: &RawPipelineEventRow) -> (event: Result<
    StoredPipelineEvent,
    StoreError,
>)
    ensures
        event == row@.decoded(),
{
    proof {
        reveal(PipelineEventRowView::decoded);
    }
    let event_id = match EventId::parse(row.event_id.as_str()) {
        Ok(id) => id,
        Err(error) => return Err(StoreError::Identifier(error)),
    };
    let run_id = match RunId::parse(row.run_id.as_str()) {
        Ok(id) => id,
        Err(error) => return Err(StoreError::Identifier(error)),
    };
    let sequence: u64 = match from_sql_integer(row.sequence) {
        Ok(sequence) => sequence,
        Err(error) => return Err(error),
    };
    let message_id = match MessageId::parse(row.message_id.as_str()) {
        Ok(id) => id,
        Err(error) => return Err(StoreError::Identifier(error)),
    };
    let message_digest = match Sha256Digest::parse(row.message_digest.as_str()) {
        Ok(digest) => digest,
        Err(error) => return Err(StoreError::Digest(error)),
    };
    let prior_control_revision: u64 = match from_sql_integer(row.prior_revision) {
        Ok(revision) => revision,
        Err(error) => return Err(error),
    };
    let event_digest = match Sha256Digest::parse(row.event_digest.as_str()) {
        Ok(digest) => digest,
        Err(error) => return Err(StoreError::Digest(error)),
    };
    let record = match &row.record {
        Ok(record) => *record,
        Err(reason) => return Err(StoreError::Serialization(reason.clone())),
    };
    let canonical = match record.to_canonical_json() {
        Ok(canonical) => canonical,
        Err(error) => return Err(StoreError::Canonicalization(error)),
    };
    let columns_match = record.event_id == event_id && record.run_id == run_id && record.sequence
        == sequence && record.message_id == message_id && record.message_digest == message_digest
        && record.prior_control_revision == prior_control_revision
        && record.event.prior_control_revision == prior_control_revision;
    if !columns_match || !same_bytes(&canonical, &row.event_json) || Sha256Digest::of_bytes(
        canonical.as_slice(),
    ) != event_digest {
        return Err(
            StoreError::CorruptData("stored pipeline event failed integrity verification"),
        );
    }
    Ok(
        StoredPipelineEvent {
            event_id,
            run_id,
            sequence,
            message_id,
            message_digest,
            event_digest,
            event: record.event,
        },
    )
}

/// The events that rows keep, in the order of the rows, or what is wrong with the first row
/// that keeps none.
pub open spec fn decoded_pipeline_events(rows: Seq<PipelineEventRowView>) -> Result<
    Seq<StoredPipelineEvent>,
    StoreError,
>
    decreases rows.len(),
{
    if rows.len() == 0 {
        Ok(Seq::empty())
    } else {
        match decoded_pipeline_events(rows.drop_last()) {
            Err(error) => Err(error),
            Ok(events) => match rows.last().decoded() {
                Err(error) => Err(error),
                Ok(event) => Ok(events.push(event)),
            },
        }
    }
}

proof fn lemma_pipeline_decoding_stops(rows: Seq<PipelineEventRowView>, end: int)
    requires
        0 <= end <= rows.len(),
        decoded_pipeline_events(rows.take(end)) is Err,
    ensures
        decoded_pipeline_events(rows) == decoded_pipeline_events(rows.take(end)),
    decreases rows.len(),
{
    if end < rows.len() {
        assert(rows.drop_last().take(end) =~= rows.take(end));
        lemma_pipeline_decoding_stops(rows.drop_last(), end);
    } else {
        assert(rows.take(end) =~= rows);
    }
}

/// Reads the events that rows keep.
pub fn load_pipeline_events(rows: &Vec<RawPipelineEventRow>) -> (events: Result<
    Vec<StoredPipelineEvent>,
    StoreError,
>)
    ensures
        match events {
            Ok(events) => decoded_pipeline_events(pipeline_event_rows(rows@)) == Ok::<
                Seq<StoredPipelineEvent>,
                StoreError,
            >(events@),
            Err(error) => decoded_pipeline_events(pipeline_event_rows(rows@)) == Err::<
                Seq<StoredPipelineEvent>,
                StoreError,
            >(error),
        },
{
    let ghost views = pipeline_event_rows(rows@);
    let mut events: Vec<StoredPipelineEvent> = Vec::new();
    let mut i: usize = 0;
    while i < rows.len()
        invariant
            i <= rows.len(),
            views == pipeline_event_rows(rows@),
            decoded_pipeline_events(views.take(i as int)) == Ok::<Seq<StoredPipelineEvent>, StoreError>(
                events@,
            ),
        decreases rows.len() - i,
    {
        assert(views.take(i + 1).drop_last() =~= views.take(i as int));
        assert(views.take(i + 1).last() == rows@[i as int]@);
        match decode_pipeline_event(&rows[i]) {
            Ok(event) => {
                events.push(event);
            },
            Err(error) => {
                proof {
                    lemma_pipeline_decoding_stops(views, i + 1);
                }
                return Err(error);
            },
        }
        i = i + 1;
    }
    assert(views.take(i as int) =~= views);
    Ok(events)
}

} // verus!
