//! What becomes of a request: the rows that a transaction reads decide which rows it writes.

use vstd::prelude::*;

use crate::canonical_json::{CanonicalCommittedEvent, CanonicalCommittedPipelineEvent};
use crate::digest::Sha256Digest;
use crate::error::StoreError;
use crate::identifier::{EventId, MessageId, RunId};
use crate::journal::{
    decode_event_row, decode_pipeline_event, event_rows, StoredPipelineEvent, StoredStageEvent,
};
use crate::pipeline::{PipelineEvent, PipelineState, PipelineView};
use crate::recovery::{
    recovered_stage, stage_row, verified_pipeline, verified_stage, verify_run_journal, RunRows,
    RunRowsView,
};
use crate::rows::{
    EventRowView, PipelineEventRowView, RawEventRow, RawPipelineEventRow, StageRow, StageRowView,
};
use crate::stage::{StageEvent, StageState, MAX_CONTROL_REVISION};

verus! {

/// A request to append an event of a stage to a run.
#[derive(Debug)]
pub struct AppendStageEvent<'a> {
    pub run_id: &'a RunId,
    pub event_id: &'a EventId,
    pub message_id: &'a MessageId,
    pub message_digest: &'a Sha256Digest,
    pub event: &'a StageEvent,
}

/// A request to append an event of a pipeline to a run.
#[derive(Debug)]
pub struct AppendPipelineEvent<'a> {
    pub run_id: &'a RunId,
    pub event_id: &'a EventId,
    pub message_id: &'a MessageId,
    pub message_digest: &'a Sha256Digest,
    pub event: &'a PipelineEvent,
}

/// A request to append an event of a stage, as a value.
pub struct StageRequest {
    pub run_id: RunId,
    pub event_id: EventId,
    pub message_id: MessageId,
    pub message_digest: Sha256Digest,
    pub event: StageEvent,
}

/// A request to append an event of a pipeline, as a value.
pub struct PipelineRequest {
    pub run_id: RunId,
    pub event_id: EventId,
    pub message_id: MessageId,
    pub message_digest: Sha256Digest,
    pub event: PipelineEvent,
}

impl<'a> View for AppendStageEvent<'a> {
    type V = StageRequest;

    open spec fn view(&self) -> StageRequest {
        StageRequest {
            run_id: *self.run_id,
            event_id: *self.event_id,
            message_id: *self.message_id,
            message_digest: *self.message_digest,
            event: *self.event,
        }
    }
}

impl<'a> View for AppendPipelineEvent<'a> {
    type V = PipelineRequest;

    open spec fn view(&self) -> PipelineRequest {
        PipelineRequest {
            run_id: *self.run_id,
            event_id: *self.event_id,
            message_id: *self.message_id,
            message_digest: *self.message_digest,
            event: *self.event,
        }
    }
}

/// What became of a request to append an event of a stage.
#[derive(Clone, Copy, Debug, PartialEq, Eq, Structural)]
pub enum AppendOutcome {
    /// The event is in the journal now.
    Committed(StoredStageEvent),
    /// The message had led to this very event before.
    Duplicate(StoredStageEvent),
}

/// What became of a request to append an event of a pipeline.
#[derive(Clone, Copy, Debug, PartialEq, Eq, Structural)]
pub enum AppendPipelineOutcome {
    /// The event is in the journal now.
    Committed(StoredPipelineEvent),
    /// The message had led to this very event before.
    Duplicate(StoredPipelineEvent),
}

/// What a transaction reads to append an event of a stage.
#[derive(Debug)]
pub struct StageAppendRows {
    pub run: RunRows,
    /// The stage journal's row for the message, in whatever run.
    pub message: Option<RawEventRow>,
    /// A pipeline journal has a row for the message.
    pub pipeline_message: bool,
    /// Either journal has a row with the event's identifier.
    pub event_id_taken: bool,
    pub stage: Option<StageRow>,
    /// The rows of the stage's journal in ascending order of their sequence.
    pub stage_events: Vec<RawEventRow>,
}

/// What a transaction reads to append an event of a pipeline.
#[derive(Debug)]
pub struct PipelineAppendRows {
    pub run: RunRows,
    /// The pipeline journal's row for the message, in whatever run.
    pub message: Option<RawPipelineEventRow>,
    /// The stage journal's row for the message, in whatever run.
    pub stage_message: Option<RawEventRow>,
    /// Either journal has a row with the event's identifier.
    pub event_id_taken: bool,
}

/// What a transaction reads to append an event of a stage, as a value.
#[verifier::ext_equal]
pub struct StageAppendView {
    pub run: RunRowsView,
    pub message: Option<EventRowView>,
    pub pipeline_message: bool,
    pub event_id_taken: bool,
    pub stage: Option<StageRowView>,
    pub stage_events: Seq<EventRowView>,
}

/// What a transaction reads to append an event of a pipeline, as a value.
#[verifier::ext_equal]
pub struct PipelineAppendView {
    pub run: RunRowsView,
    pub message: Option<PipelineEventRowView>,
    pub stage_message: Option<EventRowView>,
    pub event_id_taken: bool,
}

/// A row that may not be there, as a value.
pub open spec fn event_row(row: Option<RawEventRow>) -> Option<EventRowView> {
    match row {
        Some(row) => Some(row@),
        None => None,
    }
}

/// A row that may not be there, as a value.
pub open spec fn pipeline_event_row(row: Option<RawPipelineEventRow>) -> Option<
    PipelineEventRowView,
> {
    match row {
        Some(row) => Some(row@),
        None => None,
    }
}

impl View for StageAppendRows {
    type V = StageAppendView;

    open spec fn view(&self) -> StageAppendView {
        StageAppendView {
            run: self.run@,
            message: event_row(self.message),
            pipeline_message: self.pipeline_message,
            event_id_taken: self.event_id_taken,
            stage: stage_row(self.stage),
            stage_events: event_rows(self.stage_events@),
        }
    }
}

impl View for PipelineAppendRows {
    type V = PipelineAppendView;

    open spec fn view(&self) -> PipelineAppendView {
        PipelineAppendView {
            run: self.run@,
            message: pipeline_event_row(self.message),
            stage_message: event_row(self.stage_message),
            event_id_taken: self.event_id_taken,
        }
    }
}

/// What committing an event of a stage writes: the journal row, the stage's snapshot in place
/// of the one before, and the run's counter, one up from the row's sequence.
#[derive(Debug)]
pub struct StageCommit {
    pub row: RawEventRow,
    pub prior: StageState,
    pub next: StageState,
    /// The run's counter after the commit.
    pub next_event_sequence: i64,
    pub stored: StoredStageEvent,
}

/// What committing an event of a pipeline writes: the journal row, the pipeline's snapshot in
/// place of the one before, and the run's counter, one up from the row's sequence.
#[derive(Debug)]
pub struct PipelineCommit {
    pub row: RawPipelineEventRow,
    pub prior_control_revision: u64,
    pub next: PipelineState,
    /// The run's counter after the commit.
    pub next_event_sequence: i64,
    pub stored: StoredPipelineEvent,
}

/// What committing an event of a stage writes, as a value.
pub struct StageCommitView {
    pub record: CanonicalCommittedEvent,
    pub prior: StageState,
    pub next: StageState,
}

/// What committing an event of a pipeline writes, as a value.
pub struct PipelineCommitView {
    pub record: CanonicalCommittedPipelineEvent,
    pub prior_control_revision: u64,
    pub next: PipelineView,
}

impl StageCommit {
    /// The writes are those of the given record and states.
    pub open spec fn writes(self, commit: StageCommitView) -> bool {
        &&& self.row@ == EventRowView::of_record(commit.record)
        &&& self.prior == commit.prior
        &&& self.next == commit.next
        &&& self.next_event_sequence == commit.record.sequence + 1
        &&& self.stored == StoredStageEvent::of_record(commit.record)
    }
}

impl PipelineCommit {
    /// The writes are those of the given record and states.
    pub open spec fn writes(self, commit: PipelineCommitView) -> bool {
        &&& self.row@ == PipelineEventRowView::of_record(commit.record)
        &&& self.prior_control_revision == commit.prior_control_revision
        &&& self.next@ == commit.next
        &&& self.next_event_sequence == commit.record.sequence + 1
        &&& self.stored == StoredPipelineEvent::of_record(commit.record)
    }
}

/// What a request to append an event of a stage asks of the transaction.
#[derive(Debug)]
pub enum StageDecision {
    /// To write nothing: the event is in the journal already.
    Duplicate(StoredStageEvent),
    Commit(StageCommit),
}

/// What a request to append an event of a pipeline asks of the transaction.
#[derive(Debug)]
pub enum PipelineDecision {
    /// To write nothing: the event is in the journal already.
    Duplicate(StoredPipelineEvent),
    Commit(PipelineCommit),
}

/// What a request to append an event of a stage asks of the transaction, as a value.
pub enum StageDecisionView {
    Duplicate(StoredStageEvent),
    Commit(StageCommitView),
}

/// What a request to append an event of a pipeline asks of the transaction, as a value.
pub enum PipelineDecisionView {
    Duplicate(StoredPipelineEvent),
    Commit(PipelineCommitView),
}

impl StageRequest {
    /// The record that the request leads to at a sequence.
    pub open spec fn record(self, sequence: nat) -> CanonicalCommittedEvent {
        CanonicalCommittedEvent {
            event_id: self.event_id,
            run_id: self.run_id,
            sequence: sequence as u64,
            message_id: self.message_id,
            message_digest: self.message_digest,
            stage_instance_id: self.event.stage_instance_id,
            prior_control_revision: self.event.prior_control_revision,
            event: self.event,
        }
    }

    /// A stored event is what the request asks for.
    pub open spec fn asks_for(self, stored: StoredStageEvent) -> bool {
        &&& stored.run_id == self.run_id
        &&& stored.message_digest == self.message_digest
        &&& stored.event == self.event
    }
}

impl PipelineRequest {
    /// The record that the request leads to at a sequence.
    pub open spec fn record(self, sequence: nat) -> CanonicalCommittedPipelineEvent {
        CanonicalCommittedPipelineEvent {
            event_id: self.event_id,
            run_id: self.run_id,
            sequence: sequence as u64,
            message_id: self.message_id,
            message_digest: self.message_digest,
            prior_control_revision: self.event.prior_control_revision,
            event: self.event,
        }
    }

    /// A stored event is what the request asks for.
    pub open spec fn asks_for(self, stored: StoredPipelineEvent) -> bool {
        &&& stored.run_id == self.run_id
        &&& stored.message_digest == self.message_digest
        &&& stored.event == self.event
    }
}

/// The sequence that an event gets in a run whose next one is `next`: the largest stays
/// unused, so that a run's counter never passes it.
pub open spec fn allotted(next: nat) -> Result<u64, StoreError> {
    if next >= MAX_CONTROL_REVISION {
        Err(StoreError::EventSequenceExhausted)
    } else {
        Ok(next as u64)
    }
}

/// Gives out the sequence of a run's next event.
pub fn allot_sequence(next: u64) -> (sequence: Result<u64, StoreError>)
    ensures
        sequence == allotted(next as nat),
{
    if next >= MAX_CONTROL_REVISION {
        Err(StoreError::EventSequenceExhausted)
    } else {
        Ok(next)
    }
}

impl StageAppendView {
    /// What the rows make of a request: the event that its message led to before, the event
    /// to commit now, or why there is none.
    pub open spec fn decided(self, request: StageRequest) -> Result<
        StageDecisionView,
        StoreError,
    > {
        match self.run.verified(request.run_id) {
            Err(error) => Err(error),
            Ok(sequence) => match self.message {
                Some(row) => match row.decoded() {
                    Err(error) => Err(error),
                    Ok(stored) => if request.asks_for(stored) {
                        Ok(StageDecisionView::Duplicate(stored))
                    } else {
                        Err(StoreError::MessageIdConflict)
                    },
                },
                None => if self.pipeline_message {
                    Err(StoreError::MessageIdConflict)
                } else if self.event_id_taken {
                    Err(StoreError::EventIdConflict)
                } else {
                    self.decided_anew(request, sequence)
                },
            },
        }
    }

    /// What the rows make of a request whose message and event are new.
    pub open spec fn decided_anew(self, request: StageRequest, sequence: nat) -> Result<
        StageDecisionView,
        StoreError,
    > {
        match recovered_stage(
            self.stage,
            self.stage_events,
            request.run_id,
            request.event.stage_instance_id,
        ) {
            Err(error) => Err(error),
            Ok(prior) => match prior.applied(request.event) {
                Err(error) => Err(StoreError::StageTransition(error)),
                Ok(next) => match allotted(sequence) {
                    Err(error) => Err(error),
                    Ok(_) => {
                        let record = request.record(sequence);
                        match record.canonical() {
                            Err(error) => Err(StoreError::Canonicalization(error)),
                            Ok(_) => Ok(
                                StageDecisionView::Commit(StageCommitView { record, prior, next }),
                            ),
                        }
                    },
                },
            },
        }
    }
}

impl PipelineAppendView {
    /// What the rows make of a request: the event that its message led to before, the event
    /// to commit now, or why there is none.
    pub open spec fn decided(self, request: PipelineRequest) -> Result<
        PipelineDecisionView,
        StoreError,
    > {
        match self.run.verified(request.run_id) {
            Err(error) => Err(error),
            Ok(sequence) => match self.stage_message {
                Some(row) => match row.decoded() {
                    Err(error) => Err(error),
                    Ok(_) => Err(StoreError::MessageIdConflict),
                },
                None => match self.message {
                    Some(row) => match row.decoded() {
                        Err(error) => Err(error),
                        Ok(stored) => if request.asks_for(stored) {
                            Ok(PipelineDecisionView::Duplicate(stored))
                        } else {
                            Err(StoreError::MessageIdConflict)
                        },
                    },
                    None => if self.event_id_taken {
                        Err(StoreError::EventIdConflict)
                    } else {
                        self.decided_anew(request, sequence)
                    },
                },
            },
        }
    }

    /// What the rows make of a request whose message and event are new.
    pub open spec fn decided_anew(self, request: PipelineRequest, sequence: nat) -> Result<
        PipelineDecisionView,
        StoreError,
    > {
        match self.run.verified_pipeline() {
            Err(error) => Err(error),
            Ok(prior) => match prior.applied(request.event) {
                Err(error) => Err(StoreError::PipelineTransition(error)),
                Ok(next) => match allotted(sequence) {
                    Err(error) => Err(error),
                    Ok(_) => {
                        let record = request.record(sequence);
                        match record.canonical() {
                            Err(error) => Err(StoreError::Canonicalization(error)),
                            Ok(_) => Ok(
                                PipelineDecisionView::Commit(
                                    PipelineCommitView {
                                        record,
                                        prior_control_revision: prior.control_revision,
                                        next,
                                    },
                                ),
                            ),
                        }
                    },
                },
            },
        }
    }
}

/// Decides what a request to append an event of a stage asks of the transaction that has read
/// the rows.
pub fn decide_stage_append(rows: &StageAppendRows, request: &AppendStageEvent<'_>) -> (decision:
    Result<StageDecision, StoreError>)
    ensures
        match rows@.decided(request@) {
            Err(error) => decision == Err::<StageDecision, StoreError>(error),
            Ok(StageDecisionView::Duplicate(stored)) => decision == Ok::<
                StageDecision,
                StoreError,
            >(StageDecision::Duplicate(stored)),
            Ok(StageDecisionView::Commit(commit)) => decision matches Ok(
                StageDecision::Commit(writes),
            ) && writes.writes(commit),
        },
{
    let sequence: u64 = match verify_run_journal(&rows.run, request.run_id) {
        Ok(sequence) => sequence,
        Err(error) => return Err(error),
    };
    match &rows.message {
        Some(row) => {
            let existing = match decode_event_row(row) {
                Ok(existing) => existing,
                Err(error) => return Err(error),
            };
            if existing.run_id == *request.run_id && existing.message_digest
                == *request.message_digest && existing.event == *request.event {
                return Ok(StageDecision::Duplicate(existing));
            }
            return Err(StoreError::MessageIdConflict);
        },
        None => {},
    }
    if rows.pipeline_message {
        return Err(StoreError::MessageIdConflict);
    }
    if rows.event_id_taken {
        return Err(StoreError::EventIdConflict);
    }
    let prior = match verified_stage(
        &rows.stage,
        &rows.stage_events,
        request.run_id,
        &request.event.stage_instance_id,
    ) {
        Ok(prior) => prior,
        Err(error) => return Err(error),
    };
    let next = match prior.apply(request.event) {
        Ok(next) => next,
        Err(error) => return Err(StoreError::StageTransition(error)),
    };
    let sequence: u64 = match allot_sequence(sequence) {
        Ok(sequence) => sequence,
        Err(error) => return Err(error),
    };
    let record = CanonicalCommittedEvent {
        event_id: *request.event_id,
        run_id: *request.run_id,
        sequence,
        message_id: *request.message_id,
        message_digest: *request.message_digest,
        stage_instance_id: request.event.stage_instance_id,
        prior_control_revision: request.event.prior_control_revision,
        event: *request.event,
    };
    assert(record == request@.record(sequence as nat));
    let event_json = match record.to_canonical_json() {
        Ok(event_json) => event_json,
        Err(error) => return Err(StoreError::Canonicalization(error)),
    };
    let event_digest = Sha256Digest::of_bytes(event_json.as_slice());
    let stored = StoredStageEvent {
        event_id: record.event_id,
        run_id: record.run_id,
        sequence,
        message_id: record.message_id,
        message_digest: record.message_digest,
        event_digest,
        event: record.event,
    };
    let row = RawEventRow {
        event_id: record.event_id.as_str(),
        run_id: record.run_id.as_str(),
        sequence: sequence as i64,
        message_id: record.message_id.as_str(),
        message_digest: record.message_digest.to_prefixed_string(),
        stage_instance_id: record.stage_instance_id.as_str(),
        prior_control_revision: record.prior_control_revision as i64,
        event_digest: event_digest.to_prefixed_string(),
        event_json,
        record: Ok(record),
    };
    assert(row@ =~= EventRowView::of_record(record));
    let next_event_sequence: i64 = (sequence + 1) as i64;
    Ok(StageDecision::Commit(StageCommit { row, prior, next, next_event_sequence, stored }))
}

/// Decides what a request to append an event of a pipeline asks of the transaction that has
/// read the rows.
pub fn decide_pipeline_append(rows: &PipelineAppendRows, request: &AppendPipelineEvent<'_>) -> (
decision: Result<PipelineDecision, StoreError>)
    ensures
        match rows@.decided(request@) {
            Err(error) => decision == Err::<PipelineDecision, StoreError>(error),
            Ok(PipelineDecisionView::Duplicate(stored)) => decision == Ok::<
                PipelineDecision,
                StoreError,
            >(PipelineDecision::Duplicate(stored)),
            Ok(PipelineDecisionView::Commit(commit)) => decision matches Ok(
                PipelineDecision::Commit(writes),
            ) && writes.writes(commit),
        },
{
    let sequence: u64 = match verify_run_journal(&rows.run, request.run_id) {
        Ok(sequence) => sequence,
        Err(error) => return Err(error),
    };
    match &rows.stage_message {
        Some(row) => {
            match decode_event_row(row) {
                Ok(_) => {},
                Err(error) => return Err(error),
            }
            return Err(StoreError::MessageIdConflict);
        },
        None => {},
    }
    match &rows.message {
        Some(row) => {
            let existing = match decode_pipeline_event(row) {
                Ok(existing) => existing,
                Err(error) => return Err(error),
            };
            if existing.run_id == *request.run_id && existing.message_digest
                == *request.message_digest && existing.event == *request.event {
                return Ok(PipelineDecision::Duplicate(existing));
            }
            return Err(StoreError::MessageIdConflict);
        },
        None => {},
    }
    if rows.event_id_taken {
        return Err(StoreError::EventIdConflict);
    }
    let prior = match verified_pipeline(&rows.run) {
        Ok(prior) => prior,
        Err(error) => return Err(error),
    };
    let next = match prior.apply(request.event) {
        Ok(next) => next,
        Err(error) => return Err(StoreError::PipelineTransition(error)),
    };
    let sequence: u64 = match allot_sequence(sequence) {
        Ok(sequence) => sequence,
        Err(error) => return Err(error),
    };
    let record = CanonicalCommittedPipelineEvent {
        event_id: *request.event_id,
        run_id: *request.run_id,
        sequence,
        message_id: *request.message_id,
        message_digest: *request.message_digest,
        prior_control_revision: request.event.prior_control_revision,
        event: *request.event,
    };
    assert(record == request@.record(sequence as nat));
    let event_json = match record.to_canonical_json() {
        Ok(event_json) => event_json,
        Err(error) => return Err(StoreError::Canonicalization(error)),
    };
    let event_digest = Sha256Digest::of_bytes(event_json.as_slice());
    let stored = StoredPipelineEvent {
        event_id: record.event_id,
        run_id: record.run_id,
        sequence,
        message_id: record.message_id,
        message_digest: record.message_digest,
        event_digest,
        event: record.event,
    };
    let row = RawPipelineEventRow {
        event_id: record.event_id.as_str(),
        run_id: record.run_id.as_str(),
        sequence: sequence as i64,
        message_id: record.message_id.as_str(),
        message_digest: record.message_digest.to_prefixed_string(),
        prior_revision: record.prior_control_revision as i64,
        event_digest: event_digest.to_prefixed_string(),
        event_json,
        record: Ok(record),
    };
    assert(row@ =~= PipelineEventRowView::of_record(record));
    let next_event_sequence: i64 = (sequence + 1) as i64;
    Ok(
        PipelineDecision::Commit(
            PipelineCommit {
                row,
                prior_control_revision: prior.control_revision,
                next,
                next_event_sequence,
                stored,
            },
        ),
    )
}

} // verus!
