//! The rows of the database's tables, and the integers in their columns.
//!
//! A JSON column stands here as the value that it reads as, or, where it does not read as one,
//! as what the JSON reader says is wrong. The journals keep the bytes as well, because their
//! digests are over the bytes.

use vstd::prelude::*;

use crate::canonical_json::{CanonicalCommittedEvent, CanonicalCommittedPipelineEvent};
use crate::error::StoreError;
use crate::pipeline::{PipelineState, PipelineView};
use crate::stage::StageState;

verus! {

/// A row of `runs`.
#[derive(Debug)]
pub struct RunRow {
    pub run_id: String,
    pub next_event_sequence: i64,
    /// The digest of the pipeline definition that the run is for, where it is for one.
    pub pipeline_definition_digest: Option<String>,
}

/// A row of `stage_snapshots`.
#[derive(Debug)]
pub struct StageRow {
    pub stage_instance_id: String,
    pub run_id: String,
    pub control_revision: i64,
    pub initial_state: Result<StageState, String>,
    pub state: Result<StageState, String>,
}

/// A row of `events`.
#[derive(Debug)]
pub struct RawEventRow {
    pub event_id: String,
    pub run_id: String,
    pub sequence: i64,
    pub message_id: String,
    pub message_digest: String,
    pub stage_instance_id: String,
    pub prior_control_revision: i64,
    pub event_digest: String,
    pub event_json: Vec<u8>,
    /// What `event_json` reads as.
    pub record: Result<CanonicalCommittedEvent, String>,
}

/// A row of `pipeline_snapshots`.
#[derive(Debug)]
pub struct PipelineRow {
    pub run_id: String,
    pub control_revision: i64,
    pub initial_state: Result<PipelineState, String>,
    pub state: Result<PipelineState, String>,
}

/// A row of `pipeline_events`.
#[derive(Debug)]
pub struct RawPipelineEventRow {
    pub event_id: String,
    pub run_id: String,
    pub sequence: i64,
    pub message_id: String,
    pub message_digest: String,
    pub prior_revision: i64,
    pub event_digest: String,
    pub event_json: Vec<u8>,
    /// What `event_json` reads as.
    pub record: Result<CanonicalCommittedPipelineEvent, String>,
}

/// A row of `runs`, as a value.
#[verifier::ext_equal]
pub struct RunRowView {
    pub run_id: Seq<char>,
    pub next_event_sequence: i64,
    pub pipeline_definition_digest: Option<Seq<char>>,
}

/// A row of `stage_snapshots`, as a value.
#[verifier::ext_equal]
pub struct StageRowView {
    pub stage_instance_id: Seq<char>,
    pub run_id: Seq<char>,
    pub control_revision: i64,
    pub initial_state: Result<StageState, String>,
    pub state: Result<StageState, String>,
}

/// A row of `events`, as a value.
#[verifier::ext_equal]
pub struct EventRowView {
    pub event_id: Seq<char>,
    pub run_id: Seq<char>,
    pub sequence: i64,
    pub message_id: Seq<char>,
    pub message_digest: Seq<char>,
    pub stage_instance_id: Seq<char>,
    pub prior_control_revision: i64,
    pub event_digest: Seq<char>,
    pub event_json: Seq<u8>,
    pub record: Result<CanonicalCommittedEvent, String>,
}

/// A row of `pipeline_snapshots`, as a value.
#[verifier::ext_equal]
pub struct PipelineRowView {
    pub run_id: Seq<char>,
    pub control_revision: i64,
    pub initial_state: Result<PipelineView, String>,
    pub state: Result<PipelineView, String>,
}

/// A row of `pipeline_events`, as a value.
#[verifier::ext_equal]
pub struct PipelineEventRowView {
    pub event_id: Seq<char>,
    pub run_id: Seq<char>,
    pub sequence: i64,
    pub message_id: Seq<char>,
    pub message_digest: Seq<char>,
    pub prior_revision: i64,
    pub event_digest: Seq<char>,
    pub event_json: Seq<u8>,
    pub record: Result<CanonicalCommittedPipelineEvent, String>,
}

/// The text in a column that may be null, as a value.
pub open spec fn text_view(text: Option<String>) -> Option<Seq<char>> {
    match text {
        Some(text) => Some(text@),
        None => None,
    }
}

/// The state in a column, as a value.
pub open spec fn state_view(state: Result<PipelineState, String>) -> Result<PipelineView, String> {
    match state {
        Ok(state) => Ok(state@),
        Err(error) => Err(error),
    }
}

impl View for RunRow {
    type V = RunRowView;

    open spec fn view(&self) -> RunRowView {
        RunRowView {
            run_id: self.run_id@,
            next_event_sequence: self.next_event_sequence,
            pipeline_definition_digest: text_view(self.pipeline_definition_digest),
        }
    }
}

impl View for StageRow {
    type V = StageRowView;

    open spec fn view(&self) -> StageRowView {
        StageRowView {
            stage_instance_id: self.stage_instance_id@,
            run_id: self.run_id@,
            control_revision: self.control_revision,
            initial_state: self.initial_state,
            state: self.state,
        }
    }
}

impl View for RawEventRow {
    type V = EventRowView;

    open spec fn view(&self) -> EventRowView {
        EventRowView {
            event_id: self.event_id@,
            run_id: self.run_id@,
            sequence: self.sequence,
            message_id: self.message_id@,
            message_digest: self.message_digest@,
            stage_instance_id: self.stage_instance_id@,
            prior_control_revision: self.prior_control_revision,
            event_digest: self.event_digest@,
            event_json: self.event_json@,
            record: self.record,
        }
    }
}

impl View for PipelineRow {
    type V = PipelineRowView;

    open spec fn view(&self) -> PipelineRowView {
        PipelineRowView {
            run_id: self.run_id@,
            control_revision: self.control_revision,
            initial_state: state_view(self.initial_state),
            state: state_view(self.state),
        }
    }
}

impl View for RawPipelineEventRow {
    type V = PipelineEventRowView;

    open spec fn view(&self) -> PipelineEventRowView {
        PipelineEventRowView {
            event_id: self.event_id@,
            run_id: self.run_id@,
            sequence: self.sequence,
            message_id: self.message_id@,
            message_digest: self.message_digest@,
            prior_revision: self.prior_revision,
            event_digest: self.event_digest@,
            event_json: self.event_json@,
            record: self.record,
        }
    }
}

fn copy_bytes(bytes: &Vec<u8>) -> (copy: Vec<u8>)
    ensures
        copy@ == bytes@,
{
    let copy = bytes.clone();
    assert(copy@ =~= bytes@);
    copy
}

fn copy_value<T: Copy>(value: &Result<T, String>) -> (copy: Result<T, String>)
    ensures
        copy == *value,
{
    match value {
        Ok(value) => Ok(*value),
        Err(error) => Err(error.clone()),
    }
}

fn copy_state(state: &Result<PipelineState, String>) -> (copy: Result<PipelineState, String>)
    ensures
        state_view(copy) == state_view(*state),
{
    match state {
        Ok(state) => Ok(state.copy()),
        Err(error) => Err(error.clone()),
    }
}

impl RunRow {
    /// A copy of the row.
    pub fn copy(&self) -> (row: Self)
        ensures
            row@ == self@,
    {
        RunRow {
            run_id: self.run_id.clone(),
            next_event_sequence: self.next_event_sequence,
            pipeline_definition_digest: match &self.pipeline_definition_digest {
                Some(text) => Some(text.clone()),
                None => None,
            },
        }
    }
}

impl StageRow {
    /// A copy of the row.
    pub fn copy(&self) -> (row: Self)
        ensures
            row@ == self@,
    {
        StageRow {
            stage_instance_id: self.stage_instance_id.clone(),
            run_id: self.run_id.clone(),
            control_revision: self.control_revision,
            initial_state: copy_value(&self.initial_state),
            state: copy_value(&self.state),
        }
    }
}

impl RawEventRow {
    /// A copy of the row.
    pub fn copy(&self) -> (row: Self)
        ensures
            row@ == self@,
    {
        RawEventRow {
            event_id: self.event_id.clone(),
            run_id: self.run_id.clone(),
            sequence: self.sequence,
            message_id: self.message_id.clone(),
            message_digest: self.message_digest.clone(),
            stage_instance_id: self.stage_instance_id.clone(),
            prior_control_revision: self.prior_control_revision,
            event_digest: self.event_digest.clone(),
            event_json: copy_bytes(&self.event_json),
            record: copy_value(&self.record),
        }
    }
}

impl PipelineRow {
    /// A copy of the row.
    pub fn copy(&self) -> (row: Self)
        ensures
            row@ == self@,
    {
        PipelineRow {
            run_id: self.run_id.clone(),
            control_revision: self.control_revision,
            initial_state: copy_state(&self.initial_state),
            state: copy_state(&self.state),
        }
    }
}

impl RawPipelineEventRow {
    /// A copy of the row.
    pub fn copy(&self) -> (row: Self)
        ensures
            row@ == self@,
    {
        RawPipelineEventRow {
            event_id: self.event_id.clone(),
            run_id: self.run_id.clone(),
            sequence: self.sequence,
            message_id: self.message_id.clone(),
            message_digest: self.message_digest.clone(),
            prior_revision: self.prior_revision,
            event_digest: self.event_digest.clone(),
            event_json: copy_bytes(&self.event_json),
            record: copy_value(&self.record),
        }
    }
}

/// A number as an integer column holds it.
pub open spec fn sql_integer(value: u64) -> Result<i64, StoreError> {
    if value <= i64::MAX {
        Ok(value as i64)
    } else {
        Err(StoreError::CorruptData("integer exceeds SQLite range"))
    }
}

/// The number in an integer column.
pub open spec fn unsigned(value: i64) -> Result<u64, StoreError> {
    if value >= 0 {
        Ok(value as u64)
    } else {
        Err(StoreError::CorruptData("negative SQLite integer"))
    }
}

/// A number as an integer column holds it.
pub fn to_sql_integer(value: u64) -> (integer: Result<i64, StoreError>)
    ensures
        integer == sql_integer(value),
{
    if value <= i64::MAX as u64 {
        Ok(value as i64)
    } else {
        Err(StoreError::CorruptData("integer exceeds SQLite range"))
    }
}

/// The number in an integer column.
pub fn from_sql_integer(value: i64) -> (number: Result<u64, StoreError>)
    ensures
        number == unsigned(value),
{
    if value >= 0 {
        Ok(value as u64)
    } else {
        Err(StoreError::CorruptData("negative SQLite integer"))
    }
}

/// A number that fits in an integer column is read back from it.
pub proof fn lemma_sql_integer_round_trip(value: u64)
    ensures
        sql_integer(value) matches Ok(integer) ==> unsigned(integer) == Ok::<u64, StoreError>(
            value,
        ),
{
}

} // verus!
