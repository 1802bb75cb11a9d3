//! What a store answers when it does not do what it is asked.

use vstd::prelude::*;

use crate::canonical_json::CanonicalJsonError;
use crate::digest::DigestParseError;
use crate::identifier::IdentifierError;
use crate::pipeline::PipelineTransitionError;
use crate::stage::StageTransitionError;

verus! {

/// Why a store does not do what it is asked.
#[derive(Clone, Debug, PartialEq, Eq)]
pub enum StoreError {
    /// A JSON column does not hold what it should, for the reason that the JSON reader gives.
    Serialization(String),
    /// A record has no canonical JSON.
    Canonicalization(CanonicalJsonError),
    /// The stage does not take the event.
    StageTransition(StageTransitionError),
    /// The pipeline does not take the event.
    PipelineTransition(PipelineTransitionError),
    /// A column does not hold an identifier.
    Identifier(IdentifierError),
    /// A column does not hold a digest.
    Digest(DigestParseError),
    /// The run is there already.
    RunAlreadyExists,
    /// There is no such run.
    RunNotFound,
    /// The stage is there already.
    StageAlreadyExists,
    /// Something has happened to the stage that is to be registered.
    InvalidInitialStage,
    /// There is no such stage.
    StageNotFound,
    /// The stage belongs to another run.
    StageRunMismatch,
    /// The message led to another event.
    MessageIdConflict,
    /// The event identifier is taken.
    EventIdConflict,
    /// A row that was read is not there to be updated.
    ConcurrentUpdate,
    /// The run has no event sequence left.
    EventSequenceExhausted,
    /// The stage's snapshot is not what its events lead to.
    SnapshotMismatch,
    /// Something has happened to the pipeline that is to be registered.
    InvalidInitialPipeline,
    /// The run has stages of its own.
    PipelineRootConflict,
    /// The run was made for another pipeline, or for none.
    PipelineDefinitionMismatch,
    /// The run has a pipeline already.
    PipelineAlreadyExists,
    /// The run has no pipeline.
    PipelineNotFound,
    /// The pipeline's snapshot is not what its events lead to.
    PipelineSnapshotMismatch,
    /// The run's stages come from its pipeline.
    PipelineStageRegistrationRequired,
    /// The database does not keep the named durability setting.
    IncompatiblePragma(&'static str),
    /// What is stored contradicts itself.
    CorruptData(&'static str),
}

impl StoreError {
    /// What the error says to a reader.
    pub open spec fn text(self) -> Seq<char> {
        match self {
            StoreError::Serialization(reason) => reason@,
            StoreError::Canonicalization(error) => error.text(),
            StoreError::StageTransition(error) => error.text(),
            StoreError::PipelineTransition(error) => error.text(),
            StoreError::Identifier(error) => error.text(),
            StoreError::Digest(error) => error.text(),
            StoreError::RunAlreadyExists => "run already exists"@,
            StoreError::RunNotFound => "run does not exist"@,
            StoreError::StageAlreadyExists => "stage already exists"@,
            StoreError::InvalidInitialStage => {
                "stage bootstrap state is not a pristine pending state"@
            },
            StoreError::StageNotFound => "stage does not exist"@,
            StoreError::StageRunMismatch => "stage belongs to another run"@,
            StoreError::MessageIdConflict => "message ID was reused with different content"@,
            StoreError::EventIdConflict => "event ID already exists"@,
            StoreError::ConcurrentUpdate => "snapshot compare-and-swap failed"@,
            StoreError::EventSequenceExhausted => "event sequence is exhausted"@,
            StoreError::SnapshotMismatch => {
                "stage snapshot does not match deterministic event replay"@
            },
            StoreError::InvalidInitialPipeline => "pipeline bootstrap state is not pristine"@,
            StoreError::PipelineRootConflict => "run already has independent stages"@,
            StoreError::PipelineDefinitionMismatch => "pipeline definition does not match the run"@,
            StoreError::PipelineAlreadyExists => "pipeline already exists"@,
            StoreError::PipelineNotFound => "pipeline does not exist"@,
            StoreError::PipelineSnapshotMismatch => {
                "pipeline snapshot does not match deterministic event replay"@
            },
            StoreError::PipelineStageRegistrationRequired => {
                "stages of a pipeline run are registered by its pipeline"@
            },
            StoreError::IncompatiblePragma(name) => "SQLite "@ + name@
                + " pragma is incompatible with the durability contract"@,
            StoreError::CorruptData(message) => message@,
        }
    }

    /// What the error says to a reader.
    pub fn message(&self) -> (message: String)
        ensures
            message@ == self.text(),
    {
        let message: &'static str = match self {
            StoreError::Serialization(reason) => return reason.clone(),
            StoreError::Canonicalization(error) => error.message(),
            StoreError::StageTransition(error) => error.message(),
            StoreError::PipelineTransition(error) => error.message(),
            StoreError::Identifier(error) => error.message(),
            StoreError::Digest(error) => error.message(),
            StoreError::RunAlreadyExists => "run already exists",
            StoreError::RunNotFound => "run does not exist",
            StoreError::StageAlreadyExists => "stage already exists",
            StoreError::InvalidInitialStage => {
                "stage bootstrap state is not a pristine pending state"
            },
            StoreError::StageNotFound => "stage does not exist",
            StoreError::StageRunMismatch => "stage belongs to another run",
            StoreError::MessageIdConflict => "message ID was reused with different content",
            StoreError::EventIdConflict => "event ID already exists",
            StoreError::ConcurrentUpdate => "snapshot compare-and-swap failed",
            StoreError::EventSequenceExhausted => "event sequence is exhausted",
            StoreError::SnapshotMismatch => {
                "stage snapshot does not match deterministic event replay"
            },
            StoreError::InvalidInitialPipeline => "pipeline bootstrap state is not pristine",
            StoreError::PipelineRootConflict => "run already has independent stages",
            StoreError::PipelineDefinitionMismatch => "pipeline definition does not match the run",
            StoreError::PipelineAlreadyExists => "pipeline already exists",
            StoreError::PipelineNotFound => "pipeline does not exist",
            StoreError::PipelineSnapshotMismatch => {
                "pipeline snapshot does not match deterministic event replay"
            },
            StoreError::PipelineStageRegistrationRequired => {
                "stages of a pipeline run are registered by its pipeline"
            },
            StoreError::IncompatiblePragma(name) => {
                let mut message = "SQLite ".to_owned();
                message.append(name);
                message.append(" pragma is incompatible with the durability contract");
                return message;
            },
            StoreError::CorruptData(message) => message,
        };
        message.to_owned()
    }
}

} // verus!
