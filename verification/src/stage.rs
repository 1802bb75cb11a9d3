//! The lifecycle of one stage instance: commands are decided into events, and events are
//! applied to the state. Nothing else changes a stage.

use vstd::prelude::*;

use crate::digest::Sha256Digest;
use crate::identifier::StageInstanceId;

verus! {

/// The largest control revision and event sequence: the largest integer that every JSON
/// reader holds exactly.
pub const MAX_CONTROL_REVISION: u64 = 9007199254740991;

/// How far a stage has come.
#[derive(Clone, Copy, Debug, PartialEq, Eq, Structural)]
pub enum StageStatus {
    /// Waits for its inputs.
    Pending,
    /// Its inputs are accepted.
    Ready,
    /// Its node is being provisioned.
    Provisioning,
    /// Its node runs.
    Running,
}

/// The state of a stage instance.
#[derive(Clone, Copy, Debug, PartialEq, Eq, Structural)]
pub struct StageState {
    pub stage_instance_id: StageInstanceId,
    pub component_digest: Sha256Digest,
    pub predicate_digest: Sha256Digest,
    pub status: StageStatus,
    /// How many events the stage has taken.
    pub control_revision: u64,
    pub input_manifest_digest: Option<Sha256Digest>,
    /// The attempt that runs; 0 before the first.
    pub attempt: u64,
    pub status_reason_digest: Option<Sha256Digest>,
}

/// What an event says happened to a stage.
#[derive(Clone, Copy, Debug, PartialEq, Eq, Structural)]
pub enum StageEventKind {
    InputsAccepted { input_manifest_digest: Sha256Digest },
    ProvisioningBegun,
    NodeStarted { attempt: u64 },
}

/// An event of a stage instance, which applies at one control revision.
#[derive(Clone, Copy, Debug, PartialEq, Eq, Structural)]
pub struct StageEvent {
    pub stage_instance_id: StageInstanceId,
    pub prior_control_revision: u64,
    pub kind: StageEventKind,
}

/// What a stage can be asked to do.
#[derive(Clone, Copy, Debug, PartialEq, Eq, Structural)]
pub enum StageCommand {
    AcceptInputs { expected_revision: u64, input_manifest_digest: Sha256Digest },
    BeginProvisioning { expected_revision: u64 },
}

/// Why a stage takes neither a command nor an event.
#[derive(Clone, Copy, Debug, PartialEq, Eq, Structural)]
pub enum StageTransitionError {
    /// The event is about another stage instance.
    WrongStage,
    /// The revision is not the one that the stage is at.
    StaleRevision,
    /// The stage is at the largest revision.
    RevisionExhausted,
    /// The stage's status does not allow the step.
    InvalidTransition,
}

impl StageTransitionError {
    /// What the error says to a reader.
    pub open spec fn text(self) -> Seq<char> {
        match self {
            StageTransitionError::WrongStage => "event belongs to another stage instance"@,
            StageTransitionError::StaleRevision => "control revision is not current"@,
            StageTransitionError::RevisionExhausted => "control revision is exhausted"@,
            StageTransitionError::InvalidTransition => "stage status does not allow the step"@,
        }
    }

    /// What the error says to a reader.
    pub fn message(&self) -> (message: &'static str)
        ensures
            message@ == self.text(),
    {
        match self {
            StageTransitionError::WrongStage => "event belongs to another stage instance",
            StageTransitionError::StaleRevision => "control revision is not current",
            StageTransitionError::RevisionExhausted => "control revision is exhausted",
            StageTransitionError::InvalidTransition => "stage status does not allow the step",
        }
    }
}

impl StageEventKind {
    /// What the event makes of a stage, its revision apart: `None` where the status does not
    /// allow it.
    pub open spec fn outcome(self, state: StageState) -> Option<StageState> {
        match self {
            StageEventKind::InputsAccepted { input_manifest_digest } => if state.status
                == StageStatus::Pending {
                Some(
                    StageState {
                        status: StageStatus::Ready,
                        input_manifest_digest: Some(input_manifest_digest),
                        ..state
                    },
                )
            } else {
                None
            },
            StageEventKind::ProvisioningBegun => if state.status == StageStatus::Ready {
                Some(StageState { status: StageStatus::Provisioning, ..state })
            } else {
                None
            },
            StageEventKind::NodeStarted { attempt } => if state.status
                == StageStatus::Provisioning && attempt == state.attempt + 1 {
                Some(StageState { status: StageStatus::Running, attempt, ..state })
            } else {
                None
            },
        }
    }
}

impl StageState {
    /// The state of a stage to which nothing has happened.
    pub open spec fn pristine(
        stage_instance_id: StageInstanceId,
        component_digest: Sha256Digest,
        predicate_digest: Sha256Digest,
    ) -> Self {
        StageState {
            stage_instance_id,
            component_digest,
            predicate_digest,
            status: StageStatus::Pending,
            control_revision: 0,
            input_manifest_digest: None,
            attempt: 0,
            status_reason_digest: None,
        }
    }

    /// The state of a stage to which nothing has happened.
    pub fn new(
        stage_instance_id: StageInstanceId,
        component_digest: Sha256Digest,
        predicate_digest: Sha256Digest,
    ) -> (state: Self)
        ensures
            state == Self::pristine(stage_instance_id, component_digest, predicate_digest),
    {
        StageState {
            stage_instance_id,
            component_digest,
            predicate_digest,
            status: StageStatus::Pending,
            control_revision: 0,
            input_manifest_digest: None,
            attempt: 0,
            status_reason_digest: None,
        }
    }

    /// Nothing has happened to the stage.
    pub open spec fn untouched(self) -> bool {
        self == Self::pristine(
            self.stage_instance_id,
            self.component_digest,
            self.predicate_digest,
        )
    }

    /// Whether nothing has happened to the stage.
    pub fn is_pristine(&self) -> (pristine: bool)
        ensures
            pristine == self.untouched(),
    {
        *self == StageState::new(
            self.stage_instance_id,
            self.component_digest,
            self.predicate_digest,
        )
    }

    /// The state after an event, or why the stage does not take it.
    pub open spec fn applied(self, event: StageEvent) -> Result<Self, StageTransitionError> {
        if event.stage_instance_id != self.stage_instance_id {
            Err(StageTransitionError::WrongStage)
        } else if event.prior_control_revision != self.control_revision {
            Err(StageTransitionError::StaleRevision)
        } else if self.control_revision >= MAX_CONTROL_REVISION {
            Err(StageTransitionError::RevisionExhausted)
        } else {
            match event.kind.outcome(self) {
                Some(next) => Ok(
                    StageState { control_revision: (self.control_revision + 1) as u64, ..next },
                ),
                None => Err(StageTransitionError::InvalidTransition),
            }
        }
    }

    /// The state after an event, or why the stage does not take it.
    pub fn apply(&self, event: &StageEvent) -> (next: Result<Self, StageTransitionError>)
        ensures
            next == self.applied(*event),
    {
        if event.stage_instance_id != self.stage_instance_id {
            return Err(StageTransitionError::WrongStage);
        }
        if event.prior_control_revision != self.control_revision {
            return Err(StageTransitionError::StaleRevision);
        }
        if self.control_revision >= MAX_CONTROL_REVISION {
            return Err(StageTransitionError::RevisionExhausted);
        }
        let mut next = *self;
        next.control_revision = self.control_revision + 1;
        match event.kind {
            StageEventKind::InputsAccepted { input_manifest_digest } => {
                if self.status != StageStatus::Pending {
                    return Err(StageTransitionError::InvalidTransition);
                }
                next.status = StageStatus::Ready;
                next.input_manifest_digest = Some(input_manifest_digest);
            },
            StageEventKind::ProvisioningBegun => {
                if self.status != StageStatus::Ready {
                    return Err(StageTransitionError::InvalidTransition);
                }
                next.status = StageStatus::Provisioning;
            },
            StageEventKind::NodeStarted { attempt } => {
                if self.status != StageStatus::Provisioning || attempt == 0 || attempt - 1
                    != self.attempt {
                    return Err(StageTransitionError::InvalidTransition);
                }
                next.status = StageStatus::Running;
                next.attempt = attempt;
            },
        }
        Ok(next)
    }

    /// The event that a command leads to, or why the stage refuses it.
    pub open spec fn decided(self, command: StageCommand) -> Result<
        StageEvent,
        StageTransitionError,
    > {
        let (expected_revision, kind) = match command {
            StageCommand::AcceptInputs { expected_revision, input_manifest_digest } => (
                expected_revision,
                StageEventKind::InputsAccepted { input_manifest_digest },
            ),
            StageCommand::BeginProvisioning { expected_revision } => (
                expected_revision,
                StageEventKind::ProvisioningBegun,
            ),
        };
        let event = StageEvent {
            stage_instance_id: self.stage_instance_id,
            prior_control_revision: expected_revision,
            kind,
        };
        match self.applied(event) {
            Ok(_) => Ok(event),
            Err(error) => Err(error),
        }
    }

    /// The event that a command leads to: one that the stage takes.
    pub fn decide(&self, command: StageCommand) -> (event: Result<
        StageEvent,
        StageTransitionError,
    >)
        ensures
            event == self.decided(command),
    {
        let (expected_revision, kind) = match command {
            StageCommand::AcceptInputs { expected_revision, input_manifest_digest } => (
                expected_revision,
                StageEventKind::InputsAccepted { input_manifest_digest },
            ),
            StageCommand::BeginProvisioning { expected_revision } => (
                expected_revision,
                StageEventKind::ProvisioningBegun,
            ),
        };
        let event = StageEvent {
            stage_instance_id: self.stage_instance_id,
            prior_control_revision: expected_revision,
            kind,
        };
        match self.apply(&event) {
            Ok(_) => Ok(event),
            Err(error) => Err(error),
        }
    }

    /// The state after a history of events, or why one of them, the first that fails, does
    /// not apply.
    pub open spec fn replayed(self, events: Seq<StageEvent>) -> Result<
        Self,
        StageTransitionError,
    >
        decreases events.len(),
    {
        if events.len() == 0 {
            Ok(self)
        } else {
            match self.replayed(events.drop_last()) {
                Ok(state) => state.applied(events.last()),
                Err(error) => Err(error),
            }
        }
    }

    /// Applying an event counts one revision up and leaves the stage's identity alone.
    pub proof fn lemma_applied(self, event: StageEvent)
        ensures
            self.applied(event) matches Ok(next) ==> {
                &&& next.stage_instance_id == self.stage_instance_id
                &&& next.component_digest == self.component_digest
                &&& next.predicate_digest == self.predicate_digest
                &&& next.control_revision == self.control_revision + 1
                &&& next.control_revision <= MAX_CONTROL_REVISION
                &&& event.stage_instance_id == self.stage_instance_id
                &&& event.prior_control_revision == self.control_revision
            },
    {
    }

    /// A decided event is one that the stage takes, at the revision that the command expects.
    pub proof fn lemma_decided_event_applies(self, command: StageCommand)
        ensures
            self.decided(command) matches Ok(event) ==> self.applied(event) is Ok,
    {
    }

    /// An event applies at one revision only: a stage that took it does not take it again.
    pub proof fn lemma_event_applies_once(self, event: StageEvent)
        ensures
            self.applied(event) matches Ok(next) ==> next.applied(event) == Err::<
                StageState,
                StageTransitionError,
            >(StageTransitionError::StaleRevision),
    {
    }

    /// Replaying a history in two parts is replaying it whole.
    pub proof fn lemma_replay_in_parts(self, first: Seq<StageEvent>, second: Seq<StageEvent>)
        ensures
            self.replayed(first + second) == (match self.replayed(first) {
                Ok(state) => state.replayed(second),
                Err(error) => Err(error),
            }),
        decreases second.len(),
    {
        if second.len() == 0 {
            assert(first + second =~= first);
        } else {
            assert((first + second).drop_last() =~= first + second.drop_last());
            self.lemma_replay_in_parts(first, second.drop_last());
        }
    }

    /// A stage makes no more attempts than it takes events.
    pub proof fn lemma_attempts_are_bounded(self, events: Seq<StageEvent>)
        requires
            self.attempt <= self.control_revision,
        ensures
            self.replayed(events) matches Ok(state) ==> state.attempt <= state.control_revision,
        decreases events.len(),
    {
        if events.len() > 0 {
            self.lemma_attempts_are_bounded(events.drop_last());
        }
    }

    /// A stage's revision counts the events that it took.
    pub proof fn lemma_revision_counts_events(self, events: Seq<StageEvent>)
        ensures
            self.replayed(events) matches Ok(state) ==> state.control_revision
                == self.control_revision + events.len() && state.stage_instance_id
                == self.stage_instance_id,
        decreases events.len(),
    {
        if events.len() > 0 {
            self.lemma_revision_counts_events(events.drop_last());
        }
    }
}

/// The state that a history of events leads to.
pub fn replay_stage(initial: &StageState, events: &Vec<StageEvent>) -> (state: Result<
    StageState,
    StageTransitionError,
>)
    ensures
        state == initial.replayed(events@),
{
    let mut state = *initial;
    let mut i: usize = 0;
    while i < events.len()
        invariant
            i <= events.len(),
            initial.replayed(events@.take(i as int)) == Ok::<StageState, StageTransitionError>(
                state,
            ),
        decreases events.len() - i,
    {
        assert(events@.take(i + 1).drop_last() =~= events@.take(i as int));
        match state.apply(&events[i]) {
            Ok(next) => {
                state = next;
            },
            Err(error) => {
                proof {
                    lemma_replay_stops(*initial, events@, i + 1, error);
                }
                return Err(error);
            },
        }
        i = i + 1;
    }
    assert(events@.take(i as int) =~= events@);
    Ok(state)
}

/// A history that fails at some point fails there whatever follows.
proof fn lemma_replay_stops(
    initial: StageState,
    events: Seq<StageEvent>,
    end: int,
    error: StageTransitionError,
)
    requires
        0 <= end <= events.len(),
        initial.replayed(events.take(end)) == Err::<StageState, StageTransitionError>(error),
    ensures
        initial.replayed(events) == Err::<StageState, StageTransitionError>(error),
{
    assert(events =~= events.take(end) + events.skip(end));
    initial.lemma_replay_in_parts(events.take(end), events.skip(end));
}

} // verus!
