//! The contents of a store as a value, and what each operation makes of them.

use vstd::prelude::*;

use crate::append::{
    AppendOutcome, AppendPipelineOutcome, PipelineAppendView, PipelineCommitView,
    PipelineDecisionView, PipelineRequest, StageAppendView, StageCommitView, StageDecisionView,
    StageRequest,
};
use crate::digest::Sha256Digest;
use crate::error::StoreError;
use crate::identifier::{EventId, RunId, StageInstanceId};
use crate::journal::{
    decoded_events, decoded_pipeline_events, StoredPipelineEvent, StoredStageEvent,
};
use crate::pipeline::PipelineView;
use crate::recovery::{recovered_stage, RunRowsView};
use crate::registration::{new_run, pipeline_registration, stage_registration};
use crate::rows::{EventRowView, PipelineEventRowView, PipelineRowView, RunRowView, StageRowView};
use crate::select::{count, first, first_index, ordered};
use crate::stage::StageState;

verus! {

/// The rows of a store, as a value.
#[verifier::ext_equal]
pub struct StoreView {
    pub runs: Seq<RunRowView>,
    pub stage_snapshots: Seq<StageRowView>,
    pub events: Seq<EventRowView>,
    pub pipeline_snapshots: Seq<PipelineRowView>,
    pub pipeline_events: Seq<PipelineEventRowView>,
}

/// The row is that of the run.
pub open spec fn run_named(name: Seq<char>) -> spec_fn(RunRowView) -> bool {
    |row: RunRowView| row.run_id == name
}

/// The row is that of the stage.
pub open spec fn stage_named(name: Seq<char>) -> spec_fn(StageRowView) -> bool {
    |row: StageRowView| row.stage_instance_id == name
}

/// The row is that of a stage of the run.
pub open spec fn stage_in_run(name: Seq<char>) -> spec_fn(StageRowView) -> bool {
    |row: StageRowView| row.run_id == name
}

/// The row is that of the run's pipeline.
pub open spec fn pipeline_of(name: Seq<char>) -> spec_fn(PipelineRowView) -> bool {
    |row: PipelineRowView| row.run_id == name
}

/// The row is that of an event of the run.
pub open spec fn event_in_run(name: Seq<char>) -> spec_fn(EventRowView) -> bool {
    |row: EventRowView| row.run_id == name
}

/// The row is that of the event that the message led to.
pub open spec fn event_for_message(name: Seq<char>) -> spec_fn(EventRowView) -> bool {
    |row: EventRowView| row.message_id == name
}

/// The row is that of the event.
pub open spec fn event_named(name: Seq<char>) -> spec_fn(EventRowView) -> bool {
    |row: EventRowView| row.event_id == name
}

/// The row is that of a pipeline event of the run.
pub open spec fn pipeline_event_in_run(name: Seq<char>) -> spec_fn(PipelineEventRowView) -> bool {
    |row: PipelineEventRowView| row.run_id == name
}

/// The row is that of the pipeline event that the message led to.
pub open spec fn pipeline_event_for_message(name: Seq<char>) -> spec_fn(
    PipelineEventRowView,
) -> bool {
    |row: PipelineEventRowView| row.message_id == name
}

/// The row is that of the pipeline event.
pub open spec fn pipeline_event_named(name: Seq<char>) -> spec_fn(PipelineEventRowView) -> bool {
    |row: PipelineEventRowView| row.event_id == name
}

/// The row is that of an event of the stage in the run.
pub open spec fn event_of_stage(run: Seq<char>, stage: Seq<char>) -> spec_fn(EventRowView) -> bool {
    |row: EventRowView| row.run_id == run && row.stage_instance_id == stage
}

/// The sequence of an event's row.
pub open spec fn by_sequence() -> spec_fn(EventRowView) -> int {
    |row: EventRowView| row.sequence as int
}

/// The sequence of a pipeline event's row.
pub open spec fn by_pipeline_sequence() -> spec_fn(PipelineEventRowView) -> int {
    |row: PipelineEventRowView| row.sequence as int
}

impl StoreView {
    /// A store without rows.
    pub open spec fn empty() -> Self {
        StoreView {
            runs: Seq::empty(),
            stage_snapshots: Seq::empty(),
            events: Seq::empty(),
            pipeline_snapshots: Seq::empty(),
            pipeline_events: Seq::empty(),
        }
    }

    /// The rows that a transaction reads of a run.
    pub open spec fn run_rows(self, run: RunId) -> RunRowsView {
        RunRowsView {
            run: first(self.runs, run_named(run.text())),
            events: ordered(self.events, event_in_run(run.text()), by_sequence()),
            pipeline: first(self.pipeline_snapshots, pipeline_of(run.text())),
            pipeline_events: ordered(
                self.pipeline_events,
                pipeline_event_in_run(run.text()),
                by_pipeline_sequence(),
            ),
        }
    }

    /// The row of a stage.
    pub open spec fn stage(self, stage: StageInstanceId) -> Option<StageRowView> {
        first(self.stage_snapshots, stage_named(stage.text()))
    }

    /// The rows of a stage's journal.
    pub open spec fn stage_rows(self, run: RunId, stage: StageInstanceId) -> Seq<EventRowView> {
        ordered(self.events, event_of_stage(run.text(), stage.text()), by_sequence())
    }

    /// Either journal has a row with the event's identifier.
    pub open spec fn event_id_taken(self, event: EventId) -> bool {
        ||| first_index(self.events, event_named(event.text())) is Some
        ||| first_index(self.pipeline_events, pipeline_event_named(event.text())) is Some
    }

    /// The rows that a transaction reads to append an event of a stage.
    pub open spec fn stage_append_rows(self, request: StageRequest) -> StageAppendView {
        StageAppendView {
            run: self.run_rows(request.run_id),
            message: first(self.events, event_for_message(request.message_id.text())),
            pipeline_message: first_index(
                self.pipeline_events,
                pipeline_event_for_message(request.message_id.text()),
            ) is Some,
            event_id_taken: self.event_id_taken(request.event_id),
            stage: self.stage(request.event.stage_instance_id),
            stage_events: self.stage_rows(request.run_id, request.event.stage_instance_id),
        }
    }

    /// The rows that a transaction reads to append an event of a pipeline.
    pub open spec fn pipeline_append_rows(self, request: PipelineRequest) -> PipelineAppendView {
        PipelineAppendView {
            run: self.run_rows(request.run_id),
            message: first(
                self.pipeline_events,
                pipeline_event_for_message(request.message_id.text()),
            ),
            stage_message: first(self.events, event_for_message(request.message_id.text())),
            event_id_taken: self.event_id_taken(request.event_id),
        }
    }

    /// The store with a new run, or why there is none.
    pub open spec fn with_run(self, run: RunId, definition: Option<Sha256Digest>) -> Result<
        Self,
        StoreError,
    > {
        if first_index(self.runs, run_named(run.text())) is Some {
            Err(StoreError::RunAlreadyExists)
        } else {
            Ok(StoreView { runs: self.runs.push(new_run(run, definition)), ..self })
        }
    }

    /// The store with a new stage, or why there is none.
    pub open spec fn with_stage(self, run: RunId, state: StageState) -> Result<Self, StoreError> {
        match stage_registration(
            self.run_rows(run).run is Some,
            self.run_rows(run).pipeline is Some,
            run,
            state,
        ) {
            Err(error) => Err(error),
            Ok(row) => if self.stage(state.stage_instance_id) is Some {
                Err(StoreError::StageAlreadyExists)
            } else {
                Ok(StoreView { stage_snapshots: self.stage_snapshots.push(row), ..self })
            },
        }
    }

    /// The store with a new pipeline, or why there is none.
    pub open spec fn with_pipeline(self, run: RunId, state: PipelineView) -> Result<
        Self,
        StoreError,
    > {
        match pipeline_registration(
            self.run_rows(run),
            count(self.stage_snapshots, stage_in_run(run.text())),
            run,
            state,
        ) {
            Err(error) => Err(error),
            Ok(row) => if self.run_rows(run).pipeline is Some {
                Err(StoreError::PipelineAlreadyExists)
            } else {
                Ok(StoreView { pipeline_snapshots: self.pipeline_snapshots.push(row), ..self })
            },
        }
    }

    /// The runs with one run's counter set to one past a sequence.
    pub open spec fn counted_up(self, run: RunId, sequence: u64) -> Seq<RunRowView> {
        match first_index(self.runs, run_named(run.text())) {
            Some(index) => self.runs.update(
                index,
                RunRowView { next_event_sequence: (sequence + 1) as i64, ..self.runs[index] },
            ),
            None => self.runs,
        }
    }

    /// The store after the writes of a stage event's commit.
    pub open spec fn with_stage_commit(self, commit: StageCommitView) -> Self {
        StoreView {
            runs: self.counted_up(commit.record.run_id, commit.record.sequence),
            stage_snapshots: match first_index(
                self.stage_snapshots,
                stage_named(commit.record.stage_instance_id.text()),
            ) {
                Some(index) => self.stage_snapshots.update(
                    index,
                    StageRowView {
                        control_revision: commit.next.control_revision as i64,
                        state: Ok(commit.next),
                        ..self.stage_snapshots[index]
                    },
                ),
                None => self.stage_snapshots,
            },
            events: self.events.push(EventRowView::of_record(commit.record)),
            ..self
        }
    }

    /// The store after the writes of a pipeline event's commit.
    pub open spec fn with_pipeline_commit(self, commit: PipelineCommitView) -> Self {
        StoreView {
            runs: self.counted_up(commit.record.run_id, commit.record.sequence),
            pipeline_snapshots: match first_index(
                self.pipeline_snapshots,
                pipeline_of(commit.record.run_id.text()),
            ) {
                Some(index) => self.pipeline_snapshots.update(
                    index,
                    PipelineRowView {
                        control_revision: commit.next.control_revision as i64,
                        state: Ok(commit.next),
                        ..self.pipeline_snapshots[index]
                    },
                ),
                None => self.pipeline_snapshots,
            },
            pipeline_events: self.pipeline_events.push(
                PipelineEventRowView::of_record(commit.record),
            ),
            ..self
        }
    }

    /// The store after a request to append an event of a stage, and what became of the
    /// request, or why it is refused.
    pub open spec fn with_stage_event(self, request: StageRequest) -> Result<
        (Self, AppendOutcome),
        StoreError,
    > {
        match self.stage_append_rows(request).decided(request) {
            Err(error) => Err(error),
            Ok(StageDecisionView::Duplicate(stored)) => Ok(
                (self, AppendOutcome::Duplicate(stored)),
            ),
            Ok(StageDecisionView::Commit(commit)) => Ok(
                (
                    self.with_stage_commit(commit),
                    AppendOutcome::Committed(StoredStageEvent::of_record(commit.record)),
                ),
            ),
        }
    }

    /// The store after a request to append an event of a pipeline, and what became of the
    /// request, or why it is refused.
    pub open spec fn with_pipeline_event(self, request: PipelineRequest) -> Result<
        (Self, AppendPipelineOutcome),
        StoreError,
    > {
        match self.pipeline_append_rows(request).decided(request) {
            Err(error) => Err(error),
            Ok(PipelineDecisionView::Duplicate(stored)) => Ok(
                (self, AppendPipelineOutcome::Duplicate(stored)),
            ),
            Ok(PipelineDecisionView::Commit(commit)) => Ok(
                (
                    self.with_pipeline_commit(commit),
                    AppendPipelineOutcome::Committed(
                        StoredPipelineEvent::of_record(commit.record),
                    ),
                ),
            ),
        }
    }

    /// The state of a stage, or the first thing that is wrong with its run or with it.
    pub open spec fn loaded_stage(self, run: RunId, stage: StageInstanceId) -> Result<
        StageState,
        StoreError,
    > {
        match self.run_rows(run).verified(run) {
            Err(error) => Err(error),
            Ok(_) => recovered_stage(self.stage(stage), self.stage_rows(run, stage), run, stage),
        }
    }

    /// The events of a stage, or the first thing that is wrong with its run.
    pub open spec fn loaded_stage_events(self, run: RunId, stage: StageInstanceId) -> Result<
        Seq<StoredStageEvent>,
        StoreError,
    > {
        match self.run_rows(run).verified(run) {
            Err(error) => Err(error),
            Ok(_) => decoded_events(self.stage_rows(run, stage)),
        }
    }

    /// The state of a run's pipeline, or the first thing that is wrong with the run or with
    /// it.
    pub open spec fn loaded_pipeline(self, run: RunId) -> Result<PipelineView, StoreError> {
        match self.run_rows(run).verified(run) {
            Err(error) => Err(error),
            Ok(_) => self.run_rows(run).verified_pipeline(),
        }
    }

    /// The events of a run's pipeline, or the first thing that is wrong with the run.
    pub open spec fn loaded_pipeline_events(self, run: RunId) -> Result<
        Seq<StoredPipelineEvent>,
        StoreError,
    > {
        match self.run_rows(run).verified(run) {
            Err(error) => Err(error),
            Ok(_) => decoded_pipeline_events(self.run_rows(run).pipeline_events),
        }
    }
}

} // verus!
