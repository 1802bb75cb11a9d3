//! What a run, a stage and a pipeline start from, and what the counts of rows written say.

use vstd::prelude::*;

use crate::digest::Sha256Digest;
use crate::error::StoreError;
use crate::identifier::RunId;
use crate::journal::INITIAL_EVENT_SEQUENCE;
use crate::pipeline::{PipelineState, PipelineView};
use crate::recovery::{verify_run_journal, RunRows, RunRowsView};
use crate::rows::{PipelineRow, PipelineRowView, RunRow, RunRowView, StageRow, StageRowView};
use crate::stage::StageState;

verus! {

/// The row of a run without events.
pub open spec fn new_run(run_id: RunId, definition: Option<Sha256Digest>) -> RunRowView {
    RunRowView {
        run_id: run_id.text(),
        next_event_sequence: INITIAL_EVENT_SEQUENCE as i64,
        pipeline_definition_digest: match definition {
            Some(definition) => Some(definition.text()),
            None => None,
        },
    }
}

/// The row of a stage without events.
pub open spec fn new_stage(run_id: RunId, state: StageState) -> StageRowView {
    StageRowView {
        stage_instance_id: state.stage_instance_id.text(),
        run_id: run_id.text(),
        control_revision: state.control_revision as i64,
        initial_state: Ok(state),
        state: Ok(state),
    }
}

/// The row of a pipeline without events.
pub open spec fn new_pipeline(run_id: RunId, state: PipelineView) -> PipelineRowView {
    PipelineRowView {
        run_id: run_id.text(),
        control_revision: state.control_revision as i64,
        initial_state: Ok(state),
        state: Ok(state),
    }
}

/// The row that registers a stage with a run, or why the stage cannot be registered there.
pub open spec fn stage_registration(
    run_exists: bool,
    pipeline_exists: bool,
    run_id: RunId,
    state: StageState,
) -> Result<StageRowView, StoreError> {
    if !state.untouched() {
        Err(StoreError::InvalidInitialStage)
    } else if !run_exists {
        Err(StoreError::RunNotFound)
    } else if pipeline_exists {
        Err(StoreError::PipelineStageRegistrationRequired)
    } else {
        Ok(new_stage(run_id, state))
    }
}

/// The row that registers a pipeline with a run, or why the pipeline cannot be registered
/// there.
pub open spec fn pipeline_registration(
    rows: RunRowsView,
    stage_count: nat,
    run_id: RunId,
    state: PipelineView,
) -> Result<PipelineRowView, StoreError> {
    if !state.untouched() {
        Err(StoreError::InvalidInitialPipeline)
    } else {
        match rows.verified(run_id) {
            Err(error) => Err(error),
            Ok(_) => if stage_count != 0 {
                Err(StoreError::PipelineRootConflict)
            } else {
                match rows.definition() {
                    None => Err(StoreError::PipelineDefinitionMismatch),
                    Some(definition) => match Sha256Digest::parsed(definition) {
                        Err(error) => Err(StoreError::Digest(error)),
                        Ok(definition) => if definition != state.definition_digest {
                            Err(StoreError::PipelineDefinitionMismatch)
                        } else {
                            Ok(new_pipeline(run_id, state))
                        },
                    },
                }
            },
        }
    }
}

/// The row of a run without events, which is for the given pipeline definition or for none.
pub fn new_run_row(run_id: &RunId, definition: Option<&Sha256Digest>) -> (row: RunRow)
    ensures
        row@ == new_run(
            *run_id,
            match definition {
                Some(definition) => Some(*definition),
                None => None,
            },
        ),
{
    RunRow {
        run_id: run_id.as_str(),
        next_event_sequence: INITIAL_EVENT_SEQUENCE as i64,
        pipeline_definition_digest: match definition {
            Some(definition) => Some(definition.to_prefixed_string()),
            None => None,
        },
    }
}

/// Decides how to register a stage with a run.
pub fn decide_stage_registration(
    run_exists: bool,
    pipeline_exists: bool,
    run_id: &RunId,
    state: &StageState,
) -> (row: Result<StageRow, StoreError>)
    ensures
        match stage_registration(run_exists, pipeline_exists, *run_id, *state) {
            Err(error) => row == Err::<StageRow, StoreError>(error),
            Ok(expected) => row matches Ok(row) && row@ == expected,
        },
{
    if !state.is_pristine() {
        return Err(StoreError::InvalidInitialStage);
    }
    if !run_exists {
        return Err(StoreError::RunNotFound);
    }
    if pipeline_exists {
        return Err(StoreError::PipelineStageRegistrationRequired);
    }
    Ok(
        StageRow {
            stage_instance_id: state.stage_instance_id.as_str(),
            run_id: run_id.as_str(),
            control_revision: state.control_revision as i64,
            initial_state: Ok(*state),
            state: Ok(*state),
        },
    )
}

/// Decides how to register a pipeline with a run that has `stage_count` stages.
pub fn decide_pipeline_registration(
    rows: &RunRows,
    stage_count: u64,
    run_id: &RunId,
    state: &PipelineState,
) -> (row: Result<PipelineRow, StoreError>)
    ensures
        match pipeline_registration(rows@, stage_count as nat, *run_id, state@) {
            Err(error) => row == Err::<PipelineRow, StoreError>(error),
            Ok(expected) => row matches Ok(row) && row@ == expected,
        },
{
    if !state.is_pristine() {
        return Err(StoreError::InvalidInitialPipeline);
    }
    match verify_run_journal(rows, run_id) {
        Ok(_) => {},
        Err(error) => return Err(error),
    }
    if stage_count != 0 {
        return Err(StoreError::PipelineRootConflict);
    }
    let definition = match &rows.run {
        Some(run) => match &run.pipeline_definition_digest {
            Some(definition) => definition,
            None => return Err(StoreError::PipelineDefinitionMismatch),
        },
        None => return Err(StoreError::RunNotFound),
    };
    let definition = match Sha256Digest::parse(definition.as_str()) {
        Ok(definition) => definition,
        Err(error) => return Err(StoreError::Digest(error)),
    };
    if definition != state.definition_digest {
        return Err(StoreError::PipelineDefinitionMismatch);
    }
    Ok(
        PipelineRow {
            run_id: run_id.as_str(),
            control_revision: state.control_revision as i64,
            initial_state: Ok(state.copy()),
            state: Ok(state.copy()),
        },
    )
}

/// What inserting a run's row says: no row is inserted where one is there.
pub fn run_inserted(inserted: usize) -> (verdict: Result<(), StoreError>)
    ensures
        verdict == (if inserted == 0 {
            Err(StoreError::RunAlreadyExists)
        } else {
            Ok(())
        }),
{
    if inserted == 0 {
        Err(StoreError::RunAlreadyExists)
    } else {
        Ok(())
    }
}

/// What inserting a stage's row says: no row is inserted where one is there.
pub fn stage_inserted(inserted: usize) -> (verdict: Result<(), StoreError>)
    ensures
        verdict == (if inserted == 0 {
            Err(StoreError::StageAlreadyExists)
        } else {
            Ok(())
        }),
{
    if inserted == 0 {
        Err(StoreError::StageAlreadyExists)
    } else {
        Ok(())
    }
}

/// What inserting a pipeline's row says: no row is inserted where one is there.
pub fn pipeline_inserted(inserted: usize) -> (verdict: Result<(), StoreError>)
    ensures
        verdict == (if inserted == 0 {
            Err(StoreError::PipelineAlreadyExists)
        } else {
            Ok(())
        }),
{
    if inserted == 0 {
        Err(StoreError::PipelineAlreadyExists)
    } else {
        Ok(())
    }
}

/// What a compare-and-swap update says: it has to find exactly the row that was read.
pub fn row_updated(updated: usize) -> (verdict: Result<(), StoreError>)
    ensures
        verdict == (if updated != 1 {
            Err(StoreError::ConcurrentUpdate)
        } else {
            Ok(())
        }),
{
    if updated != 1 {
        Err(StoreError::ConcurrentUpdate)
    } else {
        Ok(())
    }
}

} // verus!
