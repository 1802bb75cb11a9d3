//! Recovering a run: its journal has to be whole, and every snapshot has to be what replaying
//! the journal gives.

use vstd::prelude::*;

use crate::digest::Sha256Digest;
use crate::error::StoreError;
use crate::identifier::{RunId, StageInstanceId};
use crate::journal::{
    decode_event_row, decoded_events, decoded_pipeline_events, event_rows,
    lemma_pipeline_row_is_determined, lemma_stage_row_is_determined, load_events,
    load_pipeline_events, pipeline_event_rows, pipeline_events, sequences, stage_events,
    StoredPipelineEvent, StoredStageEvent, INITIAL_EVENT_SEQUENCE,
};
use crate::pipeline::{replay_pipeline, PipelineEvent, PipelineState, PipelineView};
use crate::rows::{
    from_sql_integer, unsigned, EventRowView, PipelineEventRowView, PipelineRow, PipelineRowView,
    RawEventRow, RawPipelineEventRow, RunRow, RunRowView, StageRow, StageRowView,
};
use crate::stage::{replay_stage, StageEvent, StageState};

verus! {

/// What a transaction reads of one run: its row, its pipeline's row, and the rows of its
/// journals in ascending order of their sequence.
#[derive(Debug)]
pub struct RunRows {
    pub run: Option<RunRow>,
    pub events: Vec<RawEventRow>,
    pub pipeline: Option<PipelineRow>,
    pub pipeline_events: Vec<RawPipelineEventRow>,
}

/// What a transaction reads of one run, as a value.
#[verifier::ext_equal]
pub struct RunRowsView {
    pub run: Option<RunRowView>,
    pub events: Seq<EventRowView>,
    pub pipeline: Option<PipelineRowView>,
    pub pipeline_events: Seq<PipelineEventRowView>,
}

/// A row that may not be there, as a value.
pub open spec fn run_row(row: Option<RunRow>) -> Option<RunRowView> {
    match row {
        Some(row) => Some(row@),
        None => None,
    }
}

/// A row that may not be there, as a value.
pub open spec fn pipeline_row(row: Option<PipelineRow>) -> Option<PipelineRowView> {
    match row {
        Some(row) => Some(row@),
        None => None,
    }
}

/// A row that may not be there, as a value.
pub open spec fn stage_row(row: Option<StageRow>) -> Option<StageRowView> {
    match row {
        Some(row) => Some(row@),
        None => None,
    }
}

impl View for RunRows {
    type V = RunRowsView;

    open spec fn view(&self) -> RunRowsView {
        RunRowsView {
            run: run_row(self.run),
            events: event_rows(self.events@),
            pipeline: pipeline_row(self.pipeline),
            pipeline_events: pipeline_event_rows(self.pipeline_events@),
        }
    }
}

/// The error of a journal whose sequences have a gap or a repetition.
pub open spec fn not_contiguous() -> StoreError {
    StoreError::CorruptData("run event sequence is not contiguous")
}

/// The error of a run whose counter is not one past its journal.
pub open spec fn counter_mismatch() -> StoreError {
    StoreError::CorruptData("run sequence counter does not match the journal")
}

/// Counting on from `expected`, past those of the sequences `taken`, from the one at `used`
/// on, that come next: the sequence after them, and how many are used then.
pub open spec fn past_taken(taken: Seq<u64>, expected: nat, used: nat) -> (nat, nat)
    decreases taken.len() - used,
{
    if used < taken.len() && taken[used as int] == expected {
        past_taken(taken, expected + 1, used + 1)
    } else {
        (expected, used)
    }
}

/// Counting through the rows of a run's stage journal, where the sequences `taken` belong to
/// its pipeline journal: the sequence to expect next and how many of `taken` came up, or the
/// first thing that is wrong.
pub open spec fn counted(run_id: RunId, taken: Seq<u64>, rows: Seq<EventRowView>) -> Result<
    (nat, nat),
    StoreError,
>
    decreases rows.len(),
{
    if rows.len() == 0 {
        Ok((INITIAL_EVENT_SEQUENCE as nat, 0))
    } else {
        match counted(run_id, taken, rows.drop_last()) {
            Err(error) => Err(error),
            Ok((expected, used)) => match rows.last().decoded() {
                Err(error) => Err(error),
                Ok(event) => {
                    let (expected, used) = past_taken(taken, expected, used);
                    if event.run_id != run_id || event.sequence != expected {
                        Err(not_contiguous())
                    } else {
                        Ok((expected + 1, used))
                    }
                },
            },
        }
    }
}

/// The sequence that a run's next event gets, or the first thing that is wrong with its
/// journal: the sequences of both journals together have to be 1, 2, 3 and so on.
pub open spec fn journal_end(run_id: RunId, taken: Seq<u64>, rows: Seq<EventRowView>) -> Result<
    nat,
    StoreError,
> {
    match counted(run_id, taken, rows) {
        Err(error) => Err(error),
        Ok((expected, used)) => {
            let (expected, used) = past_taken(taken, expected, used);
            if used < taken.len() {
                Err(not_contiguous())
            } else {
                Ok(expected)
            }
        },
    }
}

impl RunRowsView {
    /// The pipeline definition that the run is for.
    pub open spec fn definition(self) -> Option<Seq<char>> {
        match self.run {
            Some(run) => run.pipeline_definition_digest,
            None => None,
        }
    }

    /// The state of the run's pipeline, which its snapshot and its journal agree on, or the
    /// first thing that is wrong with it.
    pub open spec fn verified_pipeline(self) -> Result<PipelineView, StoreError> {
        match self.pipeline {
            None => Err(StoreError::PipelineNotFound),
            Some(row) => match (row.initial_state, row.state) {
                (Ok(initial), Ok(snapshot)) => match self.definition() {
                    None => Err(StoreError::PipelineDefinitionMismatch),
                    Some(definition) => match Sha256Digest::parsed(definition) {
                        Err(error) => Err(StoreError::Digest(error)),
                        Ok(definition) => if initial.definition_digest != definition {
                            Err(StoreError::PipelineDefinitionMismatch)
                        } else if !initial.untouched() || initial.definition_digest
                            != snapshot.definition_digest {
                            Err(StoreError::PipelineSnapshotMismatch)
                        } else {
                            self.replayed_pipeline(row, initial, snapshot)
                        },
                    },
                },
                (Err(reason), _) => Err(StoreError::Serialization(reason)),
                (_, Err(reason)) => Err(StoreError::Serialization(reason)),
            },
        }
    }

    /// The pipeline's snapshot, where it is what replaying the journal gives.
    pub open spec fn replayed_pipeline(
        self,
        row: PipelineRowView,
        initial: PipelineView,
        snapshot: PipelineView,
    ) -> Result<PipelineView, StoreError> {
        match unsigned(row.control_revision) {
            Err(error) => Err(error),
            Ok(revision) => if revision != snapshot.control_revision {
                Err(StoreError::PipelineSnapshotMismatch)
            } else {
                match decoded_pipeline_events(self.pipeline_events) {
                    Err(error) => Err(error),
                    Ok(stored) => match initial.replayed(pipeline_events(stored)) {
                        Err(error) => Err(StoreError::PipelineTransition(error)),
                        Ok(state) => if state != snapshot {
                            Err(StoreError::PipelineSnapshotMismatch)
                        } else {
                            Ok(state)
                        },
                    },
                }
            },
        }
    }

    /// The sequences of the run's pipeline journal, or the first thing that is wrong with it.
    pub open spec fn verified_pipeline_journal(self) -> Result<Seq<u64>, StoreError> {
        match decoded_pipeline_events(self.pipeline_events) {
            Err(error) => Err(error),
            Ok(stored) => if self.pipeline is Some {
                match self.verified_pipeline() {
                    Err(error) => Err(error),
                    Ok(_) => Ok(sequences(stored)),
                }
            } else if stored.len() > 0 {
                Err(StoreError::PipelineNotFound)
            } else {
                Ok(sequences(stored))
            },
        }
    }

    /// The sequence that the run's next event gets, or the first thing that is wrong with the
    /// run: its journal is whole, and its counter is one past it.
    pub open spec fn verified(self, run_id: RunId) -> Result<nat, StoreError> {
        match self.run {
            None => Err(StoreError::RunNotFound),
            Some(run) => match unsigned(run.next_event_sequence) {
                Err(error) => Err(error),
                Ok(next) => match self.verified_pipeline_journal() {
                    Err(error) => Err(error),
                    Ok(taken) => match journal_end(run_id, taken, self.events) {
                        Err(error) => Err(error),
                        Ok(expected) => if next != expected {
                            Err(counter_mismatch())
                        } else {
                            Ok(expected)
                        },
                    },
                },
            },
        }
    }
}

/// The state of a stage, which its snapshot and its journal agree on, or the first thing that
/// is wrong with it. `rows` are the rows of the stage's journal.
pub open spec fn recovered_stage(
    row: Option<StageRowView>,
    rows: Seq<EventRowView>,
    run_id: RunId,
    stage_instance_id: StageInstanceId,
) -> Result<StageState, StoreError> {
    match row {
        None => Err(StoreError::StageNotFound),
        Some(row) => if row.run_id != run_id.text() {
            Err(StoreError::StageRunMismatch)
        } else {
            match (row.initial_state, row.state) {
                (Ok(initial), Ok(snapshot)) => if initial.stage_instance_id
                    != stage_instance_id || snapshot.stage_instance_id != stage_instance_id {
                    Err(StoreError::SnapshotMismatch)
                } else {
                    replayed_stage(row, rows, initial, snapshot)
                },
                (Err(reason), _) => Err(StoreError::Serialization(reason)),
                (_, Err(reason)) => Err(StoreError::Serialization(reason)),
            }
        },
    }
}

/// The stage's snapshot, where it is what replaying the journal gives.
pub open spec fn replayed_stage(
    row: StageRowView,
    rows: Seq<EventRowView>,
    initial: StageState,
    snapshot: StageState,
) -> Result<StageState, StoreError> {
    match unsigned(row.control_revision) {
        Err(error) => Err(error),
        Ok(revision) => if revision != snapshot.control_revision {
            Err(StoreError::SnapshotMismatch)
        } else {
            match decoded_events(rows) {
                Err(error) => Err(error),
                Ok(stored) => match initial.replayed(stage_events(stored)) {
                    Err(error) => Err(StoreError::StageTransition(error)),
                    Ok(state) => if state != snapshot {
                        Err(StoreError::SnapshotMismatch)
                    } else {
                        Ok(state)
                    },
                },
            }
        },
    }
}

fn held_stage_events(stored: &Vec<StoredStageEvent>) -> (events: Vec<StageEvent>)
    ensures
        events@ == stage_events(stored@),
{
    let mut events: Vec<StageEvent> = Vec::new();
    let mut i: usize = 0;
    while i < stored.len()
        invariant
            i <= stored.len(),
            events.len() == i,
            forall|k: int| 0 <= k < i ==> events@[k] == stored@[k].event,
        decreases stored.len() - i,
    {
        events.push(stored[i].event);
        i = i + 1;
    }
    assert(events@ =~= stage_events(stored@));
    events
}

fn held_pipeline_events(stored: &Vec<StoredPipelineEvent>) -> (events: Vec<PipelineEvent>)
    ensures
        events@ == pipeline_events(stored@),
{
    let mut events: Vec<PipelineEvent> = Vec::new();
    let mut i: usize = 0;
    while i < stored.len()
        invariant
            i <= stored.len(),
            events.len() == i,
            forall|k: int| 0 <= k < i ==> events@[k] == stored@[k].event,
        decreases stored.len() - i,
    {
        events.push(stored[i].event);
        i = i + 1;
    }
    assert(events@ =~= pipeline_events(stored@));
    events
}

/// Reads the state of a stage, and checks that its snapshot is what replaying its events
/// gives. `rows` are the rows of the stage's journal in ascending order of their sequence.
pub fn verified_stage(
    row: &Option<StageRow>,
    rows: &Vec<RawEventRow>,
    run_id: &RunId,
    stage_instance_id: &StageInstanceId,
) -> (state: Result<StageState, StoreError>)
    ensures
        state == recovered_stage(
            stage_row(*row),
            event_rows(rows@),
            *run_id,
            *stage_instance_id,
        ),
{
    let row = match row {
        Some(row) => row,
        None => return Err(StoreError::StageNotFound),
    };
    if row.run_id != run_id.as_str() {
        return Err(StoreError::StageRunMismatch);
    }
    let initial = match &row.initial_state {
        Ok(initial) => *initial,
        Err(reason) => return Err(StoreError::Serialization(reason.clone())),
    };
    let snapshot = match &row.state {
        Ok(snapshot) => *snapshot,
        Err(reason) => return Err(StoreError::Serialization(reason.clone())),
    };
    if initial.stage_instance_id != *stage_instance_id || snapshot.stage_instance_id
        != *stage_instance_id {
        return Err(StoreError::SnapshotMismatch);
    }
    let revision: u64 = match from_sql_integer(row.control_revision) {
        Ok(revision) => revision,
        Err(error) => return Err(error),
    };
    if revision != snapshot.control_revision {
        return Err(StoreError::SnapshotMismatch);
    }
    let stored = match load_events(rows) {
        Ok(stored) => stored,
        Err(error) => return Err(error),
    };
    match replay_stage(&initial, &held_stage_events(&stored)) {
        Ok(state) => if state != snapshot {
            Err(StoreError::SnapshotMismatch)
        } else {
            Ok(state)
        },
        Err(error) => Err(StoreError::StageTransition(error)),
    }
}

/// Reads the state of a run's pipeline, and checks that its snapshot is what replaying its
/// events gives.
pub fn verified_pipeline(rows: &RunRows) -> (state: Result<PipelineState, StoreError>)
    ensures
        match state {
            Ok(state) => rows@.verified_pipeline() == Ok::<PipelineView, StoreError>(state@),
            Err(error) => rows@.verified_pipeline() == Err::<PipelineView, StoreError>(error),
        },
{
    let row = match &rows.pipeline {
        Some(row) => row,
        None => return Err(StoreError::PipelineNotFound),
    };
    let initial = match &row.initial_state {
        Ok(initial) => initial,
        Err(reason) => return Err(StoreError::Serialization(reason.clone())),
    };
    let snapshot = match &row.state {
        Ok(snapshot) => snapshot,
        Err(reason) => return Err(StoreError::Serialization(reason.clone())),
    };
    let definition = match &rows.run {
        Some(run) => match &run.pipeline_definition_digest {
            Some(definition) => definition,
            None => return Err(StoreError::PipelineDefinitionMismatch),
        },
        None => return Err(StoreError::PipelineDefinitionMismatch),
    };
    let definition = match Sha256Digest::parse(definition.as_str()) {
        Ok(definition) => definition,
        Err(error) => return Err(StoreError::Digest(error)),
    };
    if initial.definition_digest != definition {
        return Err(StoreError::PipelineDefinitionMismatch);
    }
    if !initial.is_pristine() || initial.definition_digest != snapshot.definition_digest {
        return Err(StoreError::PipelineSnapshotMismatch);
    }
    let revision: u64 = match from_sql_integer(row.control_revision) {
        Ok(revision) => revision,
        Err(error) => return Err(error),
    };
    if revision != snapshot.control_revision {
        return Err(StoreError::PipelineSnapshotMismatch);
    }
    let stored = match load_pipeline_events(&rows.pipeline_events) {
        Ok(stored) => stored,
        Err(error) => return Err(error),
    };
    match replay_pipeline(initial, &held_pipeline_events(&stored)) {
        Ok(state) => if !state.same(snapshot) {
            Err(StoreError::PipelineSnapshotMismatch)
        } else {
            Ok(state)
        },
        Err(error) => Err(StoreError::PipelineTransition(error)),
    }
}

/// Checks a run's pipeline journal, and gives the sequences in it.
pub fn verify_pipeline_journal(rows: &RunRows) -> (taken: Result<Vec<u64>, StoreError>)
    ensures
        match taken {
            Ok(taken) => rows@.verified_pipeline_journal() == Ok::<Seq<u64>, StoreError>(taken@),
            Err(error) => rows@.verified_pipeline_journal() == Err::<Seq<u64>, StoreError>(error),
        },
{
    let stored = match load_pipeline_events(&rows.pipeline_events) {
        Ok(stored) => stored,
        Err(error) => return Err(error),
    };
    if rows.pipeline.is_some() {
        match verified_pipeline(rows) {
            Ok(_) => {},
            Err(error) => return Err(error),
        }
    } else if stored.len() > 0 {
        return Err(StoreError::PipelineNotFound);
    }
    let mut taken: Vec<u64> = Vec::new();
    let mut i: usize = 0;
    while i < stored.len()
        invariant
            i <= stored.len(),
            taken.len() == i,
            forall|k: int| 0 <= k < i ==> taken@[k] == stored@[k].sequence,
        decreases stored.len() - i,
    {
        taken.push(stored[i].sequence);
        i = i + 1;
    }
    assert(taken@ =~= sequences(stored@));
    Ok(taken)
}

/// A sequence that a row gives fits in a column.
proof fn lemma_taken_fit(rows: Seq<PipelineEventRowView>)
    ensures
        decoded_pipeline_events(rows) matches Ok(stored) ==> forall|i: int|
            0 <= i < stored.len() ==> (#[trigger] stored[i]).sequence <= i64::MAX,
    decreases rows.len(),
{
    if rows.len() > 0 {
        lemma_taken_fit(rows.drop_last());
        if rows.last().decoded() is Ok {
            lemma_pipeline_row_is_determined(rows.last());
        }
    }
}

proof fn lemma_counting_stops(run_id: RunId, taken: Seq<u64>, rows: Seq<EventRowView>, end: int)
    requires
        0 <= end <= rows.len(),
        counted(run_id, taken, rows.take(end)) is Err,
    ensures
        counted(run_id, taken, rows) == counted(run_id, taken, rows.take(end)),
    decreases rows.len(),
{
    if end < rows.len() {
        assert(rows.drop_last().take(end) =~= rows.take(end));
        lemma_counting_stops(run_id, taken, rows.drop_last(), end);
    } else {
        assert(rows.take(end) =~= rows);
    }
}

fn skip_taken(taken: &Vec<u64>, expected: u64, used: usize) -> (next: (u64, usize))
    requires
        used <= taken.len(),
        forall|i: int| 0 <= i < taken.len() ==> #[trigger] taken@[i] <= i64::MAX,
    ensures
        next.1 <= taken.len(),
        (next.0 as nat, next.1 as nat) == past_taken(taken@, expected as nat, used as nat),
{
    let mut next: u64 = expected;
    let mut passed: usize = used;
    while passed < taken.len() && taken[passed] == next
        invariant
            passed <= taken.len(),
            forall|i: int| 0 <= i < taken.len() ==> #[trigger] taken@[i] <= i64::MAX,
            past_taken(taken@, next as nat, passed as nat) == past_taken(
                taken@,
                expected as nat,
                used as nat,
            ),
        decreases taken.len() - passed,
    {
        assert(taken@[passed as int] <= i64::MAX);
        next = next + 1;
        passed = passed + 1;
    }
    (next, passed)
}

/// Checks that a run's journal is whole: its rows read as events of the run, the sequences of
/// both its journals together are 1, 2, 3 and so on, and its counter is one past them.
pub fn verify_run_journal(rows: &RunRows, run_id: &RunId) -> (next: Result<u64, StoreError>)
    ensures
        match next {
            Ok(next) => rows@.verified(*run_id) == Ok::<nat, StoreError>(next as nat),
            Err(error) => rows@.verified(*run_id) == Err::<nat, StoreError>(error),
        },
{
    let run = match &rows.run {
        Some(run) => run,
        None => return Err(StoreError::RunNotFound),
    };
    let next_sequence: u64 = match from_sql_integer(run.next_event_sequence) {
        Ok(next) => next,
        Err(error) => return Err(error),
    };
    let taken = match verify_pipeline_journal(rows) {
        Ok(taken) => taken,
        Err(error) => return Err(error),
    };
    let ghost views = event_rows(rows.events@);
    proof {
        lemma_taken_fit(rows@.pipeline_events);
    }
    let mut expected: u64 = INITIAL_EVENT_SEQUENCE;
    let mut used: usize = 0;
    let mut i: usize = 0;
    while i < rows.events.len()
        invariant
            i <= rows.events.len(),
            views == event_rows(rows.events@),
            views == rows@.events,
            used <= taken.len(),
            forall|k: int| 0 <= k < taken.len() ==> #[trigger] taken@[k] <= i64::MAX,
            counted(*run_id, taken@, views.take(i as int)) == Ok::<(nat, nat), StoreError>(
                (expected as nat, used as nat),
            ),
            rows.run matches Some(row) && unsigned(row.next_event_sequence) == Ok::<
                u64,
                StoreError,
            >(next_sequence),
            rows@.verified_pipeline_journal() == Ok::<Seq<u64>, StoreError>(taken@),
        decreases rows.events.len() - i,
    {
        assert(views.take(i + 1).drop_last() =~= views.take(i as int));
        assert(views.take(i + 1).last() == rows.events@[i as int]@);
        let stored = match decode_event_row(&rows.events[i]) {
            Ok(stored) => stored,
            Err(error) => {
                proof {
                    lemma_counting_stops(*run_id, taken@, views, i + 1);
                }
                return Err(error);
            },
        };
        proof {
            lemma_stage_row_is_determined(rows.events@[i as int]@);
        }
        let (here, passed) = skip_taken(&taken, expected, used);
        if stored.run_id != *run_id || stored.sequence != here {
            proof {
                lemma_counting_stops(*run_id, taken@, views, i + 1);
            }
            return Err(StoreError::CorruptData("run event sequence is not contiguous"));
        }
        expected = here + 1;
        used = passed;
        i = i + 1;
    }
    assert(views.take(i as int) =~= views);
    let (expected, used) = skip_taken(&taken, expected, used);
    if used < taken.len() {
        return Err(StoreError::CorruptData("run event sequence is not contiguous"));
    }
    if next_sequence != expected {
        return Err(
            StoreError::CorruptData("run sequence counter does not match the journal"),
        );
    }
    Ok(expected)
}

} // verus!
