//! A store held in memory, row by row.
//!
//! Each operation reads rows, decides, and either writes all of its rows or none.

use vstd::prelude::*;

use crate::append::{
    decide_pipeline_append, decide_stage_append, event_row, pipeline_event_row, AppendOutcome,
    AppendPipelineEvent, AppendPipelineOutcome, AppendStageEvent, PipelineAppendRows,
    PipelineCommit, PipelineCommitView, PipelineDecision, StageAppendRows, StageCommit,
    StageCommitView, StageDecision,
};
use crate::digest::Sha256Digest;
use crate::durability::{broken_pragma, verify_pragmas};
use crate::error::StoreError;
use crate::identifier::{EventId, MessageId, RunId, StageInstanceId};
use crate::integrity::{
    lemma_appending_a_pipeline_event_keeps_integrity, lemma_appending_a_stage_event_keeps_integrity,
    lemma_creating_a_run_keeps_integrity, lemma_empty_store_is_intact,
    lemma_registering_a_pipeline_keeps_integrity, lemma_registering_a_stage_keeps_integrity,
};
use crate::journal::{
    event_rows, load_events, load_pipeline_events, pipeline_event_rows, StoredPipelineEvent,
    StoredStageEvent,
};
use crate::model::{event_for_message, event_in_run, pipeline_event_for_message, StoreView};
use crate::pipeline::PipelineState;
use crate::recovery::{stage_row, verified_pipeline, verified_stage, verify_run_journal, RunRows};
use crate::registration::{decide_pipeline_registration, decide_stage_registration, new_run_row};
use crate::rows::{PipelineRow, RawEventRow, RawPipelineEventRow, RunRow, StageRow};
use crate::select::{count, first};
use crate::stage::{StageState, MAX_CONTROL_REVISION};

verus! {

/// A store whose rows are held in memory: what one transaction sees of a database.
///
/// The database itself is read and written with SQL by the application around this library,
/// which hands the rows that it reads to the same functions that decide here, and writes what
/// they decide.
#[derive(Debug)]
pub struct SqliteStore {
    pub runs: Vec<RunRow>,
    pub stage_snapshots: Vec<StageRow>,
    pub events: Vec<RawEventRow>,
    pub pipeline_snapshots: Vec<PipelineRow>,
    pub pipeline_events: Vec<RawPipelineEventRow>,
}

impl View for SqliteStore {
    type V = StoreView;

    open spec fn view(&self) -> StoreView {
        StoreView {
            runs: self.runs@.map_values(|row: RunRow| row@),
            stage_snapshots: self.stage_snapshots@.map_values(|row: StageRow| row@),
            events: event_rows(self.events@),
            pipeline_snapshots: self.pipeline_snapshots@.map_values(|row: PipelineRow| row@),
            pipeline_events: pipeline_event_rows(self.pipeline_events@),
        }
    }
}

impl SqliteStore {
    /// What a transaction reads of a run.
    pub fn run_rows(&self, run_id: &RunId) -> (rows: RunRows)
        ensures
            rows@ == self@.run_rows(*run_id),
    {
        let name = run_id.as_str();
        let run = match self.find_run(name.as_str()) {
            Some(index) => Some(self.runs[index].copy()),
            None => None,
        };
        let pipeline = match self.find_pipeline(name.as_str()) {
            Some(index) => Some(self.pipeline_snapshots[index].copy()),
            None => None,
        };
        RunRows {
            run,
            events: self.select_run_events(&name),
            pipeline,
            pipeline_events: self.select_pipeline_events(&name),
        }
    }

    fn stage_row(&self, stage_instance_id: &StageInstanceId) -> (row: Option<StageRow>)
        ensures
            stage_row(row) == self@.stage(*stage_instance_id),
    {
        match self.find_stage(stage_instance_id.as_str().as_str()) {
            Some(index) => Some(self.stage_snapshots[index].copy()),
            None => None,
        }
    }

    fn stage_events(&self, run_id: &RunId, stage_instance_id: &StageInstanceId) -> (rows: Vec<
        RawEventRow,
    >)
        ensures
            event_rows(rows@) == self@.stage_rows(*run_id, *stage_instance_id),
    {
        self.select_stage_events(&run_id.as_str(), &stage_instance_id.as_str())
    }

    fn event_by_message_id(&self, message_id: &MessageId) -> (row: Option<RawEventRow>)
        ensures
            event_row(row) == first(self@.events, event_for_message(message_id.text())),
    {
        match self.find_message(message_id.as_str().as_str()) {
            Some(index) => Some(self.events[index].copy()),
            None => None,
        }
    }

    fn pipeline_event_by_message_id(&self, message_id: &MessageId) -> (row: Option<
        RawPipelineEventRow,
    >)
        ensures
            pipeline_event_row(row) == first(
                self@.pipeline_events,
                pipeline_event_for_message(message_id.text()),
            ),
    {
        match self.find_pipeline_message(message_id.as_str().as_str()) {
            Some(index) => Some(self.pipeline_events[index].copy()),
            None => None,
        }
    }

    fn event_id_exists(&self, event_id: &EventId) -> (exists: bool)
        ensures
            exists == self@.event_id_taken(*event_id),
    {
        let name = event_id.as_str();
        self.find_event(name.as_str()).is_some() || self.find_pipeline_event(
            name.as_str(),
        ).is_some()
    }

    /// What a transaction reads to append an event of a stage.
    pub fn stage_append_rows(&self, request: &AppendStageEvent<'_>) -> (rows: StageAppendRows)
        ensures
            rows@ == self@.stage_append_rows(request@),
    {
        StageAppendRows {
            run: self.run_rows(request.run_id),
            message: self.event_by_message_id(request.message_id),
            pipeline_message: self.find_pipeline_message(
                request.message_id.as_str().as_str(),
            ).is_some(),
            event_id_taken: self.event_id_exists(request.event_id),
            stage: self.stage_row(&request.event.stage_instance_id),
            stage_events: self.stage_events(request.run_id, &request.event.stage_instance_id),
        }
    }

    /// What a transaction reads to append an event of a pipeline.
    pub fn pipeline_append_rows(&self, request: &AppendPipelineEvent<'_>) -> (rows:
        PipelineAppendRows)
        ensures
            rows@ == self@.pipeline_append_rows(request@),
    {
        PipelineAppendRows {
            run: self.run_rows(request.run_id),
            message: self.pipeline_event_by_message_id(request.message_id),
            stage_message: self.event_by_message_id(request.message_id),
            event_id_taken: self.event_id_exists(request.event_id),
        }
    }

    /// Opens a store without rows on a connection whose pragmas read as given.
    pub fn open(
        journal_mode: &str,
        synchronous: i64,
        foreign_keys: i64,
        trusted_schema: i64,
    ) -> (store: Result<Self, StoreError>)
        ensures
            match broken_pragma(journal_mode@, synchronous, foreign_keys, trusted_schema) {
                Some(name) => store == Err::<Self, StoreError>(
                    StoreError::IncompatiblePragma(name),
                ),
                None => store matches Ok(store) && store@ == StoreView::empty() && store@.intact(),
            },
    {
        match verify_pragmas(journal_mode, synchronous, foreign_keys, trusted_schema) {
            Ok(()) => {},
            Err(error) => return Err(error),
        }
        let store = SqliteStore {
            runs: Vec::new(),
            stage_snapshots: Vec::new(),
            events: Vec::new(),
            pipeline_snapshots: Vec::new(),
            pipeline_events: Vec::new(),
        };
        assert(store@ =~= StoreView::empty());
        proof {
            lemma_empty_store_is_intact();
        }
        Ok(store)
    }

    fn insert_run(&mut self, run_id: &RunId, definition: Option<&Sha256Digest>) -> (created: Result<
        (),
        StoreError,
    >)
        ensures
            match old(self)@.with_run(
                *run_id,
                match definition {
                    Some(definition) => Some(*definition),
                    None => None,
                },
            ) {
                Ok(store) => created is Ok && final(self)@ == store,
                Err(error) => created == Err::<(), StoreError>(error)
                    && final(self)@ == old(self)@,
            },
    {
        if self.find_run(run_id.as_str().as_str()).is_some() {
            return Err(StoreError::RunAlreadyExists);
        }
        self.runs.push(new_run_row(run_id, definition));
        assert(self@.runs =~= old(self)@.runs.push(self.runs@.last()@));
        Ok(())
    }

    /// Creates an empty run before any stage instances or events are registered.
    pub fn create_run(&mut self, run_id: &RunId) -> (created: Result<(), StoreError>)
        ensures
            match old(self)@.with_run(*run_id, None) {
                Ok(store) => created is Ok && final(self)@ == store,
                Err(error) => created == Err::<(), StoreError>(error)
                    && final(self)@ == old(self)@,
            },
            old(self)@.intact() ==> final(self)@.intact(),
    {
        proof {
            if self@.intact() {
                lemma_creating_a_run_keeps_integrity(self@, *run_id, None);
            }
        }
        self.insert_run(run_id, None)
    }

    /// Creates an empty run for a pipeline definition.
    pub fn create_pipeline_run(&mut self, run_id: &RunId, definition: &Sha256Digest) -> (created:
        Result<(), StoreError>)
        ensures
            match old(self)@.with_run(*run_id, Some(*definition)) {
                Ok(store) => created is Ok && final(self)@ == store,
                Err(error) => created == Err::<(), StoreError>(error)
                    && final(self)@ == old(self)@,
            },
            old(self)@.intact() ==> final(self)@.intact(),
    {
        proof {
            if self@.intact() {
                lemma_creating_a_run_keeps_integrity(self@, *run_id, Some(*definition));
            }
        }
        self.insert_run(run_id, Some(definition))
    }

    /// Registers the initial snapshot of a stage before its first event.
    pub fn register_stage(&mut self, run_id: &RunId, state: &StageState) -> (registered: Result<
        (),
        StoreError,
    >)
        ensures
            match old(self)@.with_stage(*run_id, *state) {
                Ok(store) => registered is Ok && final(self)@ == store,
                Err(error) => registered == Err::<(), StoreError>(error)
                    && final(self)@ == old(self)@,
            },
            old(self)@.intact() ==> final(self)@.intact(),
    {
        proof {
            if self@.intact() {
                lemma_registering_a_stage_keeps_integrity(self@, *run_id, *state);
            }
        }
        let name = run_id.as_str();
        let run_exists = self.find_run(name.as_str()).is_some();
        let pipeline_exists = self.find_pipeline(name.as_str()).is_some();
        let row = match decide_stage_registration(run_exists, pipeline_exists, run_id, state) {
            Ok(row) => row,
            Err(error) => return Err(error),
        };
        if self.find_stage(state.stage_instance_id.as_str().as_str()).is_some() {
            return Err(StoreError::StageAlreadyExists);
        }
        self.stage_snapshots.push(row);
        assert(self@.stage_snapshots =~= old(self)@.stage_snapshots.push(row@));
        Ok(())
    }

    /// Registers the initial snapshot of a run's pipeline before its first event.
    pub fn register_pipeline(&mut self, run_id: &RunId, state: &PipelineState) -> (registered:
        Result<(), StoreError>)
        ensures
            match old(self)@.with_pipeline(*run_id, state@) {
                Ok(store) => registered is Ok && final(self)@ == store,
                Err(error) => registered == Err::<(), StoreError>(error)
                    && final(self)@ == old(self)@,
            },
            old(self)@.intact() ==> final(self)@.intact(),
    {
        proof {
            if self@.intact() {
                lemma_registering_a_pipeline_keeps_integrity(self@, *run_id, state@);
            }
        }
        let rows = self.run_rows(run_id);
        let stage_count: u64 = self.count_stages(run_id.as_str().as_str());
        let row = match decide_pipeline_registration(&rows, stage_count, run_id, state) {
            Ok(row) => row,
            Err(error) => return Err(error),
        };
        if rows.pipeline.is_some() {
            return Err(StoreError::PipelineAlreadyExists);
        }
        self.pipeline_snapshots.push(row);
        assert(self@.pipeline_snapshots =~= old(self)@.pipeline_snapshots.push(row@));
        Ok(())
    }

    fn count_up(&mut self, run_id: &RunId, next_event_sequence: i64, Ghost(sequence): Ghost<u64>)
        requires
            next_event_sequence == sequence + 1,
        ensures
            final(self)@ == (StoreView {
                runs: old(self)@.counted_up(*run_id, sequence),
                ..old(self)@
            }),
    {
        match self.find_run(run_id.as_str().as_str()) {
            Some(index) => {
                let mut row = self.runs[index].copy();
                row.next_event_sequence = next_event_sequence;
                self.runs.set(index, row);
                assert(self@.runs =~= old(self)@.counted_up(*run_id, sequence));
            },
            None => {},
        }
    }

    fn commit_stage_event(&mut self, commit: StageCommit, Ghost(view): Ghost<StageCommitView>)
        requires
            commit.writes(view),
            view.record.sequence < MAX_CONTROL_REVISION,
            view.next.control_revision <= MAX_CONTROL_REVISION,
            view.next.stage_instance_id == view.record.stage_instance_id,
        ensures
            final(self)@ == old(self)@.with_stage_commit(view),
    {
        let stored = commit.stored;
        self.events.push(commit.row);
        assert(self@.events =~= old(self)@.events.push(commit.row@));
        match self.find_stage(commit.next.stage_instance_id.as_str().as_str()) {
            Some(index) => {
                let mut row = self.stage_snapshots[index].copy();
                row.control_revision = commit.next.control_revision as i64;
                row.state = Ok(commit.next);
                self.stage_snapshots.set(index, row);
            },
            None => {},
        }
        self.count_up(
            &stored.run_id,
            commit.next_event_sequence,
            Ghost(view.record.sequence),
        );
        assert(self@ =~= old(self)@.with_stage_commit(view));
    }

    fn commit_pipeline_event(
        &mut self,
        commit: PipelineCommit,
        Ghost(view): Ghost<PipelineCommitView>,
    )
        requires
            commit.writes(view),
            view.record.sequence < MAX_CONTROL_REVISION,
            view.next.control_revision <= MAX_CONTROL_REVISION,
        ensures
            final(self)@ == old(self)@.with_pipeline_commit(view),
    {
        let stored = commit.stored;
        self.pipeline_events.push(commit.row);
        assert(self@.pipeline_events =~= old(self)@.pipeline_events.push(commit.row@));
        match self.find_pipeline(stored.run_id.as_str().as_str()) {
            Some(index) => {
                let mut row = self.pipeline_snapshots[index].copy();
                row.control_revision = commit.next.control_revision as i64;
                row.state = Ok(commit.next);
                self.pipeline_snapshots.set(index, row);
            },
            None => {},
        }
        self.count_up(
            &stored.run_id,
            commit.next_event_sequence,
            Ghost(view.record.sequence),
        );
        assert(self@ =~= old(self)@.with_pipeline_commit(view));
    }

    /// Atomically appends one accepted stage event and its derived snapshot.
    pub fn append_stage_event(&mut self, request: AppendStageEvent<'_>) -> (outcome: Result<
        AppendOutcome,
        StoreError,
    >)
        ensures
            match old(self)@.with_stage_event(request@) {
                Ok((store, expected)) => outcome == Ok::<AppendOutcome, StoreError>(expected)
                    && final(self)@ == store,
                Err(error) => outcome == Err::<AppendOutcome, StoreError>(error)
                    && final(self)@ == old(self)@,
            },
            old(self)@.intact() ==> final(self)@.intact(),
    {
        proof {
            if self@.intact() {
                lemma_appending_a_stage_event_keeps_integrity(self@, request@);
            }
        }
        let rows = self.stage_append_rows(&request);
        match decide_stage_append(&rows, &request) {
            Err(error) => Err(error),
            Ok(StageDecision::Duplicate(stored)) => Ok(AppendOutcome::Duplicate(stored)),
            Ok(StageDecision::Commit(commit)) => {
                let ghost decision = rows@.decided(request@)->Ok_0;
                let ghost view = decision->Commit_0;
                proof {
                    view.prior.lemma_applied(request@.event);
                }
                let stored = commit.stored;
                self.commit_stage_event(commit, Ghost(view));
                Ok(AppendOutcome::Committed(stored))
            },
        }
    }

    /// Atomically appends one accepted pipeline event and its derived snapshot.
    pub fn append_pipeline_event(&mut self, request: AppendPipelineEvent<'_>) -> (outcome: Result<
        AppendPipelineOutcome,
        StoreError,
    >)
        ensures
            match old(self)@.with_pipeline_event(request@) {
                Ok((store, expected)) => outcome == Ok::<AppendPipelineOutcome, StoreError>(
                    expected,
                ) && final(self)@ == store,
                Err(error) => outcome == Err::<AppendPipelineOutcome, StoreError>(error)
                    && final(self)@ == old(self)@,
            },
            old(self)@.intact() ==> final(self)@.intact(),
    {
        proof {
            if self@.intact() {
                lemma_appending_a_pipeline_event_keeps_integrity(self@, request@);
            }
        }
        let rows = self.pipeline_append_rows(&request);
        match decide_pipeline_append(&rows, &request) {
            Err(error) => Err(error),
            Ok(PipelineDecision::Duplicate(stored)) => Ok(
                AppendPipelineOutcome::Duplicate(stored),
            ),
            Ok(PipelineDecision::Commit(commit)) => {
                let ghost decision = rows@.decided(request@)->Ok_0;
                let ghost view = decision->Commit_0;
                proof {
                    rows@.run.verified_pipeline()->Ok_0.lemma_applied(request@.event);
                }
                let stored = commit.stored;
                self.commit_pipeline_event(commit, Ghost(view));
                Ok(AppendPipelineOutcome::Committed(stored))
            },
        }
    }

    /// Loads the state of a stage, where its run's journal and its snapshot hold together.
    pub fn load_stage(&self, run_id: &RunId, stage_instance_id: &StageInstanceId) -> (state: Result<
        StageState,
        StoreError,
    >)
        ensures
            state == self@.loaded_stage(*run_id, *stage_instance_id),
    {
        match verify_run_journal(&self.run_rows(run_id), run_id) {
            Ok(_) => {},
            Err(error) => return Err(error),
        }
        verified_stage(
            &self.stage_row(stage_instance_id),
            &self.stage_events(run_id, stage_instance_id),
            run_id,
            stage_instance_id,
        )
    }

    /// Loads the events of a stage, where its run's journal holds together.
    pub fn load_stage_events(
        &self,
        run_id: &RunId,
        stage_instance_id: &StageInstanceId,
    ) -> (events: Result<Vec<StoredStageEvent>, StoreError>)
        ensures
            match self@.loaded_stage_events(*run_id, *stage_instance_id) {
                Ok(expected) => events matches Ok(events) && events@ == expected,
                Err(error) => events == Err::<Vec<StoredStageEvent>, StoreError>(error),
            },
    {
        match verify_run_journal(&self.run_rows(run_id), run_id) {
            Ok(_) => {},
            Err(error) => return Err(error),
        }
        load_events(&self.stage_events(run_id, stage_instance_id))
    }

    /// Counts the stage events of a run.
    pub fn event_count(&self, run_id: &RunId) -> (number: Result<u64, StoreError>)
        ensures
            number == Ok::<u64, StoreError>(
                count(self@.events, event_in_run(run_id.text())) as u64,
            ),
            count(self@.events, event_in_run(run_id.text())) <= u64::MAX,
    {
        Ok(self.count_events(run_id.as_str().as_str()))
    }

    /// Loads the state of a run's pipeline, where the run's journal and its snapshot hold
    /// together.
    pub fn load_pipeline(&self, run_id: &RunId) -> (state: Result<PipelineState, StoreError>)
        ensures
            match self@.loaded_pipeline(*run_id) {
                Ok(expected) => state matches Ok(state) && state@ == expected,
                Err(error) => state == Err::<PipelineState, StoreError>(error),
            },
    {
        let rows = self.run_rows(run_id);
        match verify_run_journal(&rows, run_id) {
            Ok(_) => {},
            Err(error) => return Err(error),
        }
        verified_pipeline(&rows)
    }

    /// Loads the events of a run's pipeline, where the run's journal holds together.
    pub fn load_pipeline_events(&self, run_id: &RunId) -> (events: Result<
        Vec<StoredPipelineEvent>,
        StoreError,
    >)
        ensures
            match self@.loaded_pipeline_events(*run_id) {
                Ok(expected) => events matches Ok(events) && events@ == expected,
                Err(error) => events == Err::<Vec<StoredPipelineEvent>, StoreError>(error),
            },
    {
        let rows = self.run_rows(run_id);
        match verify_run_journal(&rows, run_id) {
            Ok(_) => {},
            Err(error) => return Err(error),
        }
        load_pipeline_events(&rows.pipeline_events)
    }

    /// A copy of the store as it is: what a reader sees whose transaction begins here.
    pub fn snapshot(&self) -> (store: Self)
        ensures
            store@ == self@,
    {
        let mut runs: Vec<RunRow> = Vec::new();
        let mut i: usize = 0;
        while i < self.runs.len()
            invariant
                i <= self.runs.len(),
                runs.len() == i,
                forall|k: int|
                    0 <= k < i ==> (#[trigger] runs@[k])@ == self.runs@[k]@,
            decreases self.runs.len() - i,
        {
            runs.push(self.runs[i].copy());
            i = i + 1;
        }
        let mut stage_snapshots: Vec<StageRow> = Vec::new();
        i = 0;
        while i < self.stage_snapshots.len()
            invariant
                i <= self.stage_snapshots.len(),
                stage_snapshots.len() == i,
                forall|k: int|
                    0 <= k < i ==> (#[trigger] stage_snapshots@[k])@ == self.stage_snapshots@[k]@,
            decreases self.stage_snapshots.len() - i,
        {
            stage_snapshots.push(self.stage_snapshots[i].copy());
            i = i + 1;
        }
        let mut events: Vec<RawEventRow> = Vec::new();
        i = 0;
        while i < self.events.len()
            invariant
                i <= self.events.len(),
                events.len() == i,
                forall|k: int|
                    0 <= k < i ==> (#[trigger] events@[k])@ == self.events@[k]@,
            decreases self.events.len() - i,
        {
            events.push(self.events[i].copy());
            i = i + 1;
        }
        let mut pipeline_snapshots: Vec<PipelineRow> = Vec::new();
        i = 0;
        while i < self.pipeline_snapshots.len()
            invariant
                i <= self.pipeline_snapshots.len(),
                pipeline_snapshots.len() == i,
                forall|k: int|
                    0 <= k < i ==> (#[trigger] pipeline_snapshots@[k])@ == self.pipeline_snapshots@[k]@,
            decreases self.pipeline_snapshots.len() - i,
        {
            pipeline_snapshots.push(self.pipeline_snapshots[i].copy());
            i = i + 1;
        }
        let mut pipeline_events: Vec<RawPipelineEventRow> = Vec::new();
        i = 0;
        while i < self.pipeline_events.len()
            invariant
                i <= self.pipeline_events.len(),
                pipeline_events.len() == i,
                forall|k: int|
                    0 <= k < i ==> (#[trigger] pipeline_events@[k])@ == self.pipeline_events@[k]@,
            decreases self.pipeline_events.len() - i,
        {
            pipeline_events.push(self.pipeline_events[i].copy());
            i = i + 1;
        }
        let store = SqliteStore {
            runs,
            stage_snapshots,
            events,
            pipeline_snapshots,
            pipeline_events,
        };
        assert(store@.runs =~= self@.runs);
        assert(store@.stage_snapshots =~= self@.stage_snapshots);
        assert(store@.events =~= self@.events);
        assert(store@.pipeline_snapshots =~= self@.pipeline_snapshots);
        assert(store@.pipeline_events =~= self@.pipeline_events);
        store
    }
}

} // verus!
