//! The integrity of a store, which every operation keeps: every run verifies, every stage and
//! every pipeline loads, references lead somewhere, and no identifier is used twice.

use vstd::prelude::*;

use crate::append::{
    AppendOutcome, AppendPipelineOutcome, PipelineRequest, StageCommitView, StageRequest,
};
use crate::digest::Sha256Digest;
use crate::effects::{
    lemma_pipeline_commit_run_rows, lemma_run_names, lemma_stage_commit_run_rows,
    lemma_stage_commit_snapshots, lemma_stage_commit_stage_rows, lemma_stage_names,
};
use crate::error::StoreError;
use crate::guarantees::{
    lemma_pipeline_commit_is_due, lemma_pipeline_load_reads_commit,
    lemma_run_verifies_after_stage_commit, lemma_stage_commit_is_due,
    lemma_stage_compare_and_swap_succeeds, lemma_stage_load_reads_commit,
};
use crate::identifier::{RunId, StageInstanceId};
use crate::journal::{decoded_events, decoded_pipeline_events, pipeline_events, stage_events};
use crate::model::{
    by_pipeline_sequence, by_sequence, event_for_message, event_in_run, event_named, event_of_stage,
    pipeline_event_for_message, pipeline_event_in_run, pipeline_event_named, pipeline_of, run_named,
    stage_in_run, stage_named, StoreView,
};
use crate::pipeline::PipelineView;
use crate::recovery::recovered_stage;
use crate::registration::{new_pipeline, new_run, new_stage};
use crate::rows::{PipelineRowView, RunRowView, StageRowView};
use crate::select::{
    first, first_index, lemma_count, lemma_first_index, lemma_first_push, lemma_first_update,
    lemma_ordered_none,
};
use crate::stage::StageState;

verus! {

impl StoreView {
    /// Every run verifies.
    pub open spec fn runs_verify(self) -> bool {
        forall|run: RunId|
            (#[trigger] self.run_rows(run)).run is Some ==> self.run_rows(run).verified(run) is Ok
    }

    /// Every stage started from nothing and is where its journal leads.
    pub open spec fn stages_recover(self) -> bool {
        forall|run: RunId, stage: StageInstanceId| #[trigger]
            self.stage_belongs(run, stage) ==> self.stage_recovers(run, stage)
    }

    /// The stage started from nothing and is where its journal leads.
    pub open spec fn stage_recovers(self, run: RunId, stage: StageInstanceId) -> bool {
        &&& self.stage(stage) matches Some(row)
        &&& row.initial_state matches Ok(initial)
        &&& initial.untouched()
        &&& recovered_stage(self.stage(stage), self.stage_rows(run, stage), run, stage) is Ok
    }

    /// The stage is there and belongs to the run.
    pub open spec fn stage_belongs(self, run: RunId, stage: StageInstanceId) -> bool {
        self.stage(stage) matches Some(row) && row.run_id == run.text()
    }

    /// There is a run of the name.
    pub open spec fn has_run(self, name: Seq<char>) -> bool {
        first_index(self.runs, run_named(name)) is Some
    }

    /// There is a stage of the name, and it belongs to the run.
    pub open spec fn has_stage(self, run: Seq<char>, stage: Seq<char>) -> bool {
        first(self.stage_snapshots, stage_named(stage)) matches Some(row) && row.run_id == run
    }

    /// There is a pipeline of the run.
    pub open spec fn has_pipeline(self, run: Seq<char>) -> bool {
        first_index(self.pipeline_snapshots, pipeline_of(run)) is Some
    }

    /// Stages and pipelines belong to runs that are there, and events to stages and pipelines
    /// that are there.
    pub open spec fn references_hold(self) -> bool {
        &&& forall|i: int|
            0 <= i < self.stage_snapshots.len() ==> self.has_run(
                (#[trigger] self.stage_snapshots[i]).run_id,
            )
        &&& forall|i: int|
            0 <= i < self.pipeline_snapshots.len() ==> self.has_run(
                (#[trigger] self.pipeline_snapshots[i]).run_id,
            )
        &&& forall|i: int|
            0 <= i < self.events.len() ==> self.has_stage(
                (#[trigger] self.events[i]).run_id,
                self.events[i].stage_instance_id,
            )
        &&& forall|i: int|
            0 <= i < self.pipeline_events.len() ==> self.has_pipeline(
                (#[trigger] self.pipeline_events[i]).run_id,
            )
    }

    /// No run has both stages of its own and a pipeline.
    pub open spec fn roots_are_exclusive(self) -> bool {
        forall|i: int, j: int|
            0 <= i < self.stage_snapshots.len() && 0 <= j < self.pipeline_snapshots.len() ==> (
            #[trigger] self.stage_snapshots[i]).run_id != (
            #[trigger] self.pipeline_snapshots[j]).run_id
    }

    /// Every run is named by a run identifier.
    pub open spec fn runs_are_named(self) -> bool {
        forall|i: int|
            0 <= i < self.runs.len() ==> RunId::parsed((#[trigger] self.runs[i]).run_id) is Ok
    }

    /// No two runs share an identifier, no two stages do, and no run has two pipelines.
    pub open spec fn keys_are_unique(self) -> bool {
        &&& forall|i: int, j: int|
            0 <= i < j < self.runs.len() ==> (#[trigger] self.runs[i]).run_id != (
            #[trigger] self.runs[j]).run_id
        &&& forall|i: int, j: int|
            0 <= i < j < self.stage_snapshots.len() ==> (
            #[trigger] self.stage_snapshots[i]).stage_instance_id != (
            #[trigger] self.stage_snapshots[j]).stage_instance_id
        &&& forall|i: int, j: int|
            0 <= i < j < self.pipeline_snapshots.len() ==> (
            #[trigger] self.pipeline_snapshots[i]).run_id != (
            #[trigger] self.pipeline_snapshots[j]).run_id
    }

    /// No two events, of whatever journal, share an identifier, and no two come from one
    /// message.
    pub open spec fn identifiers_are_unique(self) -> bool {
        &&& forall|i: int, j: int|
            0 <= i < j < self.events.len() ==> (#[trigger] self.events[i]).event_id != (
            #[trigger] self.events[j]).event_id && self.events[i].message_id
                != self.events[j].message_id
        &&& forall|i: int, j: int|
            0 <= i < j < self.pipeline_events.len() ==> (
            #[trigger] self.pipeline_events[i]).event_id != (
            #[trigger] self.pipeline_events[j]).event_id && self.pipeline_events[i].message_id
                != self.pipeline_events[j].message_id
        &&& forall|i: int, j: int|
            0 <= i < self.events.len() && 0 <= j < self.pipeline_events.len() ==> (
            #[trigger] self.events[i]).event_id != (#[trigger] self.pipeline_events[j]).event_id
                && self.events[i].message_id != self.pipeline_events[j].message_id
    }

    /// The store holds together.
    pub open spec fn intact(self) -> bool {
        &&& self.runs_verify()
        &&& self.stages_recover()
        &&& self.references_hold()
        &&& self.roots_are_exclusive()
        &&& self.runs_are_named()
        &&& self.keys_are_unique()
        &&& self.identifiers_are_unique()
    }
}

/// An empty store is intact.
pub proof fn lemma_empty_store_is_intact()
    ensures
        StoreView::empty().intact(),
{
}

/// Creating a run, for a pipeline definition or for none, keeps a store intact.
pub proof fn lemma_creating_a_run_keeps_integrity(
    store: StoreView,
    run: RunId,
    definition: Option<Sha256Digest>,
)
    requires
        store.intact(),
    ensures
        store.with_run(run, definition) matches Ok(after) ==> after.intact(),
{
    if let Ok(after) = store.with_run(run, definition) {
        let row = new_run(run, definition);
        lemma_first_index(store.runs, run_named(run.text()));
        assert(after.keys_are_unique());
        run.lemma_text(run.text());
        assert(after.runs_are_named());
        assert forall|name: Seq<char>| #[trigger] store.has_run(name) implies after.has_run(
            name,
        ) by {
            lemma_first_push(store.runs, row, run_named(name));
        }
        assert forall|other: RunId|
            (#[trigger] after.run_rows(other)).run is Some implies after.run_rows(other).verified(
            other,
        ) is Ok by {
            lemma_run_names(run, other);
            lemma_first_push(store.runs, row, run_named(other.text()));
            if other == run {
                assert(!store.has_run(run.text()));
                assert forall|i: int| 0 <= i < store.events.len() implies !event_in_run(
                    run.text(),
                )(#[trigger] store.events[i]) by {
                    let event = store.events[i];
                    assert(store.has_stage(event.run_id, event.stage_instance_id));
                    lemma_first_index(
                        store.stage_snapshots,
                        stage_named(event.stage_instance_id),
                    );
                    let index = first_index(
                        store.stage_snapshots,
                        stage_named(event.stage_instance_id),
                    )->Some_0;
                    assert(store.has_run(store.stage_snapshots[index].run_id));
                }
                lemma_ordered_none(store.events, event_in_run(run.text()), by_sequence());
                lemma_first_index(store.pipeline_snapshots, pipeline_of(run.text()));
                if store.has_pipeline(run.text()) {
                    let index = first_index(
                        store.pipeline_snapshots,
                        pipeline_of(run.text()),
                    )->Some_0;
                    assert(store.has_run(store.pipeline_snapshots[index].run_id));
                }
                assert forall|i: int|
                    0 <= i < store.pipeline_events.len() implies !pipeline_event_in_run(
                    run.text(),
                )(#[trigger] store.pipeline_events[i]) by {
                    assert(store.has_pipeline(store.pipeline_events[i].run_id));
                }
                lemma_ordered_none(
                    store.pipeline_events,
                    pipeline_event_in_run(run.text()),
                    by_pipeline_sequence(),
                );
            } else {
                assert(after.run_rows(other) == store.run_rows(other));
            }
        }
        assert forall|other: RunId, stage: StageInstanceId| #[trigger]
            after.stage_belongs(other, stage) implies after.stage_recovers(other, stage) by {
            assert(store.stage_belongs(other, stage));
        }
        assert forall|i: int| 0 <= i < after.events.len() implies after.has_stage(
            (#[trigger] after.events[i]).run_id,
            after.events[i].stage_instance_id,
        ) by {
            assert(store.has_stage(store.events[i].run_id, store.events[i].stage_instance_id));
        }
        assert forall|i: int| 0 <= i < after.pipeline_events.len() implies after.has_pipeline(
            (#[trigger] after.pipeline_events[i]).run_id,
        ) by {
            assert(store.has_pipeline(store.pipeline_events[i].run_id));
        }
    }
}

/// Registering a stage keeps a store intact.
pub proof fn lemma_registering_a_stage_keeps_integrity(
    store: StoreView,
    run: RunId,
    state: StageState,
)
    requires
        store.intact(),
    ensures
        store.with_stage(run, state) matches Ok(after) ==> after.intact(),
{
    if let Ok(after) = store.with_stage(run, state) {
        let row = new_stage(run, state);
        let id = state.stage_instance_id;
        lemma_first_index(store.stage_snapshots, stage_named(id.text()));
        assert(after.keys_are_unique());
        assert forall|other: RunId|
            (#[trigger] after.run_rows(other)).run is Some implies after.run_rows(other).verified(
            other,
        ) is Ok by {
            assert(after.run_rows(other) == store.run_rows(other));
        }
        assert forall|other: RunId, stage: StageInstanceId| #[trigger]
            after.stage_belongs(other, stage) implies after.stage_recovers(other, stage) by {
            lemma_first_push(store.stage_snapshots, row, stage_named(stage.text()));
            lemma_stage_names(stage, id);
            lemma_run_names(other, run);
            assert(after.stage_rows(other, stage) == store.stage_rows(other, stage));
            if stage == id {
                assert forall|i: int| 0 <= i < store.events.len() implies !event_of_stage(
                    run.text(),
                    id.text(),
                )(#[trigger] store.events[i]) by {
                    assert(store.has_stage(
                        store.events[i].run_id,
                        store.events[i].stage_instance_id,
                    ));
                }
                lemma_ordered_none(
                    store.events,
                    event_of_stage(run.text(), id.text()),
                    by_sequence(),
                );
                assert(after.stage_rows(other, stage).len() == 0);
                let stored = decoded_events(after.stage_rows(other, stage))->Ok_0;
                assert(stage_events(stored).len() == 0);
            } else {
                assert(store.stage_belongs(other, stage));
            }
        }
        assert forall|i: int| 0 <= i < after.stage_snapshots.len() implies after.has_run(
            (#[trigger] after.stage_snapshots[i]).run_id,
        ) by {
            if i < store.stage_snapshots.len() {
                assert(store.has_run(store.stage_snapshots[i].run_id));
            }
        }
        assert forall|i: int| 0 <= i < after.events.len() implies after.has_stage(
            (#[trigger] after.events[i]).run_id,
            after.events[i].stage_instance_id,
        ) by {
            assert(store.has_stage(store.events[i].run_id, store.events[i].stage_instance_id));
            lemma_first_push(
                store.stage_snapshots,
                row,
                stage_named(store.events[i].stage_instance_id),
            );
        }
        assert forall|i: int| 0 <= i < after.pipeline_snapshots.len() implies after.has_run(
            (#[trigger] after.pipeline_snapshots[i]).run_id,
        ) by {
            assert(store.has_run(store.pipeline_snapshots[i].run_id));
        }
        assert forall|i: int| 0 <= i < after.pipeline_events.len() implies after.has_pipeline(
            (#[trigger] after.pipeline_events[i]).run_id,
        ) by {
            assert(store.has_pipeline(store.pipeline_events[i].run_id));
        }
        lemma_first_index(store.pipeline_snapshots, pipeline_of(run.text()));
    }
}

/// Registering a pipeline keeps a store intact.
pub proof fn lemma_registering_a_pipeline_keeps_integrity(
    store: StoreView,
    run: RunId,
    state: PipelineView,
)
    requires
        store.intact(),
    ensures
        store.with_pipeline(run, state) matches Ok(after) ==> after.intact(),
{
    if let Ok(after) = store.with_pipeline(run, state) {
        let row = new_pipeline(run, state);
        lemma_first_index(store.pipeline_snapshots, pipeline_of(run.text()));
        assert(after.keys_are_unique());
        assert forall|other: RunId|
            (#[trigger] after.run_rows(other)).run is Some implies after.run_rows(other).verified(
            other,
        ) is Ok by {
            lemma_first_push(store.pipeline_snapshots, row, pipeline_of(other.text()));
            lemma_run_names(other, run);
            let before = store.run_rows(other);
            assert(before.verified(other) is Ok);
            if other == run {
                assert(before.pipeline_events.len() == 0);
                let rows = after.run_rows(run);
                assert(rows.replayed_pipeline(row, state, state) == Ok::<PipelineView, StoreError>(
                    state,
                ));
                assert(rows.verified_pipeline() == Ok::<PipelineView, StoreError>(state));
                assert(rows.verified_pipeline_journal() == before.verified_pipeline_journal());
            } else {
                assert(after.run_rows(other) == before);
            }
        }
        assert forall|other: RunId, stage: StageInstanceId| #[trigger]
            after.stage_belongs(other, stage) implies after.stage_recovers(other, stage) by {
            assert(store.stage_belongs(other, stage));
        }
        assert forall|i: int| 0 <= i < after.stage_snapshots.len() implies after.has_run(
            (#[trigger] after.stage_snapshots[i]).run_id,
        ) by {
            assert(store.has_run(store.stage_snapshots[i].run_id));
        }
        assert forall|i: int| 0 <= i < after.pipeline_snapshots.len() implies after.has_run(
            (#[trigger] after.pipeline_snapshots[i]).run_id,
        ) by {
            if i < store.pipeline_snapshots.len() {
                assert(store.has_run(store.pipeline_snapshots[i].run_id));
            }
        }
        assert forall|i: int| 0 <= i < after.events.len() implies after.has_stage(
            (#[trigger] after.events[i]).run_id,
            after.events[i].stage_instance_id,
        ) by {
            assert(store.has_stage(store.events[i].run_id, store.events[i].stage_instance_id));
        }
        assert forall|i: int| 0 <= i < after.pipeline_events.len() implies after.has_pipeline(
            (#[trigger] after.pipeline_events[i]).run_id,
        ) by {
            let name = store.pipeline_events[i].run_id;
            assert(store.has_pipeline(name));
            lemma_first_push(store.pipeline_snapshots, row, pipeline_of(name));
        }
        lemma_count(store.stage_snapshots, stage_in_run(run.text()));
        lemma_first_index(store.stage_snapshots, stage_in_run(run.text()));
    }
}

proof fn lemma_counting_up_keeps_runs(store: StoreView, run: RunId, sequence: u64, name: Seq<char>)
    ensures
        first_index(store.counted_up(run, sequence), run_named(name)) == first_index(
            store.runs,
            run_named(name),
        ),
{
    lemma_first_index(store.runs, run_named(run.text()));
    match first_index(store.runs, run_named(run.text())) {
        Some(index) => {
            let row = RunRowView {
                next_event_sequence: (sequence + 1) as i64,
                ..store.runs[index]
            };
            lemma_first_update(store.runs, index, row, run_named(name));
        },
        None => {},
    }
}

proof fn lemma_stage_commit_keeps_stages(
    store: StoreView,
    request: StageRequest,
    commit: StageCommitView,
    name: Seq<char>,
)
    requires
        store.commits_stage_event(request, commit),
    ensures
        first(store.stage_snapshots, stage_named(name)) matches Some(row) ==> first(
            store.with_stage_commit(commit).stage_snapshots,
            stage_named(name),
        ) matches Some(next) && next.run_id == row.run_id,
{
    let target = stage_named(request.event.stage_instance_id.text());
    lemma_first_index(store.stage_snapshots, target);
    let index = first_index(store.stage_snapshots, target)->Some_0;
    let row = StageRowView {
        control_revision: commit.next.control_revision as i64,
        state: Ok(commit.next),
        ..store.stage_snapshots[index]
    };
    lemma_first_update(store.stage_snapshots, index, row, stage_named(name));
}

/// Appending an event of a stage keeps a store intact.
pub proof fn lemma_appending_a_stage_event_keeps_integrity(store: StoreView, request: StageRequest)
    requires
        store.intact(),
    ensures
        store.with_stage_event(request) matches Ok((after, _)) ==> after.intact(),
{
    if store.with_stage_event(request) matches Ok((_, AppendOutcome::Committed(_))) {
        let commit = store.stage_append_rows(request).decided(request)->Ok_0->Commit_0;
        let after = store.with_stage_commit(commit);
        lemma_stage_commit_is_due(store, request, commit);
        lemma_run_verifies_after_stage_commit(store, request, commit);
        lemma_stage_load_reads_commit(store, request, commit);
        lemma_stage_compare_and_swap_succeeds(store, request, commit);
        lemma_first_index(
            store.stage_snapshots,
            stage_named(request.event.stage_instance_id.text()),
        );
        assert forall|run: RunId|
            (#[trigger] after.run_rows(run)).run is Some implies after.run_rows(run).verified(
            run,
        ) is Ok by {
            lemma_stage_commit_run_rows(store, request, commit, run);
        }
        assert forall|run: RunId, stage: StageInstanceId| #[trigger]
            after.stage_belongs(run, stage) implies after.stage_recovers(run, stage) by {
            lemma_stage_commit_snapshots(store, request, commit, stage);
            lemma_stage_commit_stage_rows(store, request, commit, run, stage);
            lemma_run_names(run, request.run_id);
            assert(store.stage_belongs(run, stage));
        }
        assert forall|i: int| 0 <= i < after.stage_snapshots.len() implies after.has_run(
            (#[trigger] after.stage_snapshots[i]).run_id,
        ) by {
            let name = store.stage_snapshots[i].run_id;
            assert(store.has_run(name));
            lemma_counting_up_keeps_runs(store, request.run_id, commit.record.sequence, name);
            assert(after.stage_snapshots[i].run_id == name);
        }
        assert forall|i: int| 0 <= i < after.pipeline_snapshots.len() implies after.has_run(
            (#[trigger] after.pipeline_snapshots[i]).run_id,
        ) by {
            let name = store.pipeline_snapshots[i].run_id;
            assert(store.has_run(name));
            lemma_counting_up_keeps_runs(store, request.run_id, commit.record.sequence, name);
        }
        assert forall|i: int| 0 <= i < after.events.len() implies after.has_stage(
            (#[trigger] after.events[i]).run_id,
            after.events[i].stage_instance_id,
        ) by {
            lemma_stage_commit_keeps_stages(
                store,
                request,
                commit,
                after.events[i].stage_instance_id,
            );
            if i < store.events.len() {
                assert(store.has_stage(store.events[i].run_id, store.events[i].stage_instance_id));
            }
        }
        assert forall|i: int| 0 <= i < after.pipeline_events.len() implies after.has_pipeline(
            (#[trigger] after.pipeline_events[i]).run_id,
        ) by {
            assert(store.has_pipeline(store.pipeline_events[i].run_id));
        }
        assert forall|i: int, j: int|
            0 <= i < after.stage_snapshots.len() && 0 <= j < after.pipeline_snapshots.len() implies (
        #[trigger] after.stage_snapshots[i]).run_id != (
        #[trigger] after.pipeline_snapshots[j]).run_id by {
            assert(after.stage_snapshots[i].run_id == store.stage_snapshots[i].run_id);
        }
        lemma_first_index(store.events, event_named(request.event_id.text()));
        lemma_first_index(store.pipeline_events, pipeline_event_named(request.event_id.text()));
        lemma_first_index(store.events, event_for_message(request.message_id.text()));
        lemma_first_index(
            store.pipeline_events,
            pipeline_event_for_message(request.message_id.text()),
        );
        assert(after.identifiers_are_unique());
        lemma_first_index(store.runs, run_named(request.run_id.text()));
        assert forall|i: int| 0 <= i < store.runs.len() implies (
        #[trigger] after.runs[i]).run_id == store.runs[i].run_id by {}
        assert(after.runs_are_named());
        assert forall|i: int| 0 <= i < store.stage_snapshots.len() implies (
        #[trigger] after.stage_snapshots[i]).stage_instance_id
            == store.stage_snapshots[i].stage_instance_id by {}
        assert(after.keys_are_unique());
    }
}

/// Appending an event of a pipeline keeps a store intact.
pub proof fn lemma_appending_a_pipeline_event_keeps_integrity(
    store: StoreView,
    request: PipelineRequest,
)
    requires
        store.intact(),
    ensures
        store.with_pipeline_event(request) matches Ok((after, _)) ==> after.intact(),
{
    if store.with_pipeline_event(request) matches Ok((_, AppendPipelineOutcome::Committed(_))) {
        let commit = store.pipeline_append_rows(request).decided(request)->Ok_0->Commit_0;
        let after = store.with_pipeline_commit(commit);
        let target = pipeline_of(request.run_id.text());
        lemma_pipeline_commit_is_due(store, request, commit);
        lemma_pipeline_load_reads_commit(store, request, commit);
        lemma_first_index(store.pipeline_snapshots, target);
        let index = first_index(store.pipeline_snapshots, target)->Some_0;
        let snapshot = PipelineRowView {
            control_revision: commit.next.control_revision as i64,
            state: Ok(commit.next),
            ..store.pipeline_snapshots[index]
        };
        assert(after.pipeline_snapshots == store.pipeline_snapshots.update(index, snapshot));
        assert forall|run: RunId|
            (#[trigger] after.run_rows(run)).run is Some implies after.run_rows(run).verified(
            run,
        ) is Ok by {
            lemma_pipeline_commit_run_rows(store, request, commit, run);
        }
        assert forall|run: RunId, stage: StageInstanceId| #[trigger]
            after.stage_belongs(run, stage) implies after.stage_recovers(run, stage) by {
            assert(store.stage_belongs(run, stage));
        }
        assert forall|i: int| 0 <= i < after.stage_snapshots.len() implies after.has_run(
            (#[trigger] after.stage_snapshots[i]).run_id,
        ) by {
            let name = store.stage_snapshots[i].run_id;
            assert(store.has_run(name));
            lemma_counting_up_keeps_runs(store, request.run_id, commit.record.sequence, name);
        }
        assert forall|i: int| 0 <= i < after.pipeline_snapshots.len() implies after.has_run(
            (#[trigger] after.pipeline_snapshots[i]).run_id,
        ) by {
            let name = store.pipeline_snapshots[i].run_id;
            assert(store.has_run(name));
            lemma_counting_up_keeps_runs(store, request.run_id, commit.record.sequence, name);
            assert(after.pipeline_snapshots[i].run_id == name);
        }
        assert forall|i: int| 0 <= i < after.events.len() implies after.has_stage(
            (#[trigger] after.events[i]).run_id,
            after.events[i].stage_instance_id,
        ) by {
            assert(store.has_stage(store.events[i].run_id, store.events[i].stage_instance_id));
        }
        assert forall|i: int| 0 <= i < after.pipeline_events.len() implies after.has_pipeline(
            (#[trigger] after.pipeline_events[i]).run_id,
        ) by {
            let name = after.pipeline_events[i].run_id;
            lemma_first_update(store.pipeline_snapshots, index, snapshot, pipeline_of(name));
            if i < store.pipeline_events.len() {
                assert(store.has_pipeline(store.pipeline_events[i].run_id));
            }
        }
        assert forall|i: int, j: int|
            0 <= i < after.stage_snapshots.len() && 0 <= j < after.pipeline_snapshots.len() implies (
        #[trigger] after.stage_snapshots[i]).run_id != (
        #[trigger] after.pipeline_snapshots[j]).run_id by {
            assert(after.pipeline_snapshots[j].run_id == store.pipeline_snapshots[j].run_id);
        }
        lemma_first_index(store.events, event_named(request.event_id.text()));
        lemma_first_index(store.pipeline_events, pipeline_event_named(request.event_id.text()));
        lemma_first_index(store.events, event_for_message(request.message_id.text()));
        lemma_first_index(
            store.pipeline_events,
            pipeline_event_for_message(request.message_id.text()),
        );
        assert(after.identifiers_are_unique());
        lemma_first_index(store.runs, run_named(request.run_id.text()));
        assert forall|i: int| 0 <= i < store.runs.len() implies (
        #[trigger] after.runs[i]).run_id == store.runs[i].run_id by {}
        assert(after.runs_are_named());
        assert forall|i: int| 0 <= i < store.pipeline_snapshots.len() implies (
        #[trigger] after.pipeline_snapshots[i]).run_id == store.pipeline_snapshots[i].run_id by {}
        assert(after.keys_are_unique());
    }
}

/// In an intact store every stage loads from its own run, at a revision that counts its
/// events.
pub proof fn lemma_every_stage_loads(store: StoreView, run: RunId, stage: StageInstanceId)
    requires
        store.intact(),
        store.stage_belongs(run, stage),
    ensures
        store.loaded_stage(run, stage) matches Ok(state) && store.loaded_stage_events(
            run,
            stage,
        ) matches Ok(events) && state.control_revision == events.len() && state.stage_instance_id
            == stage,
{
    lemma_first_index(store.stage_snapshots, stage_named(stage.text()));
    let index = first_index(store.stage_snapshots, stage_named(stage.text()))->Some_0;
    assert(store.has_run(store.stage_snapshots[index].run_id));
    assert(store.run_rows(run).run is Some);
    assert(store.stage_recovers(run, stage));
    let initial = store.stage(stage)->Some_0.initial_state->Ok_0;
    let stored = decoded_events(store.stage_rows(run, stage))->Ok_0;
    initial.lemma_revision_counts_events(stage_events(stored));
}

/// In an intact store every registered pipeline loads, at a revision that counts its events.
pub proof fn lemma_every_pipeline_loads(store: StoreView, run: RunId)
    requires
        store.intact(),
        store.has_pipeline(run.text()),
    ensures
        store.loaded_pipeline(run) matches Ok(state) && store.loaded_pipeline_events(
            run,
        ) matches Ok(events) && state.control_revision == events.len(),
{
    lemma_first_index(store.pipeline_snapshots, pipeline_of(run.text()));
    let index = first_index(store.pipeline_snapshots, pipeline_of(run.text()))->Some_0;
    assert(store.has_run(store.pipeline_snapshots[index].run_id));
    let rows = store.run_rows(run);
    assert(rows.run is Some);
    let initial = rows.pipeline->Some_0.initial_state->Ok_0;
    let stored = decoded_pipeline_events(rows.pipeline_events)->Ok_0;
    initial.lemma_revision_counts_events(pipeline_events(stored));
}

} // verus!
