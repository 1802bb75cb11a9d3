//! What a commit changes, and what it leaves alone.

use vstd::prelude::*;

use crate::append::{
    PipelineCommitView, PipelineDecisionView, PipelineRequest, StageCommitView, StageDecisionView,
    StageRequest,
};
use crate::contiguity::{lemma_sequences_are_contiguous, pipeline_row_has, row_has};
use crate::error::StoreError;
use crate::identifier::{RunId, StageInstanceId};
use crate::model::{
    by_pipeline_sequence, by_sequence, event_in_run, event_of_stage, pipeline_event_in_run,
    pipeline_of, run_named, stage_named, StoreView,
};
use crate::recovery::RunRowsView;
use crate::rows::{EventRowView, PipelineEventRowView, PipelineRowView, RunRowView, StageRowView};
use crate::select::{
    first, first_index, lemma_first_index, lemma_first_update, lemma_ordered_members,
    lemma_ordered_push_last, lemma_ordered_push_other, ordered,
};

verus! {

/// Two runs have two names.
pub proof fn lemma_run_names(left: RunId, right: RunId)
    ensures
        left.text() == right.text() <==> left == right,
{
    left.lemma_text(right.text());
    right.lemma_text(right.text());
}

/// Two stages have two names.
pub proof fn lemma_stage_names(left: StageInstanceId, right: StageInstanceId)
    ensures
        left.text() == right.text() <==> left == right,
{
    left.lemma_text(right.text());
    right.lemma_text(right.text());
}

impl StoreView {
    /// The request to append an event of a stage comes to the commit.
    pub open spec fn commits_stage_event(
        self,
        request: StageRequest,
        commit: StageCommitView,
    ) -> bool {
        self.stage_append_rows(request).decided(request) == Ok::<StageDecisionView, StoreError>(
            StageDecisionView::Commit(commit),
        )
    }

    /// The request to append an event of a pipeline comes to the commit.
    pub open spec fn commits_pipeline_event(
        self,
        request: PipelineRequest,
        commit: PipelineCommitView,
    ) -> bool {
        self.pipeline_append_rows(request).decided(request) == Ok::<
            PipelineDecisionView,
            StoreError,
        >(PipelineDecisionView::Commit(commit))
    }
}

proof fn lemma_counted_up(store: StoreView, run: RunId, sequence: u64, other: RunId)
    ensures
        first(store.counted_up(run, sequence), run_named(other.text())) == (if other == run {
            match first(store.runs, run_named(run.text())) {
                Some(row) => Some(
                    RunRowView { next_event_sequence: (sequence + 1) as i64, ..row },
                ),
                None => None,
            }
        } else {
            first(store.runs, run_named(other.text()))
        }),
        first_index(store.counted_up(run, sequence), run_named(other.text())) == first_index(
            store.runs,
            run_named(other.text()),
        ),
{
    lemma_run_names(run, other);
    lemma_first_index(store.runs, run_named(run.text()));
    lemma_first_index(store.runs, run_named(other.text()));
    match first_index(store.runs, run_named(run.text())) {
        Some(index) => {
            let row = RunRowView {
                next_event_sequence: (sequence + 1) as i64,
                ..store.runs[index]
            };
            lemma_first_update(store.runs, index, row, run_named(other.text()));
        },
        None => {},
    }
}

/// Committing an event of a stage adds it to the run's journal and counts the run up; it
/// leaves every other run alone.
pub proof fn lemma_stage_commit_run_rows(
    store: StoreView,
    request: StageRequest,
    commit: StageCommitView,
    run: RunId,
)
    requires
        store.commits_stage_event(request, commit),
    ensures
        store.with_stage_commit(commit).run_rows(run) == (if run == request.run_id {
            RunRowsView {
                run: Some(
                    RunRowView {
                        next_event_sequence: (commit.record.sequence + 1) as i64,
                        ..store.run_rows(run).run->Some_0
                    },
                ),
                events: store.run_rows(run).events.push(EventRowView::of_record(commit.record)),
                ..store.run_rows(run)
            }
        } else {
            store.run_rows(run)
        }),
{
    let after = store.with_stage_commit(commit);
    let row = EventRowView::of_record(commit.record);
    let before = store.run_rows(run);
    lemma_run_names(run, request.run_id);
    lemma_counted_up(store, request.run_id, commit.record.sequence, run);
    if run == request.run_id {
        lemma_sequences_are_contiguous(before, run);
        assert forall|i: int| 0 <= i < before.events.len() implies by_sequence()(
            #[trigger] before.events[i],
        ) <= by_sequence()(row) by {
            assert(row_has(before.events, before.events[i].sequence as int));
        }
        lemma_ordered_push_last(store.events, row, event_in_run(run.text()), by_sequence());
    } else {
        lemma_ordered_push_other(store.events, row, event_in_run(run.text()), by_sequence());
    }
    assert(after.run_rows(run).events == ordered(
        store.events.push(row),
        event_in_run(run.text()),
        by_sequence(),
    ));
}

/// Committing an event of a stage replaces the stage's snapshot, and no other.
pub proof fn lemma_stage_commit_snapshots(
    store: StoreView,
    request: StageRequest,
    commit: StageCommitView,
    stage: StageInstanceId,
)
    requires
        store.commits_stage_event(request, commit),
    ensures
        store.with_stage_commit(commit).stage(stage) == (if stage
            == request.event.stage_instance_id {
            Some(
                StageRowView {
                    control_revision: commit.next.control_revision as i64,
                    state: Ok(commit.next),
                    ..store.stage(stage)->Some_0
                },
            )
        } else {
            store.stage(stage)
        }),
{
    let target = request.event.stage_instance_id;
    lemma_stage_names(stage, target);
    lemma_first_index(store.stage_snapshots, stage_named(target.text()));
    lemma_first_index(store.stage_snapshots, stage_named(stage.text()));
    let index = first_index(store.stage_snapshots, stage_named(target.text()))->Some_0;
    let row = StageRowView {
        control_revision: commit.next.control_revision as i64,
        state: Ok(commit.next),
        ..store.stage_snapshots[index]
    };
    lemma_first_update(store.stage_snapshots, index, row, stage_named(stage.text()));
}

/// Committing an event of a stage adds it to the stage's journal, and to no other's.
pub proof fn lemma_stage_commit_stage_rows(
    store: StoreView,
    request: StageRequest,
    commit: StageCommitView,
    run: RunId,
    stage: StageInstanceId,
)
    requires
        store.commits_stage_event(request, commit),
    ensures
        store.with_stage_commit(commit).stage_rows(run, stage) == (if run == request.run_id
            && stage == request.event.stage_instance_id {
            store.stage_rows(run, stage).push(EventRowView::of_record(commit.record))
        } else {
            store.stage_rows(run, stage)
        }),
{
    let row = EventRowView::of_record(commit.record);
    let rows = store.stage_rows(run, stage);
    let matches = event_of_stage(run.text(), stage.text());
    lemma_run_names(run, request.run_id);
    lemma_stage_names(stage, request.event.stage_instance_id);
    if run == request.run_id && stage == request.event.stage_instance_id {
        let journal = store.run_rows(run).events;
        lemma_sequences_are_contiguous(store.run_rows(run), run);
        lemma_ordered_members(store.events, matches, by_sequence());
        lemma_ordered_members(store.events, event_in_run(run.text()), by_sequence());
        assert forall|i: int| 0 <= i < rows.len() implies by_sequence()(#[trigger] rows[i])
            <= by_sequence()(row) by {
            let k = choose|k: int| 0 <= k < store.events.len() && store.events[k] == rows[i];
            assert(event_in_run(run.text())(store.events[k]));
            assert(journal.contains(rows[i]));
            let j = choose|j: int| 0 <= j < journal.len() && journal[j] == rows[i];
            assert(row_has(journal, journal[j].sequence as int));
        }
        lemma_ordered_push_last(store.events, row, matches, by_sequence());
    } else {
        lemma_ordered_push_other(store.events, row, matches, by_sequence());
    }
}

/// Committing an event of a pipeline adds it to the run's pipeline journal, replaces the
/// pipeline's snapshot and counts the run up; it leaves every other run alone.
pub proof fn lemma_pipeline_commit_run_rows(
    store: StoreView,
    request: PipelineRequest,
    commit: PipelineCommitView,
    run: RunId,
)
    requires
        store.commits_pipeline_event(request, commit),
    ensures
        store.with_pipeline_commit(commit).run_rows(run) == (if run == request.run_id {
            RunRowsView {
                run: Some(
                    RunRowView {
                        next_event_sequence: (commit.record.sequence + 1) as i64,
                        ..store.run_rows(run).run->Some_0
                    },
                ),
                pipeline: Some(
                    PipelineRowView {
                        control_revision: commit.next.control_revision as i64,
                        state: Ok(commit.next),
                        ..store.run_rows(run).pipeline->Some_0
                    },
                ),
                pipeline_events: store.run_rows(run).pipeline_events.push(
                    PipelineEventRowView::of_record(commit.record),
                ),
                ..store.run_rows(run)
            }
        } else {
            store.run_rows(run)
        }),
{
    let row = PipelineEventRowView::of_record(commit.record);
    let before = store.run_rows(run);
    lemma_run_names(run, request.run_id);
    lemma_counted_up(store, request.run_id, commit.record.sequence, run);
    lemma_first_index(store.pipeline_snapshots, pipeline_of(request.run_id.text()));
    lemma_first_index(store.pipeline_snapshots, pipeline_of(run.text()));
    let index = first_index(
        store.pipeline_snapshots,
        pipeline_of(request.run_id.text()),
    )->Some_0;
    let snapshot = PipelineRowView {
        control_revision: commit.next.control_revision as i64,
        state: Ok(commit.next),
        ..store.pipeline_snapshots[index]
    };
    lemma_first_update(store.pipeline_snapshots, index, snapshot, pipeline_of(run.text()));
    let matches = pipeline_event_in_run(run.text());
    if run == request.run_id {
        lemma_sequences_are_contiguous(before, run);
        assert forall|i: int| 0 <= i < before.pipeline_events.len() implies by_pipeline_sequence()(
            #[trigger] before.pipeline_events[i],
        ) <= by_pipeline_sequence()(row) by {
            assert(pipeline_row_has(
                before.pipeline_events,
                before.pipeline_events[i].sequence as int,
            ));
        }
        lemma_ordered_push_last(store.pipeline_events, row, matches, by_pipeline_sequence());
    } else {
        lemma_ordered_push_other(store.pipeline_events, row, matches, by_pipeline_sequence());
    }
}

} // verus!
