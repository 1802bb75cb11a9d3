//! The state of a pipeline: which stages it is made of, and which of them are scheduled.

use vstd::prelude::*;

use crate::digest::Sha256Digest;
use crate::identifier::{ArtifactId, StageInstanceId};
use crate::select::{first_index, lemma_first_index, lemma_is_first_index, lemma_no_first_index};
use crate::stage::{StageState, MAX_CONTROL_REVISION};

verus! {

/// A stage of a pipeline as its definition gives it.
#[derive(Debug)]
pub struct PipelineNodeDefinition {
    pub stage: StageState,
    /// The stages that have to come first.
    pub needs: Vec<StageInstanceId>,
    /// The artifacts that have to be there first.
    pub required_input_artifact_ids: Vec<ArtifactId>,
}

/// A stage of a pipeline.
#[derive(Debug)]
pub struct PipelineNode {
    pub stage: StageState,
    pub needs: Vec<StageInstanceId>,
    pub required_input_artifact_ids: Vec<ArtifactId>,
    pub scheduled: bool,
}

/// The state of a pipeline.
#[derive(Debug)]
pub struct PipelineState {
    pub definition_digest: Sha256Digest,
    /// How many events the pipeline has taken.
    pub control_revision: u64,
    pub nodes: Vec<PipelineNode>,
}

/// A stage of a pipeline, as a value.
#[verifier::ext_equal]
pub struct NodeView {
    pub stage: StageState,
    pub needs: Seq<StageInstanceId>,
    pub required_input_artifact_ids: Seq<ArtifactId>,
    pub scheduled: bool,
}

/// The state of a pipeline, as a value.
#[verifier::ext_equal]
pub struct PipelineView {
    pub definition_digest: Sha256Digest,
    pub control_revision: u64,
    pub nodes: Seq<NodeView>,
}

/// What an event says happened to a pipeline.
#[derive(Clone, Copy, Debug, PartialEq, Eq, Structural)]
pub enum PipelineEventKind {
    StageScheduled { stage_instance_id: StageInstanceId },
}

/// An event of a pipeline, which applies at one control revision.
#[derive(Clone, Copy, Debug, PartialEq, Eq, Structural)]
pub struct PipelineEvent {
    pub prior_control_revision: u64,
    pub kind: PipelineEventKind,
}

/// What a pipeline can be asked to do.
#[derive(Clone, Copy, Debug, PartialEq, Eq, Structural)]
pub enum PipelineCommand {
    ScheduleStage { expected_revision: u64, stage_instance_id: StageInstanceId },
}

/// Why a pipeline takes neither a command nor an event.
#[derive(Clone, Copy, Debug, PartialEq, Eq, Structural)]
pub enum PipelineTransitionError {
    /// The revision is not the one that the pipeline is at.
    StaleRevision,
    /// The pipeline is at the largest revision.
    RevisionExhausted,
    /// The pipeline has no such stage.
    UnknownStage,
    /// The stage is scheduled already.
    AlreadyScheduled,
    /// Something that the stage needs is outstanding.
    NeedsOutstanding,
}

/// Why a definition makes no pipeline.
#[derive(Clone, Copy, Debug, PartialEq, Eq, Structural)]
pub enum PipelineDefinitionError {
    /// Something has happened to one of the stages already.
    StageNotPristine,
    /// Two of the stages are the same instance.
    DuplicateStage,
    /// A stage needs one that the pipeline does not have.
    UnknownNeed,
}

impl PipelineTransitionError {
    /// What the error says to a reader.
    pub open spec fn text(self) -> Seq<char> {
        match self {
            PipelineTransitionError::StaleRevision => "control revision is not current"@,
            PipelineTransitionError::RevisionExhausted => "control revision is exhausted"@,
            PipelineTransitionError::UnknownStage => "pipeline has no such stage"@,
            PipelineTransitionError::AlreadyScheduled => "stage is scheduled already"@,
            PipelineTransitionError::NeedsOutstanding => "stage needs are outstanding"@,
        }
    }

    /// What the error says to a reader.
    pub fn message(&self) -> (message: &'static str)
        ensures
            message@ == self.text(),
    {
        match self {
            PipelineTransitionError::StaleRevision => "control revision is not current",
            PipelineTransitionError::RevisionExhausted => "control revision is exhausted",
            PipelineTransitionError::UnknownStage => "pipeline has no such stage",
            PipelineTransitionError::AlreadyScheduled => "stage is scheduled already",
            PipelineTransitionError::NeedsOutstanding => "stage needs are outstanding",
        }
    }
}

impl View for PipelineNodeDefinition {
    type V = NodeView;

    open spec fn view(&self) -> NodeView {
        NodeView {
            stage: self.stage,
            needs: self.needs@,
            required_input_artifact_ids: self.required_input_artifact_ids@,
            scheduled: false,
        }
    }
}

impl View for PipelineNode {
    type V = NodeView;

    open spec fn view(&self) -> NodeView {
        NodeView {
            stage: self.stage,
            needs: self.needs@,
            required_input_artifact_ids: self.required_input_artifact_ids@,
            scheduled: self.scheduled,
        }
    }
}

impl View for PipelineState {
    type V = PipelineView;

    open spec fn view(&self) -> PipelineView {
        PipelineView {
            definition_digest: self.definition_digest,
            control_revision: self.control_revision,
            nodes: self.nodes@.map_values(|node: PipelineNode| node@),
        }
    }
}

/// The nodes of a definition.
pub open spec fn defined_nodes(definitions: Seq<PipelineNodeDefinition>) -> Seq<NodeView> {
    definitions.map_values(|definition: PipelineNodeDefinition| definition@)
}

/// Where in a pipeline a stage stands.
pub open spec fn node_index(nodes: Seq<NodeView>, id: StageInstanceId) -> Option<int> {
    first_index(nodes, |node: NodeView| node.stage.stage_instance_id == id)
}

/// Some stage of the pipeline has been touched.
pub open spec fn some_stage_touched(nodes: Seq<NodeView>) -> bool {
    exists|i: int| 0 <= i < nodes.len() && !(#[trigger] nodes[i]).stage.untouched()
}

/// Some stage stands in the pipeline twice.
pub open spec fn some_stage_repeated(nodes: Seq<NodeView>) -> bool {
    exists|i: int, j: int|
        0 <= i < j < nodes.len() && (#[trigger] nodes[i]).stage.stage_instance_id == (
        #[trigger] nodes[j]).stage.stage_instance_id
}

/// A stage needs one that the pipeline does not have.
pub open spec fn needs_missing(nodes: Seq<NodeView>, node: NodeView) -> bool {
    exists|k: int|
        0 <= k < node.needs.len() && node_index(nodes, #[trigger] node.needs[k]) is None
}

/// Some stage needs one that the pipeline does not have.
pub open spec fn some_need_missing(nodes: Seq<NodeView>) -> bool {
    exists|i: int| 0 <= i < nodes.len() && needs_missing(nodes, #[trigger] nodes[i])
}

impl PipelineView {
    /// The pipeline that a definition makes, or why it makes none.
    pub open spec fn defined(definition_digest: Sha256Digest, nodes: Seq<NodeView>) -> Result<
        Self,
        PipelineDefinitionError,
    > {
        if some_stage_touched(nodes) {
            Err(PipelineDefinitionError::StageNotPristine)
        } else if some_stage_repeated(nodes) {
            Err(PipelineDefinitionError::DuplicateStage)
        } else if some_need_missing(nodes) {
            Err(PipelineDefinitionError::UnknownNeed)
        } else {
            Ok(PipelineView { definition_digest, control_revision: 0, nodes })
        }
    }

    /// Nothing has happened to the pipeline.
    pub open spec fn untouched(self) -> bool {
        &&& self.control_revision == 0
        &&& forall|i: int|
            0 <= i < self.nodes.len() ==> !(#[trigger] self.nodes[i]).scheduled
                && self.nodes[i].stage.untouched()
    }

    /// The state after an event, or why the pipeline does not take it.
    pub open spec fn applied(self, event: PipelineEvent) -> Result<Self, PipelineTransitionError> {
        if event.prior_control_revision != self.control_revision {
            Err(PipelineTransitionError::StaleRevision)
        } else if self.control_revision >= MAX_CONTROL_REVISION {
            Err(PipelineTransitionError::RevisionExhausted)
        } else {
            match event.kind {
                PipelineEventKind::StageScheduled { stage_instance_id } => match node_index(
                    self.nodes,
                    stage_instance_id,
                ) {
                    None => Err(PipelineTransitionError::UnknownStage),
                    Some(index) => {
                        let node = self.nodes[index];
                        if node.scheduled {
                            Err(PipelineTransitionError::AlreadyScheduled)
                        } else if node.needs.len() > 0 || node.required_input_artifact_ids.len()
                            > 0 {
                            Err(PipelineTransitionError::NeedsOutstanding)
                        } else {
                            Ok(
                                PipelineView {
                                    control_revision: (self.control_revision + 1) as u64,
                                    nodes: self.nodes.update(
                                        index,
                                        NodeView { scheduled: true, ..node },
                                    ),
                                    ..self
                                },
                            )
                        }
                    },
                },
            }
        }
    }

    /// The event that a command leads to, or why the pipeline refuses it.
    pub open spec fn decided(self, command: PipelineCommand) -> Result<
        PipelineEvent,
        PipelineTransitionError,
    > {
        let event = match command {
            PipelineCommand::ScheduleStage { expected_revision, stage_instance_id } => {
                PipelineEvent {
                    prior_control_revision: expected_revision,
                    kind: PipelineEventKind::StageScheduled { stage_instance_id },
                }
            },
        };
        match self.applied(event) {
            Ok(_) => Ok(event),
            Err(error) => Err(error),
        }
    }

    /// The state after a history of events, or why one of them, the first that fails, does
    /// not apply.
    pub open spec fn replayed(self, events: Seq<PipelineEvent>) -> Result<
        Self,
        PipelineTransitionError,
    >
        decreases events.len(),
    {
        if events.len() == 0 {
            Ok(self)
        } else {
            match self.replayed(events.drop_last()) {
                Ok(state) => state.applied(events.last()),
                Err(error) => Err(error),
            }
        }
    }

    /// Applying an event counts one revision up and leaves the definition alone.
    pub proof fn lemma_applied(self, event: PipelineEvent)
        ensures
            self.applied(event) matches Ok(next) ==> {
                &&& next.definition_digest == self.definition_digest
                &&& next.nodes.len() == self.nodes.len()
                &&& next.control_revision == self.control_revision + 1
                &&& next.control_revision <= MAX_CONTROL_REVISION
                &&& event.prior_control_revision == self.control_revision
            },
    {
        match event.kind {
            PipelineEventKind::StageScheduled { stage_instance_id } => lemma_first_index(
                self.nodes,
                |node: NodeView| node.stage.stage_instance_id == stage_instance_id,
            ),
        }
    }

    /// A decided event is one that the pipeline takes.
    pub proof fn lemma_decided_event_applies(self, command: PipelineCommand)
        ensures
            self.decided(command) matches Ok(event) ==> self.applied(event) is Ok,
    {
    }

    /// An event applies at one revision only: a pipeline that took it does not take it again.
    pub proof fn lemma_event_applies_once(self, event: PipelineEvent)
        ensures
            self.applied(event) matches Ok(next) ==> next.applied(event) == Err::<
                PipelineView,
                PipelineTransitionError,
            >(PipelineTransitionError::StaleRevision),
    {
    }

    /// Replaying a history in two parts is replaying it whole.
    pub proof fn lemma_replay_in_parts(
        self,
        first: Seq<PipelineEvent>,
        second: Seq<PipelineEvent>,
    )
        ensures
            self.replayed(first + second) == (match self.replayed(first) {
                Ok(state) => state.replayed(second),
                Err(error) => Err(error),
            }),
        decreases second.len(),
    {
        if second.len() == 0 {
            assert(first + second =~= first);
        } else {
            assert((first + second).drop_last() =~= first + second.drop_last());
            self.lemma_replay_in_parts(first, second.drop_last());
        }
    }

    /// A pipeline's revision counts the events that it took, and its definition stays.
    pub proof fn lemma_revision_counts_events(self, events: Seq<PipelineEvent>)
        ensures
            self.replayed(events) matches Ok(state) ==> state.control_revision
                == self.control_revision + events.len() && state.definition_digest
                == self.definition_digest,
        decreases events.len(),
    {
        if events.len() > 0 {
            self.lemma_revision_counts_events(events.drop_last());
        }
    }
}

fn copy_stage_ids(ids: &Vec<StageInstanceId>) -> (copy: Vec<StageInstanceId>)
    ensures
        copy@ == ids@,
{
    let mut copy: Vec<StageInstanceId> = Vec::new();
    let mut i: usize = 0;
    while i < ids.len()
        invariant
            i <= ids.len(),
            copy@ == ids@.take(i as int),
        decreases ids.len() - i,
    {
        copy.push(ids[i]);
        assert(ids@.take(i + 1) =~= ids@.take(i as int).push(ids@[i as int]));
        i = i + 1;
    }
    assert(ids@.take(i as int) =~= ids@);
    copy
}

fn copy_artifact_ids(ids: &Vec<ArtifactId>) -> (copy: Vec<ArtifactId>)
    ensures
        copy@ == ids@,
{
    let mut copy: Vec<ArtifactId> = Vec::new();
    let mut i: usize = 0;
    while i < ids.len()
        invariant
            i <= ids.len(),
            copy@ == ids@.take(i as int),
        decreases ids.len() - i,
    {
        copy.push(ids[i]);
        assert(ids@.take(i + 1) =~= ids@.take(i as int).push(ids@[i as int]));
        i = i + 1;
    }
    assert(ids@.take(i as int) =~= ids@);
    copy
}

fn same_stage_ids(left: &Vec<StageInstanceId>, right: &Vec<StageInstanceId>) -> (same: bool)
    ensures
        same == (left@ == right@),
{
    if left.len() != right.len() {
        return false;
    }
    let mut i: usize = 0;
    while i < left.len()
        invariant
            i <= left.len(),
            left.len() == right.len(),
            forall|k: int| 0 <= k < i ==> left@[k] == right@[k],
        decreases left.len() - i,
    {
        if left[i] != right[i] {
            return false;
        }
        i = i + 1;
    }
    assert(left@ =~= right@);
    true
}

fn same_artifact_ids(left: &Vec<ArtifactId>, right: &Vec<ArtifactId>) -> (same: bool)
    ensures
        same == (left@ == right@),
{
    if left.len() != right.len() {
        return false;
    }
    let mut i: usize = 0;
    while i < left.len()
        invariant
            i <= left.len(),
            left.len() == right.len(),
            forall|k: int| 0 <= k < i ==> left@[k] == right@[k],
        decreases left.len() - i,
    {
        if left[i] != right[i] {
            return false;
        }
        i = i + 1;
    }
    assert(left@ =~= right@);
    true
}

impl PipelineNode {
    fn copy(&self) -> (node: Self)
        ensures
            node@ == self@,
    {
        PipelineNode {
            stage: self.stage,
            needs: copy_stage_ids(&self.needs),
            required_input_artifact_ids: copy_artifact_ids(&self.required_input_artifact_ids),
            scheduled: self.scheduled,
        }
    }

    fn same(&self, other: &Self) -> (same: bool)
        ensures
            same == (self@ == other@),
    {
        self.stage == other.stage && self.scheduled == other.scheduled && same_stage_ids(
            &self.needs,
            &other.needs,
        ) && same_artifact_ids(
            &self.required_input_artifact_ids,
            &other.required_input_artifact_ids,
        )
    }
}

fn definition_index(definitions: &Vec<PipelineNodeDefinition>, id: StageInstanceId) -> (index:
    Option<usize>)
    ensures
        match index {
            Some(i) => node_index(defined_nodes(definitions@), id) == Some(i as int),
            None => node_index(defined_nodes(definitions@), id) is None,
        },
{
    let ghost nodes = defined_nodes(definitions@);
    let ghost matches = |node: NodeView| node.stage.stage_instance_id == id;
    let mut i: usize = 0;
    while i < definitions.len()
        invariant
            i <= definitions.len(),
            nodes == defined_nodes(definitions@),
            matches == (|node: NodeView| node.stage.stage_instance_id == id),
            forall|k: int| 0 <= k < i ==> !matches(#[trigger] nodes[k]),
        decreases definitions.len() - i,
    {
        assert(nodes[i as int] == definitions@[i as int]@);
        if definitions[i].stage.stage_instance_id == id {
            proof {
                lemma_is_first_index(nodes, matches, i as int);
            }
            return Some(i);
        }
        i = i + 1;
    }
    proof {
        lemma_no_first_index(nodes, matches);
    }
    None
}

impl PipelineState {
    /// A copy of the state.
    pub fn copy(&self) -> (state: Self)
        ensures
            state@ == self@,
    {
        let mut nodes: Vec<PipelineNode> = Vec::new();
        let mut i: usize = 0;
        while i < self.nodes.len()
            invariant
                i <= self.nodes.len(),
                nodes.len() == i,
                forall|k: int| 0 <= k < i ==> (#[trigger] nodes@[k])@ == self.nodes@[k]@,
            decreases self.nodes.len() - i,
        {
            nodes.push(self.nodes[i].copy());
            i = i + 1;
        }
        let state = PipelineState {
            definition_digest: self.definition_digest,
            control_revision: self.control_revision,
            nodes,
        };
        assert(state@.nodes =~= self@.nodes);
        state
    }

    /// Whether two states are the same.
    pub fn same(&self, other: &Self) -> (same: bool)
        ensures
            same == (self@ == other@),
    {
        if self.definition_digest != other.definition_digest || self.control_revision
            != other.control_revision || self.nodes.len() != other.nodes.len() {
            assert(self@.nodes.len() == self.nodes.len());
            assert(other@.nodes.len() == other.nodes.len());
            return false;
        }
        let mut i: usize = 0;
        while i < self.nodes.len()
            invariant
                i <= self.nodes.len(),
                self.nodes.len() == other.nodes.len(),
                forall|k: int| 0 <= k < i ==> (#[trigger] self.nodes@[k])@ == other.nodes@[k]@,
            decreases self.nodes.len() - i,
        {
            if !self.nodes[i].same(&other.nodes[i]) {
                assert(self@.nodes[i as int] != other@.nodes[i as int]);
                return false;
            }
            i = i + 1;
        }
        assert(self@.nodes =~= other@.nodes);
        true
    }

    fn index(&self, id: StageInstanceId) -> (index: Option<usize>)
        ensures
            match index {
                Some(i) => i < self.nodes.len() && node_index(self@.nodes, id) == Some(i as int),
                None => node_index(self@.nodes, id) is None,
            },
    {
        let ghost nodes = self@.nodes;
        let ghost matches = |node: NodeView| node.stage.stage_instance_id == id;
        let mut i: usize = 0;
        while i < self.nodes.len()
            invariant
                i <= self.nodes.len(),
                nodes == self@.nodes,
                matches == (|node: NodeView| node.stage.stage_instance_id == id),
                forall|k: int| 0 <= k < i ==> !matches(#[trigger] nodes[k]),
            decreases self.nodes.len() - i,
        {
            assert(nodes[i as int] == self.nodes@[i as int]@);
            if self.nodes[i].stage.stage_instance_id == id {
                proof {
                    lemma_is_first_index(nodes, matches, i as int);
                }
                return Some(i);
            }
            i = i + 1;
        }
        proof {
            lemma_no_first_index(nodes, matches);
        }
        None
    }

    /// The pipeline that a definition makes, with nothing scheduled yet.
    pub fn new(definition_digest: Sha256Digest, definitions: Vec<PipelineNodeDefinition>) -> (state:
        Result<Self, PipelineDefinitionError>)
        ensures
            match state {
                Ok(state) => PipelineView::defined(definition_digest, defined_nodes(definitions@))
                    == Ok::<PipelineView, PipelineDefinitionError>(state@),
                Err(error) => PipelineView::defined(
                    definition_digest,
                    defined_nodes(definitions@),
                ) == Err::<PipelineView, PipelineDefinitionError>(error),
            },
    {
        let ghost defined = defined_nodes(definitions@);
        let mut nodes: Vec<PipelineNode> = Vec::new();
        let mut i: usize = 0;
        while i < definitions.len()
            invariant
                i <= definitions.len(),
                defined == defined_nodes(definitions@),
                nodes.len() == i,
                forall|k: int| 0 <= k < i ==> (#[trigger] nodes@[k])@ == defined[k],
                forall|k: int| 0 <= k < i ==> (#[trigger] defined[k]).stage.untouched(),
            decreases definitions.len() - i,
        {
            assert(defined[i as int] == definitions@[i as int]@);
            if !definitions[i].stage.is_pristine() {
                return Err(PipelineDefinitionError::StageNotPristine);
            }
            nodes.push(
                PipelineNode {
                    stage: definitions[i].stage,
                    needs: copy_stage_ids(&definitions[i].needs),
                    required_input_artifact_ids: copy_artifact_ids(
                        &definitions[i].required_input_artifact_ids,
                    ),
                    scheduled: false,
                },
            );
            i = i + 1;
        }
        let mut j: usize = 0;
        while j < definitions.len()
            invariant
                j <= definitions.len(),
                defined == defined_nodes(definitions@),
                !some_stage_touched(defined),
                forall|a: int, b: int|
                    0 <= a < b < j ==> (#[trigger] defined[a]).stage.stage_instance_id != (
                    #[trigger] defined[b]).stage.stage_instance_id,
            decreases definitions.len() - j,
        {
            let id = definitions[j].stage.stage_instance_id;
            assert(defined[j as int] == definitions@[j as int]@);
            match definition_index(&definitions, id) {
                Some(first) => {
                    proof {
                        lemma_first_index(
                            defined,
                            |node: NodeView| node.stage.stage_instance_id == id,
                        );
                        assert(defined[first as int].stage.stage_instance_id == id);
                    }
                    if first < j {
                        return Err(PipelineDefinitionError::DuplicateStage);
                    }
                },
                None => {},
            }
            proof {
                lemma_first_index(defined, |node: NodeView| node.stage.stage_instance_id == id);
            }
            j = j + 1;
        }
        let mut n: usize = 0;
        while n < definitions.len()
            invariant
                n <= definitions.len(),
                defined == defined_nodes(definitions@),
                !some_stage_touched(defined),
                !some_stage_repeated(defined),
                forall|k: int| 0 <= k < n ==> !needs_missing(defined, #[trigger] defined[k]),
            decreases definitions.len() - n,
        {
            assert(defined[n as int] == definitions@[n as int]@);
            let mut k: usize = 0;
            while k < definitions[n].needs.len()
                invariant
                    n < definitions.len(),
                    defined == defined_nodes(definitions@),
                    !some_stage_touched(defined),
                    !some_stage_repeated(defined),
                    defined[n as int] == definitions@[n as int]@,
                    k <= definitions@[n as int].needs.len(),
                    forall|h: int|
                        0 <= h < k ==> node_index(
                            defined,
                            #[trigger] definitions@[n as int].needs@[h],
                        ) is Some,
                decreases definitions@[n as int].needs.len() - k,
            {
                if definition_index(&definitions, definitions[n].needs[k]).is_none() {
                    assert(node_index(defined, defined[n as int].needs[k as int]) is None);
                    assert(needs_missing(defined, defined[n as int]));
                    return Err(PipelineDefinitionError::UnknownNeed);
                }
                k = k + 1;
            }
            n = n + 1;
        }
        let state = PipelineState { definition_digest, control_revision: 0, nodes };
        assert(state@.nodes =~= defined);
        Ok(state)
    }

    /// Whether nothing has happened to the pipeline.
    pub fn is_pristine(&self) -> (pristine: bool)
        ensures
            pristine == self@.untouched(),
    {
        if self.control_revision != 0 {
            return false;
        }
        let mut i: usize = 0;
        while i < self.nodes.len()
            invariant
                i <= self.nodes.len(),
                forall|k: int|
                    0 <= k < i ==> !(#[trigger] self@.nodes[k]).scheduled
                        && self@.nodes[k].stage.untouched(),
            decreases self.nodes.len() - i,
        {
            assert(self@.nodes[i as int] == self.nodes@[i as int]@);
            if self.nodes[i].scheduled || !self.nodes[i].stage.is_pristine() {
                return false;
            }
            i = i + 1;
        }
        true
    }

    /// The stage with the given identifier.
    pub fn stage(&self, id: &StageInstanceId) -> (stage: Option<&StageState>)
        ensures
            match stage {
                Some(stage) => node_index(self@.nodes, *id) matches Some(index) && *stage
                    == self@.nodes[index].stage,
                None => node_index(self@.nodes, *id) is None,
            },
    {
        match self.index(*id) {
            Some(i) => {
                assert(self@.nodes[i as int] == self.nodes@[i as int]@);
                Some(&self.nodes[i].stage)
            },
            None => None,
        }
    }

    /// The state after an event, or why the pipeline does not take it.
    pub fn apply(&self, event: &PipelineEvent) -> (next: Result<Self, PipelineTransitionError>)
        ensures
            match next {
                Ok(next) => self@.applied(*event) == Ok::<PipelineView, PipelineTransitionError>(
                    next@,
                ),
                Err(error) => self@.applied(*event) == Err::<
                    PipelineView,
                    PipelineTransitionError,
                >(error),
            },
    {
        if event.prior_control_revision != self.control_revision {
            return Err(PipelineTransitionError::StaleRevision);
        }
        if self.control_revision >= MAX_CONTROL_REVISION {
            return Err(PipelineTransitionError::RevisionExhausted);
        }
        match event.kind {
            PipelineEventKind::StageScheduled { stage_instance_id } => {
                let index: usize = match self.index(stage_instance_id) {
                    Some(index) => index,
                    None => return Err(PipelineTransitionError::UnknownStage),
                };
                assert(self@.nodes[index as int] == self.nodes@[index as int]@);
                if self.nodes[index].scheduled {
                    return Err(PipelineTransitionError::AlreadyScheduled);
                }
                if self.nodes[index].needs.len() > 0
                    || self.nodes[index].required_input_artifact_ids.len() > 0 {
                    return Err(PipelineTransitionError::NeedsOutstanding);
                }
                let mut next = self.copy();
                let mut node = self.nodes[index].copy();
                node.scheduled = true;
                assert(next@.nodes.len() == self@.nodes.len());
                next.nodes.set(index, node);
                next.control_revision = self.control_revision + 1;
                proof {
                    let expected = self@.applied(*event)->Ok_0;
                    assert forall|k: int| 0 <= k < next@.nodes.len() implies #[trigger]
                        next@.nodes[k] == expected.nodes[k] by {}
                    assert(next@.nodes =~= expected.nodes);
                }
                Ok(next)
            },
        }
    }

    /// The event that a command leads to: one that the pipeline takes.
    pub fn decide(&self, command: PipelineCommand) -> (event: Result<
        PipelineEvent,
        PipelineTransitionError,
    >)
        ensures
            event == self@.decided(command),
    {
        let event = match command {
            PipelineCommand::ScheduleStage { expected_revision, stage_instance_id } => {
                PipelineEvent {
                    prior_control_revision: expected_revision,
                    kind: PipelineEventKind::StageScheduled { stage_instance_id },
                }
            },
        };
        match self.apply(&event) {
            Ok(_) => Ok(event),
            Err(error) => Err(error),
        }
    }
}

/// The state that a history of events leads to.
pub fn replay_pipeline(initial: &PipelineState, events: &Vec<PipelineEvent>) -> (state: Result<
    PipelineState,
    PipelineTransitionError,
>)
    ensures
        match state {
            Ok(state) => initial@.replayed(events@) == Ok::<
                PipelineView,
                PipelineTransitionError,
            >(state@),
            Err(error) => initial@.replayed(events@) == Err::<
                PipelineView,
                PipelineTransitionError,
            >(error),
        },
{
    let mut state = initial.copy();
    let mut i: usize = 0;
    while i < events.len()
        invariant
            i <= events.len(),
            initial@.replayed(events@.take(i as int)) == Ok::<
                PipelineView,
                PipelineTransitionError,
            >(state@),
        decreases events.len() - i,
    {
        assert(events@.take(i + 1).drop_last() =~= events@.take(i as int));
        match state.apply(&events[i]) {
            Ok(next) => {
                state = next;
            },
            Err(error) => {
                proof {
                    assert(events@ =~= events@.take(i + 1) + events@.skip(i + 1));
                    initial@.lemma_replay_in_parts(events@.take(i + 1), events@.skip(i + 1));
                }
                return Err(error);
            },
        }
        i = i + 1;
    }
    assert(events@.take(i as int) =~= events@);
    Ok(state)
}

} // verus!
