//! The restructuring engine: what to do next, given what has happened.
//!
//! A restructuring plans its work, creates the destination root and one
//! directory for each subject, copies the files chunk by chunk, and is done
//! once every chunk has completed. The engine decides; whoever drives it
//! creates the directories and copies the files, and reports back.

use vstd::prelude::*;
use vstd::string::StringExecFns;

use crate::catalog::Catalog;
use crate::chunking::chunk_views;
use crate::chunking::chunks_of;
use crate::chunking::lemma_chunks_of_mapped;
use crate::chunking::split_evenly;
use crate::errors::CliError;
use crate::errors::CliErrorView;
use crate::grouping::first_occurrences;
use crate::grouping::flattened;
use crate::grouping::lemma_first_occurrences_contains;
use crate::grouping::lemma_flattened_member;
use crate::grouping::GroupView;
use crate::grouping::RecordView;
use crate::jobs::directories_of;
use crate::jobs::flatten;
use crate::jobs::group_ids;
use crate::jobs::job_views;
use crate::jobs::joined;
use crate::jobs::jobs_of;
use crate::jobs::subject_directories;
use crate::jobs::CopyJob;
use crate::jobs::CopyJobView;
use crate::text::texts;

verus! {

/// The work of a restructuring: the directories to create, the destination
/// root first, and the jobs of each worker.
pub struct RestructPlan {
    pub root: String,
    pub directories: Vec<String>,
    pub chunks: Vec<Vec<CopyJob>>,
}

/// A plan as plain values.
pub struct RestructPlanView {
    pub root: Seq<char>,
    pub directories: Seq<Seq<char>>,
    pub chunks: Seq<Seq<CopyJobView>>,
}

impl View for RestructPlan {
    type V = RestructPlanView;

    open spec fn view(&self) -> RestructPlanView {
        RestructPlanView {
            root: self.root@,
            directories: texts(self.directories@),
            chunks: self.chunks@.map_values(|chunk: Vec<CopyJob>| job_views(chunk@)),
        }
    }
}

/// The plan for the groups of a catalog: the root and the directories of the
/// subjects, and the jobs of the catalog in balanced chunks.
pub open spec fn planned(root: Seq<char>, groups: Seq<GroupView>, workers: nat) -> RestructPlanView {
    RestructPlanView {
        root: root,
        directories: seq![root] + subject_directories(root, groups),
        chunks: chunks_of(jobs_of(flattened(groups)), workers),
    }
}

/// The plan creates the directory of every file that it copies: for each
/// record of the groups, the directory of its subject is among the
/// directories of the plan.
pub proof fn lemma_plan_creates_directories(
    root: Seq<char>,
    groups: Seq<GroupView>,
    workers: nat,
    record: RecordView,
)
    requires
        flattened(groups).contains(record),
    ensures
        planned(root, groups, workers).directories.contains(joined(root, record.0.id)),
{
    lemma_flattened_member(groups, record);
    let i = choose|i: int|
        0 <= i < groups.len() && (#[trigger] groups[i]).0 == record.0 && groups[i].1.contains(
            record.1,
        );
    let ids = group_ids(groups);
    assert(ids[i] == record.0.id);
    lemma_first_occurrences_contains(ids, record.0.id);
    let distinct = first_occurrences(ids);
    let j = choose|j: int| 0 <= j < distinct.len() && distinct[j] == record.0.id;
    let directories = planned(root, groups, workers).directories;
    assert(directories[j + 1] == joined(root, record.0.id));
}

/// Plans the restructuring of a catalog below `root` for a number of workers.
/// It fails where there is no worker.
pub fn plan_restruct(catalog: Catalog, root: &str, workers: usize) -> (outcome: Result<
    RestructPlan,
    CliError,
>)
    ensures
        outcome is Ok <==> workers > 0,
        outcome matches Ok(plan) ==> plan@ == planned(root@, catalog.groups(), workers as nat),
        outcome matches Err(error) ==> error@ == CliErrorView::GeneralError,
{
    if workers == 0 {
        return Err(CliError::GeneralError);
    }
    let mut directories: Vec<String> = Vec::new();
    directories.push(String::from_str(root));
    let mut subject_dirs = directories_of(root, &catalog);
    let ghost subject_texts = texts(subject_dirs@);
    directories.append(&mut subject_dirs);
    let jobs = flatten(catalog);
    let chunks = split_evenly(jobs, workers);
    let plan = RestructPlan { root: String::from_str(root), directories, chunks };
    proof {
        assert(plan@.directories =~= seq![root@] + subject_texts);
        lemma_chunks_of_mapped(jobs@, |job: CopyJob| job@, workers as nat);
        assert(chunk_views(chunks@).len() == workers);
        assert(plan@.chunks =~= chunks_of(job_views(jobs@), workers as nat));
    }
    Ok(plan)
}

/// Where a restructuring stands.
#[derive(Clone, Copy, Debug, PartialEq, Eq, Structural)]
pub enum Stage {
    Planning,
    DirectoryCreation,
    Copying,
    Done,
    Failed,
}

/// What happened since the engine last spoke.
#[derive(Debug)]
pub enum Event {
    /// The directory that was asked for exists now.
    DirectoryCreated,
    /// The directory that was asked for could not be created.
    DirectoryFailed,
    /// A worker has copied all files of its chunk.
    ChunkFinished,
    /// A worker gave up its chunk when the file of this path could not be
    /// copied.
    ChunkFailed(String),
}

/// An event as plain values.
pub enum EventView {
    DirectoryCreated,
    DirectoryFailed,
    ChunkFinished,
    ChunkFailed(Seq<char>),
}

impl View for Event {
    type V = EventView;

    open spec fn view(&self) -> EventView {
        match self {
            Event::DirectoryCreated => EventView::DirectoryCreated,
            Event::DirectoryFailed => EventView::DirectoryFailed,
            Event::ChunkFinished => EventView::ChunkFinished,
            Event::ChunkFailed(source) => EventView::ChunkFailed(source@),
        }
    }
}

/// What to do next.
#[derive(Debug)]
pub enum Action {
    /// Create this directory, and report whether that worked.
    CreateDirectory(String),
    /// Hand each chunk of the plan to a worker, and report each chunk as it
    /// ends.
    CopyChunks,
    /// Nothing to do but to wait for the next event.
    Wait,
    /// All files are copied: report the destination root.
    Report(String),
    /// The restructuring has failed with this error.
    Abort(CliError),
}

/// An action as plain values.
pub enum ActionView {
    CreateDirectory(Seq<char>),
    CopyChunks,
    Wait,
    Report(Seq<char>),
    Abort(CliErrorView),
}

impl View for Action {
    type V = ActionView;

    open spec fn view(&self) -> ActionView {
        match self {
            Action::CreateDirectory(path) => ActionView::CreateDirectory(path@),
            Action::CopyChunks => ActionView::CopyChunks,
            Action::Wait => ActionView::Wait,
            Action::Report(root) => ActionView::Report(root@),
            Action::Abort(error) => ActionView::Abort(error@),
        }
    }
}

/// The state of a restructuring as plain values.
pub struct EngineView {
    pub stage: Stage,
    pub plan: RestructPlanView,
    /// Number of directories that exist.
    pub created: nat,
    /// Number of chunks that have ended.
    pub finished: nat,
    /// The first failure of a copy, if there was one.
    pub failure: Option<CliErrorView>,
}

/// A plan without work.
pub open spec fn empty_plan() -> RestructPlanView {
    RestructPlanView {
        root: Seq::<char>::empty(),
        directories: Seq::<Seq<char>>::empty(),
        chunks: Seq::<Seq<CopyJobView>>::empty(),
    }
}

/// The state before planning.
pub open spec fn initial() -> EngineView {
    EngineView {
        stage: Stage::Planning,
        plan: empty_plan(),
        created: 0,
        finished: 0,
        failure: None,
    }
}

/// The state that a failure leaves.
pub open spec fn failed(state: EngineView, error: CliErrorView) -> EngineView {
    EngineView { stage: Stage::Failed, failure: Some(error), ..state }
}

/// Planning: with at least one worker the engine turns to the directories and
/// asks for the destination root; without a worker it fails. An engine that
/// has planned already stays as it is.
pub open spec fn begun(state: EngineView, root: Seq<char>, groups: Seq<GroupView>, workers: nat) -> (
    EngineView,
    ActionView,
) {
    if state.stage != Stage::Planning {
        (state, ActionView::Wait)
    } else if workers == 0 {
        (failed(state, CliErrorView::GeneralError), ActionView::Abort(CliErrorView::GeneralError))
    } else {
        (
            EngineView {
                stage: Stage::DirectoryCreation,
                plan: planned(root, groups, workers),
                created: 0,
                finished: 0,
                failure: None,
            },
            ActionView::CreateDirectory(root),
        )
    }
}

/// The end of one chunk, with the first failure so far: the engine waits
/// while chunks are running, and then is done, or has failed with the first
/// failure.
pub open spec fn chunk_ended(state: EngineView, failure: Option<CliErrorView>) -> (
    EngineView,
    ActionView,
) {
    let finished = state.finished + 1;
    if finished < state.plan.chunks.len() {
        (EngineView { finished: finished, failure: failure, ..state }, ActionView::Wait)
    } else {
        match failure {
            None => (
                EngineView { stage: Stage::Done, finished: finished, failure: failure, ..state },
                ActionView::Report(state.plan.root),
            ),
            Some(error) => (
                EngineView { stage: Stage::Failed, finished: finished, failure: failure, ..state },
                ActionView::Abort(error),
            ),
        }
    }
}

/// The state and the action that follow an event. An event that the stage
/// does not expect changes nothing.
pub open spec fn next(state: EngineView, event: EventView) -> (EngineView, ActionView) {
    match (state.stage, event) {
        (Stage::DirectoryCreation, EventView::DirectoryCreated) => {
            let created = state.created + 1;
            if created < state.plan.directories.len() {
                (
                    EngineView { created: created, ..state },
                    ActionView::CreateDirectory(state.plan.directories[created as int]),
                )
            } else {
                (
                    EngineView { stage: Stage::Copying, created: created, ..state },
                    ActionView::CopyChunks,
                )
            }
        },
        (Stage::DirectoryCreation, EventView::DirectoryFailed) => {
            let error = CliErrorView::CreatingDirectoryError(
                state.plan.directories[state.created as int],
            );
            (failed(state, error), ActionView::Abort(error))
        },
        (Stage::Copying, EventView::ChunkFinished) => chunk_ended(state, state.failure),
        (Stage::Copying, EventView::ChunkFailed(source)) => chunk_ended(
            state,
            match state.failure {
                Some(error) => Some(error),
                None => Some(CliErrorView::CopyError(source)),
            },
        ),
        _ => (state, ActionView::Wait),
    }
}

/// Whether a state can be reached: the counters fit the stage.
pub open spec fn reachable(state: EngineView) -> bool {
    match state.stage {
        Stage::Planning => state == initial(),
        Stage::DirectoryCreation => {
            &&& state.created < state.plan.directories.len()
            &&& state.finished == 0
            &&& state.plan.chunks.len() > 0
            &&& state.failure is None
        },
        Stage::Copying => {
            &&& state.created == state.plan.directories.len()
            &&& state.finished < state.plan.chunks.len()
        },
        Stage::Done => {
            &&& state.created == state.plan.directories.len()
            &&& state.finished == state.plan.chunks.len()
            &&& state.failure is None
        },
        Stage::Failed => state.failure is Some,
    }
}

/// Every step leads from a reachable state to a reachable state.
pub proof fn lemma_next_reachable(state: EngineView, event: EventView)
    requires
        reachable(state),
    ensures
        reachable(next(state, event).0),
{
}

/// Planning leads from a reachable state to a reachable state.
pub proof fn lemma_begun_reachable(
    state: EngineView,
    root: Seq<char>,
    groups: Seq<GroupView>,
    workers: nat,
)
    requires
        reachable(state),
    ensures
        reachable(begun(state, root, groups, workers).0),
{
}

/// How far a stage is along the way of a restructuring.
pub open spec fn stage_rank(stage: Stage) -> nat {
    match stage {
        Stage::Planning => 0,
        Stage::DirectoryCreation => 1,
        Stage::Copying => 2,
        Stage::Done => 3,
        Stage::Failed => 3,
    }
}

/// A restructuring never steps back, and skips no stage on its way: an event
/// leaves the stage as it is, leads to the next stage, or to failure.
pub proof fn lemma_stages_advance(state: EngineView, event: EventView)
    ensures
        ({
            let after = next(state, event).0.stage;
            ||| after == state.stage
            ||| after == Stage::Failed
            ||| stage_rank(after) == stage_rank(state.stage) + 1 && state.stage != Stage::Planning
        }),
{
}

/// A restructuring that is done or has failed stays as it is.
pub proof fn lemma_final_stages_stay(state: EngineView, event: EventView)
    requires
        state.stage == Stage::Done || state.stage == Stage::Failed,
    ensures
        next(state, event) == (state, ActionView::Wait),
{
}

/// The engine of one restructuring.
pub struct Engine {
    stage: Stage,
    plan: RestructPlan,
    created: usize,
    finished: usize,
    failure: Option<CliError>,
}

/// The failure as plain values.
pub open spec fn failure_view(failure: Option<CliError>) -> Option<CliErrorView> {
    match failure {
        Some(error) => Some(error@),
        None => None,
    }
}

impl View for Engine {
    type V = EngineView;

    closed spec fn view(&self) -> EngineView {
        EngineView {
            stage: self.stage,
            plan: self.plan@,
            created: self.created as nat,
            finished: self.finished as nat,
            failure: failure_view(self.failure),
        }
    }
}

impl Engine {
    #[verifier::type_invariant]
    spec fn well_formed(&self) -> bool {
        reachable(self@)
    }

    /// An engine that has not planned yet.
    pub fn new() -> (engine: Engine)
        ensures
            engine@ == initial(),
    {
        let plan = RestructPlan {
            root: String::new(),
            directories: Vec::new(),
            chunks: Vec::new(),
        };
        assert(plan@.directories =~= Seq::<Seq<char>>::empty());
        assert(plan@.chunks =~= Seq::<Seq<CopyJobView>>::empty());
        Engine { stage: Stage::Planning, plan: plan, created: 0, finished: 0, failure: None }
    }

    /// Where the restructuring stands.
    pub fn stage(&self) -> (stage: Stage)
        ensures
            stage == self@.stage,
            reachable(self@),
    {
        proof {
            use_type_invariant(self);
        }
        self.stage
    }

    /// The plan that the engine works on.
    pub fn plan(&self) -> (plan: &RestructPlan)
        ensures
            plan@ == self@.plan,
    {
        &self.plan
    }

    /// Plans the restructuring of a catalog below `root` for a number of
    /// workers.
    pub fn begin(self, catalog: Catalog, root: &str, workers: usize) -> (step: (Engine, Action))
        ensures
            (step.0@, step.1@) == begun(self@, root@, catalog.groups(), workers as nat),
    {
        proof {
            use_type_invariant(&self);
        }
        match self.stage {
            Stage::Planning => {},
            _ => {
                return (self, Action::Wait);
            },
        }
        match plan_restruct(catalog, root, workers) {
            Err(error) => {
                let engine = Engine {
                    stage: Stage::Failed,
                    plan: self.plan,
                    created: self.created,
                    finished: self.finished,
                    failure: Some(error.clone()),
                };
                (engine, Action::Abort(error))
            },
            Ok(plan) => {
                let engine = Engine {
                    stage: Stage::DirectoryCreation,
                    plan: plan,
                    created: 0,
                    finished: 0,
                    failure: None,
                };
                (engine, Action::CreateDirectory(String::from_str(root)))
            },
        }
    }

    /// Takes an event and says what to do next.
    pub fn handle(self, event: Event) -> (step: (Engine, Action))
        ensures
            (step.0@, step.1@) == next(self@, event@),
    {
        proof {
            use_type_invariant(&self);
        }
        assert(self@.plan.directories.len() == self.plan.directories.len());
        match (self.stage, event) {
            (Stage::DirectoryCreation, Event::DirectoryCreated) => {
                let created = self.created + 1;
                if created < self.plan.directories.len() {
                    let path = self.plan.directories[created].clone();
                    let engine = Engine {
                        stage: self.stage,
                        plan: self.plan,
                        created: created,
                        finished: self.finished,
                        failure: self.failure,
                    };
                    (engine, Action::CreateDirectory(path))
                } else {
                    let engine = Engine {
                        stage: Stage::Copying,
                        plan: self.plan,
                        created: created,
                        finished: self.finished,
                        failure: self.failure,
                    };
                    (engine, Action::CopyChunks)
                }
            },
            (Stage::DirectoryCreation, Event::DirectoryFailed) => {
                let error = CliError::CreatingDirectoryError(
                    self.plan.directories[self.created].clone(),
                );
                let engine = Engine {
                    stage: Stage::Failed,
                    plan: self.plan,
                    created: self.created,
                    finished: self.finished,
                    failure: Some(error.clone()),
                };
                (engine, Action::Abort(error))
            },
            (Stage::Copying, Event::ChunkFinished) => {
                let failure = self.failure;
                Engine::end_chunk(
                    Engine {
                        stage: self.stage,
                        plan: self.plan,
                        created: self.created,
                        finished: self.finished,
                        failure: None,
                    },
                    failure,
                )
            },
            (Stage::Copying, Event::ChunkFailed(source)) => {
                let failure = match self.failure {
                    Some(error) => Some(error),
                    None => Some(CliError::CopyError(source)),
                };
                Engine::end_chunk(
                    Engine {
                        stage: self.stage,
                        plan: self.plan,
                        created: self.created,
                        finished: self.finished,
                        failure: None,
                    },
                    failure,
                )
            },
            (_, _) => (self, Action::Wait),
        }
    }

    /// Counts one more chunk as ended.
    fn end_chunk(engine: Engine, failure: Option<CliError>) -> (step: (Engine, Action))
        requires
            engine@.stage == Stage::Copying,
        ensures
            (step.0@, step.1@) == chunk_ended(engine@, failure_view(failure)),
    {
        proof {
            use_type_invariant(&engine);
        }
        assert(engine@.plan.chunks.len() == engine.plan.chunks.len());
        let finished = engine.finished + 1;
        if finished < engine.plan.chunks.len() {
            let next = Engine {
                stage: engine.stage,
                plan: engine.plan,
                created: engine.created,
                finished: finished,
                failure: failure,
            };
            (next, Action::Wait)
        } else {
            match failure {
                None => {
                    let root = engine.plan.root.clone();
                    let next = Engine {
                        stage: Stage::Done,
                        plan: engine.plan,
                        created: engine.created,
                        finished: finished,
                        failure: None,
                    };
                    (next, Action::Report(root))
                },
                Some(error) => {
                    let next = Engine {
                        stage: Stage::Failed,
                        plan: engine.plan,
                        created: engine.created,
                        finished: finished,
                        failure: Some(error.clone()),
                    };
                    (next, Action::Abort(error))
                },
            }
        }
    }
}

} // verus!
