//! The state of a container, kept on disk between commands.

use crate::clock::{is_time_stamp, now_iso};
use crate::config::{ContainerConfig, ContainerConfigView};
use crate::error::{RuntimeError, RuntimeErrorView};
use crate::host::{entry_views, Entry, EntryView, Op, OpView, Reply, ReplyView};
use crate::plan::{
    after, must, place, result_view, Course, OnFailure, OnFailureView, Plan, PlanRun, PlanRunView,
    PlanTurn, Step, StepView,
};
use crate::scan::{join_path, path_joined};
use crate::text::{begins_with, cat, cat3, views};
use vstd::prelude::*;

verus! {

/// Container state, persisted to disk and read back on lifecycle ops.
#[derive(Debug)]
pub struct ContainerState {
    pub id: String,
    pub pid: Option<i32>,
    /// "created", "running", "stopped" or "failed".
    pub status: String,
    pub exit_code: Option<i32>,
    pub created_at: String,
    pub started_at: Option<String>,
    pub stopped_at: Option<String>,
}

/// The model of a [`ContainerState`].
pub ghost struct ContainerStateView {
    pub id: Seq<char>,
    pub pid: Option<i32>,
    pub status: Seq<char>,
    pub exit_code: Option<i32>,
    pub created_at: Seq<char>,
    pub started_at: Option<Seq<char>>,
    pub stopped_at: Option<Seq<char>>,
}

/// The view of a text that may be missing.
pub open spec fn opt_view(s: Option<String>) -> Option<Seq<char>> {
    match s {
        Some(t) => Some(t@),
        None => None,
    }
}

impl View for ContainerState {
    type V = ContainerStateView;

    open spec fn view(&self) -> ContainerStateView {
        ContainerStateView {
            id: self.id@,
            pid: self.pid,
            status: self.status@,
            exit_code: self.exit_code,
            created_at: self.created_at@,
            started_at: opt_view(self.started_at),
            stopped_at: opt_view(self.stopped_at),
        }
    }
}

fn copy_opt(s: &Option<String>) -> (r: Option<String>)
    ensures
        opt_view(r) == opt_view(*s),
{
    match s {
        Some(t) => Some(t.clone()),
        None => None,
    }
}

impl Clone for ContainerState {
    fn clone(&self) -> (r: Self)
        ensures
            r@ == self@,
    {
        ContainerState {
            id: self.id.clone(),
            pid: self.pid,
            status: self.status.clone(),
            exit_code: self.exit_code,
            created_at: self.created_at.clone(),
            started_at: copy_opt(&self.started_at),
            stopped_at: copy_opt(&self.stopped_at),
        }
    }
}

// How a state changes.

/// The state of a container that was created at `at`.
pub open spec fn created(id: Seq<char>, at: Seq<char>) -> ContainerStateView {
    ContainerStateView {
        id,
        pid: None,
        status: "created"@,
        exit_code: None,
        created_at: at,
        started_at: None,
        stopped_at: None,
    }
}

/// What happens to a container.
#[derive(Debug, Clone, Copy, PartialEq, Eq, Structural)]
pub enum Change {
    /// It runs as the process with this pid.
    Running(i32),
    /// It stopped with this exit code.
    Stopped(i32),
    /// It stopped with this exit code, and its pid is no longer its own.
    Ended(i32),
}

/// The state `state` once `change` happened at `at`.
pub open spec fn changed(
    state: ContainerStateView,
    change: Change,
    at: Seq<char>,
) -> ContainerStateView {
    match change {
        Change::Running(pid) => ContainerStateView {
            status: "running"@,
            pid: Some(pid),
            started_at: Some(at),
            ..state
        },
        Change::Stopped(code) => ContainerStateView {
            status: "stopped"@,
            exit_code: Some(code),
            stopped_at: Some(at),
            ..state
        },
        Change::Ended(code) => ContainerStateView {
            pid: None,
            status: "stopped"@,
            exit_code: Some(code),
            stopped_at: Some(at),
            ..state
        },
    }
}

impl ContainerState {
    /// The state of a container that is created now.
    pub fn new(id: String) -> (r: Self)
        ensures
            is_time_stamp(r@.created_at),
            r@ == created(id@, r@.created_at),
    {
        ContainerState::created_at(id, now_iso())
    }

    /// The state of a container that was created at `at`.
    pub fn created_at(id: String, at: String) -> (r: Self)
        ensures
            r@ == created(id@, at@),
    {
        ContainerState {
            id,
            pid: None,
            status: "created".to_owned(),
            exit_code: None,
            created_at: at,
            started_at: None,
            stopped_at: None,
        }
    }

    /// The state once `change` happened at `at`.
    pub fn with_change(self, change: Change, at: String) -> (r: Self)
        ensures
            r@ == changed(self@, change, at@),
    {
        let mut r: ContainerState = self;
        match change {
            Change::Running(pid) => {
                r.status = "running".to_owned();
                r.pid = Some(pid);
                r.started_at = Some(at);
            },
            Change::Stopped(code) => {
                r.status = "stopped".to_owned();
                r.exit_code = Some(code);
                r.stopped_at = Some(at);
            },
            Change::Ended(code) => {
                r.pid = None;
                r.status = "stopped".to_owned();
                r.exit_code = Some(code);
                r.stopped_at = Some(at);
            },
        }
        r
    }
}

// Where a state is kept.

/// The home directory: what the environment says, or that of root.
pub fn home_dir(var: Option<String>) -> (r: String)
    ensures
        r@ == (match var {
            Some(home) => home@,
            None => "/root"@,
        }),
{
    match var {
        Some(home) => home,
        None => "/root".to_owned(),
    }
}

/// The directory of all containers.
pub open spec fn base_dir(home: Seq<char>) -> Seq<char> {
    home + "/.mincontainer/containers"@
}

/// The directory of the container `id`.
pub open spec fn container_dir(home: Seq<char>, id: Seq<char>) -> Seq<char> {
    home + "/.mincontainer/containers/"@ + id
}

/// The directory where the state of a container is kept.
#[derive(Debug)]
pub struct ContainerStateDir {
    pub root: String,
}

impl View for ContainerStateDir {
    type V = Seq<char>;

    open spec fn view(&self) -> Seq<char> {
        self.root@
    }
}

/// The step that creates the directory of all containers.
pub open spec fn init_step(home: Seq<char>) -> StepView {
    must(OpView::MakeDirs(base_dir(home)), OnFailureView::Config("mkdir state dir"@))
}

/// The step that creates the directory `root` of a container.
pub open spec fn create_step(root: Seq<char>) -> StepView {
    must(OpView::MakeDirs(root), OnFailureView::Config("mkdir "@ + root))
}

/// The file that holds the state of the container in `root`.
pub open spec fn state_path(root: Seq<char>) -> Seq<char> {
    path_joined(root, "state.json"@)
}

/// The file that holds the configuration of the container in `root`.
pub open spec fn config_path(root: Seq<char>) -> Seq<char> {
    path_joined(root, "config.json"@)
}

/// The step that saves a state.
pub open spec fn save_state_step(root: Seq<char>, state: ContainerStateView) -> StepView {
    must(
        OpView::SaveState { path: state_path(root), state },
        OnFailureView::Config("write state"@),
    )
}

/// The step that saves a configuration.
pub open spec fn save_config_step(root: Seq<char>, config: ContainerConfigView) -> StepView {
    must(
        OpView::SaveConfig { path: config_path(root), config },
        OnFailureView::Config("write config"@),
    )
}

/// The step that removes the directory `root` of a container.
pub open spec fn cleanup_step(root: Seq<char>) -> StepView {
    must(OpView::RemoveTree(root), OnFailureView::Config("cleanup "@ + root))
}

/// The state that the answer to a request for it holds.
pub open spec fn loaded(reply: ReplyView) -> Result<ContainerStateView, RuntimeErrorView> {
    match reply {
        ReplyView::State(state) => Ok(state),
        ReplyView::Malformed(e) => Err(RuntimeErrorView::Json(e)),
        _ => Err(RuntimeErrorView::Config("read state: "@ + reply.reason())),
    }
}

/// The model of a result with a state.
pub open spec fn state_result(r: Result<ContainerState, RuntimeError>) -> Result<
    ContainerStateView,
    RuntimeErrorView,
> {
    match r {
        Ok(s) => Ok(s@),
        Err(e) => Err(e@),
    }
}

impl ContainerStateDir {
    /// Create the directory of all containers.
    pub fn init(home: &str) -> (r: Step)
        ensures
            r@ == init_step(home@),
    {
        Step::must(
            Op::MakeDirs(cat(home, "/.mincontainer/containers")),
            OnFailure::Config("mkdir state dir".to_owned()),
        )
    }

    /// The directory of the container `id`.
    pub fn for_id(home: &str, id: &str) -> (r: Self)
        ensures
            r@ == container_dir(home@, id@),
    {
        ContainerStateDir { root: cat3(home, "/.mincontainer/containers/", id) }
    }

    pub fn path(&self) -> (r: &str)
        ensures
            r@ == self@,
    {
        self.root.as_str()
    }

    pub fn state_file(&self) -> (r: String)
        ensures
            r@ == state_path(self@),
    {
        join_path(self.root.as_str(), "state.json")
    }

    pub fn stdout_file(&self) -> (r: String)
        ensures
            r@ == path_joined(self@, "stdout"@),
    {
        join_path(self.root.as_str(), "stdout")
    }

    pub fn stderr_file(&self) -> (r: String)
        ensures
            r@ == path_joined(self@, "stderr"@),
    {
        join_path(self.root.as_str(), "stderr")
    }

    pub fn config_file(&self) -> (r: String)
        ensures
            r@ == config_path(self@),
    {
        join_path(self.root.as_str(), "config.json")
    }

    pub fn lock_file(&self) -> (r: String)
        ensures
            r@ == path_joined(self@, ".lock"@),
    {
        join_path(self.root.as_str(), ".lock")
    }

    /// Create the directory.
    pub fn create(&self) -> (r: Step)
        ensures
            r@ == create_step(self@),
    {
        let what: String = cat("mkdir ", self.root.as_str());
        Step::must(Op::MakeDirs(self.root.clone()), OnFailure::Config(what))
    }

    /// Ask for the state. The answer is for [`ContainerStateDir::load_state`].
    pub fn load_op(&self) -> (r: Op)
        ensures
            r@ == OpView::LoadState(state_path(self@)),
    {
        Op::LoadState(self.state_file())
    }

    /// The state that the host found in the state file.
    pub fn load_state(&self, reply: Reply) -> (r: Result<ContainerState, RuntimeError>)
        ensures
            state_result(r) == loaded(reply@),
    {
        let why: String = reply.reason();
        match reply {
            Reply::State(state) => Ok(state),
            Reply::Malformed(e) => Err(RuntimeError::Json(e)),
            _ => Err(RuntimeError::Config(cat("read state: ", why.as_str()))),
        }
    }

    /// Save a state.
    pub fn save_state(&self, state: ContainerState) -> (r: Step)
        ensures
            r@ == save_state_step(self@, state@),
    {
        Step::must(
            Op::SaveState { path: self.state_file(), state },
            OnFailure::Config("write state".to_owned()),
        )
    }

    /// Save a configuration.
    pub fn save_config(&self, config: ContainerConfig) -> (r: Step)
        ensures
            r@ == save_config_step(self@, config@),
    {
        Step::must(
            Op::SaveConfig { path: self.config_file(), config },
            OnFailure::Config("write config".to_owned()),
        )
    }

    /// Ask whether the directory exists.
    pub fn present(&self) -> (r: Op)
        ensures
            r@ == OpView::Exists(self@),
    {
        Op::Exists(self.root.clone())
    }

    /// Remove the directory and all in it.
    pub fn cleanup(&self) -> (r: Step)
        ensures
            r@ == cleanup_step(self@),
    {
        let what: String = cat("cleanup ", self.root.as_str());
        Step::must(Op::RemoveTree(self.root.clone()), OnFailure::Config(what))
    }
}

// Creating, looking up, changing and listing states.

/// The steps that create the state of the container `id`.
pub open spec fn init_steps(
    home: Seq<char>,
    id: Seq<char>,
    state: ContainerStateView,
) -> Seq<StepView> {
    let root = container_dir(home, id);
    seq![init_step(home), create_step(root), save_state_step(root, state)]
}

/// The plan that keeps `state` as that of the new container `id`.
pub fn init_plan(home: &str, id: &str, state: ContainerState) -> (plan: Plan)
    ensures
        plan@ == init_steps(home@, id@, state@),
{
    let dir: ContainerStateDir = ContainerStateDir::for_id(home, id);
    let mut plan: Plan = Plan::new();
    plan.push(ContainerStateDir::init(home));
    plan.push(dir.create());
    plan.push(dir.save_state(state));
    assert(plan@ =~= init_steps(home@, id@, state@));
    plan
}

/// Create the state of a new container.
///
/// The state is the container's once the plan has ended well.
pub fn init_container(home: &str, id: &str) -> (r: (ContainerState, Plan))
    ensures
        is_time_stamp(r.0@.created_at),
        r.0@ == created(id@, r.0@.created_at),
        r.1@ == init_steps(home@, id@, r.0@),
{
    let state: ContainerState = ContainerState::new(id.to_owned());
    let plan: Plan = init_plan(home, id, state.clone());
    (state, plan)
}

/// A container that is being looked up.
#[derive(Debug)]
pub struct Lookup {
    pub id: String,
    pub dir: ContainerStateDir,
    /// Whether the container is known to exist, so that its state is asked for.
    pub found: bool,
    pub op: Op,
}

/// The model of a [`Lookup`].
pub ghost struct LookupView {
    pub id: Seq<char>,
    pub root: Seq<char>,
    pub found: bool,
    pub op: OpView,
}

impl View for Lookup {
    type V = LookupView;

    open spec fn view(&self) -> LookupView {
        LookupView { id: self.id@, root: self.dir@, found: self.found, op: self.op@ }
    }
}

/// What comes of a lookup next.
#[derive(Debug)]
pub enum LookupTurn {
    Ask(Lookup),
    Ended(Result<ContainerState, RuntimeError>),
}

/// The model of a [`LookupTurn`].
pub ghost enum LookupCourse {
    Ask(LookupView),
    Ended(Result<ContainerStateView, RuntimeErrorView>),
}

impl View for LookupTurn {
    type V = LookupCourse;

    open spec fn view(&self) -> LookupCourse {
        match self {
            LookupTurn::Ask(l) => LookupCourse::Ask(l@),
            LookupTurn::Ended(r) => LookupCourse::Ended(state_result(*r)),
        }
    }
}

impl LookupView {
    /// Where a lookup begins: with the question whether the container exists.
    pub open spec fn start(home: Seq<char>, id: Seq<char>) -> LookupView {
        let root = container_dir(home, id);
        LookupView { id, root, found: false, op: OpView::Exists(root) }
    }

    /// What comes of it when the host answers with `reply`.
    pub open spec fn next(self, reply: ReplyView) -> LookupCourse {
        if self.found {
            LookupCourse::Ended(loaded(reply))
        } else if reply.yes() {
            LookupCourse::Ask(
                LookupView { found: true, op: OpView::LoadState(state_path(self.root)), ..self },
            )
        } else {
            LookupCourse::Ended(
                Err(RuntimeErrorView::Config("container "@ + self.id + " not found"@)),
            )
        }
    }
}

impl Lookup {
    /// Go on from the answer to the operation.
    pub fn resume(self, reply: Reply) -> (r: LookupTurn)
        ensures
            r@ == self@.next(reply@),
    {
        if self.found {
            LookupTurn::Ended(self.dir.load_state(reply))
        } else if reply.is_yes() {
            let op: Op = self.dir.load_op();
            LookupTurn::Ask(Lookup { id: self.id, dir: self.dir, found: true, op })
        } else {
            LookupTurn::Ended(
                Err(RuntimeError::Config(cat3("container ", self.id.as_str(), " not found"))),
            )
        }
    }
}

/// Look a container up.
pub fn get_container(home: &str, id: &str) -> (r: Lookup)
    ensures
        r@ == LookupView::start(home@, id@),
{
    let dir: ContainerStateDir = ContainerStateDir::for_id(home, id);
    let op: Op = dir.present();
    Lookup { id: id.to_owned(), dir, found: false, op }
}

/// How far a change of a state has come.
#[derive(Debug)]
pub enum UpdateStage {
    /// The state is asked for.
    Load(Op),
    /// The changed state is saved.
    Save(PlanRun),
}

/// The model of an [`UpdateStage`].
pub ghost enum UpdateStageView {
    Load(OpView),
    Save(PlanRunView),
}

impl View for UpdateStage {
    type V = UpdateStageView;

    open spec fn view(&self) -> UpdateStageView {
        match self {
            UpdateStage::Load(op) => UpdateStageView::Load(op@),
            UpdateStage::Save(run) => UpdateStageView::Save(run@),
        }
    }
}

/// A state that is being changed.
#[derive(Debug)]
pub struct Update {
    pub dir: ContainerStateDir,
    pub change: Change,
    pub stage: UpdateStage,
}

/// The model of an [`Update`].
pub ghost struct UpdateView {
    pub root: Seq<char>,
    pub change: Change,
    pub stage: UpdateStageView,
}

impl View for Update {
    type V = UpdateView;

    open spec fn view(&self) -> UpdateView {
        UpdateView { root: self.dir@, change: self.change, stage: self.stage@ }
    }
}

/// What comes of a change of a state next.
#[derive(Debug)]
pub enum UpdateTurn {
    Ask(Update),
    Ended(Result<(), RuntimeError>),
}

/// The model of an [`UpdateTurn`].
pub ghost enum UpdateCourse {
    Ask(UpdateView),
    Ended(Result<(), RuntimeErrorView>),
}

impl View for UpdateTurn {
    type V = UpdateCourse;

    open spec fn view(&self) -> UpdateCourse {
        match self {
            UpdateTurn::Ask(u) => UpdateCourse::Ask(u@),
            UpdateTurn::Ended(r) => UpdateCourse::Ended(result_view(*r)),
        }
    }
}

impl UpdateCourse {
    pub open spec fn wf(self) -> bool {
        match self {
            UpdateCourse::Ask(u) => u.wf(),
            UpdateCourse::Ended(_) => true,
        }
    }
}

impl UpdateView {
    /// Where a change begins: with the state as it is.
    pub open spec fn start(home: Seq<char>, id: Seq<char>, change: Change) -> UpdateView {
        let root = container_dir(home, id);
        UpdateView {
            root,
            change,
            stage: UpdateStageView::Load(OpView::LoadState(state_path(root))),
        }
    }

    pub open spec fn wf(self) -> bool {
        match self.stage {
            UpdateStageView::Load(_) => true,
            UpdateStageView::Save(run) => run.wf(),
        }
    }

    /// The operation to be done now.
    pub open spec fn op(self) -> OpView {
        match self.stage {
            UpdateStageView::Load(op) => op,
            UpdateStageView::Save(run) => run.op(),
        }
    }

    /// The change when the saving of the state stands at `course`.
    pub open spec fn saving(self, course: Course) -> UpdateCourse {
        match course {
            Course::Ask(run) => UpdateCourse::Ask(
                UpdateView { stage: UpdateStageView::Save(run), ..self },
            ),
            Course::Ended(r) => UpdateCourse::Ended(r),
        }
    }

    /// What comes of it when the host answers with `reply` at the time `now`.
    pub open spec fn next(self, reply: ReplyView, now: Seq<char>) -> UpdateCourse {
        match self.stage {
            UpdateStageView::Load(_) => match loaded(reply) {
                Ok(state) => self.saving(
                    place(seq![save_state_step(self.root, changed(state, self.change, now))], 0),
                ),
                Err(e) => UpdateCourse::Ended(Err(e)),
            },
            UpdateStageView::Save(run) => self.saving(run.next(reply)),
        }
    }
}

impl Update {
    fn begin(home: &str, id: &str, change: Change) -> (r: Self)
        ensures
            r@ == UpdateView::start(home@, id@, change),
            r@.wf(),
    {
        let dir: ContainerStateDir = ContainerStateDir::for_id(home, id);
        let op: Op = dir.load_op();
        Update { dir, change, stage: UpdateStage::Load(op) }
    }

    /// The operation to be done now.
    pub fn op(&self) -> (r: &Op)
        requires
            self@.wf(),
        ensures
            r@ == self@.op(),
    {
        match &self.stage {
            UpdateStage::Load(op) => op,
            UpdateStage::Save(run) => run.op(),
        }
    }

    /// Go on from the answer to that operation.
    pub fn resume(self, reply: Reply) -> (r: UpdateTurn)
        requires
            self@.wf(),
        ensures
            exists|now: Seq<char>|
                is_time_stamp(now) && r@ == #[trigger] self@.next(reply@, now),
            r@.wf(),
    {
        let now: String = now_iso();
        let ghost at = now@;
        let ghost me = self@;
        let ghost answer = reply@;
        let r: UpdateTurn = self.resume_at(reply, now);
        assert(is_time_stamp(at) && r@ == me.next(answer, at));
        r
    }

    /// Go on from the answer to that operation, at the time `now`.
    pub fn resume_at(self, reply: Reply, now: String) -> (r: UpdateTurn)
        requires
            self@.wf(),
        ensures
            r@ == self@.next(reply@, now@),
            r@.wf(),
    {
        let change: Change = self.change;
        let dir: ContainerStateDir = self.dir;
        let turn: PlanTurn = match self.stage {
            UpdateStage::Load(_) => match dir.load_state(reply) {
                Ok(state) => {
                    let mut plan: Plan = Plan::new();
                    plan.push(dir.save_state(state.with_change(change, now)));
                    assert(plan@ =~= seq![save_state_step(dir@, changed(state@, change, now@))]);
                    PlanRun::start(plan)
                },
                Err(e) => {
                    return UpdateTurn::Ended(Err(e));
                },
            },
            UpdateStage::Save(run) => run.resume(reply),
        };
        match turn {
            PlanTurn::Ask(run) => UpdateTurn::Ask(
                Update { dir, change, stage: UpdateStage::Save(run) },
            ),
            PlanTurn::Ended(r) => UpdateTurn::Ended(r),
        }
    }
}

/// Note that a container runs as the process `pid`.
pub fn set_running(home: &str, id: &str, pid: i32) -> (r: Update)
    ensures
        r@ == UpdateView::start(home@, id@, Change::Running(pid)),
        r@.wf(),
{
    Update::begin(home, id, Change::Running(pid))
}

/// Note that a container stopped with `exit_code`.
pub fn set_stopped(home: &str, id: &str, exit_code: i32) -> (r: Update)
    ensures
        r@ == UpdateView::start(home@, id@, Change::Stopped(exit_code)),
        r@.wf(),
{
    Update::begin(home, id, Change::Stopped(exit_code))
}

/// Note that a container stopped with `exit_code`, and that no process is its own any
/// more.
pub fn set_ended(home: &str, id: &str, exit_code: i32) -> (r: Update)
    ensures
        r@ == UpdateView::start(home@, id@, Change::Ended(exit_code)),
        r@.wf(),
{
    Update::begin(home, id, Change::Ended(exit_code))
}

/// The container that an entry of the directory of all containers stands for.
pub open spec fn container_name(entry: EntryView) -> Option<Seq<char>> {
    match entry {
        EntryView::Item { name: Some(n), is_dir } => if is_dir && !(n.len() > 0 && n[0] == '.') {
            Some(n)
        } else {
            None
        },
        _ => None,
    }
}

/// The containers that the entries stand for, in their order.
pub open spec fn container_names(entries: Seq<EntryView>) -> Seq<Seq<char>>
    decreases entries.len(),
{
    if entries.len() == 0 {
        Seq::empty()
    } else {
        match container_name(entries.last()) {
            Some(n) => container_names(entries.drop_last()).push(n),
            None => container_names(entries.drop_last()),
        }
    }
}

/// Why the first unreadable entry could not be read; `None` where all could be.
pub open spec fn unreadable(entries: Seq<EntryView>) -> Option<Seq<char>>
    decreases entries.len(),
{
    if entries.len() == 0 {
        None
    } else {
        match entries[0] {
            EntryView::Unreadable(e) => Some(e),
            _ => unreadable(entries.drop_first()),
        }
    }
}

/// Whether a name begins with a dot.
fn is_hidden(name: &str) -> (r: bool)
    ensures
        r == (name@.len() > 0 && name@[0] == '.'),
{
    proof {
        reveal_strlit(".");
        if name@.len() > 0 && name@[0] == '.' {
            assert("."@ =~= name@.subrange(0, 1));
        }
        if "."@.is_prefix_of(name@) {
            assert(name@.subrange(0, 1)[0] == '.');
        }
    }
    begins_with(name, ".")
}

/// The containers that the entries stand for.
pub fn named_containers(entries: &Vec<Entry>) -> (r: Result<Vec<String>, RuntimeError>)
    ensures
        match unreadable(entry_views(entries@)) {
            Some(e) => r is Err && r->Err_0@ == RuntimeErrorView::Config("read entry: "@ + e),
            None => r is Ok && views(r->Ok_0@) == container_names(entry_views(entries@)),
        },
{
    let ghost all = entry_views(entries@);
    let mut names: Vec<String> = Vec::new();
    assert(all.skip(0) =~= all);
    assert(all.take(0) =~= Seq::empty());
    assert(views(names@) =~= Seq::empty());
    for i in 0..entries.len()
        invariant
            all == entry_views(entries@),
            unreadable(all) == unreadable(all.skip(i as int)),
            views(names@) == container_names(all.take(i as int)),
    {
        assert(all.skip(i as int)[0] == entries@[i as int]@);
        assert(all.skip(i as int).drop_first() =~= all.skip(i + 1));
        assert(all.take(i + 1).drop_last() =~= all.take(i as int));
        assert(all.take(i + 1).last() == entries@[i as int]@);
        match &entries[i] {
            Entry::Unreadable(e) => {
                return Err(RuntimeError::Config(cat("read entry: ", e.as_str())));
            },
            Entry::Item { name, is_dir } => {
                if let Some(n) = name {
                    if *is_dir && !is_hidden(n.as_str()) {
                        let ghost before = names@;
                        names.push(n.clone());
                        assert(views(names@) =~= views(before).push(n@));
                    }
                }
            },
        }
    }
    assert(all.take(all.len() as int) =~= all);
    assert(all.skip(all.len() as int) =~= Seq::empty());
    Ok(names)
}

/// How far a listing has come.
#[derive(Debug)]
pub enum ListingStage {
    /// Is there a directory of all containers?
    Root(Op),
    /// What is in it?
    Entries(Op),
    /// The container at position `at` is looked up.
    Visit { ids: Vec<String>, at: usize, lookup: Lookup, found: Vec<ContainerState> },
}

/// The model of a [`ListingStage`].
pub ghost enum ListingStageView {
    Root(OpView),
    Entries(OpView),
    Visit { ids: Seq<Seq<char>>, at: int, lookup: LookupView, found: Seq<ContainerStateView> },
}

/// The views of a sequence of states.
pub open spec fn state_views(list: Seq<ContainerState>) -> Seq<ContainerStateView> {
    Seq::new(list.len(), |i: int| list[i]@)
}

impl View for ListingStage {
    type V = ListingStageView;

    open spec fn view(&self) -> ListingStageView {
        match self {
            ListingStage::Root(op) => ListingStageView::Root(op@),
            ListingStage::Entries(op) => ListingStageView::Entries(op@),
            ListingStage::Visit { ids, at, lookup, found } => ListingStageView::Visit {
                ids: views(ids@),
                at: *at as int,
                lookup: lookup@,
                found: state_views(found@),
            },
        }
    }
}

/// A listing of all containers.
#[derive(Debug)]
pub struct Listing {
    pub home: String,
    pub stage: ListingStage,
}

/// The model of a [`Listing`].
pub ghost struct ListingView {
    pub home: Seq<char>,
    pub stage: ListingStageView,
}

impl View for Listing {
    type V = ListingView;

    open spec fn view(&self) -> ListingView {
        ListingView { home: self.home@, stage: self.stage@ }
    }
}

/// What comes of a listing next.
#[derive(Debug)]
pub enum ListingTurn {
    Ask(Listing),
    Ended(Result<Vec<ContainerState>, RuntimeError>),
}

/// The model of a [`ListingTurn`].
pub ghost enum ListingCourse {
    Ask(ListingView),
    Ended(Result<Seq<ContainerStateView>, RuntimeErrorView>),
}

impl View for ListingTurn {
    type V = ListingCourse;

    open spec fn view(&self) -> ListingCourse {
        match self {
            ListingTurn::Ask(l) => ListingCourse::Ask(l@),
            ListingTurn::Ended(Ok(list)) => ListingCourse::Ended(Ok(state_views(list@))),
            ListingTurn::Ended(Err(e)) => ListingCourse::Ended(Err(e@)),
        }
    }
}

impl ListingCourse {
    pub open spec fn wf(self) -> bool {
        match self {
            ListingCourse::Ask(l) => l.wf(),
            ListingCourse::Ended(_) => true,
        }
    }
}

impl ListingView {
    /// Where a listing begins: with the question whether anything is kept.
    pub open spec fn start(home: Seq<char>) -> ListingView {
        ListingView { home, stage: ListingStageView::Root(OpView::Exists(base_dir(home))) }
    }

    pub open spec fn wf(self) -> bool {
        match self.stage {
            ListingStageView::Visit { ids, at, .. } => 0 <= at < ids.len(),
            _ => true,
        }
    }

    /// The operation to be done now.
    pub open spec fn op(self) -> OpView {
        match self.stage {
            ListingStageView::Root(op) => op,
            ListingStageView::Entries(op) => op,
            ListingStageView::Visit { lookup, .. } => lookup.op,
        }
    }

    /// The listing when the containers from position `at` on are still to be looked
    /// up.
    pub open spec fn visiting(
        self,
        ids: Seq<Seq<char>>,
        at: int,
        found: Seq<ContainerStateView>,
    ) -> ListingCourse {
        if at < ids.len() {
            let lookup = LookupView::start(self.home, ids[at]);
            ListingCourse::Ask(
                ListingView {
                    stage: ListingStageView::Visit { ids, at, lookup, found },
                    ..self
                },
            )
        } else {
            ListingCourse::Ended(Ok(found))
        }
    }

    /// What comes of it when the host answers with `reply`.
    ///
    /// A container that cannot be looked up is passed over.
    pub open spec fn next(self, reply: ReplyView) -> ListingCourse {
        match self.stage {
            ListingStageView::Root(_) => if reply.yes() {
                ListingCourse::Ask(
                    ListingView {
                        stage: ListingStageView::Entries(OpView::ListDir(base_dir(self.home))),
                        ..self
                    },
                )
            } else {
                ListingCourse::Ended(Ok(Seq::empty()))
            },
            ListingStageView::Entries(_) => match reply {
                ReplyView::Entries(entries) => match unreadable(entries) {
                    Some(e) => ListingCourse::Ended(
                        Err(RuntimeErrorView::Config("read entry: "@ + e)),
                    ),
                    None => self.visiting(container_names(entries), 0, Seq::empty()),
                },
                _ => ListingCourse::Ended(
                    Err(RuntimeErrorView::Config("list containers: "@ + reply.reason())),
                ),
            },
            ListingStageView::Visit { ids, at, lookup, found } => match lookup.next(reply) {
                LookupCourse::Ask(lookup) => ListingCourse::Ask(
                    ListingView {
                        stage: ListingStageView::Visit { ids, at, lookup, found },
                        ..self
                    },
                ),
                LookupCourse::Ended(Ok(state)) => self.visiting(ids, at + 1, found.push(state)),
                LookupCourse::Ended(Err(_)) => self.visiting(ids, at + 1, found),
            },
        }
    }
}

fn visit(
    home: String,
    ids: Vec<String>,
    at: usize,
    found: Vec<ContainerState>,
) -> (r: ListingTurn)
    ensures
        forall|me: ListingView|
            me.home == home@ ==> r@ == #[trigger] me.visiting(
                views(ids@),
                at as int,
                state_views(found@),
            ),
        r@.wf(),
{
    if at < ids.len() {
        let lookup: Lookup = get_container(home.as_str(), ids[at].as_str());
        ListingTurn::Ask(
            Listing { home, stage: ListingStage::Visit { ids, at, lookup, found } },
        )
    } else {
        ListingTurn::Ended(Ok(found))
    }
}

impl Listing {
    /// The operation to be done now.
    pub fn op(&self) -> (r: &Op)
        requires
            self@.wf(),
        ensures
            r@ == self@.op(),
    {
        match &self.stage {
            ListingStage::Root(op) => op,
            ListingStage::Entries(op) => op,
            ListingStage::Visit { lookup, .. } => &lookup.op,
        }
    }

    /// Go on from the answer to that operation.
    pub fn resume(self, reply: Reply) -> (r: ListingTurn)
        requires
            self@.wf(),
        ensures
            r@ == self@.next(reply@),
            r@.wf(),
    {
        let home: String = self.home;
        match self.stage {
            ListingStage::Root(_) => if reply.is_yes() {
                let op: Op = Op::ListDir(cat(home.as_str(), "/.mincontainer/containers"));
                ListingTurn::Ask(Listing { home, stage: ListingStage::Entries(op) })
            } else {
                let none: Vec<ContainerState> = Vec::new();
                assert(state_views(none@) =~= Seq::empty());
                ListingTurn::Ended(Ok(none))
            },
            ListingStage::Entries(_) => {
                let why: String = reply.reason();
                match reply {
                    Reply::Entries(entries) => match named_containers(&entries) {
                        Ok(ids) => {
                            let none: Vec<ContainerState> = Vec::new();
                            assert(state_views(none@) =~= Seq::empty());
                            visit(home, ids, 0, none)
                        },
                        Err(e) => ListingTurn::Ended(Err(e)),
                    },
                    _ => ListingTurn::Ended(
                        Err(RuntimeError::Config(cat("list containers: ", why.as_str()))),
                    ),
                }
            },
            ListingStage::Visit { ids, at, lookup, found } => {
                assert(at < ids.len());
                match lookup.resume(reply) {
                    LookupTurn::Ask(lookup) => ListingTurn::Ask(
                        Listing { home, stage: ListingStage::Visit { ids, at, lookup, found } },
                    ),
                    LookupTurn::Ended(Ok(state)) => {
                        let mut more: Vec<ContainerState> = found;
                        let ghost before = more@;
                        more.push(state);
                        assert(state_views(more@) =~= state_views(before).push(state@));
                        visit(home, ids, at + 1, more)
                    },
                    LookupTurn::Ended(Err(_)) => visit(home, ids, at + 1, found),
                }
            },
        }
    }
}

/// List all containers.
pub fn list_all(home: &str) -> (r: Listing)
    ensures
        r@ == ListingView::start(home@),
        r@.wf(),
{
    Listing {
        home: home.to_owned(),
        stage: ListingStage::Root(Op::Exists(cat(home, "/.mincontainer/containers"))),
    }
}

// What holds of every container that is kept.

/// A change keeps who the container is and when it was created; one that sets it
/// running keeps how it stopped before, and one that stops it keeps how it ran. What has
/// ended has no pid.
pub proof fn law_change_keeps(state: ContainerStateView, change: Change, at: Seq<char>)
    ensures
        changed(state, change, at).id == state.id,
        changed(state, change, at).created_at == state.created_at,
        change is Running ==> changed(state, change, at).exit_code == state.exit_code
            && changed(state, change, at).stopped_at == state.stopped_at,
        change is Stopped ==> changed(state, change, at).pid == state.pid && changed(
            state,
            change,
            at,
        ).started_at == state.started_at,
        change is Ended ==> changed(state, change, at).pid is None && changed(
            state,
            change,
            at,
        ).started_at == state.started_at,
{
}

/// A container that was created, ran and stopped shows all three.
pub proof fn law_life(
    id: Seq<char>,
    born: Seq<char>,
    pid: i32,
    ran: Seq<char>,
    code: i32,
    stopped: Seq<char>,
)
    ensures
        changed(
            changed(created(id, born), Change::Running(pid), ran),
            Change::Stopped(code),
            stopped,
        ) == (ContainerStateView {
            id,
            pid: Some(pid),
            status: "stopped"@,
            exit_code: Some(code),
            created_at: born,
            started_at: Some(ran),
            stopped_at: Some(stopped),
        }),
{
}

/// Two containers with different names are kept in different directories.
pub proof fn law_own_directory(home: Seq<char>, a: Seq<char>, b: Seq<char>)
    requires
        a != b,
    ensures
        container_dir(home, a) != container_dir(home, b),
{
    let front = home + "/.mincontainer/containers/"@;
    let n = front.len() as int;
    assert(container_dir(home, a).skip(n) =~= a);
    assert(container_dir(home, b).skip(n) =~= b);
}

/// The state and the configuration of a container are kept in different files.
pub proof fn law_own_files(root: Seq<char>)
    ensures
        state_path(root) != config_path(root),
{
    reveal_strlit("state.json");
    reveal_strlit("config.json");
    assert(state_path(root).len() != config_path(root).len());
}

/// Whether `path` is `dir` or lies in it.
pub open spec fn at_or_in(dir: Seq<char>, path: Seq<char>) -> bool {
    path == dir || path_joined(dir, Seq::empty()).is_prefix_of(path)
}

/// Whether a host that keeps `files` keeps anything at `path` or in it.
pub open spec fn holds_any(files: Map<Seq<char>, ContainerStateView>, path: Seq<char>) -> bool {
    exists|file: Seq<char>| #[trigger] files.dom().contains(file) && at_or_in(path, file)
}

/// What a host that keeps states keeps once `op` was done.
pub open spec fn kept(
    files: Map<Seq<char>, ContainerStateView>,
    op: OpView,
) -> Map<Seq<char>, ContainerStateView> {
    match op {
        OpView::SaveState { path, state } => files.insert(path, state),
        OpView::RemoveTree(path) => Map::new(
            |file: Seq<char>| files.dom().contains(file) && !at_or_in(path, file),
            |file: Seq<char>| files[file],
        ),
        _ => files,
    }
}

/// What a host that keeps states answers.
pub open spec fn recalled(files: Map<Seq<char>, ContainerStateView>, op: OpView) -> ReplyView {
    match op {
        OpView::LoadState(path) => if files.dom().contains(path) {
            ReplyView::State(files[path])
        } else {
            ReplyView::Failed(Seq::empty())
        },
        OpView::Exists(path) => ReplyView::Flag(holds_any(files, path)),
        OpView::RemoveTree(path) => if holds_any(files, path) {
            ReplyView::Done
        } else {
            ReplyView::Failed(Seq::empty())
        },
        _ => ReplyView::Done,
    }
}

/// What a lookup of `id` comes to on a host that keeps `files`.
pub open spec fn found_in(
    files: Map<Seq<char>, ContainerStateView>,
    home: Seq<char>,
    id: Seq<char>,
) -> Result<ContainerStateView, RuntimeErrorView> {
    let first = LookupView::start(home, id);
    match first.next(recalled(files, first.op)) {
        LookupCourse::Ended(r) => r,
        LookupCourse::Ask(second) => loaded(recalled(files, second.op)),
    }
}

/// A lookup asks at most twice, and the second answer decides it.
pub proof fn law_lookup_asks_twice(home: Seq<char>, id: Seq<char>, a: ReplyView, b: ReplyView)
    ensures
        LookupView::start(home, id).next(a) matches LookupCourse::Ask(second) ==> second.next(b)
            == LookupCourse::Ended(loaded(b)),
{
}

proof fn lemma_state_at(root: Seq<char>)
    ensures
        at_or_in(root, state_path(root)),
{
    reveal_strlit("state.json");
    let front = path_joined(root, Seq::empty());
    assert(front =~= state_path(root).subrange(0, front.len() as int));
}

/// Something is kept where a state is kept.
pub proof fn law_state_is_held(files: Map<Seq<char>, ContainerStateView>, root: Seq<char>)
    requires
        files.dom().contains(state_path(root)),
    ensures
        holds_any(files, root),
{
    lemma_state_at(root);
}

/// What is read is what was written: once a host that keeps states has created a
/// container, a lookup finds the state it was created with.
pub proof fn law_created_is_found(
    home: Seq<char>,
    id: Seq<char>,
    state: ContainerStateView,
    files: Map<Seq<char>, ContainerStateView>,
)
    ensures
        ({
            let steps = init_steps(home, id, state);
            let after = kept(kept(kept(files, steps[0].op), steps[1].op), steps[2].op);
            found_in(after, home, id) == Ok::<ContainerStateView, RuntimeErrorView>(state)
        }),
{
    let steps = init_steps(home, id, state);
    let after = kept(kept(kept(files, steps[0].op), steps[1].op), steps[2].op);
    law_state_is_held(after, container_dir(home, id));
}

/// What is read is what was written: once a host that keeps states has taken a
/// change of a container that it keeps, a lookup finds the changed state.
pub proof fn law_change_is_found(
    home: Seq<char>,
    id: Seq<char>,
    change: Change,
    now: Seq<char>,
    later: Seq<char>,
    files: Map<Seq<char>, ContainerStateView>,
)
    requires
        files.dom().contains(state_path(container_dir(home, id))),
    ensures
        ({
            let old_state = files[state_path(container_dir(home, id))];
            let load = UpdateView::start(home, id, change);
            let save = load.next(recalled(files, load.op()), now);
            &&& save is Ask
            &&& save->Ask_0.next(recalled(files, save->Ask_0.op()), later) == UpdateCourse::Ended(
                Ok(()),
            )
            &&& found_in(kept(files, save->Ask_0.op()), home, id) == Ok::<
                ContainerStateView,
                RuntimeErrorView,
            >(changed(old_state, change, now))
        }),
{
    let load = UpdateView::start(home, id, change);
    let save = load.next(recalled(files, load.op()), now);
    assert(save is Ask);
    assert(save->Ask_0.op() is SaveState);
    law_state_is_held(kept(files, save->Ask_0.op()), container_dir(home, id));
}

/// Whether `id` names a directory of its own: it is not empty, holds no slash, and is
/// neither of the two names that stand for other directories.
pub open spec fn is_name(id: Seq<char>) -> bool {
    id.len() > 0 && !id.contains('/') && id != "."@ && id != ".."@
}

proof fn lemma_apart(id: Seq<char>, other: Seq<char>, rest: Seq<char>)
    requires
        id.len() > 0,
        !id.contains('/'),
        other.len() > 0,
        other != id,
        !id.push('/').is_prefix_of(other),
    ensures
        !(at_or_in(id, rest) && at_or_in(other, rest)),
{
    if at_or_in(id, rest) && at_or_in(other, rest) {
        reveal_strlit("/");
        assert(id.contains(id.last()));
        let a = path_joined(id, Seq::empty());
        let b = path_joined(other, Seq::empty());
        assert(a =~= id.push('/'));
        assert(b =~= if other.last() == '/' {
            other
        } else {
            other.push('/')
        });
        assert(b.last() == '/');
        if rest == id {
            assert(b =~= rest.subrange(0, b.len() as int));
            assert(id[b.len() - 1] == '/');
            assert(id.contains('/'));
        } else {
            assert(a =~= rest.subrange(0, a.len() as int));
            if rest == other {
                assert(a.is_prefix_of(other));
            } else {
                assert(b =~= rest.subrange(0, b.len() as int));
                if b.len() < a.len() {
                    assert(id[b.len() - 1] == rest[b.len() - 1]);
                    assert(id[b.len() - 1] == '/');
                    assert(id.contains('/'));
                } else if a.len() <= other.len() {
                    assert(a =~= other.subrange(0, a.len() as int)) by {
                        assert forall|i: int| 0 <= i < a.len() implies a[i] == other[i] by {
                            assert(rest[i] == b[i]);
                        }
                    }
                } else {
                    assert(id =~= other) by {
                        assert forall|i: int| 0 <= i < id.len() implies id[i] == other[i] by {
                            assert(rest[i] == b[i]);
                            assert(rest[i] == a[i]);
                        }
                    }
                }
            }
        }
    }
}

proof fn lemma_strip(base: Seq<char>, name: Seq<char>, path: Seq<char>)
    requires
        name.len() > 0,
        at_or_in(base + name, path),
    ensures
        path.len() >= base.len(),
        at_or_in(name, path.skip(base.len() as int)),
{
    let n = base.len() as int;
    let front = path_joined(base + name, Seq::empty());
    let rest = path.skip(n);
    if path == base + name {
        assert(rest =~= name);
    } else {
        assert(front =~= path.subrange(0, front.len() as int));
        assert(front =~= base + path_joined(name, Seq::empty()));
        let b = path_joined(name, Seq::empty());
        assert(b =~= rest.subrange(0, b.len() as int)) by {
            assert forall|i: int| 0 <= i < b.len() implies b[i] == rest[i] by {
                assert(front[n + i] == b[i]);
                assert(path[n + i] == front[n + i]);
            }
        }
    }
}

proof fn lemma_roots_apart(home: Seq<char>, id: Seq<char>, other: Seq<char>, file: Seq<char>)
    requires
        is_name(id),
        other.len() > 0,
        other != id,
        !id.push('/').is_prefix_of(other),
        at_or_in(container_dir(home, other), file),
    ensures
        !at_or_in(container_dir(home, id), file),
{
    let base = home + "/.mincontainer/containers/"@;
    if at_or_in(container_dir(home, id), file) {
        lemma_strip(base, id, file);
        lemma_strip(base, other, file);
        lemma_apart(id, other, file.skip(base.len() as int));
    }
}

proof fn lemma_removal(
    files: Map<Seq<char>, ContainerStateView>,
    root: Seq<char>,
    kin: Seq<char>,
)
    requires
        forall|file: Seq<char>| #[trigger] at_or_in(kin, file) ==> !at_or_in(root, file),
    ensures
        ({
            let gone = kept(files, OpView::RemoveTree(root));
            &&& !holds_any(gone, root)
            &&& holds_any(gone, kin) == holds_any(files, kin)
            &&& gone.dom().contains(state_path(kin)) == files.dom().contains(state_path(kin))
            &&& files.dom().contains(state_path(kin)) ==> gone[state_path(kin)]
                == files[state_path(kin)]
        }),
{
    let gone = kept(files, OpView::RemoveTree(root));
    if holds_any(files, kin) {
        let file = choose|file: Seq<char>| #[trigger]
            files.dom().contains(file) && at_or_in(kin, file);
        assert(gone.dom().contains(file));
    }
    if holds_any(gone, kin) {
        let file = choose|file: Seq<char>| #[trigger]
            gone.dom().contains(file) && at_or_in(kin, file);
        assert(files.dom().contains(file));
    }
    lemma_state_at(kin);
}

/// A container that was removed is gone: it does not exist, a lookup does not find it,
/// and to remove it again is an error. Every other container is found as before, unless
/// it was kept below the one that was removed. Paths are told apart by their text.
pub proof fn law_removed_is_gone(
    home: Seq<char>,
    id: Seq<char>,
    other: Seq<char>,
    files: Map<Seq<char>, ContainerStateView>,
)
    requires
        is_name(id),
        files.dom().contains(state_path(container_dir(home, id))),
        other.len() > 0,
        other != id,
        !id.push('/').is_prefix_of(other),
    ensures
        ({
            let root = container_dir(home, id);
            let step = cleanup_step(root);
            let gone = kept(files, step.op);
            &&& recalled(files, step.op) is Done
            &&& recalled(gone, OpView::Exists(root)) == ReplyView::Flag(false)
            &&& found_in(gone, home, id) == Err::<ContainerStateView, RuntimeErrorView>(
                RuntimeErrorView::Config("container "@ + id + " not found"@),
            )
            &&& after(seq![step], 0, recalled(gone, step.op)) == Course::Ended(
                Err(RuntimeErrorView::Config("cleanup "@ + root + ": "@)),
            )
            &&& found_in(gone, home, other) == found_in(files, home, other)
        }),
{
    let root = container_dir(home, id);
    let kin = container_dir(home, other);
    law_state_is_held(files, root);
    assert forall|file: Seq<char>| #[trigger] at_or_in(kin, file) implies !at_or_in(
        root,
        file,
    ) by {
        lemma_roots_apart(home, id, other, file);
    }
    lemma_removal(files, root, kin);
    assert("cleanup "@ + root + ": "@ + Seq::<char>::empty() =~= "cleanup "@ + root + ": "@);
}

/// Whether `a` is `b` with a slash behind it, which names the same directory.
pub open spec fn slash_apart(a: Seq<char>, b: Seq<char>) -> bool {
    b.len() > 0 && b.last() != '/' && a == b.push('/')
}

/// A change of one container leaves every other as it was.
pub proof fn law_others_stay(
    home: Seq<char>,
    id: Seq<char>,
    other: Seq<char>,
    state: ContainerStateView,
    files: Map<Seq<char>, ContainerStateView>,
)
    requires
        id != other,
        !slash_apart(id, other),
        !slash_apart(other, id),
    ensures
        ({
            let path = state_path(container_dir(home, other));
            let after = kept(files, save_state_step(container_dir(home, id), state).op);
            &&& after.dom().contains(path) == files.dom().contains(path)
            &&& files.dom().contains(path) ==> after[path] == files[path]
        }),
{
    reveal_strlit("state.json");
    reveal_strlit("/");
    reveal_strlit("/.mincontainer/containers/");
    let front = home + "/.mincontainer/containers/"@;
    let n = front.len() as int;
    let a = state_path(container_dir(home, id));
    let b = state_path(container_dir(home, other));
    if a == b {
        let mid = a.subrange(n, a.len() - 10);
        assert(front.last() == '/');
        assert(mid =~= if id.len() == 0 || id.last() == '/' {
            id
        } else {
            id.push('/')
        });
        assert(mid =~= if other.len() == 0 || other.last() == '/' {
            other
        } else {
            other.push('/')
        });
        if id.len() > 0 && id.last() != '/' && other.len() > 0 && other.last() != '/' {
            assert(id =~= mid.drop_last());
            assert(other =~= mid.drop_last());
        }
    }
}

/// Whether a lookup of `id` finds a state where the host answers with `host`, and
/// which.
pub open spec fn looked_up(
    home: Seq<char>,
    id: Seq<char>,
    host: spec_fn(OpView) -> ReplyView,
) -> Option<ContainerStateView> {
    let root = container_dir(home, id);
    if host(OpView::Exists(root)).yes() {
        match loaded(host(OpView::LoadState(state_path(root)))) {
            Ok(state) => Some(state),
            Err(_) => None,
        }
    } else {
        None
    }
}

/// The states of those of the containers `ids` that can be looked up.
pub open spec fn found_states(
    home: Seq<char>,
    ids: Seq<Seq<char>>,
    host: spec_fn(OpView) -> ReplyView,
) -> Seq<ContainerStateView>
    decreases ids.len(),
{
    if ids.len() == 0 {
        Seq::empty()
    } else {
        let rest = found_states(home, ids.drop_first(), host);
        match looked_up(home, ids[0], host) {
            Some(state) => seq![state] + rest,
            None => rest,
        }
    }
}

/// How a listing ends where the host answers each operation with `host`.
pub open spec fn listed(
    course: ListingCourse,
    host: spec_fn(OpView) -> ReplyView,
) -> Result<Seq<ContainerStateView>, RuntimeErrorView>
    decreases course.rank(), course.ahead(), course.half(),
    when course.wf()
{
    match course {
        ListingCourse::Ended(r) => r,
        ListingCourse::Ask(l) => listed(l.next(host(l.op())), host),
    }
}

impl ListingCourse {
    /// How many kinds of questions the listing has still before it.
    pub open spec fn rank(self) -> nat {
        match self {
            ListingCourse::Ended(_) => 0,
            ListingCourse::Ask(l) => match l.stage {
                ListingStageView::Root(_) => 3,
                ListingStageView::Entries(_) => 2,
                ListingStageView::Visit { .. } => 1,
            },
        }
    }

    /// How many containers the listing has still before it.
    pub open spec fn ahead(self) -> nat {
        match self {
            ListingCourse::Ended(_) => 0,
            ListingCourse::Ask(l) => match l.stage {
                ListingStageView::Visit { ids, at, .. } => (ids.len() - at) as nat,
                _ => 0,
            },
        }
    }

    /// Whether the container at hand is still to be found.
    pub open spec fn half(self) -> nat {
        match self {
            ListingCourse::Ended(_) => 0,
            ListingCourse::Ask(l) => match l.stage {
                ListingStageView::Visit { lookup, .. } => if lookup.found {
                    0
                } else {
                    1
                },
                _ => 0,
            },
        }
    }
}

proof fn lemma_visits(
    me: ListingView,
    ids: Seq<Seq<char>>,
    at: int,
    found: Seq<ContainerStateView>,
    host: spec_fn(OpView) -> ReplyView,
)
    requires
        0 <= at <= ids.len(),
    ensures
        listed(me.visiting(ids, at, found), host) == Ok::<
            Seq<ContainerStateView>,
            RuntimeErrorView,
        >(found + found_states(me.home, ids.skip(at), host)),
    decreases ids.len() - at,
{
    reveal_with_fuel(listed, 3);
    if at == ids.len() {
        assert(found + found_states(me.home, ids.skip(at), host) =~= found);
    } else {
        let id = ids[at];
        let root = container_dir(me.home, id);
        assert(ids.skip(at)[0] == id);
        assert(ids.skip(at).drop_first() =~= ids.skip(at + 1));
        match looked_up(me.home, id, host) {
            Some(state) => {
                lemma_visits(me, ids, at + 1, found.push(state), host);
                assert(found.push(state) + found_states(me.home, ids.skip(at + 1), host)
                    =~= found + (seq![state] + found_states(me.home, ids.skip(at + 1), host)));
            },
            None => {
                lemma_visits(me, ids, at + 1, found, host);
            },
        }
    }
}

/// A listing shows, in the order of the directory, the states of exactly those
/// containers that can be looked up. It fails only where the directory, or an entry
/// of it, cannot be read; without a directory there is nothing to show.
pub proof fn law_listing(home: Seq<char>, host: spec_fn(OpView) -> ReplyView)
    ensures
        listed(ListingCourse::Ask(ListingView::start(home)), host) == (if !host(
            OpView::Exists(base_dir(home)),
        ).yes() {
            Ok(Seq::empty())
        } else {
            let answer = host(OpView::ListDir(base_dir(home)));
            match answer {
                ReplyView::Entries(entries) => match unreadable(entries) {
                    Some(e) => Err(RuntimeErrorView::Config("read entry: "@ + e)),
                    None => Ok(found_states(home, container_names(entries), host)),
                },
                _ => Err(RuntimeErrorView::Config("list containers: "@ + answer.reason())),
            }
        }),
{
    reveal_with_fuel(listed, 3);
    let answer = host(OpView::ListDir(base_dir(home)));
    if let ReplyView::Entries(entries) = answer {
        let ids = container_names(entries);
        let me = ListingView {
            home,
            stage: ListingStageView::Entries(OpView::ListDir(base_dir(home))),
        };
        lemma_visits(me, ids, 0, Seq::empty(), host);
        assert(ids.skip(0) =~= ids);
        assert(Seq::<ContainerStateView>::empty() + found_states(home, ids, host)
            =~= found_states(home, ids, host));
    }
}


/// Whether an entry of the directory of all containers is one of them: a directory whose
/// name can be read and does not begin with a dot.
pub open spec fn is_container(entry: EntryView, name: Seq<char>) -> bool {
    &&& entry matches EntryView::Item { name: Some(n), is_dir } && is_dir && n == name
    &&& !(name.len() > 0 && name[0] == '.')
}

/// The containers that are found are those of the entries that are one, all of them and in
/// their order.
pub proof fn law_container_names(entries: Seq<EntryView>) -> (from: Seq<int>)
    ensures
        from.len() == container_names(entries).len(),
        forall|j: int|
            0 <= j < from.len() ==> 0 <= #[trigger] from[j] < entries.len() && is_container(
                entries[from[j]],
                container_names(entries)[j],
            ),
        forall|i: int, j: int| 0 <= i < j < from.len() ==> from[i] < from[j],
        forall|i: int, name: Seq<char>|
            0 <= i < entries.len() && #[trigger] is_container(entries[i], name) ==> from.contains(
                i,
            ),
    decreases entries.len(),
{
    if entries.len() == 0 {
        Seq::empty()
    } else {
        let less = entries.drop_last();
        let before = law_container_names(less);
        let n = entries.len() - 1;
        assert forall|i: int, name: Seq<char>|
            0 <= i < n && #[trigger] is_container(entries[i], name) implies before.contains(i) by {
            assert(less[i] == entries[i]);
            assert(is_container(less[i], name));
        }
        if container_name(entries.last()) is Some {
            let from = before.push(n);
            assert forall|i: int, name: Seq<char>|
                0 <= i < entries.len() && #[trigger] is_container(entries[i], name) implies
                from.contains(i) by {
                if i < n {
                    let k = before.index_of(i);
                    assert(from[k] == i);
                } else {
                    assert(from[before.len() as int] == n);
                }
            }
            from
        } else {
            before
        }
    }
}

/// A listing fails exactly where an entry cannot be read, with the reason of the first.
pub proof fn law_unreadable(entry: EntryView, rest: Seq<EntryView>)
    ensures
        unreadable(Seq::empty()) is None,
        entry matches EntryView::Unreadable(e) ==> unreadable(seq![entry] + rest) == Some(e),
        !(entry is Unreadable) ==> unreadable(seq![entry] + rest) == unreadable(rest),
{
    let list = seq![entry] + rest;
    assert(list[0] == entry);
    assert(list.drop_first() =~= rest);
}

/// What is kept of a container, field by field: when it is new, when it runs, when it has
/// stopped, and when its process is gone.
pub proof fn law_what_is_kept(state: ContainerStateView, n: i32, at: Seq<char>)
    ensures
        created(state.id, at) == (ContainerStateView {
            id: state.id,
            pid: None,
            status: "created"@,
            exit_code: None,
            created_at: at,
            started_at: None,
            stopped_at: None,
        }),
        changed(state, Change::Running(n), at) == (ContainerStateView {
            id: state.id,
            pid: Some(n),
            status: "running"@,
            exit_code: state.exit_code,
            created_at: state.created_at,
            started_at: Some(at),
            stopped_at: state.stopped_at,
        }),
        changed(state, Change::Stopped(n), at) == (ContainerStateView {
            id: state.id,
            pid: state.pid,
            status: "stopped"@,
            exit_code: Some(n),
            created_at: state.created_at,
            started_at: state.started_at,
            stopped_at: Some(at),
        }),
        changed(state, Change::Ended(n), at) == (ContainerStateView {
            id: state.id,
            pid: None,
            status: "stopped"@,
            exit_code: Some(n),
            created_at: state.created_at,
            started_at: state.started_at,
            stopped_at: Some(at),
        }),
{
}

/// A container is kept in a directory of its own below that of all containers, its state
/// and its configuration each in a file of that directory.
pub proof fn law_where_it_is_kept(home: Seq<char>, id: Seq<char>)
    requires
        id.len() > 0,
        id.last() != '/',
    ensures
        base_dir(home) == home + "/.mincontainer/containers"@,
        container_dir(home, id) == home + "/.mincontainer/containers"@ + "/"@ + id,
        state_path(container_dir(home, id)) == container_dir(home, id) + "/state.json"@,
        config_path(container_dir(home, id)) == container_dir(home, id) + "/config.json"@,
{
    reveal_strlit("/");
    reveal_strlit("/.mincontainer/containers");
    reveal_strlit("/.mincontainer/containers/");
    reveal_strlit("state.json");
    reveal_strlit("/state.json");
    reveal_strlit("config.json");
    reveal_strlit("/config.json");
    let dir = container_dir(home, id);
    assert(dir =~= home + "/.mincontainer/containers"@ + "/"@ + id);
    assert(dir.last() == id.last());
    assert(state_path(dir) =~= dir + "/state.json"@);
    assert(config_path(dir) =~= dir + "/config.json"@);
}

/// A change of a state reads the state, and saves it with the change made in the file that
/// it was read from; it ends there, well where the state was saved.
pub proof fn law_update(
    home: Seq<char>,
    id: Seq<char>,
    change: Change,
    state: ContainerStateView,
    now: Seq<char>,
    later: Seq<char>,
    reply: ReplyView,
)
    ensures
        ({
            let path = path_joined(home + "/.mincontainer/containers/"@ + id, "state.json"@);
            let first = UpdateView::start(home, id, change);
            &&& first.op() == OpView::LoadState(path)
            &&& first.next(ReplyView::State(state), now) matches UpdateCourse::Ask(second)
            &&& second.op() == (OpView::SaveState { path, state: changed(state, change, now) })
            &&& reply is Done ==> second.next(reply, later) == UpdateCourse::Ended(Ok(()))
            &&& reply matches ReplyView::Failed(why) ==> second.next(reply, later)
                == UpdateCourse::Ended(
                Err(RuntimeErrorView::Config("write state"@ + ": "@ + why)),
            )
        }),
{
    let root = container_dir(home, id);
    let first = UpdateView::start(home, id, change);
    let steps = seq![save_state_step(root, changed(state, change, now))];
    assert(first.next(ReplyView::State(state), now) == first.saving(place(steps, 0)));
    let run = PlanRunView { steps, at: 0 };
    assert(steps[0] == save_state_step(root, changed(state, change, now)));
    if reply is Done {
        assert(run.next(reply) == Course::Ended(Ok(())));
    }
}


/// The model of a state says of each field what it holds.
pub proof fn law_state(s: ContainerState)
    ensures
        s@.id == s.id@,
        s@.pid == s.pid,
        s@.status == s.status@,
        s@.exit_code == s.exit_code,
        s@.created_at == s.created_at@,
        s.started_at matches Some(at) ==> s@.started_at == Some(at@),
        s.started_at is None ==> s@.started_at is None,
        s.stopped_at matches Some(at) ==> s@.stopped_at == Some(at@),
        s.stopped_at is None ==> s@.stopped_at is None,
{
}

} // verus!
