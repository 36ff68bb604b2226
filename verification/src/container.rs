//! Running a container.

use crate::capabilities::{drop_dangerous, drop_plan};
use crate::cgroups::{
    leaf_path, limit_steps, reading, usage, write_step, Cgroup, CgroupCreation,
    CgroupCreationView, CreationCourse, CreationTurn,
};
use crate::config::{
    is_random_uuid, law_random_id_is_ascii, short, ContainerConfig, ContainerConfigView, Resources,
};
use crate::error::{RuntimeError, RuntimeErrorView};
use crate::host::{Namespace, Op, OpView, Pipe, PipeEnd, Reply, ReplyView, WaitStatus};
use crate::network::{
    can_name_links, law_ascii_names_links, names_links, network_of, setup_steps, Network,
    NetworkView,
};
use crate::plan::{
    may, must, place, Course, OnFailure, OnFailureView, Plan, PlanRun, PlanRunView, PlanTurn,
    Step, StepView,
};
use crate::rootfs::{mount_volumes, rootfs_steps, setup_rootfs, volumes_steps};
use crate::scan::{lines, path_joined};
use crate::state::{opt_view, set_running, Change, Update, UpdateCourse, UpdateTurn, UpdateView};
use crate::text::{cat, copy_list, has_char, signed_decimal};
use vstd::prelude::*;
use vstd::utf8::{encode_utf8, is_ascii_chars};

verus! {

/// Measurements captured for one container run.
#[derive(Debug)]
pub struct Metrics {
    pub id: String,
    /// Runtime setup overhead: time until the container is cleared to exec, in
    /// nanoseconds.
    pub setup_nanos: u64,
    /// Wall-clock time from launch to container exit, in nanoseconds.
    pub wall_nanos: u64,
    /// Peak memory attributed to the container cgroup, in bytes.
    pub peak_mem_bytes: u64,
    /// CPU time consumed by the container, in microseconds.
    pub cpu_usec: u64,
    pub exit_code: i32,
    pub container_ip: Option<String>,
}

/// The model of [`Metrics`].
pub ghost struct MetricsView {
    pub id: Seq<char>,
    pub setup_nanos: u64,
    pub wall_nanos: u64,
    pub peak_mem_bytes: u64,
    pub cpu_usec: u64,
    pub exit_code: i32,
    pub container_ip: Option<Seq<char>>,
}

impl View for Metrics {
    type V = MetricsView;

    open spec fn view(&self) -> MetricsView {
        MetricsView {
            id: self.id@,
            setup_nanos: self.setup_nanos,
            wall_nanos: self.wall_nanos,
            peak_mem_bytes: self.peak_mem_bytes,
            cpu_usec: self.cpu_usec,
            exit_code: self.exit_code,
            container_ip: opt_view(self.container_ip),
        }
    }
}

// The end of a process.

/// The exit code of a process that ended with `status`: its own; 128 and the signal
/// that ended it; `other` where something else happened to it.
pub open spec fn exit_code(status: WaitStatus, other: i32) -> i32 {
    match status {
        WaitStatus::Exited(code) => code,
        WaitStatus::Signaled(signal) => (128 + signal) as i32,
        WaitStatus::Other => other,
    }
}

/// The exit code of a process that ended with `status`.
pub fn code_of(status: WaitStatus, other: i32) -> (r: i32)
    ensures
        r == exit_code(status, other),
{
    match status {
        WaitStatus::Exited(code) => code,
        WaitStatus::Signaled(signal) => 128 + signal as i32,
        WaitStatus::Other => other,
    }
}

/// Best-effort reap of a leaked child.
pub fn reap(pid: i32) -> (r: Step)
    ensures
        r@ == may(OpView::Wait(pid)),
{
    Step::may(Op::Wait(pid))
}

// The container process.

/// What the container process drops and installs before it runs its command.
pub open spec fn hardening_steps(cfg: ContainerConfigView) -> Seq<StepView> {
    (if cfg.drop_caps {
        drop_plan()
    } else {
        Seq::empty()
    }) + (if cfg.seccomp {
        seq![must(OpView::InstallFilter, OnFailureView::Seccomp("apply filter"@))]
    } else {
        Seq::empty()
    })
}

/// What the container process does before its root file system is its own.
pub open spec fn arrival_steps(cfg: ContainerConfigView) -> Seq<StepView> {
    seq![
        must(OpView::AwaitRelease, OnFailureView::Io),
        must(OpView::SetHostname(cfg.hostname), OnFailureView::Syscall("sethostname"@)),
    ] + volumes_steps(cfg.rootfs, cfg.volumes)
}

/// What the container process does to get its root file system.
pub open spec fn moving_steps(cfg: ContainerConfigView) -> Seq<StepView> {
    rootfs_steps(cfg.rootfs) + seq![
        must(OpView::ChangeDir("/"@), OnFailureView::Syscall("chdir(/)"@)),
    ]
}

/// All that the container process does before it runs its command.
pub open spec fn grandchild_steps(cfg: ContainerConfigView) -> Seq<StepView> {
    arrival_steps(cfg) + moving_steps(cfg) + hardening_steps(cfg)
}

/// The container process (PID 1 in its namespace): it sets up its root filesystem
/// and applies hardening. What is left is to run the command.
pub fn grandchild(cfg: &ContainerConfig) -> (plan: Plan)
    ensures
        plan@ == grandchild_steps(cfg@),
{
    let mut plan: Plan = Plan::new();
    // Wait until the parent has attached us to the cgroup and wired networking.
    plan.push(Step::must(Op::AwaitRelease, OnFailure::Io));
    plan.push(
        Step::must(Op::SetHostname(cfg.hostname.clone()), OnFailure::Syscall("sethostname")),
    );
    // Mount volumes *before* pivot_root, so paths are still in the host namespace.
    plan.extend(mount_volumes(cfg.rootfs.as_str(), &cfg.volumes));
    assert(plan@ =~= arrival_steps(cfg@));
    plan.extend(setup_rootfs(cfg.rootfs.as_str()));
    plan.push(Step::must(Op::ChangeDir("/".to_owned()), OnFailure::Syscall("chdir(/)")));
    assert(plan@ =~= arrival_steps(cfg@) + moving_steps(cfg@));
    // Hardening - order matters: drop caps and install seccomp last, after all
    // privileged mount work is done (mount/pivot_root are on the seccomp
    // deny-list themselves).
    if cfg.drop_caps {
        plan.extend(drop_dangerous());
    }
    if cfg.seccomp {
        plan.push(
            Step::must(Op::InstallFilter, OnFailure::Seccomp("apply filter".to_owned())),
        );
    }
    assert(plan@ =~= grandchild_steps(cfg@));
    plan
}

// The middle process.

/// The namespaces that a container gets of its own.
pub open spec fn namespaces() -> Seq<Namespace> {
    seq![Namespace::Pid, Namespace::Mount, Namespace::Uts, Namespace::Ipc, Namespace::Net]
}

/// The step that closes one end of a pipe.
pub open spec fn close_step(pipe: Pipe, end: PipeEnd) -> StepView {
    may(OpView::Close { pipe, end })
}

fn close(pipe: Pipe, end: PipeEnd) -> (r: Step)
    ensures
        r@ == close_step(pipe, end),
{
    Step::may(Op::Close { pipe, end })
}

/// How far the middle process has come.
#[derive(Debug)]
pub enum MiddleStage {
    /// It closes the ends of the pipes that are the parent's.
    Part(PlanRun),
    /// It leaves the host's namespaces.
    Unshare(Op),
    /// It forks the container process.
    Fork(Op),
    /// This is the container process, which sets itself up.
    Setup(PlanRun),
    /// This is the container process, which runs its command.
    Exec(Op),
    /// It tells the parent the pid of the container process.
    Report { op: Op, pid: i32 },
    /// It waits for the container process.
    Wait(Op),
    /// It says what went wrong, and exits with this code.
    Complain { op: Op, code: i32 },
}

/// The model of a [`MiddleStage`].
pub ghost enum MiddleStageView {
    Part(PlanRunView),
    Unshare(OpView),
    Fork(OpView),
    Setup(PlanRunView),
    Exec(OpView),
    Report { op: OpView, pid: i32 },
    Wait(OpView),
    Complain { op: OpView, code: i32 },
}

impl View for MiddleStage {
    type V = MiddleStageView;

    open spec fn view(&self) -> MiddleStageView {
        match self {
            MiddleStage::Part(run) => MiddleStageView::Part(run@),
            MiddleStage::Unshare(op) => MiddleStageView::Unshare(op@),
            MiddleStage::Fork(op) => MiddleStageView::Fork(op@),
            MiddleStage::Setup(run) => MiddleStageView::Setup(run@),
            MiddleStage::Exec(op) => MiddleStageView::Exec(op@),
            MiddleStage::Report { op, pid } => MiddleStageView::Report { op: op@, pid: *pid },
            MiddleStage::Wait(op) => MiddleStageView::Wait(op@),
            MiddleStage::Complain { op, code } => MiddleStageView::Complain {
                op: op@,
                code: *code,
            },
        }
    }
}

/// The middle process: creates the namespaces and forks the real container.
/// Stays in the host PID namespace itself (only its children enter the new PID
/// namespace).
#[derive(Debug)]
pub struct Middle {
    pub cfg: ContainerConfig,
    pub stage: MiddleStage,
}

/// The model of a [`Middle`].
pub ghost struct MiddleView {
    pub cfg: ContainerConfigView,
    pub stage: MiddleStageView,
}

impl View for Middle {
    type V = MiddleView;

    open spec fn view(&self) -> MiddleView {
        MiddleView { cfg: self.cfg@, stage: self.stage@ }
    }
}

/// What comes of the middle process next.
#[derive(Debug)]
pub enum MiddleTurn {
    Ask(Middle),
    /// It exits with this code.
    Exit(i32),
}

/// The model of a [`MiddleTurn`].
pub ghost enum MiddleCourse {
    Ask(MiddleView),
    Exit(i32),
}

impl View for MiddleTurn {
    type V = MiddleCourse;

    open spec fn view(&self) -> MiddleCourse {
        match self {
            MiddleTurn::Ask(m) => MiddleCourse::Ask(m@),
            MiddleTurn::Exit(code) => MiddleCourse::Exit(*code),
        }
    }
}

impl MiddleCourse {
    pub open spec fn wf(self) -> bool {
        match self {
            MiddleCourse::Ask(m) => m.wf(),
            MiddleCourse::Exit(_) => true,
        }
    }
}

/// The steps with which the middle process parts from its parent.
pub open spec fn part_steps() -> Seq<StepView> {
    seq![
        close_step(Pipe::Release, PipeEnd::Write),
        close_step(Pipe::Pid, PipeEnd::Read),
    ]
}

/// Whether the name of the program holds a character that ends it.
pub open spec fn has_nul(cfg: ContainerConfigView) -> bool {
    cfg.command.len() > 0 && cfg.command[0].contains('\0')
}

/// The steps of the container process, which first closes the end of the pipe that
/// is the middle process's.
pub open spec fn child_steps(cfg: ContainerConfigView) -> Seq<StepView> {
    seq![close_step(Pipe::Pid, PipeEnd::Write)] + grandchild_steps(cfg)
}

impl MiddleView {
    /// Where the middle process of the container `cfg` begins.
    pub open spec fn start(cfg: ContainerConfigView) -> MiddleView {
        MiddleView {
            cfg,
            stage: MiddleStageView::Part(PlanRunView { steps: part_steps(), at: 0 }),
        }
    }

    pub open spec fn wf(self) -> bool {
        match self.stage {
            MiddleStageView::Part(run) => run.wf(),
            MiddleStageView::Setup(run) => run.wf(),
            _ => true,
        }
    }

    /// The operation to be done now.
    pub open spec fn op(self) -> OpView {
        match self.stage {
            MiddleStageView::Part(run) => run.op(),
            MiddleStageView::Unshare(op) => op,
            MiddleStageView::Fork(op) => op,
            MiddleStageView::Setup(run) => run.op(),
            MiddleStageView::Exec(op) => op,
            MiddleStageView::Report { op, .. } => op,
            MiddleStageView::Wait(op) => op,
            MiddleStageView::Complain { op, .. } => op,
        }
    }

    pub open spec fn at(self, stage: MiddleStageView) -> MiddleCourse {
        MiddleCourse::Ask(MiddleView { stage, ..self })
    }

    /// It gives up, with this complaint.
    pub open spec fn complain(self, text: Seq<char>) -> MiddleCourse {
        self.at(MiddleStageView::Complain { op: OpView::Complain(text), code: 127 })
    }

    /// The container process cannot go on.
    pub open spec fn failed(self, e: RuntimeErrorView) -> MiddleCourse {
        self.complain("mincontainer: container setup failed: "@ + e.message())
    }

    /// The container process when its setup stands at `course`.
    pub open spec fn setting_up(self, course: Course) -> MiddleCourse {
        match course {
            Course::Ask(run) => self.at(MiddleStageView::Setup(run)),
            Course::Ended(Ok(_)) => if has_nul(self.cfg) {
                self.failed(RuntimeErrorView::Config("command contains NUL"@))
            } else {
                self.at(
                    MiddleStageView::Exec(
                        OpView::Exec { command: self.cfg.command, env: self.cfg.env },
                    ),
                )
            },
            Course::Ended(Err(e)) => self.failed(e),
        }
    }

    /// What comes of it when the host answers with `reply`.
    pub open spec fn next(self, reply: ReplyView) -> MiddleCourse {
        match self.stage {
            MiddleStageView::Part(run) => match run.next(reply) {
                Course::Ask(run) => self.at(MiddleStageView::Part(run)),
                Course::Ended(_) => self.at(
                    MiddleStageView::Unshare(OpView::Unshare(namespaces())),
                ),
            },
            MiddleStageView::Unshare(_) => if reply is Done {
                self.at(MiddleStageView::Fork(OpView::Fork))
            } else {
                self.complain("mincontainer: unshare failed: "@ + reply.reason())
            },
            MiddleStageView::Fork(_) => match reply {
                ReplyView::Child => self.setting_up(place(child_steps(self.cfg), 0)),
                ReplyView::Pid(pid) => self.at(
                    MiddleStageView::Report { op: OpView::SendPid(pid), pid },
                ),
                _ => self.complain("mincontainer: fork failed: "@ + reply.reason()),
            },
            MiddleStageView::Setup(run) => self.setting_up(run.next(reply)),
            MiddleStageView::Exec(_) => self.failed(
                RuntimeErrorView::Syscall("execvpe"@, reply.reason()),
            ),
            MiddleStageView::Report { pid, .. } => self.at(
                MiddleStageView::Wait(OpView::Wait(pid)),
            ),
            MiddleStageView::Wait(_) => MiddleCourse::Exit(
                match reply {
                    ReplyView::Status(status) => exit_code(status, 1),
                    _ => 1,
                },
            ),
            MiddleStageView::Complain { code, .. } => MiddleCourse::Exit(code),
        }
    }
}

impl Middle {
    /// The middle process of the container `cfg`.
    pub fn start(cfg: ContainerConfig) -> (r: Self)
        ensures
            r@ == MiddleView::start(cfg@),
            r@.wf(),
    {
        let mut plan: Plan = Plan::new();
        plan.push(close(Pipe::Release, PipeEnd::Write));
        plan.push(close(Pipe::Pid, PipeEnd::Read));
        assert(plan@ =~= part_steps());
        assert(plan.steps.len() == 2);
        Middle { cfg, stage: MiddleStage::Part(PlanRun { plan, at: 0 }) }
    }

    /// The operation to be done now.
    pub fn op(&self) -> (r: &Op)
        requires
            self@.wf(),
        ensures
            r@ == self@.op(),
    {
        match &self.stage {
            MiddleStage::Part(run) => run.op(),
            MiddleStage::Unshare(op) => op,
            MiddleStage::Fork(op) => op,
            MiddleStage::Setup(run) => run.op(),
            MiddleStage::Exec(op) => op,
            MiddleStage::Report { op, .. } => op,
            MiddleStage::Wait(op) => op,
            MiddleStage::Complain { op, .. } => op,
        }
    }

    fn at(cfg: ContainerConfig, stage: MiddleStage) -> (r: MiddleTurn)
        ensures
            r@ == MiddleCourse::Ask(MiddleView { cfg: cfg@, stage: stage@ }),
    {
        MiddleTurn::Ask(Middle { cfg, stage })
    }

    fn complain(cfg: ContainerConfig, what: &str, why: &str) -> (r: MiddleTurn)
        ensures
            r@ == MiddleCourse::Ask(
                MiddleView {
                    cfg: cfg@,
                    stage: MiddleStageView::Complain {
                        op: OpView::Complain(what@ + why@),
                        code: 127,
                    },
                },
            ),
    {
        Middle::at(
            cfg,
            MiddleStage::Complain { op: Op::Complain(cat(what, why)), code: 127 },
        )
    }

    fn failed(cfg: ContainerConfig, e: RuntimeError) -> (r: MiddleTurn)
        ensures
            forall|me: MiddleView| me.cfg == cfg@ ==> r@ == #[trigger] me.failed(e@),
            r@.wf(),
    {
        Middle::complain(cfg, "mincontainer: container setup failed: ", e.message().as_str())
    }

    fn set_up(cfg: ContainerConfig, turn: PlanTurn) -> (r: MiddleTurn)
        requires
            turn@.wf(),
        ensures
            forall|me: MiddleView| me.cfg == cfg@ ==> r@ == #[trigger] me.setting_up(turn@),
            r@.wf(),
    {
        match turn {
            PlanTurn::Ask(run) => Middle::at(cfg, MiddleStage::Setup(run)),
            PlanTurn::Ended(Ok(_)) => {
                if cfg.command.len() > 0 && has_char(cfg.command[0].as_str(), '\0') {
                    Middle::failed(
                        cfg,
                        RuntimeError::Config("command contains NUL".to_owned()),
                    )
                } else {
                    let command: Vec<String> = copy_list(&cfg.command);
                    let env: Vec<String> = copy_list(&cfg.env);
                    Middle::at(cfg, MiddleStage::Exec(Op::Exec { command, env }))
                }
            },
            PlanTurn::Ended(Err(e)) => Middle::failed(cfg, e),
        }
    }

    /// Go on from the answer to that operation.
    pub fn resume(self, reply: Reply) -> (r: MiddleTurn)
        requires
            self@.wf(),
        ensures
            r@ == self@.next(reply@),
            r@.wf(),
    {
        let cfg: ContainerConfig = self.cfg;
        match self.stage {
            MiddleStage::Part(run) => match run.resume(reply) {
                PlanTurn::Ask(run) => Middle::at(cfg, MiddleStage::Part(run)),
                PlanTurn::Ended(_) => {
                    let all: Vec<Namespace> = vec![
                        Namespace::Pid,
                        Namespace::Mount,
                        Namespace::Uts,
                        Namespace::Ipc,
                        Namespace::Net,
                    ];
                    assert(all@ =~= namespaces());
                    Middle::at(cfg, MiddleStage::Unshare(Op::Unshare(all)))
                },
            },
            MiddleStage::Unshare(_) => if reply.is_done() {
                Middle::at(cfg, MiddleStage::Fork(Op::Fork))
            } else {
                Middle::complain(cfg, "mincontainer: unshare failed: ", reply.reason().as_str())
            },
            MiddleStage::Fork(_) => match reply {
                Reply::Child => {
                    let mut plan: Plan = Plan::new();
                    plan.push(close(Pipe::Pid, PipeEnd::Write));
                    plan.extend(grandchild(&cfg));
                    assert(plan@ =~= child_steps(cfg@));
                    Middle::set_up(cfg, PlanRun::start(plan))
                },
                Reply::Pid(pid) => Middle::at(
                    cfg,
                    MiddleStage::Report { op: Op::SendPid(pid), pid },
                ),
                _ => Middle::complain(
                    cfg,
                    "mincontainer: fork failed: ",
                    reply.reason().as_str(),
                ),
            },
            MiddleStage::Setup(run) => Middle::set_up(cfg, run.resume(reply)),
            MiddleStage::Exec(_) => Middle::failed(
                cfg,
                RuntimeError::Syscall("execvpe", reply.reason()),
            ),
            MiddleStage::Report { op: _, pid } => Middle::at(
                cfg,
                MiddleStage::Wait(Op::Wait(pid)),
            ),
            MiddleStage::Wait(_) => MiddleTurn::Exit(
                match reply {
                    Reply::Status(status) => code_of(status, 1),
                    _ => 1,
                },
            ),
            MiddleStage::Complain { op: _, code } => MiddleTurn::Exit(code),
        }
    }
}

// The parent process.

/// Whether a container with this configuration can be run: where it has a network,
/// its id must be long enough to name the ends of its veth pair.
pub open spec fn runnable(cfg: ContainerConfigView) -> bool {
    cfg.network ==> encode_utf8(cfg.id).len() >= 12 && names_links(short(cfg.id))
}

/// Whether a container with this configuration can be run.
pub fn can_run(cfg: &ContainerConfig) -> (r: bool)
    ensures
        r == runnable(cfg@),
{
    if !cfg.network {
        true
    } else if cfg.id.as_str().as_bytes().len() < 12 {
        false
    } else {
        can_name_links(cfg.short_id())
    }
}

/// A container with a random id can always be run.
pub proof fn law_random_id_runs(cfg: ContainerConfigView)
    requires
        is_random_uuid(cfg.id),
    ensures
        runnable(cfg),
{
    law_random_id_is_ascii(cfg.id);
    law_ascii_names_links(short(cfg.id));
}

/// What is known so far of a container that is being run.
#[derive(Debug)]
pub struct Progress {
    /// The pid of the middle process.
    pub middle: i32,
    /// The pid of the container process.
    pub container: i32,
    pub net: Option<Network>,
    pub setup_nanos: u64,
    pub wall_nanos: u64,
    pub exit_code: i32,
    pub peak_mem_bytes: u64,
    pub cpu_usec: u64,
}

/// The model of a [`Progress`].
pub ghost struct ProgressView {
    pub middle: i32,
    pub container: i32,
    pub net: Option<NetworkView>,
    pub setup_nanos: u64,
    pub wall_nanos: u64,
    pub exit_code: i32,
    pub peak_mem_bytes: u64,
    pub cpu_usec: u64,
}

impl View for Progress {
    type V = ProgressView;

    open spec fn view(&self) -> ProgressView {
        ProgressView {
            middle: self.middle,
            container: self.container,
            net: match self.net {
                Some(n) => Some(n@),
                None => None,
            },
            setup_nanos: self.setup_nanos,
            wall_nanos: self.wall_nanos,
            exit_code: self.exit_code,
            peak_mem_bytes: self.peak_mem_bytes,
            cpu_usec: self.cpu_usec,
        }
    }
}

/// The record that is kept of a container while it runs.
#[derive(Debug)]
pub struct Record {
    pub home: String,
    pub id: String,
    /// The time stamp with which it is noted as running.
    pub at: String,
}

/// The model of a [`Record`].
pub ghost struct RecordView {
    pub home: Seq<char>,
    pub id: Seq<char>,
    pub at: Seq<char>,
}

impl View for Record {
    type V = RecordView;

    open spec fn view(&self) -> RecordView {
        RecordView { home: self.home@, id: self.id@, at: self.at@ }
    }
}

/// The model of a record that need not be kept.
pub open spec fn record_view(record: Option<Record>) -> Option<RecordView> {
    match record {
        Some(r) => Some(r@),
        None => None,
    }
}

/// How far a run has come.
#[derive(Debug)]
pub enum LaunchStage {
    /// The clock is started.
    Clock(Op),
    /// The cgroup leaf is created.
    Create(CgroupCreation),
    /// The limits are applied and the pipes opened.
    Prepare(PlanRun),
    /// The middle process is forked.
    Fork(Op),
    /// The ends of the pipes that are the child's are closed.
    Part(PlanRun),
    /// The container's pid is received.
    Learn(Op),
    /// The container is attached to its cgroup and its network.
    Attach(PlanRun),
    /// It is noted that the container runs.
    Note(Update),
    /// The time that this took is read.
    SetupClock(Op),
    /// The container is released.
    Release(Op),
    /// No pid came: whatever waits for the release is told that there is none.
    Abandon(Op),
    /// The middle process is waited for.
    Wait(Op),
    /// The time that it all took is read.
    WallClock(Op),
    /// What the cgroup measured is read.
    Peak(Op),
    Current(Op),
    Cpu(Op),
    /// The network and the cgroup are removed.
    Clean(PlanRun),
}

/// The model of a [`LaunchStage`].
pub ghost enum LaunchStageView {
    Clock(OpView),
    Create(CgroupCreationView),
    Prepare(PlanRunView),
    Fork(OpView),
    Part(PlanRunView),
    Learn(OpView),
    Attach(PlanRunView),
    Note(UpdateView),
    SetupClock(OpView),
    Release(OpView),
    Abandon(OpView),
    Wait(OpView),
    WallClock(OpView),
    Peak(OpView),
    Current(OpView),
    Cpu(OpView),
    Clean(PlanRunView),
}

impl View for LaunchStage {
    type V = LaunchStageView;

    open spec fn view(&self) -> LaunchStageView {
        match self {
            LaunchStage::Clock(op) => LaunchStageView::Clock(op@),
            LaunchStage::Create(c) => LaunchStageView::Create(c@),
            LaunchStage::Prepare(run) => LaunchStageView::Prepare(run@),
            LaunchStage::Fork(op) => LaunchStageView::Fork(op@),
            LaunchStage::Part(run) => LaunchStageView::Part(run@),
            LaunchStage::Learn(op) => LaunchStageView::Learn(op@),
            LaunchStage::Attach(run) => LaunchStageView::Attach(run@),
            LaunchStage::Note(u) => LaunchStageView::Note(u@),
            LaunchStage::SetupClock(op) => LaunchStageView::SetupClock(op@),
            LaunchStage::Release(op) => LaunchStageView::Release(op@),
            LaunchStage::Abandon(op) => LaunchStageView::Abandon(op@),
            LaunchStage::Wait(op) => LaunchStageView::Wait(op@),
            LaunchStage::WallClock(op) => LaunchStageView::WallClock(op@),
            LaunchStage::Peak(op) => LaunchStageView::Peak(op@),
            LaunchStage::Current(op) => LaunchStageView::Current(op@),
            LaunchStage::Cpu(op) => LaunchStageView::Cpu(op@),
            LaunchStage::Clean(run) => LaunchStageView::Clean(run@),
        }
    }
}

impl LaunchStageView {
    pub open spec fn wf(self) -> bool {
        match self {
            LaunchStageView::Create(c) => c.stage.wf(),
            LaunchStageView::Prepare(run) => run.wf(),
            LaunchStageView::Part(run) => run.wf(),
            LaunchStageView::Attach(run) => run.wf(),
            LaunchStageView::Note(u) => u.wf(),
            LaunchStageView::Clean(run) => run.wf(),
            _ => true,
        }
    }

    /// The operation to be done now.
    pub open spec fn op(self) -> OpView {
        match self {
            LaunchStageView::Clock(op) => op,
            LaunchStageView::Create(c) => c.stage.op(),
            LaunchStageView::Prepare(run) => run.op(),
            LaunchStageView::Fork(op) => op,
            LaunchStageView::Part(run) => run.op(),
            LaunchStageView::Learn(op) => op,
            LaunchStageView::Attach(run) => run.op(),
            LaunchStageView::Note(u) => u.op(),
            LaunchStageView::SetupClock(op) => op,
            LaunchStageView::Release(op) => op,
            LaunchStageView::Abandon(op) => op,
            LaunchStageView::Wait(op) => op,
            LaunchStageView::WallClock(op) => op,
            LaunchStageView::Peak(op) => op,
            LaunchStageView::Current(op) => op,
            LaunchStageView::Cpu(op) => op,
            LaunchStageView::Clean(run) => run.op(),
        }
    }
}

/// A container that is being run, seen from the process that runs it.
#[derive(Debug)]
pub struct Launch {
    pub cfg: ContainerConfig,
    pub index: u8,
    pub cgroup: Cgroup,
    pub record: Option<Record>,
    pub progress: Progress,
    pub stage: LaunchStage,
}

/// The model of a [`Launch`].
pub ghost struct LaunchView {
    pub cfg: ContainerConfigView,
    pub index: u8,
    pub cgroup: Seq<char>,
    pub record: Option<RecordView>,
    pub progress: ProgressView,
    pub stage: LaunchStageView,
}

impl View for Launch {
    type V = LaunchView;

    open spec fn view(&self) -> LaunchView {
        LaunchView {
            cfg: self.cfg@,
            index: self.index,
            cgroup: self.cgroup@,
            record: record_view(self.record),
            progress: self.progress@,
            stage: self.stage@,
        }
    }
}

/// What comes of a run next.
#[derive(Debug)]
pub enum LaunchTurn {
    Ask(Launch),
    /// This process is the middle process from here on.
    Middle(Middle),
    Ended(Result<Metrics, RuntimeError>),
}

/// The model of a [`LaunchTurn`].
pub ghost enum LaunchCourse {
    Ask(LaunchView),
    Middle(MiddleView),
    Ended(Result<MetricsView, RuntimeErrorView>),
}

impl View for LaunchTurn {
    type V = LaunchCourse;

    open spec fn view(&self) -> LaunchCourse {
        match self {
            LaunchTurn::Ask(l) => LaunchCourse::Ask(l@),
            LaunchTurn::Middle(m) => LaunchCourse::Middle(m@),
            LaunchTurn::Ended(Ok(m)) => LaunchCourse::Ended(Ok(m@)),
            LaunchTurn::Ended(Err(e)) => LaunchCourse::Ended(Err(e@)),
        }
    }
}

impl LaunchCourse {
    pub open spec fn wf(self) -> bool {
        match self {
            LaunchCourse::Ask(l) => l.wf(),
            LaunchCourse::Middle(m) => m.wf(),
            LaunchCourse::Ended(_) => true,
        }
    }
}

/// The steps that make all ready for the fork.
pub open spec fn prepare_steps(cgroup: Seq<char>, resources: Resources) -> Seq<StepView> {
    limit_steps(cgroup, resources) + seq![
        must(OpView::OpenPipe(Pipe::Release), OnFailureView::Io),
        must(OpView::OpenPipe(Pipe::Pid), OnFailureView::Io),
    ]
}

/// The steps with which the parent parts from the middle process.
pub open spec fn parent_steps() -> Seq<StepView> {
    seq![
        close_step(Pipe::Release, PipeEnd::Read),
        close_step(Pipe::Pid, PipeEnd::Write),
    ]
}

/// The steps that attach the container process `pid` to its cgroup and network.
pub open spec fn attach_steps(
    cfg: ContainerConfigView,
    index: u8,
    cgroup: Seq<char>,
    pid: i32,
) -> Seq<StepView> {
    seq![write_step(cgroup, "cgroup.procs"@, signed_decimal(pid as int))] + (if cfg.network {
        setup_steps(short(cfg.id), pid, index)
    } else {
        Seq::empty()
    })
}

/// The steps that remove what is left of a container.
pub open spec fn clean_steps(net: Option<NetworkView>, cgroup: Seq<char>) -> Seq<StepView> {
    match net {
        Some(n) => seq![n.cleanup_step(), may(OpView::RemoveDir(cgroup))],
        None => seq![may(OpView::RemoveDir(cgroup))],
    }
}

/// The time that the host read from its clock.
pub open spec fn nanos(reply: ReplyView) -> u64 {
    match reply {
        ReplyView::Nanos(n) => n,
        _ => 0,
    }
}

fn nanos_of(reply: &Reply) -> (r: u64)
    ensures
        r == nanos(reply@),
{
    match reply {
        Reply::Nanos(n) => *n,
        _ => 0,
    }
}

/// The pid that came through the pipe; 0 where none came.
pub open spec fn received(reply: ReplyView) -> i32 {
    match reply {
        ReplyView::Pid(pid) => pid,
        _ => 0,
    }
}

/// The number, or 0.
pub open spec fn or_zero(n: Option<u64>) -> u64 {
    match n {
        Some(n) => n,
        None => 0,
    }
}

fn number_or_zero(n: Option<u64>) -> (r: u64)
    ensures
        r == or_zero(n),
{
    match n {
        Some(n) => n,
        None => 0,
    }
}

impl LaunchView {
    /// Where the run of a container begins.
    pub open spec fn start(
        cfg: ContainerConfigView,
        index: u8,
        record: Option<RecordView>,
    ) -> LaunchView {
        LaunchView {
            cfg,
            index,
            cgroup: leaf_path(cfg.id),
            record,
            progress: ProgressView {
                middle: 0,
                container: 0,
                net: None,
                setup_nanos: 0,
                wall_nanos: 0,
                exit_code: 0,
                peak_mem_bytes: 0,
                cpu_usec: 0,
            },
            stage: LaunchStageView::Clock(OpView::StartClock),
        }
    }

    pub open spec fn wf(self) -> bool {
        self.stage.wf() && runnable(self.cfg)
    }

    pub open spec fn at(self, stage: LaunchStageView) -> LaunchCourse {
        LaunchCourse::Ask(LaunchView { stage, ..self })
    }

    pub open spec fn knowing(self, progress: ProgressView) -> LaunchView {
        LaunchView { progress, ..self }
    }

    /// The measurements of the container, once all is known.
    pub open spec fn metrics(self) -> MetricsView {
        MetricsView {
            id: self.cfg.id,
            setup_nanos: self.progress.setup_nanos,
            wall_nanos: self.progress.wall_nanos,
            peak_mem_bytes: self.progress.peak_mem_bytes,
            cpu_usec: self.progress.cpu_usec,
            exit_code: self.progress.exit_code,
            container_ip: match self.progress.net {
                Some(n) => Some(n.container_ip),
                None => None,
            },
        }
    }

    /// The run when the creation of the cgroup leaf stands at `course`.
    pub open spec fn creating(self, course: CreationCourse) -> LaunchCourse {
        match course {
            CreationCourse::Ask(c) => self.at(LaunchStageView::Create(c)),
            CreationCourse::Ended(Ok(leaf)) => LaunchView { cgroup: leaf, ..self }.preparing(
                place(prepare_steps(leaf, self.cfg.resources), 0),
            ),
            CreationCourse::Ended(Err(e)) => LaunchCourse::Ended(Err(e)),
        }
    }

    /// The run when the preparation stands at `course`.
    pub open spec fn preparing(self, course: Course) -> LaunchCourse {
        match course {
            Course::Ask(run) => self.at(LaunchStageView::Prepare(run)),
            Course::Ended(Ok(_)) => self.at(LaunchStageView::Fork(OpView::Fork)),
            Course::Ended(Err(e)) => LaunchCourse::Ended(Err(e)),
        }
    }

    /// The run once `pid` was received. Where that is a pid the container is attached;
    /// otherwise there is none, and nothing is attached.
    pub open spec fn learning(self, pid: i32) -> LaunchCourse {
        if pid <= 0 {
            self.knowing(ProgressView { container: 0, net: None, ..self.progress }).at(
                LaunchStageView::SetupClock(OpView::ReadClock),
            )
        } else {
            let net = if self.cfg.network {
                Some(network_of(short(self.cfg.id), self.index))
            } else {
                None
            };
            self.knowing(ProgressView { container: pid, net, ..self.progress }).attaching(
                place(attach_steps(self.cfg, self.index, self.cgroup, pid), 0),
            )
        }
    }

    /// The run once it is set up: the container is released. Where there is none the pipe
    /// is closed, so that nothing is left to wait for the release.
    pub open spec fn releasing(self) -> LaunchCourse {
        if self.progress.container > 0 {
            self.at(LaunchStageView::Release(OpView::Release))
        } else {
            self.at(LaunchStageView::Abandon(close_step(Pipe::Release, PipeEnd::Write).op))
        }
    }

    /// The run when the attachment of the container stands at `course`.
    pub open spec fn attaching(self, course: Course) -> LaunchCourse {
        match course {
            Course::Ask(run) => self.at(LaunchStageView::Attach(run)),
            Course::Ended(Ok(_)) => self.attached(),
            Course::Ended(Err(e)) => LaunchCourse::Ended(Err(e)),
        }
    }

    /// The run once the container is attached: where a record of it is kept, it is noted
    /// as running.
    pub open spec fn attached(self) -> LaunchCourse {
        match self.record {
            Some(record) => self.at(
                LaunchStageView::Note(
                    UpdateView::start(
                        record.home,
                        record.id,
                        Change::Running(self.progress.container),
                    ),
                ),
            ),
            None => self.at(LaunchStageView::SetupClock(OpView::ReadClock)),
        }
    }

    /// The time stamp with which the container is noted as running.
    pub open spec fn stamp(self) -> Seq<char> {
        match self.record {
            Some(record) => record.at,
            None => Seq::empty(),
        }
    }

    /// The run when the note stands at `course`. It goes on if nothing can be noted.
    pub open spec fn noting(self, course: UpdateCourse) -> LaunchCourse {
        match course {
            UpdateCourse::Ask(u) => self.at(LaunchStageView::Note(u)),
            UpdateCourse::Ended(_) => self.at(LaunchStageView::SetupClock(OpView::ReadClock)),
        }
    }

    /// The run when the removal of what is left stands at `course`.
    pub open spec fn cleaning(self, course: Course) -> LaunchCourse {
        match course {
            Course::Ask(run) => self.at(LaunchStageView::Clean(run)),
            Course::Ended(_) => LaunchCourse::Ended(Ok(self.metrics())),
        }
    }

    /// The file `name` of the leaf is to be read.
    pub open spec fn file(self, name: Seq<char>) -> OpView {
        OpView::ReadFile(path_joined(self.cgroup, name))
    }

    /// What comes of it when the host answers with `reply`.
    pub open spec fn next(self, reply: ReplyView) -> LaunchCourse {
        match self.stage {
            LaunchStageView::Clock(_) => self.at(
                LaunchStageView::Create(CgroupCreationView::start(leaf_path(self.cfg.id))),
            ),
            LaunchStageView::Create(c) => self.creating(c.next(reply)),
            LaunchStageView::Prepare(run) => self.preparing(run.next(reply)),
            LaunchStageView::Fork(_) => match reply {
                ReplyView::Child => LaunchCourse::Middle(MiddleView::start(self.cfg)),
                ReplyView::Pid(middle) => self.knowing(
                    ProgressView { middle, ..self.progress },
                ).at(LaunchStageView::Part(PlanRunView { steps: parent_steps(), at: 0 })),
                _ => LaunchCourse::Ended(
                    Err(RuntimeErrorView::Syscall("fork"@, reply.reason())),
                ),
            },
            LaunchStageView::Part(run) => match run.next(reply) {
                Course::Ask(run) => self.at(LaunchStageView::Part(run)),
                Course::Ended(_) => self.at(LaunchStageView::Learn(OpView::ReceivePid)),
            },
            LaunchStageView::Learn(_) => self.learning(received(reply)),
            LaunchStageView::Attach(run) => self.attaching(run.next(reply)),
            LaunchStageView::Note(u) => self.noting(u.next(reply, self.stamp())),
            LaunchStageView::SetupClock(_) => self.knowing(
                ProgressView { setup_nanos: nanos(reply), ..self.progress },
            ).releasing(),
            LaunchStageView::Release(_) => self.at(
                LaunchStageView::Wait(OpView::Wait(self.progress.middle)),
            ),
            LaunchStageView::Abandon(_) => self.at(
                LaunchStageView::Wait(OpView::Wait(self.progress.middle)),
            ),
            LaunchStageView::Wait(_) => match reply {
                ReplyView::Status(status) => self.knowing(
                    ProgressView { exit_code: exit_code(status, (-1) as i32), ..self.progress },
                ).at(LaunchStageView::WallClock(OpView::ReadClock)),
                _ => LaunchCourse::Ended(
                    Err(RuntimeErrorView::Syscall("waitpid"@, reply.reason())),
                ),
            },
            LaunchStageView::WallClock(_) => self.knowing(
                ProgressView { wall_nanos: nanos(reply), ..self.progress },
            ).at(LaunchStageView::Peak(self.file("memory.peak"@))),
            LaunchStageView::Peak(_) => match reading(reply.text()) {
                Some(peak_mem_bytes) => self.knowing(
                    ProgressView { peak_mem_bytes, ..self.progress },
                ).at(LaunchStageView::Cpu(self.file("cpu.stat"@))),
                None => self.at(LaunchStageView::Current(self.file("memory.current"@))),
            },
            LaunchStageView::Current(_) => self.knowing(
                ProgressView { peak_mem_bytes: or_zero(reading(reply.text())), ..self.progress },
            ).at(LaunchStageView::Cpu(self.file("cpu.stat"@))),
            LaunchStageView::Cpu(_) => {
                let usec = match reply.text() {
                    Some(text) => usage(lines(text)),
                    None => None,
                };
                self.knowing(
                    ProgressView { cpu_usec: or_zero(usec), ..self.progress },
                ).cleaning(place(clean_steps(self.progress.net, self.cgroup), 0))
            },
            LaunchStageView::Clean(run) => self.cleaning(run.next(reply)),
        }
    }
}

/// Run a container to completion, returning its metrics.
///
/// `index` gives each concurrently-run container a distinct IP.
///
/// Process structure (two-level fork):
///
/// ```text
///   parent (host PID ns)  -- forks -->  middle  -- forks -->  grandchild = container PID 1
///     - cgroup + network                  - unshares all         - pivot_root, drop caps,
///       (helpers must see                   namespaces             seccomp, exec
///       host PIDs, so it must              - relays grandchild's
///       NOT be in the new PID ns)           host PID up, waits
/// ```
///
/// The parent must stay in the host PID namespace: `ip`/`nsenter` resolve the
/// target PID in *their own* PID namespace, so a networking helper forked from
/// inside the container's PID namespace could never see the container's host
/// PID. Only the grandchild (created after the middle process has left the PID
/// namespace) actually enters the new PID namespace as PID 1.
pub fn run(cfg: &ContainerConfig, index: u8) -> (r: Launch)
    requires
        runnable(cfg@),
    ensures
        r@ == LaunchView::start(cfg@, index, None),
        r@.wf(),
{
    launch(cfg, index, None)
}

/// Run a container to completion as [`run`] does, and note in its record that it runs
/// before it is released.
pub fn run_noted(cfg: &ContainerConfig, index: u8, record: Record) -> (r: Launch)
    requires
        runnable(cfg@),
    ensures
        r@ == LaunchView::start(cfg@, index, Some(record@)),
        r@.wf(),
{
    launch(cfg, index, Some(record))
}

fn launch(cfg: &ContainerConfig, index: u8, record: Option<Record>) -> (r: Launch)
    requires
        runnable(cfg@),
    ensures
        r@ == LaunchView::start(cfg@, index, record_view(record)),
        r@.wf(),
{
    Launch {
        cfg: cfg.clone(),
        index,
        cgroup: Cgroup::leaf(cfg.id.as_str()),
        record,
        progress: Progress {
            middle: 0,
            container: 0,
            net: None,
            setup_nanos: 0,
            wall_nanos: 0,
            exit_code: 0,
            peak_mem_bytes: 0,
            cpu_usec: 0,
        },
        stage: LaunchStage::Clock(Op::StartClock),
    }
}

impl Launch {
    /// The operation to be done now.
    pub fn op(&self) -> (r: &Op)
        requires
            self@.wf(),
        ensures
            r@ == self@.stage.op(),
    {
        match &self.stage {
            LaunchStage::Clock(op) => op,
            LaunchStage::Create(c) => c.op(),
            LaunchStage::Prepare(run) => run.op(),
            LaunchStage::Fork(op) => op,
            LaunchStage::Part(run) => run.op(),
            LaunchStage::Learn(op) => op,
            LaunchStage::Attach(run) => run.op(),
            LaunchStage::Note(u) => u.op(),
            LaunchStage::SetupClock(op) => op,
            LaunchStage::Release(op) => op,
            LaunchStage::Abandon(op) => op,
            LaunchStage::Wait(op) => op,
            LaunchStage::WallClock(op) => op,
            LaunchStage::Peak(op) => op,
            LaunchStage::Current(op) => op,
            LaunchStage::Cpu(op) => op,
            LaunchStage::Clean(run) => run.op(),
        }
    }

    fn create(self, turn: CreationTurn) -> (r: LaunchTurn)
        requires
            turn@.wf(),
            runnable(self@.cfg),
        ensures
            r@ == self@.creating(turn@),
            r@.wf(),
    {
        let mut me: Launch = self;
        match turn {
            CreationTurn::Ask(c) => {
                me.stage = LaunchStage::Create(c);
                LaunchTurn::Ask(me)
            },
            CreationTurn::Ended(Ok(cgroup)) => {
                let mut plan: Plan = cgroup.apply(&me.cfg.resources);
                plan.push(Step::must(Op::OpenPipe(Pipe::Release), OnFailure::Io));
                plan.push(Step::must(Op::OpenPipe(Pipe::Pid), OnFailure::Io));
                assert(plan@ =~= prepare_steps(cgroup@, me@.cfg.resources));
                me.cgroup = cgroup;
                me.prepare(PlanRun::start(plan))
            },
            CreationTurn::Ended(Err(e)) => LaunchTurn::Ended(Err(e)),
        }
    }

    fn prepare(self, turn: PlanTurn) -> (r: LaunchTurn)
        requires
            turn@.wf(),
            runnable(self@.cfg),
        ensures
            r@ == self@.preparing(turn@),
            r@.wf(),
    {
        let mut me: Launch = self;
        match turn {
            PlanTurn::Ask(run) => {
                me.stage = LaunchStage::Prepare(run);
                LaunchTurn::Ask(me)
            },
            PlanTurn::Ended(Ok(_)) => {
                me.stage = LaunchStage::Fork(Op::Fork);
                LaunchTurn::Ask(me)
            },
            PlanTurn::Ended(Err(e)) => LaunchTurn::Ended(Err(e)),
        }
    }

    fn attach(self, turn: PlanTurn) -> (r: LaunchTurn)
        requires
            turn@.wf(),
            runnable(self@.cfg),
        ensures
            r@ == self@.attaching(turn@),
            r@.wf(),
    {
        let mut me: Launch = self;
        match turn {
            PlanTurn::Ask(run) => {
                me.stage = LaunchStage::Attach(run);
                LaunchTurn::Ask(me)
            },
            PlanTurn::Ended(Ok(_)) => {
                me.stage = match &me.record {
                    Some(record) => LaunchStage::Note(
                        set_running(
                            record.home.as_str(),
                            record.id.as_str(),
                            me.progress.container,
                        ),
                    ),
                    None => LaunchStage::SetupClock(Op::ReadClock),
                };
                LaunchTurn::Ask(me)
            },
            PlanTurn::Ended(Err(e)) => LaunchTurn::Ended(Err(e)),
        }
    }

    fn note(self, turn: UpdateTurn) -> (r: LaunchTurn)
        requires
            turn@.wf(),
            runnable(self@.cfg),
        ensures
            r@ == self@.noting(turn@),
            r@.wf(),
    {
        let mut me: Launch = self;
        me.stage = match turn {
            UpdateTurn::Ask(u) => LaunchStage::Note(u),
            UpdateTurn::Ended(_) => LaunchStage::SetupClock(Op::ReadClock),
        };
        LaunchTurn::Ask(me)
    }

    fn clean(self, turn: PlanTurn) -> (r: LaunchTurn)
        requires
            turn@.wf(),
            runnable(self@.cfg),
        ensures
            r@ == self@.cleaning(turn@),
            r@.wf(),
    {
        let mut me: Launch = self;
        match turn {
            PlanTurn::Ask(run) => {
                me.stage = LaunchStage::Clean(run);
                LaunchTurn::Ask(me)
            },
            PlanTurn::Ended(_) => {
                let container_ip: Option<String> = match me.progress.net {
                    Some(n) => Some(n.container_ip().to_owned()),
                    None => None,
                };
                LaunchTurn::Ended(
                    Ok(
                        Metrics {
                            id: me.cfg.id,
                            setup_nanos: me.progress.setup_nanos,
                            wall_nanos: me.progress.wall_nanos,
                            peak_mem_bytes: me.progress.peak_mem_bytes,
                            cpu_usec: me.progress.cpu_usec,
                            exit_code: me.progress.exit_code,
                            container_ip,
                        },
                    ),
                )
            },
        }
    }

    /// The pid of the container process was received: attach it.
    fn learn(self, pid: i32) -> (r: LaunchTurn)
        requires
            runnable(self@.cfg),
        ensures
            r@ == self@.learning(pid),
            r@.wf(),
    {
        let mut me: Launch = self;
        if pid <= 0 {
            me.progress.container = 0;
            me.progress.net = None;
            me.stage = LaunchStage::SetupClock(Op::ReadClock);
            return LaunchTurn::Ask(me);
        }
        let mut plan: Plan = Plan::new();
        // Only the container (grandchild) goes in the resource cgroup.
        plan.push(me.cgroup.add_process(pid));
        if me.cfg.network {
            let (net, wiring) = Network::setup(me.cfg.short_id(), pid, me.index);
            plan.extend(wiring);
            me.progress.net = Some(net);
        } else {
            me.progress.net = None;
        }
        me.progress.container = pid;
        assert(plan@ =~= attach_steps(self@.cfg, self@.index, self@.cgroup, pid));
        me.attach(PlanRun::start(plan))
    }

    /// All is known: remove what is left.
    fn finish(self) -> (r: LaunchTurn)
        requires
            runnable(self@.cfg),
        ensures
            r@ == self@.cleaning(place(clean_steps(self@.progress.net, self@.cgroup), 0)),
            r@.wf(),
    {
        let mut plan: Plan = Plan::new();
        match &self.progress.net {
            Some(n) => plan.push(n.cleanup()),
            None => {},
        }
        plan.push(self.cgroup.cleanup());
        assert(plan@ =~= clean_steps(self@.progress.net, self@.cgroup));
        self.clean(PlanRun::start(plan))
    }

    /// Go on from the answer to that operation.
    pub fn resume(self, reply: Reply) -> (r: LaunchTurn)
        requires
            self@.wf(),
        ensures
            r@ == self@.next(reply@),
            r@.wf(),
    {
        let stage: LaunchStage = self.stage;
        let mut me: Launch = Launch {
            cfg: self.cfg,
            index: self.index,
            cgroup: self.cgroup,
            record: self.record,
            progress: self.progress,
            stage: LaunchStage::Fork(Op::Fork),
        };
        match stage {
            LaunchStage::Clock(_) => {
                me.stage = LaunchStage::Create(Cgroup::create(me.cfg.id.as_str()));
                LaunchTurn::Ask(me)
            },
            LaunchStage::Create(c) => me.create(c.resume(reply)),
            LaunchStage::Prepare(run) => me.prepare(run.resume(reply)),
            LaunchStage::Fork(_) => match reply {
                Reply::Child => LaunchTurn::Middle(Middle::start(me.cfg)),
                Reply::Pid(middle) => {
                    let mut plan: Plan = Plan::new();
                    plan.push(close(Pipe::Release, PipeEnd::Read));
                    plan.push(close(Pipe::Pid, PipeEnd::Write));
                    assert(plan@ =~= parent_steps());
                    assert(plan.steps.len() == 2);
                    me.progress.middle = middle;
                    me.stage = LaunchStage::Part(PlanRun { plan, at: 0 });
                    LaunchTurn::Ask(me)
                },
                _ => LaunchTurn::Ended(Err(RuntimeError::Syscall("fork", reply.reason()))),
            },
            LaunchStage::Part(run) => match run.resume(reply) {
                PlanTurn::Ask(run) => {
                    me.stage = LaunchStage::Part(run);
                    LaunchTurn::Ask(me)
                },
                PlanTurn::Ended(_) => {
                    me.stage = LaunchStage::Learn(Op::ReceivePid);
                    LaunchTurn::Ask(me)
                },
            },
            LaunchStage::Learn(_) => {
                let pid: i32 = match reply {
                    Reply::Pid(pid) => pid,
                    _ => 0,
                };
                me.learn(pid)
            },
            LaunchStage::Attach(run) => me.attach(run.resume(reply)),
            LaunchStage::Note(u) => {
                let at: String = match &me.record {
                    Some(record) => record.at.clone(),
                    None => String::new(),
                };
                me.note(u.resume_at(reply, at))
            },
            LaunchStage::SetupClock(_) => {
                me.progress.setup_nanos = nanos_of(&reply);
                me.stage = if me.progress.container > 0 {
                    LaunchStage::Release(Op::Release)
                } else {
                    LaunchStage::Abandon(close(Pipe::Release, PipeEnd::Write).op)
                };
                LaunchTurn::Ask(me)
            },
            LaunchStage::Release(_) => {
                me.stage = LaunchStage::Wait(Op::Wait(me.progress.middle));
                LaunchTurn::Ask(me)
            },
            LaunchStage::Abandon(_) => {
                me.stage = LaunchStage::Wait(Op::Wait(me.progress.middle));
                LaunchTurn::Ask(me)
            },
            LaunchStage::Wait(_) => match reply {
                Reply::Status(status) => {
                    me.progress.exit_code = code_of(status, -1);
                    me.stage = LaunchStage::WallClock(Op::ReadClock);
                    LaunchTurn::Ask(me)
                },
                _ => LaunchTurn::Ended(Err(RuntimeError::Syscall("waitpid", reply.reason()))),
            },
            LaunchStage::WallClock(_) => {
                me.progress.wall_nanos = nanos_of(&reply);
                me.stage = LaunchStage::Peak(me.cgroup.peak_file());
                LaunchTurn::Ask(me)
            },
            LaunchStage::Peak(_) => match me.cgroup.peak_memory(&reply.into_text(), &None) {
                Some(peak) => {
                    me.progress.peak_mem_bytes = peak;
                    me.stage = LaunchStage::Cpu(me.cgroup.stat_file());
                    LaunchTurn::Ask(me)
                },
                None => {
                    me.stage = LaunchStage::Current(me.cgroup.current_file());
                    LaunchTurn::Ask(me)
                },
            },
            LaunchStage::Current(_) => {
                let current: Option<u64> = me.cgroup.peak_memory(&None, &reply.into_text());
                me.progress.peak_mem_bytes = number_or_zero(current);
                me.stage = LaunchStage::Cpu(me.cgroup.stat_file());
                LaunchTurn::Ask(me)
            },
            LaunchStage::Cpu(_) => {
                let usec: Option<u64> = me.cgroup.cpu_usage_usec(&reply.into_text());
                me.progress.cpu_usec = number_or_zero(usec);
                me.finish()
            },
            LaunchStage::Clean(run) => me.clean(run.resume(reply)),
        }
    }
}


/// The model of measurements says of each what was measured.
pub proof fn law_metrics(m: Metrics)
    ensures
        m@.id == m.id@,
        m@.setup_nanos == m.setup_nanos,
        m@.wall_nanos == m.wall_nanos,
        m@.peak_mem_bytes == m.peak_mem_bytes,
        m@.cpu_usec == m.cpu_usec,
        m@.exit_code == m.exit_code,
        m.container_ip matches Some(ip) ==> m@.container_ip == Some(ip@),
        m.container_ip is None ==> m@.container_ip is None,
{
}


/// Which containers can be run: all that ask for no network; and of the others those whose
/// id has twelve bytes or more, where these are ASCII.
pub proof fn law_runnable(cfg: ContainerConfigView)
    requires
        is_ascii_chars(cfg.id),
    ensures
        runnable(cfg) <==> !cfg.network || cfg.id.len() >= 12,
{
    crate::text::law_cut_ascii(cfg.id, 12);
    let s = short(cfg.id);
    assert forall|i: int| 0 <= i < s.len() implies (#[trigger] s[i]) as nat <= 127 by {
        assert(s[i] == cfg.id[i]);
    }
    assert(is_ascii_chars(s));
    law_ascii_names_links(s);
}

} // verus!
