//! The commands of the runtime, from their arguments to their exit codes.

use crate::capabilities::dropped_count;
use crate::clock::{is_time_stamp, now_iso};
use crate::config::{
    default_resources, fresh_config, is_random_uuid, new_id, volume_views, ContainerConfig,
    ContainerConfigView, Resources, Volume, VolumeView,
};
use crate::container::{
    can_run, law_random_id_runs, run, run_noted, runnable, Launch, LaunchCourse, LaunchTurn,
    LaunchView, Metrics, MetricsView, Middle, MiddleView, Record, RecordView,
};
use crate::error::RuntimeErrorView;
use crate::host::{Op, OpView, Reply, ReplyView, StopSignal};
use crate::plan::{may, place, Course, Plan, PlanRun, PlanRunView, PlanTurn, Step, StepView};
use crate::scan::{colon_pair, path_joined, split_colon};
use crate::seccomp::blocked_count;
use crate::state::{
    base_dir, changed, cleanup_step, config_path, container_dir, created, get_container, init_plan,
    init_step, init_steps, list_all, save_config_step, set_ended, set_stopped, state_path,
    state_views, Change, ContainerState, ContainerStateDir, ContainerStateView, Listing,
    ListingCourse, ListingStageView, ListingTurn, ListingView, Lookup, LookupCourse, LookupTurn,
    LookupView, Update, UpdateCourse, UpdateTurn, UpdateView,
};
use crate::stats::{ascending, law_ascending, Spread};
use crate::text::{
    align_left, can_cut, cat, cat3, copy_list, cut, cut_bytes, decimal, is_cuttable,
    left_aligned, number_text, signed_decimal, signed_text, views,
};
use vstd::prelude::*;

verus! {

// What a container is told to be.

/// What `create` and `run` are told of a container.
#[derive(Debug)]
pub struct Settings {
    pub rootfs: String,
    /// Memory limit in bytes.
    pub memory: u64,
    /// Bind mounts, each as `/host:/container`.
    pub binds: Vec<String>,
    /// CPU quota in microseconds.
    pub cpu: u64,
    /// Max processes.
    pub pids: u64,
    pub net: bool,
    pub no_seccomp: bool,
    pub no_drop_caps: bool,
    pub command: Vec<String>,
}

/// The model of [`Settings`].
pub ghost struct SettingsView {
    pub rootfs: Seq<char>,
    pub memory: u64,
    pub binds: Seq<Seq<char>>,
    pub cpu: u64,
    pub pids: u64,
    pub net: bool,
    pub no_seccomp: bool,
    pub no_drop_caps: bool,
    pub command: Seq<Seq<char>>,
}

impl View for Settings {
    type V = SettingsView;

    open spec fn view(&self) -> SettingsView {
        SettingsView {
            rootfs: self.rootfs@,
            memory: self.memory,
            binds: views(self.binds@),
            cpu: self.cpu,
            pids: self.pids,
            net: self.net,
            no_seccomp: self.no_seccomp,
            no_drop_caps: self.no_drop_caps,
            command: views(self.command@),
        }
    }
}

/// The volumes that the bind mounts ask for. One that is not of the form
/// `/host:/container` asks for none.
pub open spec fn bound_volumes(binds: Seq<Seq<char>>) -> Seq<VolumeView>
    decreases binds.len(),
{
    if binds.len() == 0 {
        Seq::empty()
    } else {
        let before = bound_volumes(binds.drop_last());
        match colon_pair(binds.last()) {
            Some(pair) => before.push(
                VolumeView { host_path: pair.0, container_path: pair.1 },
            ),
            None => before,
        }
    }
}

/// Whether every bind mount is of the form `/host:/container`.
pub open spec fn well_bound(binds: Seq<Seq<char>>) -> bool {
    forall|i: int| 0 <= i < binds.len() ==> colon_pair(#[trigger] binds[i]) is Some
}

/// The volumes that the bind mounts ask for, and whether each of them asks for one.
pub fn parse_binds(binds: &Vec<String>) -> (r: (Vec<Volume>, bool))
    ensures
        volume_views(r.0@) == bound_volumes(views(binds@)),
        r.1 == well_bound(views(binds@)),
{
    let ghost all = views(binds@);
    let mut volumes: Vec<Volume> = Vec::new();
    let mut good: bool = true;
    assert(all.take(0) =~= Seq::empty());
    assert(volume_views(volumes@) =~= Seq::empty());
    for i in 0..binds.len()
        invariant
            all == views(binds@),
            volume_views(volumes@) == bound_volumes(all.take(i as int)),
            good == well_bound(all.take(i as int)),
    {
        let ghost before = all.take(i as int);
        let ghost longer = all.take(i + 1);
        assert(longer.drop_last() =~= before);
        assert(longer.last() == binds@[i as int]@);
        assert(forall|j: int| 0 <= j < i ==> longer[j] == before[j]);
        assert(longer[i as int] == binds@[i as int]@);
        match split_colon(binds[i].as_str()) {
            Some(pair) => {
                let ghost list = volumes@;
                let volume: Volume = Volume { host_path: pair.0, container_path: pair.1 };
                let ghost v = volume@;
                volumes.push(volume);
                assert(volume_views(volumes@) =~= volume_views(list).push(v));
                assert(well_bound(longer) == well_bound(before)) by {
                    if well_bound(longer) {
                        assert forall|j: int| 0 <= j < before.len() implies colon_pair(
                            #[trigger] before[j],
                        ) is Some by {
                            assert(longer[j] == before[j]);
                        }
                    }
                }
            },
            None => {
                good = false;
                assert(!well_bound(longer));
            },
        }
    }
    assert(all.take(all.len() as int) =~= all);
    (volumes, good)
}

/// The configuration `base` with all that `s` says of it.
pub open spec fn configured(base: ContainerConfigView, s: SettingsView) -> ContainerConfigView {
    ContainerConfigView {
        resources: Resources {
            memory_max: s.memory,
            cpu_quota: s.cpu,
            cpu_period: 100_000,
            pids_max: s.pids,
        },
        network: s.net,
        seccomp: !s.no_seccomp,
        drop_caps: !s.no_drop_caps,
        volumes: bound_volumes(s.binds),
        ..base
    }
}

/// The configuration of the container that `s` asks for, under the id `id`, and
/// whether all its bind mounts are well formed.
///
/// The hostname is taken from `fresh`.
pub fn configure(id: String, fresh: String, s: Settings) -> (r: (ContainerConfig, bool))
    ensures
        r.0@ == configured(
            (ContainerConfigView { id: id@, ..fresh_config(fresh@, s@.rootfs, s@.command) }),
            s@,
        ),
        r.1 == well_bound(s@.binds),
{
    let (volumes, good) = parse_binds(&s.binds);
    let mut cfg: ContainerConfig = ContainerConfig::with_id(fresh, s.rootfs, s.command);
    cfg.id = id;
    cfg.resources = Resources {
        memory_max: s.memory,
        cpu_quota: s.cpu,
        cpu_period: 100_000,
        pids_max: s.pids,
    };
    cfg.network = s.net;
    cfg.seccomp = !s.no_seccomp;
    cfg.drop_caps = !s.no_drop_caps;
    cfg.volumes = volumes;
    (cfg, good)
}

// A command that is being carried out.

/// What is asked of the containers that are kept.
#[derive(Debug)]
pub enum Verb {
    Start(String),
    Stop(String),
    Ps,
    Logs(String),
    Rm(String),
}

/// The model of a [`Verb`].
pub ghost enum VerbView {
    Start(Seq<char>),
    Stop(Seq<char>),
    Ps,
    Logs(Seq<char>),
    Rm(Seq<char>),
}

impl View for Verb {
    type V = VerbView;

    open spec fn view(&self) -> VerbView {
        match self {
            Verb::Start(id) => VerbView::Start(id@),
            Verb::Stop(id) => VerbView::Stop(id@),
            Verb::Ps => VerbView::Ps,
            Verb::Logs(id) => VerbView::Logs(id@),
            Verb::Rm(id) => VerbView::Rm(id@),
        }
    }
}

/// A benchmark: how often what is run, and what was measured so far.
#[derive(Debug)]
pub struct Bench {
    pub rootfs: String,
    pub runs: u32,
    pub memory: u64,
    pub command: Vec<String>,
    /// How many runs have ended.
    pub at: u32,
    pub setup: Vec<u64>,
    pub wall: Vec<u64>,
    pub peaks: Vec<u64>,
}

/// The model of a [`Bench`].
pub ghost struct BenchView {
    pub rootfs: Seq<char>,
    pub runs: u32,
    pub memory: u64,
    pub command: Seq<Seq<char>>,
    pub at: u32,
    pub setup: Seq<u64>,
    pub wall: Seq<u64>,
    pub peaks: Seq<u64>,
}

impl View for Bench {
    type V = BenchView;

    open spec fn view(&self) -> BenchView {
        BenchView {
            rootfs: self.rootfs@,
            runs: self.runs,
            memory: self.memory,
            command: views(self.command@),
            at: self.at,
            setup: self.setup@,
            wall: self.wall@,
            peaks: self.peaks@,
        }
    }
}

/// How far a command has come.
#[derive(Debug)]
pub enum Stage {
    /// `create`: the directory of all containers is created.
    CreateInit { id: String, settings: Settings, run: PlanRun },
    /// `create`: the state of the container is created.
    CreateState { id: String, settings: Settings, run: PlanRun },
    /// `create`: the configuration of the container is saved.
    CreateConfig { id: String, run: PlanRun },
    /// The directory of all containers is created.
    Init { verb: Verb, run: PlanRun },
    /// `start`: is there such a container?
    FindStart { id: String, op: Op },
    /// `logs`: is there such a container?
    FindLogs { id: String, op: Op },
    /// `rm`: is there such a container?
    FindRm { id: String, op: Op },
    /// `stop`: the container is looked up.
    Stop { lookup: Lookup },
    /// `ps`: the containers are listed.
    Ps { listing: Listing },
    /// `rm`: the container is removed.
    Remove { id: String, run: PlanRun },
    /// `start`: the configuration is read.
    Config { id: String, op: Op },
    /// `start`: the file for the standard output is created.
    Stdout { id: String, cfg: ContainerConfig, op: Op },
    /// `start`: the file for the standard error output is created.
    Stderr { id: String, cfg: ContainerConfig, op: Op },
    /// `start`: the container runs.
    Start { id: String, launch: Launch },
    /// `start`: it is noted that the container stopped.
    Saved { id: String, metrics: Metrics, update: Update },
    /// `start`: the container could not be run, which is told.
    Broken { id: String, op: Op },
    /// `start`: it is noted that the container could not be run.
    Noted { update: Update },
    /// `run`: the container runs.
    Run { json: bool, launch: Launch },
    /// `bench`: it is announced.
    Announce { bench: Bench, op: Op },
    /// `bench`: a container runs.
    Bench { bench: Bench, launch: Launch },
    /// What is left to be told is told; the exit code is known.
    Finish { run: PlanRun, code: i32 },
}

/// The model of a [`Stage`].
pub ghost enum StageView {
    CreateInit { id: Seq<char>, settings: SettingsView, run: PlanRunView },
    CreateState { id: Seq<char>, settings: SettingsView, run: PlanRunView },
    CreateConfig { id: Seq<char>, run: PlanRunView },
    Init { verb: VerbView, run: PlanRunView },
    FindStart { id: Seq<char>, op: OpView },
    FindLogs { id: Seq<char>, op: OpView },
    FindRm { id: Seq<char>, op: OpView },
    Stop { lookup: LookupView },
    Ps { listing: ListingView },
    Remove { id: Seq<char>, run: PlanRunView },
    Config { id: Seq<char>, op: OpView },
    Stdout { id: Seq<char>, cfg: ContainerConfigView, op: OpView },
    Stderr { id: Seq<char>, cfg: ContainerConfigView, op: OpView },
    Start { id: Seq<char>, launch: LaunchView },
    Saved { id: Seq<char>, metrics: MetricsView, update: UpdateView },
    Broken { id: Seq<char>, op: OpView },
    Noted { update: UpdateView },
    Run { json: bool, launch: LaunchView },
    Announce { bench: BenchView, op: OpView },
    Bench { bench: BenchView, launch: LaunchView },
    Finish { run: PlanRunView, code: i32 },
}

impl View for Stage {
    type V = StageView;

    open spec fn view(&self) -> StageView {
        match self {
            Stage::CreateInit { id, settings, run } => StageView::CreateInit {
                id: id@,
                settings: settings@,
                run: run@,
            },
            Stage::CreateState { id, settings, run } => StageView::CreateState {
                id: id@,
                settings: settings@,
                run: run@,
            },
            Stage::CreateConfig { id, run } => StageView::CreateConfig {
                id: id@,
                run: run@,
            },
            Stage::Init { verb, run } => StageView::Init {
                verb: verb@,
                run: run@,
            },
            Stage::FindStart { id, op } => StageView::FindStart {
                id: id@,
                op: op@,
            },
            Stage::FindLogs { id, op } => StageView::FindLogs {
                id: id@,
                op: op@,
            },
            Stage::FindRm { id, op } => StageView::FindRm {
                id: id@,
                op: op@,
            },
            Stage::Stop { lookup } => StageView::Stop {
                lookup: lookup@,
            },
            Stage::Ps { listing } => StageView::Ps {
                listing: listing@,
            },
            Stage::Remove { id, run } => StageView::Remove {
                id: id@,
                run: run@,
            },
            Stage::Config { id, op } => StageView::Config {
                id: id@,
                op: op@,
            },
            Stage::Stdout { id, cfg, op } => StageView::Stdout {
                id: id@,
                cfg: cfg@,
                op: op@,
            },
            Stage::Stderr { id, cfg, op } => StageView::Stderr {
                id: id@,
                cfg: cfg@,
                op: op@,
            },
            Stage::Start { id, launch } => StageView::Start {
                id: id@,
                launch: launch@,
            },
            Stage::Saved { id, metrics, update } => StageView::Saved {
                id: id@,
                metrics: metrics@,
                update: update@,
            },
            Stage::Broken { id, op } => StageView::Broken {
                id: id@,
                op: op@,
            },
            Stage::Noted { update } => StageView::Noted {
                update: update@,
            },
            Stage::Run { json, launch } => StageView::Run {
                json: *json,
                launch: launch@,
            },
            Stage::Announce { bench, op } => StageView::Announce {
                bench: bench@,
                op: op@,
            },
            Stage::Bench { bench, launch } => StageView::Bench {
                bench: bench@,
                launch: launch@,
            },
            Stage::Finish { run, code } => StageView::Finish {
                run: run@,
                code: *code,
            },
        }
    }
}

/// A command that is being carried out.
#[derive(Debug)]
pub struct Session {
    /// The home directory of the user.
    pub home: String,
    pub stage: Stage,
}

/// The model of a [`Session`].
pub ghost struct SessionView {
    pub home: Seq<char>,
    pub stage: StageView,
}

impl View for Session {
    type V = SessionView;

    open spec fn view(&self) -> SessionView {
        SessionView { home: self.home@, stage: self.stage@ }
    }
}

/// What comes of a command next.
#[derive(Debug)]
pub enum SessionTurn {
    Ask(Session),
    /// This process is the middle process of a container from here on.
    Middle(Middle),
    /// The command ends with this exit code.
    Exit(i32),
}

/// The model of a [`SessionTurn`].
pub ghost enum SessionCourse {
    Ask(SessionView),
    Middle(MiddleView),
    Exit(i32),
}

impl View for SessionTurn {
    type V = SessionCourse;

    open spec fn view(&self) -> SessionCourse {
        match self {
            SessionTurn::Ask(s) => SessionCourse::Ask(s@),
            SessionTurn::Middle(m) => SessionCourse::Middle(m@),
            SessionTurn::Exit(code) => SessionCourse::Exit(*code),
        }
    }
}

impl SessionCourse {
    pub open spec fn wf(self) -> bool {
        match self {
            SessionCourse::Ask(s) => s.wf(),
            SessionCourse::Middle(m) => m.wf(),
            SessionCourse::Exit(_) => true,
        }
    }
}

// What the commands tell.

/// A complaint of the runtime.
pub open spec fn complaint(label: Seq<char>, why: Seq<char>) -> Seq<char> {
    "[mincontainer] "@ + label + ": "@ + why
}

/// The complaint that there is no container `id`.
pub open spec fn not_found(id: Seq<char>) -> Seq<char> {
    "[mincontainer] container "@ + id + " not found"@
}

/// The steps that end the process of a container: it is asked to end, and half a
/// second later killed.
pub open spec fn stop_steps(pid: Option<i32>) -> Seq<StepView> {
    match pid {
        Some(pid) => seq![
            may(OpView::Kill { pid, signal: StopSignal::Term }),
            may(OpView::Sleep(500)),
            may(OpView::Kill { pid, signal: StopSignal::Kill }),
        ],
        None => Seq::empty(),
    }
}

/// The steps that show the output of the container in `root`.
pub open spec fn log_steps(root: Seq<char>) -> Seq<StepView> {
    seq![
        may(OpView::Print("=== STDOUT ===\n"@)),
        may(OpView::CopyToStdout(path_joined(root, "stdout"@))),
        may(OpView::Print("\n=== STDERR ===\n"@)),
        may(OpView::CopyToStdout(path_joined(root, "stderr"@))),
    ]
}

/// Whether a state can be listed: the part of its id that is shown must not end within
/// a character.
pub open spec fn printable(state: ContainerStateView) -> bool {
    is_cuttable(state.id, 32)
}

/// The line that shows a state.
pub open spec fn row(state: ContainerStateView) -> Seq<char> {
    left_aligned(cut(state.id, 32), 32) + " "@ + left_aligned(state.status, 9) + " "@ + (
    match state.pid {
        Some(pid) => signed_decimal(pid as int),
        None => "-"@,
    }) + "\n"@
}

/// The steps that show the containers `list`.
pub open spec fn ps_steps(list: Seq<ContainerStateView>) -> Seq<StepView> {
    seq![may(OpView::Print("ID                              STATUS    PID\n"@))] + Seq::new(
        list.len(),
        |i: int| may(OpView::Print(row(list[i]))),
    )
}

/// The configuration of one run of a benchmark.
pub open spec fn bench_config(b: BenchView, fresh: Seq<char>) -> ContainerConfigView {
    ContainerConfigView {
        resources: Resources { memory_max: b.memory, ..default_resources() },
        ..fresh_config(fresh, b.rootfs, b.command)
    }
}

// How a command goes on.

/// The command when it is at `stage`.
pub open spec fn at(home: Seq<char>, stage: StageView) -> SessionCourse {
    SessionCourse::Ask(SessionView { home, stage })
}

/// The command when it takes the last steps `steps` and ends with `code`.
pub open spec fn finishing(home: Seq<char>, steps: Seq<StepView>, code: i32) -> SessionCourse {
    match place(steps, 0) {
        Course::Ask(run) => at(home, StageView::Finish { run, code }),
        Course::Ended(_) => SessionCourse::Exit(code),
    }
}

/// The command when it fails with this complaint.
pub open spec fn complaining(home: Seq<char>, text: Seq<char>) -> SessionCourse {
    finishing(home, seq![may(OpView::Complain(text))], 1)
}

/// A plan before its first step.
pub open spec fn first(steps: Seq<StepView>) -> PlanRunView {
    PlanRunView { steps, at: 0 }
}

/// The command `verb` once the directory of all containers is there.
pub open spec fn beginning(home: Seq<char>, verb: VerbView) -> SessionCourse {
    match verb {
        VerbView::Start(id) => at(
            home,
            StageView::FindStart { id, op: OpView::Exists(container_dir(home, id)) },
        ),
        VerbView::Stop(id) => at(home, StageView::Stop { lookup: LookupView::start(home, id) }),
        VerbView::Ps => at(home, StageView::Ps { listing: ListingView::start(home) }),
        VerbView::Logs(id) => at(
            home,
            StageView::FindLogs { id, op: OpView::Exists(container_dir(home, id)) },
        ),
        VerbView::Rm(id) => at(
            home,
            StageView::FindRm { id, op: OpView::Exists(container_dir(home, id)) },
        ),
    }
}

/// `create` once the state of the container is created.
pub open spec fn saving_config(
    home: Seq<char>,
    id: Seq<char>,
    settings: SettingsView,
    fresh: Seq<char>,
) -> SessionCourse {
    if well_bound(settings.binds) {
        let cfg = configured(
            (ContainerConfigView {
                id,
                ..fresh_config(fresh, settings.rootfs, settings.command)
            }),
            settings,
        );
        at(
            home,
            StageView::CreateConfig {
                id,
                run: first(seq![save_config_step(container_dir(home, id), cfg)]),
            },
        )
    } else {
        complaining(home, "[mincontainer] bad bind format (use /host:/container)"@)
    }
}

/// `bench` before its next run, or at its end.
pub open spec fn benching(home: Seq<char>, b: BenchView, fresh: Seq<char>) -> SessionCourse {
    if b.at < b.runs {
        at(
            home,
            StageView::Bench {
                bench: b,
                launch: LaunchView::start(bench_config(b, fresh), 0, None),
            },
        )
    } else {
        finishing(
            home,
            seq![
                may(
                    OpView::ReportBench {
                        setup: ascending(b.setup),
                        wall: ascending(b.wall),
                        memory: ascending(b.peaks),
                    },
                ),
            ],
            0,
        )
    }
}

/// The benchmark with the measurements of one more run.
pub open spec fn measured(b: BenchView, m: MetricsView) -> BenchView {
    BenchView {
        at: (b.at + 1) as u32,
        setup: b.setup.push(m.setup_nanos),
        wall: b.wall.push(m.wall_nanos),
        peaks: b.peaks.push(m.peak_mem_bytes),
        ..b
    }
}

/// `create` when the directory of all containers stands at `course`.
pub open spec fn initialised(
    home: Seq<char>,
    id: Seq<char>,
    settings: SettingsView,
    course: Course,
    now: Seq<char>,
) -> SessionCourse {
    match course {
        Course::Ask(run) => at(home, StageView::CreateInit { id, settings, run }),
        Course::Ended(Ok(_)) => at(
            home,
            StageView::CreateState {
                id,
                settings,
                run: first(init_steps(home, id, created(id, now))),
            },
        ),
        Course::Ended(Err(e)) => complaining(
            home,
            complaint("init state"@, e.message()),
        ),
    }
}

/// `create` when the state of the container stands at `course`.
pub open spec fn state_created(
    home: Seq<char>,
    id: Seq<char>,
    settings: SettingsView,
    course: Course,
    fresh: Seq<char>,
) -> SessionCourse {
    match course {
        Course::Ask(run) => at(home, StageView::CreateState { id, settings, run }),
        Course::Ended(Ok(_)) => saving_config(home, id, settings, fresh),
        Course::Ended(Err(e)) => complaining(
            home,
            complaint("create state"@, e.message()),
        ),
    }
}

/// `create` when the configuration of the container stands at `course`.
pub open spec fn config_saved(
    home: Seq<char>,
    id: Seq<char>,
    course: Course,
) -> SessionCourse {
    match course {
        Course::Ask(run) => at(home, StageView::CreateConfig { id, run }),
        Course::Ended(Ok(_)) => finishing(
            home,
            seq![may(OpView::Print(id + "\n"@))],
            0,
        ),
        Course::Ended(Err(e)) => complaining(
            home,
            complaint("save config"@, e.message()),
        ),
    }
}

/// `verb` when the directory of all containers stands at `course`.
pub open spec fn found_root(
    home: Seq<char>,
    verb: VerbView,
    course: Course,
) -> SessionCourse {
    match course {
        Course::Ask(run) => at(home, StageView::Init { verb, run }),
        Course::Ended(Ok(_)) => beginning(home, verb),
        Course::Ended(Err(e)) => complaining(
            home,
            complaint("init state"@, e.message()),
        ),
    }
}

/// `stop` when the lookup stands at `course`.
pub open spec fn stopping(
    home: Seq<char>,
    course: LookupCourse,
) -> SessionCourse {
    match course {
        LookupCourse::Ask(lookup) => at(home, StageView::Stop { lookup }),
        LookupCourse::Ended(Ok(state)) => finishing(home, stop_steps(state.pid), 0),
        LookupCourse::Ended(Err(e)) => complaining(
            home,
            complaint("get container"@, e.message()),
        ),
    }
}

/// `ps` when the listing stands at `course`.
pub open spec fn showing(
    home: Seq<char>,
    course: ListingCourse,
) -> SessionCourse {
    match course {
        ListingCourse::Ask(listing) => at(home, StageView::Ps { listing }),
        ListingCourse::Ended(Ok(list)) => finishing(home, ps_steps(list), 0),
        ListingCourse::Ended(Err(e)) => complaining(
            home,
            complaint("list containers"@, e.message()),
        ),
    }
}

/// `rm` when the removal stands at `course`.
pub open spec fn removing(
    home: Seq<char>,
    id: Seq<char>,
    course: Course,
) -> SessionCourse {
    match course {
        Course::Ask(run) => at(home, StageView::Remove { id, run }),
        Course::Ended(Ok(_)) => finishing(
            home,
            seq![may(OpView::Print("Removed "@ + id + "\n"@))],
            0,
        ),
        Course::Ended(Err(e)) => complaining(home, complaint("cleanup"@, e.message())),
    }
}

/// `start` when the run stands at `course`.
pub open spec fn starting(
    home: Seq<char>,
    id: Seq<char>,
    course: LaunchCourse,
) -> SessionCourse {
    match course {
        LaunchCourse::Ask(launch) => at(home, StageView::Start { id, launch }),
        LaunchCourse::Middle(m) => SessionCourse::Middle(m),
        LaunchCourse::Ended(Ok(metrics)) => at(
            home,
            StageView::Saved {
                id,
                metrics,
                update: UpdateView::start(home, id, Change::Ended(metrics.exit_code)),
            },
        ),
        LaunchCourse::Ended(Err(e)) => at(
            home,
            StageView::Broken {
                id,
                op: OpView::Complain(complaint("error"@, e.message())),
            },
        ),
    }
}

/// `start` when the note that the container stopped stands at `course`.
pub open spec fn saving(
    home: Seq<char>,
    id: Seq<char>,
    metrics: MetricsView,
    course: UpdateCourse,
) -> SessionCourse {
    match course {
        UpdateCourse::Ask(update) => at(home, StageView::Saved { id, metrics, update }),
        UpdateCourse::Ended(_) => finishing(
            home,
            seq![may(OpView::ReportStart { id, metrics })],
            metrics.exit_code,
        ),
    }
}

/// `start` when the note that the container could not be run stands at `course`.
pub open spec fn noting(
    home: Seq<char>,
    course: UpdateCourse,
) -> SessionCourse {
    match course {
        UpdateCourse::Ask(update) => at(home, StageView::Noted { update }),
        UpdateCourse::Ended(_) => SessionCourse::Exit(1),
    }
}

/// `run` when the run stands at `course`.
pub open spec fn running(
    home: Seq<char>,
    json: bool,
    course: LaunchCourse,
) -> SessionCourse {
    match course {
        LaunchCourse::Ask(launch) => at(home, StageView::Run { json, launch }),
        LaunchCourse::Middle(m) => SessionCourse::Middle(m),
        LaunchCourse::Ended(Ok(metrics)) => finishing(
            home,
            seq![may(OpView::ReportRun { metrics, json })],
            metrics.exit_code,
        ),
        LaunchCourse::Ended(Err(e)) => complaining(
            home,
            complaint("error"@, e.message()),
        ),
    }
}

/// `bench` when one run stands at `course`.
pub open spec fn bench_running(
    home: Seq<char>,
    bench: BenchView,
    course: LaunchCourse,
    fresh: Seq<char>,
) -> SessionCourse {
    match course {
        LaunchCourse::Ask(launch) => at(home, StageView::Bench { bench, launch }),
        LaunchCourse::Middle(m) => SessionCourse::Middle(m),
        LaunchCourse::Ended(Ok(m)) => benching(home, measured(bench, m), fresh),
        LaunchCourse::Ended(Err(e)) => complaining(
            home,
            "[bench] run "@ + decimal(bench.at as nat) + " failed: "@ + e.message(),
        ),
    }
}

/// A command when its last steps stand at `course`.
pub open spec fn ending(
    home: Seq<char>,
    code: i32,
    course: Course,
) -> SessionCourse {
    match course {
        Course::Ask(run) => at(home, StageView::Finish { run, code }),
        Course::Ended(_) => SessionCourse::Exit(code),
    }
}

/// `start` when it was answered whether there is such a container.
pub open spec fn find_start(
    home: Seq<char>,
    id: Seq<char>,
    reply: ReplyView,
) -> SessionCourse {
    if reply.yes() {
        at(
            home,
            StageView::Config {
                id,
                op: OpView::LoadConfig(config_path(container_dir(home, id))),
            },
        )
    } else {
        complaining(home, not_found(id))
    }
}

/// `logs` when it was answered whether there is such a container.
pub open spec fn find_logs(
    home: Seq<char>,
    id: Seq<char>,
    reply: ReplyView,
) -> SessionCourse {
    if reply.yes() {
        finishing(home, log_steps(container_dir(home, id)), 0)
    } else {
        complaining(home, not_found(id))
    }
}

/// `rm` when it was answered whether there is such a container.
pub open spec fn find_rm(
    home: Seq<char>,
    id: Seq<char>,
    reply: ReplyView,
) -> SessionCourse {
    if reply.yes() {
        at(
            home,
            StageView::Remove {
                id,
                run: first(seq![cleanup_step(container_dir(home, id))]),
            },
        )
    } else {
        complaining(home, not_found(id))
    }
}

/// `start` when it was answered what the configuration is.
pub open spec fn configuring(
    home: Seq<char>,
    id: Seq<char>,
    reply: ReplyView,
) -> SessionCourse {
    match reply {
        ReplyView::Config(cfg) => at(
            home,
            StageView::Stdout {
                id,
                cfg,
                op: OpView::CreateFile(
                    path_joined(container_dir(home, id), "stdout"@),
                ),
            },
        ),
        ReplyView::Malformed(e) => complaining(home, complaint("parse config"@, e)),
        _ => complaining(home, complaint("read config"@, reply.reason())),
    }
}

/// `start` when it was answered whether the first file was created.
pub open spec fn stdout_created(
    home: Seq<char>,
    id: Seq<char>,
    cfg: ContainerConfigView,
    reply: ReplyView,
) -> SessionCourse {
    if reply is Done {
        at(
            home,
            StageView::Stderr {
                id,
                cfg,
                op: OpView::CreateFile(
                    path_joined(container_dir(home, id), "stderr"@),
                ),
            },
        )
    } else {
        complaining(home, complaint("create stdout"@, reply.reason()))
    }
}

/// The record that `start` keeps of the container `id`, begun at the time `now`.
pub open spec fn record_of(home: Seq<char>, id: Seq<char>, now: Seq<char>) -> RecordView {
    RecordView { home, id, at: now }
}

/// `start` when it was answered whether the second file was created.
pub open spec fn stderr_created(
    home: Seq<char>,
    id: Seq<char>,
    cfg: ContainerConfigView,
    reply: ReplyView,
    now: Seq<char>,
) -> SessionCourse {
    if reply is Done {
        at(
            home,
            StageView::Start {
                id,
                launch: LaunchView::start(cfg, 0, Some(record_of(home, id, now))),
            },
        )
    } else {
        complaining(home, complaint("create stderr"@, reply.reason()))
    }
}

/// Whether all states that a listing has found can be listed.
pub open spec fn all_printable(listing: ListingView) -> bool {
    match listing.stage {
        ListingStageView::Visit { found, .. } => forall|i: int|
            0 <= i < found.len() ==> printable(#[trigger] found[i]),
        _ => true,
    }
}

impl SessionView {
    pub open spec fn wf(self) -> bool {
        match self.stage {
            StageView::CreateInit { run, .. } => run.wf(),
            StageView::CreateState { run, .. } => run.wf(),
            StageView::CreateConfig { run, .. } => run.wf(),
            StageView::Init { run, .. } => run.wf(),
            StageView::Ps { listing } => listing.wf() && all_printable(listing),
            StageView::Remove { run, .. } => run.wf(),
            StageView::Stdout { cfg, .. } => runnable(cfg),
            StageView::Stderr { cfg, .. } => runnable(cfg),
            StageView::Start { launch, .. } => launch.wf(),
            StageView::Saved { update, .. } => update.wf(),
            StageView::Noted { update } => update.wf(),
            StageView::Run { launch, .. } => launch.wf(),
            StageView::Bench { bench, launch } => launch.wf() && bench.at < bench.runs,
            StageView::Finish { run, .. } => run.wf(),
            _ => true,
        }
    }

    /// The operation to be done now.
    pub open spec fn op(self) -> OpView {
        match self.stage {
            StageView::CreateInit { run, .. } => run.op(),
            StageView::CreateState { run, .. } => run.op(),
            StageView::CreateConfig { run, .. } => run.op(),
            StageView::Init { run, .. } => run.op(),
            StageView::FindStart { op, .. } => op,
            StageView::FindLogs { op, .. } => op,
            StageView::FindRm { op, .. } => op,
            StageView::Stop { lookup } => lookup.op,
            StageView::Ps { listing } => listing.op(),
            StageView::Remove { run, .. } => run.op(),
            StageView::Config { op, .. } => op,
            StageView::Stdout { op, .. } => op,
            StageView::Stderr { op, .. } => op,
            StageView::Start { launch, .. } => launch.stage.op(),
            StageView::Saved { update, .. } => update.op(),
            StageView::Broken { op, .. } => op,
            StageView::Noted { update } => update.op(),
            StageView::Run { launch, .. } => launch.stage.op(),
            StageView::Announce { op, .. } => op,
            StageView::Bench { launch, .. } => launch.stage.op(),
            StageView::Finish { run, .. } => run.op(),
        }
    }

    /// Whether the command can go on from `reply`: a container whose network cannot be
    /// named after its id cannot be started, and one whose id cannot be cut to the
    /// width of a line cannot be listed.
    pub open spec fn accepts(self, reply: ReplyView) -> bool {
        match (self.stage, reply) {
            (StageView::Config { .. }, ReplyView::Config(cfg)) => runnable(cfg),
            (StageView::Ps { .. }, ReplyView::State(state)) => printable(state),
            _ => true,
        }
    }

    /// What comes of it when the host answers with `reply`, at the time `now`; `fresh`
    /// is a new random id.
    pub open spec fn next(
        self,
        reply: ReplyView,
        now: Seq<char>,
        fresh: Seq<char>,
    ) -> SessionCourse {
        let home = self.home;
        match self.stage {
            StageView::CreateInit { id, settings, run } => initialised(
                home,
                id,
                settings,
                run.next(reply),
                now,
            ),
            StageView::CreateState { id, settings, run } => state_created(
                home,
                id,
                settings,
                run.next(reply),
                fresh,
            ),
            StageView::CreateConfig { id, run } => config_saved(home, id, run.next(reply)),
            StageView::Init { verb, run } => found_root(home, verb, run.next(reply)),
            StageView::FindStart { id, .. } => find_start(home, id, reply),
            StageView::FindLogs { id, .. } => find_logs(home, id, reply),
            StageView::FindRm { id, .. } => find_rm(home, id, reply),
            StageView::Stop { lookup } => stopping(home, lookup.next(reply)),
            StageView::Ps { listing } => showing(home, listing.next(reply)),
            StageView::Remove { id, run } => removing(home, id, run.next(reply)),
            StageView::Config { id, .. } => configuring(home, id, reply),
            StageView::Stdout { id, cfg, .. } => stdout_created(home, id, cfg, reply),
            StageView::Stderr { id, cfg, .. } => stderr_created(home, id, cfg, reply, now),
            StageView::Start { id, launch } => starting(home, id, launch.next(reply)),
            StageView::Saved { id, metrics, update } => saving(
                home,
                id,
                metrics,
                update.next(reply, now),
            ),
            StageView::Broken { id, .. } => at(
                home,
                StageView::Noted {
                    update: UpdateView::start(home, id, Change::Stopped(127)),
                },
            ),
            StageView::Noted { update } => noting(home, update.next(reply, now)),
            StageView::Run { json, launch } => running(home, json, launch.next(reply)),
            StageView::Announce { bench, .. } => benching(home, bench, fresh),
            StageView::Bench { bench, launch } => bench_running(
                home,
                bench,
                launch.next(reply),
                fresh,
            ),
            StageView::Finish { run, code } => ending(home, code, run.next(reply)),
        }
    }
}

// Carrying a command out.

fn begin(plan: Plan) -> (r: PlanRun)
    requires
        plan@.len() > 0,
    ensures
        r@ == first(plan@),
        r@.wf(),
{
    PlanRun { plan, at: 0 }
}

fn only(step: Step) -> (plan: Plan)
    ensures
        plan@ == seq![step@],
{
    let mut plan: Plan = Plan::new();
    plan.push(step);
    assert(plan@ =~= seq![step@]);
    plan
}

fn go(home: String, stage: Stage) -> (r: SessionTurn)
    ensures
        r@ == at(home@, stage@),
{
    SessionTurn::Ask(Session { home, stage })
}

fn finish(home: String, plan: Plan, code: i32) -> (r: SessionTurn)
    ensures
        r@ == finishing(home@, plan@, code),
        r@.wf(),
{
    match PlanRun::start(plan) {
        PlanTurn::Ask(run) => go(home, Stage::Finish { run, code }),
        PlanTurn::Ended(_) => SessionTurn::Exit(code),
    }
}

fn complain(home: String, text: String) -> (r: SessionTurn)
    ensures
        r@ == complaining(home@, text@),
        r@.wf(),
{
    finish(home, only(Step::may(Op::Complain(text))), 1)
}

fn complaint_text(label: &str, why: &str) -> (r: String)
    ensures
        r@ == complaint(label@, why@),
{
    let head: String = cat3("[mincontainer] ", label, ": ");
    cat(head.as_str(), why)
}

fn complain_of(home: String, label: &str, why: &str) -> (r: SessionTurn)
    ensures
        r@ == complaining(home@, complaint(label@, why@)),
        r@.wf(),
{
    complain(home, complaint_text(label, why))
}

fn complain_missing(home: String, id: &str) -> (r: SessionTurn)
    ensures
        r@ == complaining(home@, not_found(id@)),
        r@.wf(),
{
    complain(home, cat3("[mincontainer] container ", id, " not found"))
}

fn print_step(text: String) -> (r: Step)
    ensures
        r@ == may(OpView::Print(text@)),
{
    Step::may(Op::Print(text))
}

fn plan_stop(pid: Option<i32>) -> (plan: Plan)
    ensures
        plan@ == stop_steps(pid),
{
    let mut plan: Plan = Plan::new();
    if let Some(pid) = pid {
        plan.push(Step::may(Op::Kill { pid, signal: StopSignal::Term }));
        // Wait a bit, then SIGKILL if still running.
        plan.push(Step::may(Op::Sleep(500)));
        plan.push(Step::may(Op::Kill { pid, signal: StopSignal::Kill }));
    }
    assert(plan@ =~= stop_steps(pid));
    plan
}

fn plan_logs(dir: &ContainerStateDir) -> (plan: Plan)
    ensures
        plan@ == log_steps(dir@),
{
    let mut plan: Plan = Plan::new();
    plan.push(print_step("=== STDOUT ===\n".to_owned()));
    plan.push(Step::may(Op::CopyToStdout(dir.stdout_file())));
    plan.push(print_step("\n=== STDERR ===\n".to_owned()));
    plan.push(Step::may(Op::CopyToStdout(dir.stderr_file())));
    assert(plan@ =~= log_steps(dir@));
    plan
}

/// The line that shows a state.
pub fn format_row(state: &ContainerState) -> (r: String)
    requires
        printable(state@),
    ensures
        r@ == row(state@),
{
    let id: String = cut_bytes(state.id.as_str(), 32);
    let pid: String = match state.pid {
        Some(pid) => signed_text(pid),
        None => "-".to_owned(),
    };
    let head: String = cat(align_left(id.as_str(), 32).as_str(), " ");
    let head: String = cat3(head.as_str(), align_left(state.status.as_str(), 9).as_str(), " ");
    cat3(head.as_str(), pid.as_str(), "\n")
}

fn plan_ps(list: &Vec<ContainerState>) -> (plan: Plan)
    requires
        forall|i: int| 0 <= i < list@.len() ==> printable(#[trigger] state_views(list@)[i]),
    ensures
        plan@ == ps_steps(state_views(list@)),
{
    let ghost all = state_views(list@);
    let mut plan: Plan = Plan::new();
    plan.push(print_step("ID                              STATUS    PID\n".to_owned()));
    assert(plan@ =~= ps_steps(all).take(1));
    for i in 0..list.len()
        invariant
            all == state_views(list@),
            forall|i: int| 0 <= i < list@.len() ==> printable(#[trigger] all[i]),
            plan@ == ps_steps(all).take(1 + i),
    {
        assert(all[i as int] == list@[i as int]@);
        plan.push(print_step(format_row(&list[i])));
        assert(plan@ =~= ps_steps(all).take(1 + i + 1));
    }
    assert(plan@ =~= ps_steps(all));
    plan
}

fn save_config(home: String, id: String, settings: Settings, fresh: String) -> (r: SessionTurn)
    ensures
        r@ == saving_config(home@, id@, settings@, fresh@),
        r@.wf(),
{
    let (cfg, good) = configure(id.clone(), fresh, settings);
    if !good {
        return complain(
            home,
            "[mincontainer] bad bind format (use /host:/container)".to_owned(),
        );
    }
    let dir: ContainerStateDir = ContainerStateDir::for_id(home.as_str(), id.as_str());
    let plan: Plan = only(dir.save_config(cfg));
    go(home, Stage::CreateConfig { id, run: begin(plan) })
}

fn begin_verb(home: String, verb: Verb) -> (r: SessionTurn)
    ensures
        r@ == beginning(home@, verb@),
        r@.wf(),
{
    match verb {
        Verb::Start(id) => {
            let op: Op = ContainerStateDir::for_id(home.as_str(), id.as_str()).present();
            go(home, Stage::FindStart { id, op })
        },
        Verb::Stop(id) => {
            let lookup: Lookup = get_container(home.as_str(), id.as_str());
            go(home, Stage::Stop { lookup })
        },
        Verb::Ps => {
            let listing: Listing = list_all(home.as_str());
            go(home, Stage::Ps { listing })
        },
        Verb::Logs(id) => {
            let op: Op = ContainerStateDir::for_id(home.as_str(), id.as_str()).present();
            go(home, Stage::FindLogs { id, op })
        },
        Verb::Rm(id) => {
            let op: Op = ContainerStateDir::for_id(home.as_str(), id.as_str()).present();
            go(home, Stage::FindRm { id, op })
        },
    }
}

fn next_bench(home: String, bench: Bench, fresh: String) -> (r: SessionTurn)
    ensures
        r@ == benching(home@, bench@, fresh@),
        r@.wf(),
{
    if bench.at < bench.runs {
        let mut cfg: ContainerConfig = ContainerConfig::with_id(
            fresh,
            bench.rootfs.clone(),
            copy_list(&bench.command),
        );
        let mut resources: Resources = Resources::default();
        resources.memory_max = bench.memory;
        cfg.resources = resources;
        let launch: Launch = run(&cfg, 0);
        go(home, Stage::Bench { bench, launch })
    } else {
        let setup: Spread = Spread::of(&bench.setup);
        let wall: Spread = Spread::of(&bench.wall);
        let memory: Spread = Spread::of(&bench.peaks);
        finish(home, only(Step::may(Op::ReportBench { setup, wall, memory })), 0)
    }
}

/// Whether all states that a listing has found, or has ended with, can be listed.
pub open spec fn listed_printable(course: ListingCourse) -> bool {
    match course {
        ListingCourse::Ask(listing) => all_printable(listing),
        ListingCourse::Ended(Ok(list)) => forall|i: int|
            0 <= i < list.len() ==> printable(#[trigger] list[i]),
        ListingCourse::Ended(Err(_)) => true,
    }
}

proof fn lemma_still_printable(listing: ListingView, reply: ReplyView)
    requires
        all_printable(listing),
        reply matches ReplyView::State(state) ==> printable(state),
    ensures
        listed_printable(listing.next(reply)),
{
}

fn on_create_init(
    home: String,
    id: String,
    settings: Settings,
    turn: PlanTurn,
    now: String,
) -> (r: SessionTurn)
    requires
        turn@.wf(),
    ensures
        r@ == initialised(home@, id@, settings@, turn@, now@),
        r@.wf(),
{
    match turn {
        PlanTurn::Ask(run) => go(home, Stage::CreateInit { id, settings, run }),
        PlanTurn::Ended(Ok(_)) => {
            let state: ContainerState = ContainerState::created_at(id.clone(), now);
            let plan: Plan = init_plan(home.as_str(), id.as_str(), state);
            go(home, Stage::CreateState { id, settings, run: begin(plan) })
        },
        PlanTurn::Ended(Err(e)) => complain_of(home, "init state", e.message().as_str()),
    }
}

fn on_create_state(
    home: String,
    id: String,
    settings: Settings,
    turn: PlanTurn,
    fresh: String,
) -> (r: SessionTurn)
    requires
        turn@.wf(),
    ensures
        r@ == state_created(home@, id@, settings@, turn@, fresh@),
        r@.wf(),
{
    match turn {
        PlanTurn::Ask(run) => go(home, Stage::CreateState { id, settings, run }),
        PlanTurn::Ended(Ok(_)) => save_config(home, id, settings, fresh),
        PlanTurn::Ended(Err(e)) => complain_of(
            home,
            "create state",
            e.message().as_str(),
        ),
    }
}

fn on_create_config(
    home: String,
    id: String,
    turn: PlanTurn,
) -> (r: SessionTurn)
    requires
        turn@.wf(),
    ensures
        r@ == config_saved(home@, id@, turn@),
        r@.wf(),
{
    match turn {
        PlanTurn::Ask(run) => go(home, Stage::CreateConfig { id, run }),
        PlanTurn::Ended(Ok(_)) => finish(
            home,
            only(print_step(cat(id.as_str(), "\n"))),
            0,
        ),
        PlanTurn::Ended(Err(e)) => complain_of(
            home,
            "save config",
            e.message().as_str(),
        ),
    }
}

fn on_init(
    home: String,
    verb: Verb,
    turn: PlanTurn,
) -> (r: SessionTurn)
    requires
        turn@.wf(),
    ensures
        r@ == found_root(home@, verb@, turn@),
        r@.wf(),
{
    match turn {
        PlanTurn::Ask(run) => go(home, Stage::Init { verb, run }),
        PlanTurn::Ended(Ok(_)) => begin_verb(home, verb),
        PlanTurn::Ended(Err(e)) => complain_of(home, "init state", e.message().as_str()),
    }
}

fn on_stop(
    home: String,
    turn: LookupTurn,
) -> (r: SessionTurn)
    ensures
        r@ == stopping(home@, turn@),
        r@.wf(),
{
    match turn {
        LookupTurn::Ask(lookup) => go(home, Stage::Stop { lookup }),
        LookupTurn::Ended(Ok(state)) => finish(home, plan_stop(state.pid), 0),
        LookupTurn::Ended(Err(e)) => complain_of(
            home,
            "get container",
            e.message().as_str(),
        ),
    }
}

fn on_ps(
    home: String,
    turn: ListingTurn,
) -> (r: SessionTurn)
    requires
        turn@.wf(),
        listed_printable(turn@),
    ensures
        r@ == showing(home@, turn@),
        r@.wf(),
{
    match turn {
            ListingTurn::Ask(listing) => go(home, Stage::Ps { listing }),
            ListingTurn::Ended(Ok(list)) => finish(home, plan_ps(&list), 0),
            ListingTurn::Ended(Err(e)) => complain_of(
                home,
                "list containers",
                e.message().as_str(),
            ),
        }
}

fn on_remove(
    home: String,
    id: String,
    turn: PlanTurn,
) -> (r: SessionTurn)
    requires
        turn@.wf(),
    ensures
        r@ == removing(home@, id@, turn@),
        r@.wf(),
{
    match turn {
        PlanTurn::Ask(run) => go(home, Stage::Remove { id, run }),
        PlanTurn::Ended(Ok(_)) => finish(
            home,
            only(print_step(cat3("Removed ", id.as_str(), "\n"))),
            0,
        ),
        PlanTurn::Ended(Err(e)) => complain_of(home, "cleanup", e.message().as_str()),
    }
}

fn on_start(
    home: String,
    id: String,
    turn: LaunchTurn,
) -> (r: SessionTurn)
    requires
        turn@.wf(),
    ensures
        r@ == starting(home@, id@, turn@),
        r@.wf(),
{
    match turn {
        LaunchTurn::Ask(launch) => go(home, Stage::Start { id, launch }),
        LaunchTurn::Middle(m) => SessionTurn::Middle(m),
        LaunchTurn::Ended(Ok(metrics)) => {
            // Save the final state.
            let update: Update = set_ended(
                home.as_str(),
                id.as_str(),
                metrics.exit_code,
            );
            go(home, Stage::Saved { id, metrics, update })
        },
        LaunchTurn::Ended(Err(e)) => {
            let op: Op = Op::Complain(complaint_text("error", e.message().as_str()));
            go(home, Stage::Broken { id, op })
        },
    }
}

fn on_saved(
    home: String,
    id: String,
    metrics: Metrics,
    turn: UpdateTurn,
) -> (r: SessionTurn)
    requires
        turn@.wf(),
    ensures
        r@ == saving(home@, id@, metrics@, turn@),
        r@.wf(),
{
    match turn {
        UpdateTurn::Ask(update) => go(home, Stage::Saved { id, metrics, update }),
        UpdateTurn::Ended(_) => {
            let code: i32 = metrics.exit_code;
            finish(home, only(Step::may(Op::ReportStart { id, metrics })), code)
        },
    }
}

fn on_noted(
    home: String,
    turn: UpdateTurn,
) -> (r: SessionTurn)
    requires
        turn@.wf(),
    ensures
        r@ == noting(home@, turn@),
        r@.wf(),
{
    match turn {
        UpdateTurn::Ask(update) => go(home, Stage::Noted { update }),
        UpdateTurn::Ended(_) => SessionTurn::Exit(1),
    }
}

fn on_run(
    home: String,
    json: bool,
    turn: LaunchTurn,
) -> (r: SessionTurn)
    requires
        turn@.wf(),
    ensures
        r@ == running(home@, json, turn@),
        r@.wf(),
{
    match turn {
        LaunchTurn::Ask(launch) => go(home, Stage::Run { json, launch }),
        LaunchTurn::Middle(m) => SessionTurn::Middle(m),
        LaunchTurn::Ended(Ok(metrics)) => {
            let code: i32 = metrics.exit_code;
            finish(home, only(Step::may(Op::ReportRun { metrics, json })), code)
        },
        LaunchTurn::Ended(Err(e)) => complain_of(home, "error", e.message().as_str()),
    }
}

fn on_bench(
    home: String,
    bench: Bench,
    turn: LaunchTurn,
    fresh: String,
) -> (r: SessionTurn)
    requires
        turn@.wf(),
        bench@.at < bench@.runs,
    ensures
        r@ == bench_running(home@, bench@, turn@, fresh@),
        r@.wf(),
{
    match turn {
        LaunchTurn::Ask(launch) => go(home, Stage::Bench { bench, launch }),
        LaunchTurn::Middle(m) => SessionTurn::Middle(m),
        LaunchTurn::Ended(Ok(m)) => {
            let mut bench: Bench = bench;
            bench.at = bench.at + 1;
            bench.setup.push(m.setup_nanos);
            bench.wall.push(m.wall_nanos);
            bench.peaks.push(m.peak_mem_bytes);
            next_bench(home, bench, fresh)
        },
        LaunchTurn::Ended(Err(e)) => {
            let number: String = number_text(bench.at as u64);
            let head: String = cat3("[bench] run ", number.as_str(), " failed: ");
            complain(home, cat(head.as_str(), e.message().as_str()))
        },
    }
}

fn on_finish(
    home: String,
    code: i32,
    turn: PlanTurn,
) -> (r: SessionTurn)
    requires
        turn@.wf(),
    ensures
        r@ == ending(home@, code, turn@),
        r@.wf(),
{
    match turn {
        PlanTurn::Ask(run) => go(home, Stage::Finish { run, code }),
        PlanTurn::Ended(_) => SessionTurn::Exit(code),
    }
}

fn on_find_start(
    home: String,
    id: String,
    reply: Reply,
) -> (r: SessionTurn)
    ensures
        r@ == find_start(home@, id@, reply@),
        r@.wf(),
{
    if reply.is_yes() {
        let dir: ContainerStateDir = ContainerStateDir::for_id(
            home.as_str(),
            id.as_str(),
        );
        go(home, Stage::Config { id, op: Op::LoadConfig(dir.config_file()) })
    } else {
        complain_missing(home, id.as_str())
    }
}

fn on_find_logs(
    home: String,
    id: String,
    reply: Reply,
) -> (r: SessionTurn)
    ensures
        r@ == find_logs(home@, id@, reply@),
        r@.wf(),
{
    if reply.is_yes() {
        let dir: ContainerStateDir = ContainerStateDir::for_id(
            home.as_str(),
            id.as_str(),
        );
        finish(home, plan_logs(&dir), 0)
    } else {
        complain_missing(home, id.as_str())
    }
}

fn on_find_rm(
    home: String,
    id: String,
    reply: Reply,
) -> (r: SessionTurn)
    ensures
        r@ == find_rm(home@, id@, reply@),
        r@.wf(),
{
    if reply.is_yes() {
        let dir: ContainerStateDir = ContainerStateDir::for_id(
            home.as_str(),
            id.as_str(),
        );
        go(home, Stage::Remove { id, run: begin(only(dir.cleanup())) })
    } else {
        complain_missing(home, id.as_str())
    }
}

fn on_config(
    home: String,
    id: String,
    reply: Reply,
) -> (r: SessionTurn)
    requires
        reply@ matches ReplyView::Config(cfg) ==> runnable(cfg),
    ensures
        r@ == configuring(home@, id@, reply@),
        r@.wf(),
{
    let why: String = reply.reason();
    match reply {
        Reply::Config(cfg) => {
            let dir: ContainerStateDir = ContainerStateDir::for_id(
                home.as_str(),
                id.as_str(),
            );
            let op: Op = Op::CreateFile(dir.stdout_file());
            go(home, Stage::Stdout { id, cfg, op })
        },
        Reply::Malformed(e) => complain_of(home, "parse config", e.as_str()),
        _ => complain_of(home, "read config", why.as_str()),
    }
}

fn on_stdout(
    home: String,
    id: String,
    cfg: ContainerConfig,
    reply: Reply,
) -> (r: SessionTurn)
    requires
        runnable(cfg@),
    ensures
        r@ == stdout_created(home@, id@, cfg@, reply@),
        r@.wf(),
{
    if reply.is_done() {
        let dir: ContainerStateDir = ContainerStateDir::for_id(
            home.as_str(),
            id.as_str(),
        );
        let op: Op = Op::CreateFile(dir.stderr_file());
        go(home, Stage::Stderr { id, cfg, op })
    } else {
        complain_of(home, "create stdout", reply.reason().as_str())
    }
}

fn on_stderr(
    home: String,
    id: String,
    cfg: ContainerConfig,
    reply: Reply,
    now: String,
) -> (r: SessionTurn)
    requires
        runnable(cfg@),
    ensures
        r@ == stderr_created(home@, id@, cfg@, reply@, now@),
        r@.wf(),
{
    if reply.is_done() {
        let record: Record = Record { home: home.clone(), id: id.clone(), at: now };
        let launch: Launch = run_noted(&cfg, 0, record);
        go(home, Stage::Start { id, launch })
    } else {
        complain_of(home, "create stderr", reply.reason().as_str())
    }
}

impl Session {
    /// The operation to be done now.
    pub fn op(&self) -> (r: &Op)
        requires
            self@.wf(),
        ensures
            r@ == self@.op(),
    {
        match &self.stage {
            Stage::CreateInit { run, .. } => run.op(),
            Stage::CreateState { run, .. } => run.op(),
            Stage::CreateConfig { run, .. } => run.op(),
            Stage::Init { run, .. } => run.op(),
            Stage::FindStart { op, .. } => op,
            Stage::FindLogs { op, .. } => op,
            Stage::FindRm { op, .. } => op,
            Stage::Stop { lookup } => &lookup.op,
            Stage::Ps { listing } => listing.op(),
            Stage::Remove { run, .. } => run.op(),
            Stage::Config { op, .. } => op,
            Stage::Stdout { op, .. } => op,
            Stage::Stderr { op, .. } => op,
            Stage::Start { launch, .. } => launch.op(),
            Stage::Saved { update, .. } => update.op(),
            Stage::Broken { op, .. } => op,
            Stage::Noted { update } => update.op(),
            Stage::Run { launch, .. } => launch.op(),
            Stage::Announce { op, .. } => op,
            Stage::Bench { launch, .. } => launch.op(),
            Stage::Finish { run, .. } => run.op(),
        }
    }

    /// Whether the command can go on from `reply`.
    pub fn accepts(&self, reply: &Reply) -> (r: bool)
        ensures
            r == self@.accepts(reply@),
    {
        match &self.stage {
            Stage::Config { .. } => match reply {
                Reply::Config(cfg) => can_run(cfg),
                _ => true,
            },
            Stage::Ps { .. } => match reply {
                Reply::State(state) => can_cut(state.id.as_str(), 32),
                _ => true,
            },
            _ => true,
        }
    }

    /// Go on from the answer to the operation.
    pub fn resume(self, reply: Reply) -> (r: SessionTurn)
        requires
            self@.wf(),
            self@.accepts(reply@),
        ensures
            exists|now: Seq<char>, fresh: Seq<char>|
                {
                    &&& is_time_stamp(now)
                    &&& is_random_uuid(fresh)
                    &&& r@ == #[trigger] self@.next(reply@, now, fresh)
                },
            r@.wf(),
    {
        let now: String = now_iso();
        let fresh: String = new_id();
        let ghost (me, answer, n, f) = (self@, reply@, now@, fresh@);
        let r: SessionTurn = self.resume_with(reply, now, fresh);
        assert(is_time_stamp(n) && is_random_uuid(f) && r@ == me.next(answer, n, f));
        r
    }

    /// Go on from the answer to the operation, at the time `now`; `fresh` is a new id.
    pub fn resume_with(self, reply: Reply, now: String, fresh: String) -> (r: SessionTurn)
        requires
            self@.wf(),
            self@.accepts(reply@),
        ensures
            r@ == self@.next(reply@, now@, fresh@),
            r@.wf(),
    {
        let home: String = self.home;
        match self.stage {
            Stage::CreateInit { id, settings, run } => on_create_init(
                home,
                id,
                settings,
                run.resume(reply),
                now,
            ),
            Stage::CreateState { id, settings, run } => on_create_state(
                home,
                id,
                settings,
                run.resume(reply),
                fresh,
            ),
            Stage::CreateConfig { id, run } => on_create_config(home, id, run.resume(reply)),
            Stage::Init { verb, run } => on_init(home, verb, run.resume(reply)),
            Stage::FindStart { id, op: _ } => on_find_start(home, id, reply),
            Stage::FindLogs { id, op: _ } => on_find_logs(home, id, reply),
            Stage::FindRm { id, op: _ } => on_find_rm(home, id, reply),
            Stage::Stop { lookup } => on_stop(home, lookup.resume(reply)),
            Stage::Ps { listing } => {
                proof {
                    lemma_still_printable(listing@, reply@);
                }
                on_ps(home, listing.resume(reply))
            },
            Stage::Remove { id, run } => on_remove(home, id, run.resume(reply)),
            Stage::Config { id, op: _ } => on_config(home, id, reply),
            Stage::Stdout { id, cfg, op: _ } => on_stdout(home, id, cfg, reply),
            Stage::Stderr { id, cfg, op: _ } => on_stderr(home, id, cfg, reply, now),
            Stage::Start { id, launch } => on_start(home, id, launch.resume(reply)),
            Stage::Saved { id, metrics, update } => on_saved(
                home,
                id,
                metrics,
                update.resume_at(reply, now),
            ),
            Stage::Broken { id, op: _ } => {
                let update: Update = set_stopped(home.as_str(), id.as_str(), 127);
                go(home, Stage::Noted { update })
            },
            Stage::Noted { update } => on_noted(home, update.resume_at(reply, now)),
            Stage::Run { json, launch } => on_run(home, json, launch.resume(reply)),
            Stage::Announce { bench, op: _ } => next_bench(home, bench, fresh),
            Stage::Bench { bench, launch } => on_bench(home, bench, launch.resume(reply), fresh),
            Stage::Finish { run, code } => on_finish(home, code, run.resume(reply)),
        }
    }
}

// The commands.

/// Where a command on the containers that are kept begins.
pub open spec fn verb_start(home: Seq<char>, verb: VerbView) -> SessionView {
    SessionView { home, stage: StageView::Init { verb, run: first(seq![init_step(home)]) } }
}

/// Where `create` begins.
pub open spec fn create_start(
    home: Seq<char>,
    id: Seq<char>,
    settings: SettingsView,
) -> SessionView {
    SessionView {
        home,
        stage: StageView::CreateInit { id, settings, run: first(seq![init_step(home)]) },
    }
}

/// Where `run` begins.
pub open spec fn run_start(
    home: Seq<char>,
    fresh: Seq<char>,
    settings: SettingsView,
    json: bool,
) -> SessionView {
    let cfg = configured(fresh_config(fresh, settings.rootfs, settings.command), settings);
    SessionView { home, stage: StageView::Run { json, launch: LaunchView::start(cfg, 0, None) } }
}

/// Where `bench` begins.
pub open spec fn bench_start(
    home: Seq<char>,
    rootfs: Seq<char>,
    runs: u32,
    memory: u64,
    command: Seq<Seq<char>>,
) -> SessionView {
    let command = if command.len() == 0 {
        seq!["/bin/true"@]
    } else {
        command
    };
    SessionView {
        home,
        stage: StageView::Announce {
            bench: BenchView {
                rootfs,
                runs,
                memory,
                command,
                at: 0,
                setup: Seq::empty(),
                wall: Seq::empty(),
                peaks: Seq::empty(),
            },
            op: OpView::AnnounceBench { runs, command },
        },
    }
}

fn start_verb(home: String, verb: Verb) -> (r: Session)
    ensures
        r@ == verb_start(home@, verb@),
        r@.wf(),
{
    let plan: Plan = only(ContainerStateDir::init(home.as_str()));
    Session { home, stage: Stage::Init { verb, run: begin(plan) } }
}

/// Create a container (config only, don't start).
///
/// Its id is `id`, or else a new random one.
pub fn cmd_create(home: String, id: Option<String>, settings: Settings) -> (r: Session)
    ensures
        match id {
            Some(id) => r@ == create_start(home@, id@, settings@),
            None => exists|fresh: Seq<char>|
                is_random_uuid(fresh) && r@ == #[trigger] create_start(home@, fresh, settings@),
        },
        r@.wf(),
{
    let name: String = match id {
        Some(id) => id,
        None => new_id(),
    };
    let ghost n = name@;
    let plan: Plan = only(ContainerStateDir::init(home.as_str()));
    let r: Session = Session {
        home,
        stage: Stage::CreateInit { id: name, settings, run: begin(plan) },
    };
    assert(r@ == create_start(home@, n, settings@));
    r
}

/// Start an existing container.
pub fn cmd_start(home: String, id: String) -> (r: Session)
    ensures
        r@ == verb_start(home@, VerbView::Start(id@)),
        r@.wf(),
{
    start_verb(home, Verb::Start(id))
}

/// Stop a running container.
pub fn cmd_stop(home: String, id: String) -> (r: Session)
    ensures
        r@ == verb_start(home@, VerbView::Stop(id@)),
        r@.wf(),
{
    start_verb(home, Verb::Stop(id))
}

/// List all containers.
pub fn cmd_ps(home: String) -> (r: Session)
    ensures
        r@ == verb_start(home@, VerbView::Ps),
        r@.wf(),
{
    start_verb(home, Verb::Ps)
}

/// View container logs.
pub fn cmd_logs(home: String, id: String) -> (r: Session)
    ensures
        r@ == verb_start(home@, VerbView::Logs(id@)),
        r@.wf(),
{
    start_verb(home, Verb::Logs(id))
}

/// Delete a container.
pub fn cmd_rm(home: String, id: String) -> (r: Session)
    ensures
        r@ == verb_start(home@, VerbView::Rm(id@)),
        r@.wf(),
{
    start_verb(home, Verb::Rm(id))
}

/// Run a container (one-shot: create + start + wait).
///
/// A bind mount that is not well formed is passed over.
pub fn cmd_run(home: String, settings: Settings, json: bool) -> (r: Session)
    ensures
        exists|fresh: Seq<char>|
            is_random_uuid(fresh) && r@ == #[trigger] run_start(home@, fresh, settings@, json),
        r@.wf(),
{
    let fresh: String = new_id();
    let ghost f = fresh@;
    let (cfg, _) = configure(fresh.clone(), fresh, settings);
    proof {
        law_random_id_runs(cfg@);
    }
    let launch: Launch = run(&cfg, 0);
    let r: Session = Session { home, stage: Stage::Run { json, launch } };
    assert(r@ == run_start(home@, f, settings@, json));
    r
}

/// Benchmark startup latency and throughput.
pub fn cmd_bench(
    home: String,
    rootfs: String,
    runs: u32,
    memory: u64,
    command: Vec<String>,
) -> (r: Session)
    ensures
        r@ == bench_start(home@, rootfs@, runs, memory, views(command@)),
        r@.wf(),
{
    let command: Vec<String> = if command.len() == 0 {
        let list: Vec<String> = vec!["/bin/true".to_owned()];
        assert(views(list@) =~= seq!["/bin/true"@]);
        list
    } else {
        command
    };
    let op: Op = Op::AnnounceBench { runs, command: copy_list(&command) };
    let bench: Bench = Bench {
        rootfs,
        runs,
        memory,
        command,
        at: 0,
        setup: Vec::new(),
        wall: Vec::new(),
        peaks: Vec::new(),
    };
    Session { home, stage: Stage::Announce { bench, op } }
}

/// What `info` tells.
pub open spec fn info_text() -> Seq<char> {
    "mincontainer — isolation applied per container:\n"@
        + "  namespaces : PID, mount, UTS, IPC, network (5)\n"@
        + "  rootfs     : pivot_root + private mounts, fresh /proc and /dev\n"@
        + "  cgroup v2  : memory.max, cpu.max, pids.max + peak-memory/cpu accounting\n"@
        + "  network    : veth pair into a bridge, per-container IP, NAT egress\n"@
        + "  volumes    : bind mounts (--bind /host:/container)\n"@
        + "  seccomp    : default-allow BPF filter, "@ + decimal(15)
        + " syscalls denied (EPERM)\n"@ + "  caps       : "@ + decimal(9)
        + " dangerous capabilities dropped from the bounding set\n"@
}

/// Display runtime capabilities.
pub fn cmd_info(home: String) -> (r: Session)
    ensures
        r@ == (SessionView {
            home: home@,
            stage: StageView::Finish {
                run: first(seq![may(OpView::Print(info_text()))]),
                code: 0,
            },
        }),
        r@.wf(),
{
    let head: String = cat3(
        "mincontainer — isolation applied per container:\n",
        "  namespaces : PID, mount, UTS, IPC, network (5)\n",
        "  rootfs     : pivot_root + private mounts, fresh /proc and /dev\n",
    );
    let head: String = cat3(
        head.as_str(),
        "  cgroup v2  : memory.max, cpu.max, pids.max + peak-memory/cpu accounting\n",
        "  network    : veth pair into a bridge, per-container IP, NAT egress\n",
    );
    let head: String = cat3(
        head.as_str(),
        "  volumes    : bind mounts (--bind /host:/container)\n",
        "  seccomp    : default-allow BPF filter, ",
    );
    let head: String = cat3(
        head.as_str(),
        number_text(blocked_count() as u64).as_str(),
        " syscalls denied (EPERM)\n",
    );
    let head: String = cat3(
        head.as_str(),
        "  caps       : ",
        number_text(dropped_count() as u64).as_str(),
    );
    let text: String = cat(
        head.as_str(),
        " dangerous capabilities dropped from the bounding set\n",
    );
    let plan: Plan = only(print_step(text));
    Session { home, stage: Stage::Finish { run: begin(plan), code: 0 } }
}

// What holds of every command.

/// Whether a plan goes on whatever the host answers.
pub open spec fn never_fails(steps: Seq<StepView>) -> bool {
    forall|i: int|
        0 <= i < steps.len() ==> (#[trigger] steps[i]).on_failure is Ignore && steps[i].skip == 0
}

/// Where a command stands when the host has answered `n` operations, the one at
/// position `i` with `answers(i)`; `nows(i)` and `ids(i)` are the time and the random
/// id at that position.
pub open spec fn session_run(
    course: SessionCourse,
    answers: spec_fn(int) -> ReplyView,
    nows: spec_fn(int) -> Seq<char>,
    ids: spec_fn(int) -> Seq<char>,
    n: nat,
) -> SessionCourse
    decreases n,
{
    if n == 0 {
        course
    } else {
        match session_run(course, answers, nows, ids, (n - 1) as nat) {
            SessionCourse::Ask(s) => s.next(answers(n - 1), nows(n - 1), ids(n - 1)),
            other => other,
        }
    }
}

/// The last words of a command are all said, in their order, whatever the host
/// answers; and then it ends with its exit code.
pub proof fn law_last_words(
    home: Seq<char>,
    steps: Seq<StepView>,
    code: i32,
    answers: spec_fn(int) -> ReplyView,
    nows: spec_fn(int) -> Seq<char>,
    ids: spec_fn(int) -> Seq<char>,
    n: nat,
)
    requires
        never_fails(steps),
    ensures
        session_run(finishing(home, steps, code), answers, nows, ids, n) == (if n < steps.len() {
            at(home, StageView::Finish { run: PlanRunView { steps, at: n as int }, code })
        } else {
            SessionCourse::Exit(code)
        }),
    decreases n,
{
    if n > 0 {
        law_last_words(home, steps, code, answers, nows, ids, (n - 1) as nat);
    }
}

/// A command that fails says so on the standard error output, and ends with code 1.
pub proof fn law_complaint_ends_with_one(
    home: Seq<char>,
    text: Seq<char>,
    answers: spec_fn(int) -> ReplyView,
    nows: spec_fn(int) -> Seq<char>,
    ids: spec_fn(int) -> Seq<char>,
)
    ensures
        complaining(home, text) matches SessionCourse::Ask(s) && s.op() == OpView::Complain(text),
        session_run(complaining(home, text), answers, nows, ids, 1) == SessionCourse::Exit(1),
{
    law_last_words(home, seq![may(OpView::Complain(text))], 1, answers, nows, ids, 1);
}

/// All that the commands say last, they say whatever the host answers.
pub proof fn law_words_never_fail(
    pid: Option<i32>,
    root: Seq<char>,
    list: Seq<ContainerStateView>,
)
    ensures
        never_fails(stop_steps(pid)),
        never_fails(log_steps(root)),
        never_fails(ps_steps(list)),
{
}

/// `start` runs the container that `create` was told to make: it reads the
/// configuration from where it was saved, runs what it read, and keeps a record of it.
pub proof fn law_started_as_created(
    home: Seq<char>,
    id: Seq<char>,
    settings: SettingsView,
    fresh: Seq<char>,
    now: Seq<char>,
)
    requires
        well_bound(settings.binds),
    ensures
        ({
            let cfg = configured(
                (ContainerConfigView {
                    id,
                    ..fresh_config(fresh, settings.rootfs, settings.command)
                }),
                settings,
            );
            let path = config_path(container_dir(home, id));
            let saving = saving_config(home, id, settings, fresh);
            let loading = find_start(home, id, ReplyView::Flag(true));
            &&& saving matches SessionCourse::Ask(s) && s.op() == OpView::SaveConfig {
                path,
                config: cfg,
            }
            &&& loading matches SessionCourse::Ask(s) && s.op() == OpView::LoadConfig(path)
            &&& {
                let read = loading->Ask_0.next(ReplyView::Config(cfg), now, fresh);
                let first_file = read->Ask_0.next(ReplyView::Done, now, fresh);
                let second_file = first_file->Ask_0.next(ReplyView::Done, now, fresh);
                &&& read is Ask
                &&& first_file is Ask
                &&& second_file == at(
                    home,
                    StageView::Start {
                        id,
                        launch: LaunchView::start(cfg, 0, Some(record_of(home, id, now))),
                    },
                )
            }
        }),
{
}

/// A container that is not there is neither started nor shown nor removed: the command
/// says so and ends with code 1.
pub proof fn law_missing_container(
    home: Seq<char>,
    id: Seq<char>,
    verb: VerbView,
    reply: ReplyView,
    now: Seq<char>,
    fresh: Seq<char>,
)
    requires
        verb == VerbView::Start(id) || verb == VerbView::Logs(id) || verb == VerbView::Rm(id),
        !reply.yes(),
    ensures
        beginning(home, verb) matches SessionCourse::Ask(s) && s.op() == OpView::Exists(
            container_dir(home, id),
        ) && s.next(reply, now, fresh) == complaining(home, not_found(id)),
{
}

/// The exit code of `run`, and of `start` once it has noted the end of the container,
/// is the exit code of the container.
pub proof fn law_exit_code_of_container(
    home: Seq<char>,
    id: Seq<char>,
    m: MetricsView,
    json: bool,
    noted: Result<(), RuntimeErrorView>,
    answers: spec_fn(int) -> ReplyView,
    nows: spec_fn(int) -> Seq<char>,
    ids: spec_fn(int) -> Seq<char>,
)
    ensures
        session_run(
            running(home, json, LaunchCourse::Ended(Ok(m))),
            answers,
            nows,
            ids,
            1,
        ) == SessionCourse::Exit(m.exit_code),
        starting(home, id, LaunchCourse::Ended(Ok(m))) == at(
            home,
            StageView::Saved {
                id,
                metrics: m,
                update: UpdateView::start(home, id, Change::Ended(m.exit_code)),
            },
        ),
        session_run(
            saving(home, id, m, UpdateCourse::Ended(noted)),
            answers,
            nows,
            ids,
            1,
        ) == SessionCourse::Exit(m.exit_code),
{
    let told_run = seq![may(OpView::ReportRun { metrics: m, json })];
    let told_start = seq![may(OpView::ReportStart { id, metrics: m })];
    law_last_words(home, told_run, m.exit_code, answers, nows, ids, 1);
    law_last_words(home, told_start, m.exit_code, answers, nows, ids, 1);
}

/// A container that is noted as running is stopped by its pid: asked to end first, and
/// killed later. One that has ended is sent nothing.
pub proof fn law_running_is_stopped(
    home: Seq<char>,
    state: ContainerStateView,
    pid: i32,
    code: i32,
    now: Seq<char>,
)
    ensures
        stopping(home, LookupCourse::Ended(Ok(changed(state, Change::Running(pid), now))))
            == finishing(
            home,
            seq![
                may(OpView::Kill { pid, signal: StopSignal::Term }),
                may(OpView::Sleep(500)),
                may(OpView::Kill { pid, signal: StopSignal::Kill }),
            ],
            0,
        ),
        stopping(home, LookupCourse::Ended(Ok(changed(state, Change::Ended(code), now))))
            == SessionCourse::Exit(0),
{
}

/// The operations that a command asks for, the first `n` of them.
pub open spec fn session_ops(
    course: SessionCourse,
    answers: spec_fn(int) -> ReplyView,
    nows: spec_fn(int) -> Seq<char>,
    ids: spec_fn(int) -> Seq<char>,
    n: nat,
) -> Seq<OpView>
    decreases n,
{
    if n == 0 {
        Seq::empty()
    } else {
        let before = session_ops(course, answers, nows, ids, (n - 1) as nat);
        match session_run(course, answers, nows, ids, (n - 1) as nat) {
            SessionCourse::Ask(s) => before.push(s.op()),
            _ => before,
        }
    }
}

/// Where the host does all that it is asked, `create` keeps a state and a
/// configuration under the id of the container, prints the id and ends with code 0.
pub proof fn law_create(
    home: Seq<char>,
    id: Seq<char>,
    settings: SettingsView,
    nows: spec_fn(int) -> Seq<char>,
    ids: spec_fn(int) -> Seq<char>,
)
    requires
        well_bound(settings.binds),
    ensures
        ({
            let start = SessionCourse::Ask(create_start(home, id, settings));
            let answers = |i: int| ReplyView::Done;
            let root = container_dir(home, id);
            let cfg = configured(
                (ContainerConfigView {
                    id,
                    ..fresh_config(ids(3), settings.rootfs, settings.command)
                }),
                settings,
            );
            &&& session_run(start, answers, nows, ids, 6) == SessionCourse::Exit(0)
            &&& session_ops(start, answers, nows, ids, 6) == seq![
                OpView::MakeDirs(base_dir(home)),
                OpView::MakeDirs(base_dir(home)),
                OpView::MakeDirs(root),
                OpView::SaveState { path: state_path(root), state: created(id, nows(0)) },
                OpView::SaveConfig { path: config_path(root), config: cfg },
                OpView::Print(id + "\n"@),
            ]
        }),
{
    let start = SessionCourse::Ask(create_start(home, id, settings));
    let answers = |i: int| ReplyView::Done;
    reveal_with_fuel(session_run, 7);
    reveal_with_fuel(session_ops, 7);
    let ops = session_ops(start, answers, nows, ids, 6);
    assert(ops.len() == 6);
}

/// Whether a benchmark has the measurements of every run that has ended.
pub open spec fn complete(b: BenchView) -> bool {
    b.at <= b.runs && b.setup.len() == b.at && b.wall.len() == b.at && b.peaks.len() == b.at
}

/// A benchmark measures every run, and tells of all of them once all have ended.
pub proof fn law_every_run_counts(
    home: Seq<char>,
    b: BenchView,
    m: MetricsView,
    fresh: Seq<char>,
)
    requires
        complete(b),
    ensures
        b.at < b.runs ==> complete(measured(b, m)),
        b.at == b.runs ==> (benching(home, b, fresh) matches SessionCourse::Ask(s) && s.op()
            matches OpView::ReportBench { setup, wall, memory } && setup.len() == b.runs
            && wall.len() == b.runs && memory.len() == b.runs),
{
    law_ascending(b.setup);
    law_ascending(b.wall);
    law_ascending(b.peaks);
}


/// What `info` tells names every part of the isolation, with the numbers of the system
/// calls that are denied and of the capabilities that are dropped.
pub proof fn law_info(numbers: crate::seccomp::SyscallNumbers)
    ensures
        info_text() == "mincontainer — isolation applied per container:\n"@
            + "  namespaces : PID, mount, UTS, IPC, network (5)\n"@
            + "  rootfs     : pivot_root + private mounts, fresh /proc and /dev\n"@
            + "  cgroup v2  : memory.max, cpu.max, pids.max + peak-memory/cpu accounting\n"@
            + "  network    : veth pair into a bridge, per-container IP, NAT egress\n"@
            + "  volumes    : bind mounts (--bind /host:/container)\n"@
            + "  seccomp    : default-allow BPF filter, "@ + decimal(
            crate::seccomp::blocked(numbers).len(),
        ) + " syscalls denied (EPERM)\n"@ + "  caps       : "@ + decimal(
            crate::capabilities::dangerous().len(),
        ) + " dangerous capabilities dropped from the bounding set\n"@,
        crate::container::namespaces().len() == 5,
{
}


/// The model of the settings says of each what was set.
pub proof fn law_settings(s: Settings)
    ensures
        s@.rootfs == s.rootfs@,
        s@.memory == s.memory,
        s@.binds.len() == s.binds@.len(),
        forall|i: int| 0 <= i < s.binds@.len() ==> #[trigger] s@.binds[i] == s.binds@[i]@,
        s@.cpu == s.cpu,
        s@.pids == s.pids,
        s@.net == s.net,
        s@.no_seccomp == s.no_seccomp,
        s@.no_drop_caps == s.no_drop_caps,
        s@.command.len() == s.command@.len(),
        forall|i: int| 0 <= i < s.command@.len() ==> #[trigger] s@.command[i] == s.command@[i]@,
{
}

} // verus!
