//! What each command promises, in terms of what it is given and what it asks of the host.

use crate::account::{
    came, law_leaves_nothing, law_limits_in_order, law_measured, law_nothing_but_the_run,
    lemma_run_sound, measured_from,
};
use crate::cgroups::leaf_path;
use crate::commands::{
    at, bound_volumes, complaining, configured, create_start, finishing, first, run_start,
    well_bound, SessionCourse, SessionView, SettingsView, StageView,
};
use crate::config::{fresh_config, is_random_uuid, ContainerConfigView, VolumeView};
use crate::container::LaunchCourse;
use crate::error::RuntimeErrorView;
use crate::guarantees::{asked, did, launch_run, Event};
use crate::host::{OpView, Pipe, ReplyView};
use crate::lifecycle::Telling;
use crate::order::places;
use crate::plan::{may, Course, PlanRunView, StepView};
use crate::scan::{colon_pair, law_one_colon, path_joined};
use crate::state::{container_dir, created, init_step, init_steps, save_config_step};
use crate::text::decimal;
use vstd::prelude::*;

verus! {

/// Where a command that begins with `start` stands when the host has answered `n`
/// operations, and all that it asked and was told until then.
pub open spec fn carried(start: SessionView, told: Telling, n: nat) -> (SessionCourse, Seq<Event>)
    decreases n,
{
    if n == 0 {
        (SessionCourse::Ask(start), Seq::empty())
    } else {
        let before = carried(start, told, (n - 1) as nat);
        match before.0 {
            SessionCourse::Ask(s) => (
                s.next((told.answers)(n - 1), (told.nows)(n - 1), (told.ids)(n - 1)),
                before.1.push((s.op(), (told.answers)(n - 1))),
            ),
            _ => before,
        }
    }
}

// The configuration of a container.

/// Whether `bind` is a path of the host, a colon, and a path of the container, with no
/// colon in either.
pub open spec fn binds_to(bind: Seq<char>, volume: VolumeView) -> bool {
    &&& bind == volume.host_path + seq![':'] + volume.container_path
    &&& !volume.host_path.contains(':')
    &&& !volume.container_path.contains(':')
}

/// Whether `bind` is well formed.
pub open spec fn is_bind(bind: Seq<char>) -> bool {
    exists|volume: VolumeView| binds_to(bind, volume)
}

/// Whether `volumes` are what the well-formed ones among `binds` ask for, in their order.
pub open spec fn bound_by(binds: Seq<Seq<char>>, volumes: Seq<VolumeView>) -> bool {
    exists|from: Seq<int>| bound_from(binds, volumes, from)
}

/// Whether the volume at each position is what the bind mount at that position of `from`
/// asks for, and no well-formed one is left out.
pub open spec fn bound_from(
    binds: Seq<Seq<char>>,
    volumes: Seq<VolumeView>,
    from: Seq<int>,
) -> bool {
    &&& from.len() == volumes.len()
    &&& forall|j: int|
        0 <= j < from.len() ==> 0 <= #[trigger] from[j] < binds.len() && binds_to(
            binds[from[j]],
            volumes[j],
        )
    &&& forall|i: int, j: int| 0 <= i < j < from.len() ==> from[i] < from[j]
    &&& forall|i: int, v: VolumeView|
        0 <= i < binds.len() && #[trigger] binds_to(binds[i], v) ==> from.contains(i)
}

/// Whether `cfg` is what the settings `s` ask for, under the id `id`, with a hostname
/// taken from `fresh`.
pub open spec fn as_asked(
    cfg: ContainerConfigView,
    id: Seq<char>,
    fresh: Seq<char>,
    s: SettingsView,
) -> bool {
    &&& cfg.id == id
    &&& cfg.hostname == "mc-"@ + (if fresh.len() > 12 {
        fresh.take(12)
    } else {
        fresh
    })
    &&& cfg.rootfs == s.rootfs
    &&& cfg.command == s.command
    &&& cfg.env == seq![
        "PATH=/usr/local/sbin:/usr/local/bin:/usr/sbin:/usr/bin:/sbin:/bin"@,
        "HOME=/root"@,
        "TERM=xterm"@,
    ]
    &&& bound_by(s.binds, cfg.volumes)
    &&& cfg.resources.memory_max == s.memory
    &&& cfg.resources.cpu_quota == s.cpu
    &&& cfg.resources.cpu_period == 100_000
    &&& cfg.resources.pids_max == s.pids
    &&& cfg.network == s.net
    &&& cfg.seccomp == !s.no_seccomp
    &&& cfg.drop_caps == !s.no_drop_caps
}

/// The bind mounts that are well formed give the volumes, in their order; the others give
/// none.
pub proof fn law_binds(binds: Seq<Seq<char>>)
    ensures
        bound_by(binds, bound_volumes(binds)),
        well_bound(binds) <==> forall|i: int| 0 <= i < binds.len() ==> is_bind(#[trigger] binds[i]),
        well_bound(binds) ==> bound_volumes(binds).len() == binds.len(),
    decreases binds.len(),
{
    assert forall|i: int| 0 <= i < binds.len() implies (colon_pair(#[trigger] binds[i]) is Some
        <==> is_bind(binds[i])) by {
        lemma_bind(binds[i]);
    }
    if binds.len() == 0 {
        assert(bound_from(binds, bound_volumes(binds), Seq::empty()));
    } else {
        let less = binds.drop_last();
        law_binds(less);
        let before = bound_volumes(less);
        let from = choose|from: Seq<int>| bound_from(less, before, from);
        let n = binds.len() - 1;
        let bind = binds.last();
        lemma_bind(bind);
        assert forall|i: int, v: VolumeView|
            0 <= i < n && #[trigger] binds_to(binds[i], v) implies from.contains(i) by {
            assert(less[i] == binds[i]);
            assert(binds_to(less[i], v));
        }
        match colon_pair(bind) {
            Some(pair) => {
                let longer = from.push(n);
                assert forall|i: int, v: VolumeView|
                    0 <= i < binds.len() && #[trigger] binds_to(binds[i], v) implies
                    longer.contains(i) by {
                    if i < n {
                        let k = from.index_of(i);
                        assert(longer[k] == i);
                    } else {
                        assert(longer[from.len() as int] == n);
                    }
                }
                assert(bound_from(binds, bound_volumes(binds), longer));
            },
            None => {
                assert(bound_from(binds, bound_volumes(binds), from));
            },
        }
        if well_bound(binds) {
            assert forall|i: int| 0 <= i < less.len() implies colon_pair(
                #[trigger] less[i],
            ) is Some by {
                assert(less[i] == binds[i]);
            }
            assert(colon_pair(binds[n]) is Some);
        }
    }
}

proof fn lemma_bind(bind: Seq<char>)
    ensures
        match colon_pair(bind) {
            Some(pair) => binds_to(
                bind,
                VolumeView { host_path: pair.0, container_path: pair.1 },
            ),
            None => forall|v: VolumeView| !#[trigger] binds_to(bind, v),
        },
{
    law_one_colon(bind);
    if colon_pair(bind) is None {
        assert forall|v: VolumeView| !#[trigger] binds_to(bind, v) by {
            if binds_to(bind, v) {
                assert(crate::scan::parts_at_colon(bind, v.host_path, v.container_path));
            }
        }
    }
}

proof fn lemma_as_asked(id: Seq<char>, fresh: Seq<char>, s: SettingsView)
    ensures
        as_asked(
            configured(
                (ContainerConfigView { id, ..fresh_config(fresh, s.rootfs, s.command) }),
                s,
            ),
            id,
            fresh,
            s,
        ),
{
    law_binds(s.binds);
}

// run

/// The configuration that `run` runs.
spec fn run_config(fresh: Seq<char>, s: SettingsView) -> ContainerConfigView {
    configured(fresh_config(fresh, s.rootfs, s.command), s)
}

/// What `run` says at last, and the code it ends with.
spec fn run_words(json: bool, launched: LaunchCourse, steps: Seq<StepView>, code: i32) -> bool {
    match launched {
        LaunchCourse::Ended(Ok(metrics)) => steps == seq![
            may(OpView::ReportRun { metrics, json }),
        ] && code == metrics.exit_code,
        LaunchCourse::Ended(Err(e)) => steps == seq![
            may(OpView::Complain("[mincontainer] "@ + "error"@ + ": "@ + e.message())),
        ] && code == 1,
        _ => false,
    }
}

proof fn lemma_run_is_launch(
    home: Seq<char>,
    fresh: Seq<char>,
    s: SettingsView,
    json: bool,
    told: Telling,
    n: nat,
)
    ensures
        ({
            let here = carried(run_start(home, fresh, s, json), told, n);
            let launched = launch_run(run_config(fresh, s), 0, None, told.answers, n);
            match here.0 {
                SessionCourse::Ask(x) => match x.stage {
                    StageView::Run { json: j, launch } => j == json && launched == (
                        LaunchCourse::Ask(launch),
                        here.1,
                    ),
                    StageView::Finish { run, code } => {
                        &&& launched.1 == here.1
                        &&& run.at == 0
                        &&& run_words(json, launched.0, run.steps, code)
                    },
                    _ => false,
                },
                SessionCourse::Middle(m) => launched == (LaunchCourse::Middle(m), here.1),
                SessionCourse::Exit(code) => {
                    &&& here.1.len() > 0
                    &&& run_words(json, launched.0, seq![may(here.1.last().0)], code)
                },
            }
        }),
    decreases n,
{
    if n > 0 {
        lemma_run_is_launch(home, fresh, s, json, told, (n - 1) as nat);
        let before = carried(run_start(home, fresh, s, json), told, (n - 1) as nat).0;
        if let SessionCourse::Ask(x) = before {
            if let StageView::Finish { run, .. } = x.stage {
                let op = run.op();
                let words = run.steps;
                assert(words.len() == 1);
                assert(words =~= seq![may(op)]);
            }
        }
    }
}

proof fn lemma_run_launches(
    home: Seq<char>,
    fresh: Seq<char>,
    s: SettingsView,
    json: bool,
    told: Telling,
    n: nat,
)
    requires
        carried(run_start(home, fresh, s, json), told, n).0 matches SessionCourse::Ask(x) && !(
        x.stage is Finish),
    ensures
        ({
            let here = carried(run_start(home, fresh, s, json), told, n);
            let launched = launch_run(run_config(fresh, s), 0, None, told.answers, n);
            &&& launched.0 matches LaunchCourse::Ask(l)
            &&& l.stage.op() == here.0->Ask_0.op()
            &&& launched.1 == here.1
        }),
{
    lemma_run_is_launch(home, fresh, s, json, told, n);
}

/// The address of the first container.
pub proof fn lemma_first_address()
    ensures
        "10.66.0."@ + decimal(2) == "10.66.0.2"@,
{
    reveal_strlit("10.66.0.");
    reveal_strlit("10.66.0.2");
    assert("10.66.0."@ + decimal(2) =~= "10.66.0.2"@);
}

/// What `run` tells at last: what was measured of the container that the settings ask
/// for, in the form that was asked for, and it ends with the exit code of the container;
/// or why it could not be run, and it ends with 1.
pub proof fn law_run_tells(
    home: Seq<char>,
    fresh: Seq<char>,
    settings: SettingsView,
    json: bool,
    told: Telling,
    n: nat,
)
    ensures
        ({
            let (course, history) = carried(run_start(home, fresh, settings, json), told, n);
            match course {
                SessionCourse::Ask(x) => match x.op() {
                    OpView::ReportRun { metrics, json: form } => {
                        &&& form == json
                        &&& exists|cfg: ContainerConfigView, middle: i32, s: int|
                            #[trigger] measured_from(cfg, metrics, history, middle, s) && as_asked(
                                cfg,
                                fresh,
                                fresh,
                                settings,
                            )
                        &&& metrics.container_ip is Some <==> settings.net && exists|pid: i32|
                            pid > 0 && #[trigger] came(history, pid)
                        &&& metrics.container_ip matches Some(address) ==> address == "10.66.0.2"@
                    },
                    OpView::Complain(text) => exists|cfg: ContainerConfigView|
                        #[trigger] as_asked(cfg, fresh, fresh, settings) && (launch_run(
                            cfg,
                            0,
                            None,
                            told.answers,
                            n,
                        ).0 matches LaunchCourse::Ended(Err(e)) && text == "[mincontainer] "@
                            + "error"@ + ": "@ + e.message()),
                    _ => true,
                },
                SessionCourse::Exit(code) => history.len() > 0 && match history.last().0 {
                    OpView::ReportRun { metrics, .. } => code == metrics.exit_code,
                    OpView::Complain(_) => code == 1,
                    _ => false,
                },
                SessionCourse::Middle(_) => true,
            }
        }),
{
    let cfg = run_config(fresh, settings);
    lemma_run_is_launch(home, fresh, settings, json, told, n);
    lemma_as_asked(fresh, fresh, settings);
    let launched = launch_run(cfg, 0, None, told.answers, n);
    let (course, history) = carried(run_start(home, fresh, settings, json), told, n);
    if let LaunchCourse::Ended(Ok(m)) = launched.0 {
        law_measured(cfg, 0, None, told.answers, n);
        law_leaves_nothing(cfg, 0, None, told.answers, n);
        lemma_first_address();
    }
    if let SessionCourse::Ask(x) = course {
        if x.stage is Run {
            law_nothing_but_the_run(cfg, 0, None, told.answers, n);
        } else if let StageView::Finish { run, .. } = x.stage {
            assert(run.steps[0] == run.steps[run.at]);
        }
    }
    if let SessionCourse::Exit(code) = course {
        let words = seq![may(history.last().0)];
        assert(words[0].op == history.last().0);
    }
}

/// The limits that `run` writes before it forks are those of the settings: each that is
/// not 0 has been written into its file of the container's leaf when the fork is asked
/// for, the CPU time for a period of a tenth of a second.
pub proof fn law_run_writes_its_limits(
    home: Seq<char>,
    fresh: Seq<char>,
    settings: SettingsView,
    json: bool,
    told: Telling,
    n: nat,
)
    requires
        is_random_uuid(fresh),
        carried(run_start(home, fresh, settings, json), told, n).0 matches SessionCourse::Ask(x)
            && x.op() is Fork,
    ensures
        ({
            let history = carried(run_start(home, fresh, settings, json), told, n).1;
            let leaf = "/sys/fs/cgroup/"@ + fresh;
            &&& settings.memory > 0 ==> did(
                history,
                OpView::WriteFile {
                    path: leaf + "/memory.max"@,
                    contents: decimal(settings.memory as nat),
                },
            )
            &&& settings.memory > 0 ==> asked(
                history,
                OpView::WriteFile { path: leaf + "/memory.swap.max"@, contents: "0"@ },
            )
            &&& settings.cpu > 0 ==> did(
                history,
                OpView::WriteFile {
                    path: leaf + "/cpu.max"@,
                    contents: decimal(settings.cpu as nat) + " 100000"@,
                },
            )
            &&& settings.pids > 0 ==> did(
                history,
                OpView::WriteFile {
                    path: leaf + "/pids.max"@,
                    contents: decimal(settings.pids as nat),
                },
            )
        }),
{
    let cfg = run_config(fresh, settings);
    lemma_run_is_launch(home, fresh, settings, json, told, n);
    lemma_run_launches(home, fresh, settings, json, told, n);
    law_limits_in_order(cfg, 0, None, told.answers, n);
    lemma_leaf_files(fresh);
    lemma_limits_done(cfg, carried(run_start(home, fresh, settings, json), told, n).1);
}

/// `run` writes no limit that the settings do not set, neither before the fork nor after
/// it, and none with another value.
pub proof fn law_run_writes_no_other_limit(
    home: Seq<char>,
    fresh: Seq<char>,
    settings: SettingsView,
    json: bool,
    told: Telling,
    n: nat,
)
    requires
        is_random_uuid(fresh),
        carried(run_start(home, fresh, settings, json), told, n).0 is Ask,
    ensures
        ({
            let op = carried(run_start(home, fresh, settings, json), told, n).0->Ask_0.op();
            let leaf = "/sys/fs/cgroup/"@ + fresh;
            op matches OpView::WriteFile { path, contents } ==> {
                &&& path == leaf + "/memory.max"@ ==> settings.memory > 0 && contents == decimal(
                    settings.memory as nat,
                )
                &&& path == leaf + "/cpu.max"@ ==> settings.cpu > 0 && contents == decimal(
                    settings.cpu as nat,
                ) + " 100000"@
                &&& path == leaf + "/pids.max"@ ==> settings.pids > 0 && contents == decimal(
                    settings.pids as nat,
                )
                &&& path == leaf + "/memory.swap.max"@ ==> settings.memory > 0 && contents == "0"@
            }
        }),
{
    let cfg = run_config(fresh, settings);
    let x = carried(run_start(home, fresh, settings, json), told, n).0->Ask_0;
    lemma_run_is_launch(home, fresh, settings, json, told, n);
    if !(x.stage is Finish) {
        lemma_run_launches(home, fresh, settings, json, told, n);
        law_nothing_but_the_run(cfg, 0, None, told.answers, n);
        lemma_leaf_files(fresh);
        if let OpView::WriteFile { path, contents } = x.op() {
            let leaf = leaf_path(fresh);
            if path == path_joined(leaf, "memory.max"@) || path == path_joined(
                leaf,
                "memory.swap.max"@,
            ) || path == path_joined(leaf, "cpu.max"@) || path == path_joined(leaf, "pids.max"@) {
                crate::account::lemma_leaf_writes(cfg, path);
            }
        }
    }
}

/// What was written before the fork, one by one.
proof fn lemma_limits_done(cfg: ContainerConfigView, history: Seq<Event>)
    requires
        crate::order::done_in_order(
            history,
            seq![OpView::MakeDirs(leaf_path(cfg.id))] + (crate::account::limit_ops(cfg) + seq![
                OpView::OpenPipe(Pipe::Release),
                OpView::OpenPipe(Pipe::Pid),
            ]),
        ),
    ensures
        cfg.resources.memory_max > 0 ==> did(
            history,
            OpView::WriteFile {
                path: path_joined(leaf_path(cfg.id), "memory.max"@),
                contents: decimal(cfg.resources.memory_max as nat),
            },
        ),
        cfg.resources.cpu_quota > 0 ==> did(
            history,
            OpView::WriteFile {
                path: path_joined(leaf_path(cfg.id), "cpu.max"@),
                contents: decimal(cfg.resources.cpu_quota as nat) + " "@ + decimal(
                    cfg.resources.cpu_period as nat,
                ),
            },
        ),
        cfg.resources.pids_max > 0 ==> did(
            history,
            OpView::WriteFile {
                path: path_joined(leaf_path(cfg.id), "pids.max"@),
                contents: decimal(cfg.resources.pids_max as nat),
            },
        ),
{
    let r = cfg.resources;
    let limits = crate::account::limit_ops(cfg);
    let ops = seq![OpView::MakeDirs(leaf_path(cfg.id))] + (limits + seq![
        OpView::OpenPipe(Pipe::Release),
        OpView::OpenPipe(Pipe::Pid),
    ]);
    let w = choose|w: Seq<int>| places(history, ops, w);
    let m: int = if r.memory_max > 0 {
        1
    } else {
        0
    };
    let c: int = if r.cpu_quota > 0 {
        1
    } else {
        0
    };
    if r.memory_max > 0 {
        assert(ops[1] == limits[0]);
        assert(history[w[1]].0 == ops[1]);
    }
    if r.cpu_quota > 0 {
        assert(ops[1 + m] == limits[m]);
        assert(history[w[1 + m]].0 == ops[1 + m]);
    }
    if r.pids_max > 0 {
        assert(ops[1 + m + c] == limits[m + c]);
        assert(history[w[1 + m + c]].0 == ops[1 + m + c]);
    }
}

/// The files of the leaf of a container with a random id, written out.
proof fn lemma_leaf_files(id: Seq<char>)
    requires
        is_random_uuid(id),
    ensures
        path_joined(leaf_path(id), "memory.max"@) == "/sys/fs/cgroup/"@ + id + "/memory.max"@,
        path_joined(leaf_path(id), "memory.swap.max"@) == "/sys/fs/cgroup/"@ + id
            + "/memory.swap.max"@,
        path_joined(leaf_path(id), "cpu.max"@) == "/sys/fs/cgroup/"@ + id + "/cpu.max"@,
        path_joined(leaf_path(id), "pids.max"@) == "/sys/fs/cgroup/"@ + id + "/pids.max"@,
        forall|q: Seq<char>| (q + " "@ + decimal(100_000)) == #[trigger] (q + " 100000"@),
{
    reveal_strlit("/");
    reveal_strlit("/sys/fs/cgroup");
    reveal_strlit("/sys/fs/cgroup/");
    reveal_strlit("memory.max");
    reveal_strlit("/memory.max");
    reveal_strlit("memory.swap.max");
    reveal_strlit("/memory.swap.max");
    reveal_strlit("cpu.max");
    reveal_strlit("/cpu.max");
    reveal_strlit("pids.max");
    reveal_strlit("/pids.max");
    let leaf = leaf_path(id);
    assert(id[0] != '/' && id[35] != '/');
    assert(leaf =~= "/sys/fs/cgroup/"@ + id);
    assert(leaf.last() == id[35]);
    assert(path_joined(leaf, "memory.max"@) =~= leaf + "/memory.max"@);
    assert(path_joined(leaf, "memory.swap.max"@) =~= leaf + "/memory.swap.max"@);
    assert(path_joined(leaf, "cpu.max"@) =~= leaf + "/cpu.max"@);
    assert(path_joined(leaf, "pids.max"@) =~= leaf + "/pids.max"@);
    reveal_strlit(" ");
    reveal_strlit(" 100000");
    reveal_with_fuel(decimal, 6);
    assert(" "@ + decimal(100_000) =~= " 100000"@);
    assert forall|q: Seq<char>| (q + " "@ + decimal(100_000)) == #[trigger] (q + " 100000"@) by {
        assert(q + " "@ + decimal(100_000) =~= q + (" "@ + decimal(100_000)));
    }
}

/// The process that `run` lets become a container is given the configuration that the
/// settings ask for, under the random id.
pub proof fn law_run_as_asked(
    home: Seq<char>,
    fresh: Seq<char>,
    settings: SettingsView,
    json: bool,
    told: Telling,
    n: nat,
)
    requires
        carried(run_start(home, fresh, settings, json), told, n).0 is Middle,
    ensures
        as_asked(
            carried(run_start(home, fresh, settings, json), told, n).0->Middle_0.cfg,
            fresh,
            fresh,
            settings,
        ),
{
    let cfg = run_config(fresh, settings);
    lemma_run_is_launch(home, fresh, settings, json, told, n);
    lemma_run_sound(cfg, 0, None, told.answers, n);
    lemma_as_asked(fresh, fresh, settings);
}

// create

/// The directory of the container `id`.
pub open spec fn place_of(home: Seq<char>, id: Seq<char>) -> Seq<char> {
    home + "/.mincontainer/containers/"@ + id
}

/// Where `create` stands after `n` answers if all went well until then.
spec fn create_course(
    home: Seq<char>,
    id: Seq<char>,
    s: SettingsView,
    told: Telling,
    n: nat,
) -> SessionCourse {
    if n == 0 {
        SessionCourse::Ask(create_start(home, id, s))
    } else if n <= 3 {
        at(
            home,
            StageView::CreateState {
                id,
                settings: s,
                run: PlanRunView {
                    steps: init_steps(home, id, created(id, (told.nows)(0))),
                    at: n - 1,
                },
            },
        )
    } else if n == 4 {
        at(
            home,
            StageView::CreateConfig {
                id,
                run: first(
                    seq![save_config_step(container_dir(home, id), create_config(id, s, told))],
                ),
            },
        )
    } else if n == 5 {
        finishing(home, seq![may(OpView::Print(id + "\n"@))], 0)
    } else {
        SessionCourse::Exit(0)
    }
}

/// The configuration that `create` saves.
spec fn create_config(id: Seq<char>, s: SettingsView, told: Telling) -> ContainerConfigView {
    configured(
        (ContainerConfigView { id, ..fresh_config((told.ids)(3), s.rootfs, s.command) }),
        s,
    )
}

/// Whether a command has failed: it is about to complain, or has ended with 1.
spec fn spoiled(home: Seq<char>, course: SessionCourse) -> bool {
    course == SessionCourse::Exit(1) || exists|text: Seq<char>|
        course == #[trigger] complaining(home, text)
}

proof fn lemma_create_goes_on(
    home: Seq<char>,
    id: Seq<char>,
    s: SettingsView,
    told: Telling,
    n: nat,
    reply: ReplyView,
)
    requires
        n <= 5,
    ensures
        ({
            let x = create_course(home, id, s, told, n)->Ask_0;
            let next = x.next(reply, (told.nows)(n as int), (told.ids)(n as int));
            &&& create_course(home, id, s, told, n) is Ask
            &&& if (reply is Done && (n == 3 ==> well_bound(s.binds))) || n == 5 {
                next == create_course(home, id, s, told, n + 1)
            } else {
                spoiled(home, next)
            }
        }),
{
    let x = create_course(home, id, s, told, n)->Ask_0;
    let next = x.next(reply, (told.nows)(n as int), (told.ids)(n as int));
    let steps = init_steps(home, id, created(id, (told.nows)(0)));
    if 1 <= n <= 3 {
        let run = PlanRunView { steps, at: n - 1 };
        assert(steps.len() == 3);
        assert(steps[n - 1].skip == 0 && !(steps[n - 1].on_failure is Ignore));
        if reply is Done {
            assert(run.next(reply) == crate::plan::place(steps, n as int));
        }
    }
}

proof fn lemma_stays_spoiled(home: Seq<char>, x: SessionView, told: Telling, n: int)
    requires
        spoiled(home, SessionCourse::Ask(x)),
    ensures
        x.next((told.answers)(n), (told.nows)(n), (told.ids)(n)) == SessionCourse::Exit(1),
        x.op() is Complain,
{
}

proof fn lemma_create_known(
    home: Seq<char>,
    id: Seq<char>,
    s: SettingsView,
    told: Telling,
    n: nat,
)
    ensures
        ({
            let course = carried(create_start(home, id, s), told, n).0;
            ||| spoiled(home, course)
            ||| {
                &&& course == create_course(home, id, s, told, n)
                &&& n >= 4 ==> well_bound(s.binds)
                &&& n >= 5 ==> (told.answers)(4) is Done && carried(
                    create_start(home, id, s),
                    told,
                    4,
                ).0 == create_course(home, id, s, told, 4)
                &&& n >= 6 ==> carried(create_start(home, id, s), told, 5).0 == create_course(
                    home,
                    id,
                    s,
                    told,
                    5,
                )
            }
        }),
    decreases n,
{
    if n > 0 {
        let m = (n - 1) as nat;
        lemma_create_known(home, id, s, told, m);
        let course = carried(create_start(home, id, s), told, m).0;
        if spoiled(home, course) {
            if let SessionCourse::Ask(x) = course {
                lemma_stays_spoiled(home, x, told, m as int);
            }
        } else if m <= 5 {
            lemma_create_goes_on(home, id, s, told, m, (told.answers)(m as int));
        }
    }
}

/// What a command was told at each moment.
pub proof fn lemma_history(start: SessionView, told: Telling, n: nat, k: nat)
    requires
        k < carried(start, told, n).1.len(),
    ensures
        carried(start, told, k).0 matches SessionCourse::Ask(x) && carried(
            start,
            told,
            n,
        ).1[k as int] == (x.op(), (told.answers)(k as int)),
        carried(start, told, n).1.len() <= n,
        carried(start, told, n).0 is Ask ==> carried(start, told, n).1.len() == n,
    decreases n,
{
    if n > 0 {
        let m = (n - 1) as nat;
        lemma_history_length(start, told, m);
        lemma_history_length(start, told, n);
        if k < carried(start, told, m).1.len() {
            lemma_history(start, told, m, k);
        }
    }
}

/// How often a command was told what it asked.
pub proof fn lemma_history_length(start: SessionView, told: Telling, n: nat)
    ensures
        carried(start, told, n).1.len() <= n,
        carried(start, told, n).0 is Ask ==> carried(start, told, n).1.len() == n,
    decreases n,
{
    if n > 0 {
        lemma_history_length(start, told, (n - 1) as nat);
    }
}

/// What `create` asks for, whatever the host answers: the directories, a state of the new
/// container as one that was created and did not run, and a configuration that says, field
/// by field, what the settings say; nothing else is kept, and none with a bind mount that
/// is not well formed.
pub proof fn law_create_saves(
    home: Seq<char>,
    id: Seq<char>,
    settings: SettingsView,
    told: Telling,
    n: nat,
)
    requires
        carried(create_start(home, id, settings), told, n).0 is Ask,
    ensures
        ({
            let dir = place_of(home, id);
            match carried(create_start(home, id, settings), told, n).0->Ask_0.op() {
                OpView::MakeDirs(path) => path == home + "/.mincontainer/containers"@ || path
                    == dir,
                OpView::SaveState { path, state } => {
                    &&& path == path_joined(dir, "state.json"@)
                    &&& state.id == id
                    &&& state.status == "created"@
                    &&& state.pid is None
                    &&& state.exit_code is None
                    &&& state.created_at == (told.nows)(0)
                    &&& state.started_at is None
                    &&& state.stopped_at is None
                },
                OpView::SaveConfig { path, config } => {
                    &&& path == path_joined(dir, "config.json"@)
                    &&& as_asked(config, id, (told.ids)(3), settings)
                    &&& config.volumes.len() == settings.binds.len()
                    &&& forall|i: int|
                        0 <= i < settings.binds.len() ==> is_bind(#[trigger] settings.binds[i])
                },
                OpView::Print(text) => text == id + "\n"@,
                OpView::Complain(_) => true,
                _ => false,
            }
        }),
{
    lemma_create_known(home, id, settings, told, n);
    let course = carried(create_start(home, id, settings), told, n).0;
    if spoiled(home, course) {
        lemma_stays_spoiled(home, course->Ask_0, told, 0);
    } else if n == 4 {
        lemma_as_asked(id, (told.ids)(3), settings);
        law_binds(settings.binds);
    } else if 1 <= n <= 3 {
        let steps = init_steps(home, id, created(id, (told.nows)(0)));
        assert(course->Ask_0.op() == steps[n - 1].op);
    }
}

/// The configuration that `create` saves has the filter exactly where `no_seccomp` is not
/// set, drops capabilities exactly where `no_drop_caps` is not set, has a network exactly
/// where `net` is set, and has the limits of the settings.
pub proof fn law_created_with_its_switches(
    home: Seq<char>,
    id: Seq<char>,
    settings: SettingsView,
    told: Telling,
    n: nat,
)
    requires
        carried(create_start(home, id, settings), told, n).0 matches SessionCourse::Ask(x)
            && x.op() is SaveConfig,
    ensures
        ({
            let config = carried(
                create_start(home, id, settings),
                told,
                n,
            ).0->Ask_0.op()->SaveConfig_config;
            &&& config.seccomp <==> !settings.no_seccomp
            &&& config.drop_caps <==> !settings.no_drop_caps
            &&& config.network <==> settings.net
            &&& config.resources.memory_max == settings.memory
            &&& config.resources.cpu_quota == settings.cpu
            &&& config.resources.cpu_period == 100_000
            &&& config.resources.pids_max == settings.pids
        }),
{
    law_create_saves(home, id, settings, told, n);
}

/// `create` ends with 0 only when it has saved the configuration and printed the id, and
/// otherwise with 1 and a complaint.
pub proof fn law_create_ends(
    home: Seq<char>,
    id: Seq<char>,
    settings: SettingsView,
    told: Telling,
    n: nat,
)
    requires
        carried(create_start(home, id, settings), told, n).0 is Exit,
    ensures
        ({
            let (course, history) = carried(create_start(home, id, settings), told, n);
            if course->Exit_0 == 0 {
                &&& history.len() == 6
                &&& history[4].0 is SaveConfig && history[4].1 is Done
                &&& history[5].0 == OpView::Print(id + "\n"@)
            } else {
                &&& course->Exit_0 == 1
                &&& history.len() > 0 && history.last().0 is Complain
            }
        }),
    decreases n,
{
    let start = create_start(home, id, settings);
    let m = (n - 1) as nat;
    lemma_create_known(home, id, settings, told, n);
    lemma_create_known(home, id, settings, told, m);
    lemma_history_length(start, told, m);
    let before = carried(start, told, m).0;
    if before is Exit {
        law_create_ends(home, id, settings, told, m);
    } else if spoiled(home, before) {
        lemma_stays_spoiled(home, before->Ask_0, told, m as int);
    } else {
        assert(m == 5);
        lemma_history(start, told, n, 4);
        lemma_history(start, told, n, 5);
    }
}

/// Where the host does all that it is asked, `create` saves a state and then a
/// configuration, prints the id and ends with 0; or, where a bind mount is not well
/// formed, it says so instead of saving a configuration, and ends with 1.
pub proof fn law_create_goes_through(
    home: Seq<char>,
    id: Seq<char>,
    settings: SettingsView,
    told: Telling,
)
    requires
        forall|i: int| (#[trigger] (told.answers)(i)) is Done,
    ensures
        ({
            let start = create_start(home, id, settings);
            let good = forall|i: int|
                0 <= i < settings.binds.len() ==> is_bind(#[trigger] settings.binds[i]);
            let asks = |n: nat, op: OpView|
                carried(start, told, n).0 matches SessionCourse::Ask(x) && x.op() == op;
            &&& asks(0, OpView::MakeDirs(home + "/.mincontainer/containers"@))
            &&& asks(1, OpView::MakeDirs(home + "/.mincontainer/containers"@))
            &&& asks(2, OpView::MakeDirs(place_of(home, id)))
            &&& carried(start, told, 3).0 matches SessionCourse::Ask(x) && x.op() is SaveState
            &&& good ==> {
                &&& carried(start, told, 4).0 matches SessionCourse::Ask(x) && x.op() is SaveConfig
                &&& asks(5, OpView::Print(id + "\n"@))
                &&& carried(start, told, 6).0 == SessionCourse::Exit(0)
            }
            &&& !good ==> {
                &&& asks(
                    4,
                    OpView::Complain("[mincontainer] bad bind format (use /host:/container)"@),
                )
                &&& carried(start, told, 5).0 == SessionCourse::Exit(1)
            }
        }),
{
    let start = create_start(home, id, settings);
    law_binds(settings.binds);
    assert forall|k: int| (#[trigger] (told.answers)(k)) is Done by {};
    lemma_create_reaches(home, id, settings, told, 1);
    lemma_create_reaches(home, id, settings, told, 2);
    lemma_create_reaches(home, id, settings, told, 3);
    let steps = init_steps(home, id, created(id, (told.nows)(0)));
    assert(carried(start, told, 1).0->Ask_0.op() == steps[0].op);
    assert(carried(start, told, 2).0->Ask_0.op() == steps[1].op);
    assert(carried(start, told, 3).0->Ask_0.op() == steps[2].op);
    if well_bound(settings.binds) {
        lemma_create_reaches(home, id, settings, told, 4);
        lemma_create_reaches(home, id, settings, told, 5);
        lemma_create_reaches(home, id, settings, told, 6);
    } else {
        let x = carried(start, told, 3).0->Ask_0;
        let reply = (told.answers)(3);
        let run = PlanRunView { steps, at: 2 };
        assert(steps.len() == 3 && steps[2].skip == 0);
        assert(run.next(reply) == crate::plan::place(steps, 3));
        let text = "[mincontainer] bad bind format (use /host:/container)"@;
        let next = x.next(reply, (told.nows)(3), (told.ids)(3));
        assert(next == complaining(home, text));
        assert(carried(start, told, 4).0 == next);
        lemma_stays_spoiled(home, next->Ask_0, told, 4);
        assert(carried(start, told, 5).0 == SessionCourse::Exit(1));
    }
}

spec fn create_label(i: nat) -> Seq<char> {
    if i == 0 {
        "init state"@
    } else if i < 4 {
        "create state"@
    } else {
        "save config"@
    }
}

spec fn create_error(home: Seq<char>, id: Seq<char>, i: nat, why: Seq<char>) -> RuntimeErrorView {
    RuntimeErrorView::Config(
        (if i <= 1 {
            "mkdir state dir"@
        } else if i == 2 {
            "mkdir "@ + place_of(home, id)
        } else if i == 3 {
            "write state"@
        } else {
            "write config"@
        }) + ": "@ + why,
    )
}

proof fn lemma_create_fails(
    home: Seq<char>,
    id: Seq<char>,
    s: SettingsView,
    told: Telling,
    i: nat,
    why: Seq<char>,
)
    requires
        i < 5,
    ensures
        create_course(home, id, s, told, i)->Ask_0.next(
            ReplyView::Failed(why),
            (told.nows)(i as int),
            (told.ids)(i as int),
        ) == complaining(
            home,
            "[mincontainer] "@ + create_label(i) + ": "@ + create_error(
                home,
                id,
                i,
                why,
            ).message(),
        ),
{
    let steps = init_steps(home, id, created(id, (told.nows)(0)));
    let reply = ReplyView::Failed(why);
    let e = create_error(home, id, i, why);
    if i == 0 {
        assert(first(seq![init_step(home)]).next(reply) == Course::Ended(Err(e)));
    } else if i < 4 {
        assert(steps.len() == 3);
        assert(crate::plan::failure(steps[i - 1], reply) == e);
        assert(PlanRunView { steps, at: i - 1 }.next(reply) == Course::Ended(Err(e)));
    } else {
        let step = save_config_step(container_dir(home, id), create_config(id, s, told));
        assert(first(seq![step]).next(reply) == Course::Ended(Err(e)));
    }
}

/// What `create` says when the operation at position `i` fails with `why`, and all before
/// it were done: which part of it failed, and at what.
#[verifier::rlimit(100)]
pub proof fn law_create_failure(
    home: Seq<char>,
    id: Seq<char>,
    settings: SettingsView,
    told: Telling,
    i: nat,
    why: Seq<char>,
)
    requires
        i < 5,
        forall|k: int| 0 <= k < i ==> (#[trigger] (told.answers)(k)) is Done,
        (told.answers)(i as int) == ReplyView::Failed(why),
        forall|k: int| 0 <= k < settings.binds.len() ==> is_bind(#[trigger] settings.binds[k]),
    ensures
        ({
            let start = create_start(home, id, settings);
            let error = if i == 0 {
                "init state"@ + ": "@ + ("config error: "@ + ("mkdir state dir"@ + ": "@ + why))
            } else if i == 1 {
                "create state"@ + ": "@ + ("config error: "@ + ("mkdir state dir"@ + ": "@ + why))
            } else if i == 2 {
                "create state"@ + ": "@ + ("config error: "@ + ("mkdir "@ + place_of(home, id)
                    + ": "@ + why))
            } else if i == 3 {
                "create state"@ + ": "@ + ("config error: "@ + ("write state"@ + ": "@ + why))
            } else {
                "save config"@ + ": "@ + ("config error: "@ + ("write config"@ + ": "@ + why))
            };
            &&& carried(start, told, i + 1).0 matches SessionCourse::Ask(x) && x.op()
                == OpView::Complain("[mincontainer] "@ + error)
            &&& carried(start, told, i + 2).0 == SessionCourse::Exit(1)
        }),
{
    law_binds(settings.binds);
    lemma_create_reaches(home, id, settings, told, i);
    let start = create_start(home, id, settings);
    let x = carried(start, told, i).0->Ask_0;
    let reply = (told.answers)(i as int);
    let next = x.next(reply, (told.nows)(i as int), (told.ids)(i as int));
    assert(carried(start, told, i + 1).0 == next);
    let label = create_label(i);
    let e = create_error(home, id, i, why);
    lemma_create_fails(home, id, settings, told, i, why);
    let text = "[mincontainer] "@ + label + ": "@ + e.message();
    assert(text =~= "[mincontainer] "@ + (label + ": "@ + e.message()));
    let last = next->Ask_0;
    assert(last.op() == OpView::Complain(text));
    lemma_stays_spoiled(home, last, told, i as int + 1);
    assert(carried(start, told, i + 2).0 == SessionCourse::Exit(1));
}

proof fn lemma_create_reaches(
    home: Seq<char>,
    id: Seq<char>,
    settings: SettingsView,
    told: Telling,
    i: nat,
)
    requires
        i <= 6,
        forall|k: int| 0 <= k < i && k < 5 ==> (#[trigger] (told.answers)(k)) is Done,
        i >= 4 ==> well_bound(settings.binds),
    ensures
        carried(create_start(home, id, settings), told, i).0 == create_course(
            home,
            id,
            settings,
            told,
            i,
        ),
    decreases i,
{
    if i > 0 {
        let m = (i - 1) as nat;
        lemma_create_reaches(home, id, settings, told, m);
        lemma_create_goes_on(home, id, settings, told, m, (told.answers)(m as int));
    }
}

} // verus!
