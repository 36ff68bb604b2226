//! What `start` promises.

use crate::account::{
    came, law_leaves_nothing, law_measured, law_nothing_but_the_run, lemma_run_sound,
    measured_from, of_the_run,
};
use crate::commands::{
    finishing, saving, starting, verb_start, SessionCourse, SessionView, StageView, VerbView,
};
use crate::config::ContainerConfigView;
use crate::container::{LaunchCourse, LaunchView, MetricsView, RecordView};
use crate::error::RuntimeErrorView;
use crate::guarantees::{launch_run, Event};
use crate::host::{OpView, ReplyView};
use crate::lifecycle::Telling;
use crate::plan::{may, place};
use crate::promises::{carried, lemma_first_address, place_of};
use crate::scan::path_joined;
use crate::state::{
    changed, save_state_step, Change, ContainerStateView, UpdateCourse, UpdateStageView,
    UpdateView,
};
use crate::verbs::{asks, complains, lemma_asks_for, lemma_complains, lemma_next};
use vstd::prelude::*;

verus! {

// Up to the run.

/// The record that `start` keeps.
spec fn record_at(home: Seq<char>, id: Seq<char>, told: Telling) -> RecordView {
    RecordView { home, id, at: (told.nows)(4) }
}

/// `start` looks for the container, reads its configuration, makes the two files for its
/// output anew, and then runs it; where one of these fails it says which, and why.
pub proof fn law_start_prepares(home: Seq<char>, id: Seq<char>, told: Telling)
    requires
        (told.answers)(0) is Done,
    ensures
        ({
            let start = verb_start(home, VerbView::Start(id));
            let dir = place_of(home, id);
            let found = (told.answers)(1) == ReplyView::Flag(true);
            let read = found && (told.answers)(2) is Config;
            let out = read && (told.answers)(3) is Done;
            let err = out && (told.answers)(4) is Done;
            &&& asks(start, told, 1, OpView::Exists(dir))
            &&& !found ==> complains(
                start,
                told,
                2,
                "[mincontainer] container "@ + id + " not found"@,
            )
            &&& found ==> asks(start, told, 2, OpView::LoadConfig(path_joined(dir, "config.json"@)))
            &&& found && !read ==> match (told.answers)(2) {
                ReplyView::Malformed(e) => complains(
                    start,
                    told,
                    3,
                    "[mincontainer] "@ + "parse config"@ + ": "@ + e,
                ),
                reply => complains(
                    start,
                    told,
                    3,
                    "[mincontainer] "@ + "read config"@ + ": "@ + reply.reason(),
                ),
            }
            &&& read ==> asks(start, told, 3, OpView::CreateFile(path_joined(dir, "stdout"@)))
            &&& read && !out ==> complains(
                start,
                told,
                4,
                "[mincontainer] "@ + "create stdout"@ + ": "@ + (told.answers)(3).reason(),
            )
            &&& out ==> asks(start, told, 4, OpView::CreateFile(path_joined(dir, "stderr"@)))
            &&& out && !err ==> complains(
                start,
                told,
                5,
                "[mincontainer] "@ + "create stderr"@ + ": "@ + (told.answers)(4).reason(),
            )
            &&& err ==> asks(start, told, 5, OpView::StartClock)
        }),
{
    let start = verb_start(home, VerbView::Start(id));
    lemma_asks_for(home, VerbView::Start(id), told);
    let x = carried(start, told, 1).0->Ask_0;
    lemma_next(start, told, 1, x);
    if (told.answers)(1) == ReplyView::Flag(true) {
        lemma_configuring(home, id, told);
        if (told.answers)(2) is Config {
            lemma_stdout(home, id, told);
            if (told.answers)(3) is Done {
                lemma_stderr(home, id, told);
            }
        }
    } else {
        lemma_complains(home, start, told, 2, "[mincontainer] container "@ + id + " not found"@);
    }
}

proof fn lemma_configuring(home: Seq<char>, id: Seq<char>, told: Telling)
    requires
        (told.answers)(0) is Done,
        (told.answers)(1) == ReplyView::Flag(true),
    ensures
        ({
            let start = verb_start(home, VerbView::Start(id));
            let dir = place_of(home, id);
            &&& asks(start, told, 2, OpView::LoadConfig(path_joined(dir, "config.json"@)))
            &&& match (told.answers)(2) {
                ReplyView::Config(cfg) => carried(start, told, 3).0 == SessionCourse::Ask(
                    SessionView {
                        home,
                        stage: StageView::Stdout {
                            id,
                            cfg,
                            op: OpView::CreateFile(path_joined(dir, "stdout"@)),
                        },
                    },
                ),
                ReplyView::Malformed(e) => complains(
                    start,
                    told,
                    3,
                    "[mincontainer] "@ + "parse config"@ + ": "@ + e,
                ),
                reply => complains(
                    start,
                    told,
                    3,
                    "[mincontainer] "@ + "read config"@ + ": "@ + reply.reason(),
                ),
            }
        }),
{
    let start = verb_start(home, VerbView::Start(id));
    lemma_asks_for(home, VerbView::Start(id), told);
    lemma_next(start, told, 1, carried(start, told, 1).0->Ask_0);
    let y = carried(start, told, 2).0->Ask_0;
    lemma_next(start, told, 2, y);
    match (told.answers)(2) {
        ReplyView::Config(_) => {},
        ReplyView::Malformed(e) => {
            lemma_complains(
                home,
                start,
                told,
                3,
                "[mincontainer] "@ + "parse config"@ + ": "@ + e,
            );
        },
        reply => {
            lemma_complains(
                home,
                start,
                told,
                3,
                "[mincontainer] "@ + "read config"@ + ": "@ + reply.reason(),
            );
        },
    }
}

proof fn lemma_stdout(home: Seq<char>, id: Seq<char>, told: Telling)
    requires
        (told.answers)(0) is Done,
        (told.answers)(1) == ReplyView::Flag(true),
        (told.answers)(2) is Config,
    ensures
        ({
            let start = verb_start(home, VerbView::Start(id));
            let dir = place_of(home, id);
            if (told.answers)(3) is Done {
                carried(start, told, 4).0 == SessionCourse::Ask(
                    SessionView {
                        home,
                        stage: StageView::Stderr {
                            id,
                            cfg: (told.answers)(2)->Config_0,
                            op: OpView::CreateFile(path_joined(dir, "stderr"@)),
                        },
                    },
                )
            } else {
                complains(
                    start,
                    told,
                    4,
                    "[mincontainer] "@ + "create stdout"@ + ": "@ + (told.answers)(3).reason(),
                )
            }
        }),
{
    let start = verb_start(home, VerbView::Start(id));
    lemma_configuring(home, id, told);
    lemma_next(start, told, 3, carried(start, told, 3).0->Ask_0);
    if !((told.answers)(3) is Done) {
        lemma_complains(
            home,
            start,
            told,
            4,
            "[mincontainer] "@ + "create stdout"@ + ": "@ + (told.answers)(3).reason(),
        );
    }
}

proof fn lemma_stderr(home: Seq<char>, id: Seq<char>, told: Telling)
    requires
        (told.answers)(0) is Done,
        (told.answers)(1) == ReplyView::Flag(true),
        (told.answers)(2) is Config,
        (told.answers)(3) is Done,
    ensures
        ({
            let start = verb_start(home, VerbView::Start(id));
            if (told.answers)(4) is Done {
                carried(start, told, 5).0 == SessionCourse::Ask(
                    SessionView {
                        home,
                        stage: StageView::Start {
                            id,
                            launch: LaunchView::start(
                                (told.answers)(2)->Config_0,
                                0,
                                Some(record_at(home, id, told)),
                            ),
                        },
                    },
                )
            } else {
                complains(
                    start,
                    told,
                    5,
                    "[mincontainer] "@ + "create stderr"@ + ": "@ + (told.answers)(4).reason(),
                )
            }
        }),
{
    let start = verb_start(home, VerbView::Start(id));
    lemma_stdout(home, id, told);
    lemma_next(start, told, 4, carried(start, told, 4).0->Ask_0);
    if !((told.answers)(4) is Done) {
        lemma_complains(
            home,
            start,
            told,
            5,
            "[mincontainer] "@ + "create stderr"@ + ": "@ + (told.answers)(4).reason(),
        );
    }
}

// From the run on.

/// What the host answers from the beginning of the run on.
pub open spec fn from_the_run(told: Telling) -> spec_fn(int) -> ReplyView {
    |i: int| (told.answers)(i + 5)
}

/// The run of a container `cfg` that is kept, when the host has answered `m` operations.
spec fn kept_launch(
    home: Seq<char>,
    id: Seq<char>,
    cfg: ContainerConfigView,
    told: Telling,
    m: nat,
) -> (LaunchCourse, Seq<Event>) {
    launch_run(cfg, 0, Some(record_at(home, id, told)), from_the_run(told), m)
}

/// Whether the run ended with `r` at `e` of the history.
spec fn run_ended(
    home: Seq<char>,
    id: Seq<char>,
    cfg: ContainerConfigView,
    told: Telling,
    history: Seq<Event>,
    e: int,
    r: Result<MetricsView, RuntimeErrorView>,
) -> bool {
    &&& 5 <= e <= history.len()
    &&& kept_launch(home, id, cfg, told, (e - 5) as nat) == (
        LaunchCourse::Ended(r),
        history.subrange(5, e),
    )
}

/// Whether the last thing that was asked is that a state be saved; or that it be read, and
/// there was none.
pub open spec fn was_noted(history: Seq<Event>) -> bool {
    &&& history.len() > 0
    &&& history.last().0 is SaveState || (history.last().0 is LoadState && !(
    history.last().1 is State))
}

/// What is known of the change `change` of a state that begins at `from`.
spec fn note_known(
    home: Seq<char>,
    id: Seq<char>,
    change: Change,
    u: UpdateView,
    history: Seq<Event>,
    from: int,
    now: Seq<char>,
) -> bool {
    let dir = place_of(home, id);
    let path = path_joined(dir, "state.json"@);
    &&& u.root == dir
    &&& u.change == change
    &&& match u.stage {
        UpdateStageView::Load(op) => op == OpView::LoadState(path) && history.len() == from,
        UpdateStageView::Save(run) => {
            &&& history.len() == from + 1
            &&& run.at == 0
            &&& exists|old: ContainerStateView|
                {
                    &&& history.last() == (OpView::LoadState(path), ReplyView::State(old))
                    &&& run.steps == seq![
                        #[trigger] save_state_step(dir, changed(old, change, now)),
                    ]
                }
        },
    }
}

#[verifier::opaque]
spec fn start_known(
    home: Seq<char>,
    id: Seq<char>,
    cfg: ContainerConfigView,
    told: Telling,
    n: nat,
    course: SessionCourse,
    history: Seq<Event>,
) -> bool {
    let last = (told.nows)(n - 1);
    match course {
        SessionCourse::Ask(x) => x.home == home && history.len() == n && match x.stage {
            StageView::Start { id: name, launch } => {
                &&& name == id
                &&& kept_launch(home, id, cfg, told, (n - 5) as nat) == (
                    LaunchCourse::Ask(launch),
                    history.skip(5),
                )
            },
            StageView::Saved { id: name, metrics, update } => name == id && exists|e: int|
                #[trigger] run_ended(home, id, cfg, told, history, e, Ok(metrics)) && note_known(
                    home,
                    id,
                    Change::Ended(metrics.exit_code),
                    update,
                    history,
                    e,
                    last,
                ),
            StageView::Broken { id: name, op } => name == id && exists|why: RuntimeErrorView|
                #[trigger] run_ended(home, id, cfg, told, history, n as int, Err(why)) && op
                    == OpView::Complain("[mincontainer] "@ + "error"@ + ": "@ + why.message()),
            StageView::Noted { update } => exists|e: int, why: RuntimeErrorView|
                #[trigger] run_ended(home, id, cfg, told, history, e, Err(why)) && e
                    < history.len() && history[e].0 is Complain && note_known(
                    home,
                    id,
                    Change::Stopped(127),
                    update,
                    history,
                    e + 1,
                    last,
                ),
            StageView::Finish { run, code } => exists|e: int, metrics: MetricsView|
                {
                    &&& #[trigger] run_ended(home, id, cfg, told, history, e, Ok(metrics))
                    &&& run.at == 0
                    &&& run.steps == seq![may(OpView::ReportStart { id, metrics })]
                    &&& code == metrics.exit_code
                    &&& was_noted(history)
                },
            _ => false,
        },
        SessionCourse::Middle(m) => m.cfg == cfg,
        SessionCourse::Exit(code) => history.len() > 0 && match history.last().0 {
            OpView::ReportStart { metrics, .. } => code == metrics.exit_code,
            OpView::LoadState(_) => code == 1,
            OpView::SaveState { .. } => code == 1,
            _ => false,
        },
    }
}

proof fn lemma_ended_stays(
    home: Seq<char>,
    id: Seq<char>,
    cfg: ContainerConfigView,
    told: Telling,
    history: Seq<Event>,
    event: Event,
    e: int,
    r: Result<MetricsView, RuntimeErrorView>,
)
    requires
        run_ended(home, id, cfg, told, history, e, r),
    ensures
        run_ended(home, id, cfg, told, history.push(event), e, r),
{
    assert(history.push(event).subrange(5, e) =~= history.subrange(5, e));
}

proof fn lemma_start_runs(
    home: Seq<char>,
    id: Seq<char>,
    cfg: ContainerConfigView,
    told: Telling,
    n: nat,
    x: SessionView,
    history: Seq<Event>,
)
    requires
        n >= 5,
        start_known(home, id, cfg, told, n, SessionCourse::Ask(x), history),
        x.stage is Start,
    ensures
        start_known(
            home,
            id,
            cfg,
            told,
            n + 1,
            x.next((told.answers)(n as int), (told.nows)(n as int), (told.ids)(n as int)),
            history.push((x.op(), (told.answers)(n as int))),
        ),
{
    reveal(start_known);
    let launch = x.stage->Start_launch;
    let reply = (told.answers)(n as int);
    let event = (x.op(), reply);
    let longer = history.push(event);
    let m = (n - 5) as nat;
    let next = kept_launch(home, id, cfg, told, m + 1);
    assert(from_the_run(told)(m as int) == reply);
    assert(longer.skip(5) =~= history.skip(5).push(event));
    assert(next == (launch.next(reply), longer.skip(5)));
    assert(longer.subrange(5, n as int + 1) =~= longer.skip(5));
    assert(x.next(reply, (told.nows)(n as int), (told.ids)(n as int)) == starting(
        home,
        id,
        launch.next(reply),
    ));
    match launch.next(reply) {
        LaunchCourse::Ask(_) => {},
        LaunchCourse::Middle(_) => {
            lemma_run_sound(
                cfg,
                0,
                Some(record_at(home, id, told)),
                from_the_run(told),
                m + 1,
            );
        },
        LaunchCourse::Ended(Ok(metrics)) => {
            assert(run_ended(home, id, cfg, told, longer, n as int + 1, Ok(metrics)));
        },
        LaunchCourse::Ended(Err(why)) => {
            assert(run_ended(home, id, cfg, told, longer, n as int + 1, Err(why)));
        },
    }
}

/// How a change of a state goes on.
proof fn lemma_note_step(
    home: Seq<char>,
    id: Seq<char>,
    change: Change,
    u: UpdateView,
    history: Seq<Event>,
    from: int,
    last: Seq<char>,
    reply: ReplyView,
    now: Seq<char>,
)
    requires
        note_known(home, id, change, u, history, from, last),
    ensures
        u.next(reply, now) matches UpdateCourse::Ask(next) ==> note_known(
            home,
            id,
            change,
            next,
            history.push((u.op(), reply)),
            from,
            now,
        ),
        u.op() is LoadState || u.op() is SaveState,
        u.next(reply, now) is Ended ==> was_noted(history.push((u.op(), reply))),
{
    let dir = place_of(home, id);
    let longer = history.push((u.op(), reply));
    match u.stage {
        UpdateStageView::Load(_) => {
            if let ReplyView::State(old) = reply {
                let steps = seq![save_state_step(dir, changed(old, change, now))];
                assert(u.next(reply, now) == u.saving(place(steps, 0)));
                assert(longer.last() == (u.op(), ReplyView::State(old)));
            }
        },
        UpdateStageView::Save(run) => {
            assert(run.steps.len() == 1);
        },
    }
}

proof fn lemma_start_saves(
    home: Seq<char>,
    id: Seq<char>,
    cfg: ContainerConfigView,
    told: Telling,
    n: nat,
    x: SessionView,
    history: Seq<Event>,
)
    requires
        n >= 5,
        start_known(home, id, cfg, told, n, SessionCourse::Ask(x), history),
        x.stage is Saved,
    ensures
        start_known(
            home,
            id,
            cfg,
            told,
            n + 1,
            x.next((told.answers)(n as int), (told.nows)(n as int), (told.ids)(n as int)),
            history.push((x.op(), (told.answers)(n as int))),
        ),
{
    reveal(start_known);
    let reply = (told.answers)(n as int);
    let now = (told.nows)(n as int);
    let event = (x.op(), reply);
    let longer = history.push(event);
    let metrics = x.stage->Saved_metrics;
    let update = x.stage->Saved_update;
    let change = Change::Ended(metrics.exit_code);
    let last = (told.nows)(n - 1);
    let e = choose|e: int|
        #[trigger] run_ended(home, id, cfg, told, history, e, Ok(metrics)) && note_known(
            home,
            id,
            change,
            update,
            history,
            e,
            last,
        );
    lemma_ended_stays(home, id, cfg, told, history, event, e, Ok(metrics));
    lemma_note_step(home, id, change, update, history, e, last, reply, now);
    let next = x.next(reply, now, (told.ids)(n as int));
    assert(next == saving(home, id, metrics, update.next(reply, now)));
    if update.next(reply, now) is Ended {
        let steps = seq![may(OpView::ReportStart { id, metrics })];
        assert(next == finishing(home, steps, metrics.exit_code));
    }
}

proof fn lemma_start_fails(
    home: Seq<char>,
    id: Seq<char>,
    cfg: ContainerConfigView,
    told: Telling,
    n: nat,
    x: SessionView,
    history: Seq<Event>,
)
    requires
        n >= 5,
        start_known(home, id, cfg, told, n, SessionCourse::Ask(x), history),
        x.stage is Broken || x.stage is Noted || x.stage is Finish,
    ensures
        start_known(
            home,
            id,
            cfg,
            told,
            n + 1,
            x.next((told.answers)(n as int), (told.nows)(n as int), (told.ids)(n as int)),
            history.push((x.op(), (told.answers)(n as int))),
        ),
{
    reveal(start_known);
    let reply = (told.answers)(n as int);
    let now = (told.nows)(n as int);
    let event = (x.op(), reply);
    let longer = history.push(event);
    let change = Change::Stopped(127);
    let last = (told.nows)(n - 1);
    let next = x.next(reply, now, (told.ids)(n as int));
    assert(longer.last() == event);
    match x.stage {
        StageView::Broken { op, .. } => {
            let why = choose|why: RuntimeErrorView|
                #[trigger] run_ended(home, id, cfg, told, history, n as int, Err(why)) && op
                    == OpView::Complain("[mincontainer] "@ + "error"@ + ": "@ + why.message());
            lemma_ended_stays(home, id, cfg, told, history, event, n as int, Err(why));
            let update = UpdateView::start(home, id, change);
            assert(note_known(home, id, change, update, longer, n as int + 1, now));
            assert(longer[n as int] == event);
        },
        StageView::Noted { update } => {
            let (e, why) = choose|e: int, why: RuntimeErrorView|
                #[trigger] run_ended(home, id, cfg, told, history, e, Err(why)) && e
                    < history.len() && history[e].0 is Complain && note_known(
                    home,
                    id,
                    change,
                    update,
                    history,
                    e + 1,
                    last,
                );
            assert(longer[e] == history[e]);
            lemma_ended_stays(home, id, cfg, told, history, event, e, Err(why));
            lemma_note_step(home, id, change, update, history, e + 1, last, reply, now);
            assert(next == crate::commands::noting(home, update.next(reply, now)));
        },
        StageView::Finish { run, code } => {
            assert(run.steps[0].op == run.op());
            assert(run.steps.len() == 1);
        },
        _ => {},
    }
}

proof fn lemma_start_known(
    home: Seq<char>,
    id: Seq<char>,
    start: SessionView,
    told: Telling,
    n: nat,
)
    requires
        n >= 5,
        start == verb_start(home, VerbView::Start(id)),
        (told.answers)(0) is Done,
        (told.answers)(1) == ReplyView::Flag(true),
        (told.answers)(2) is Config,
        (told.answers)(3) is Done,
        (told.answers)(4) is Done,
    ensures
        start_known(
            home,
            id,
            (told.answers)(2)->Config_0,
            told,
            n,
            carried(start, told, n).0,
            carried(start, told, n).1,
        ) || !(carried(start, told, n).0 is Ask),
        carried(start, told, n).0 is Ask || exists|k: nat|
            5 <= k <= n && start_known(
                home,
                id,
                (told.answers)(2)->Config_0,
                told,
                k,
                carried(start, told, n).0,
                #[trigger] carried(start, told, k).1,
            ) && carried(start, told, k).1 == carried(start, told, n).1,
    decreases n,
{
    let cfg = (told.answers)(2)->Config_0;
    if n == 5 {
        lemma_stderr(home, id, told);
        crate::promises::lemma_history_length(start, told, 5);
        reveal(start_known);
        let history = carried(start, told, 5).1;
        assert(history.skip(5) =~= Seq::empty());
        assert(carried(start, told, 5).1 == history);
    } else {
        let m = (n - 1) as nat;
        lemma_start_known(home, id, start, told, m);
        let before = carried(start, told, m);
        if let SessionCourse::Ask(x) = before.0 {
            lemma_start_step(home, id, cfg, told, m, x, before.1);
            assert(carried(start, told, n).1 == carried(start, told, n).1);
        } else {
            let k = choose|k: nat|
                5 <= k <= m && start_known(
                    home,
                    id,
                    cfg,
                    told,
                    k,
                    before.0,
                    #[trigger] carried(start, told, k).1,
                ) && carried(start, told, k).1 == before.1;
            assert(carried(start, told, k).1 == carried(start, told, n).1);
        }
    }
}

proof fn lemma_start_step(
    home: Seq<char>,
    id: Seq<char>,
    cfg: ContainerConfigView,
    told: Telling,
    n: nat,
    x: SessionView,
    history: Seq<Event>,
)
    requires
        n >= 5,
        start_known(home, id, cfg, told, n, SessionCourse::Ask(x), history),
    ensures
        start_known(
            home,
            id,
            cfg,
            told,
            n + 1,
            x.next((told.answers)(n as int), (told.nows)(n as int), (told.ids)(n as int)),
            history.push((x.op(), (told.answers)(n as int))),
        ),
{
    if x.stage is Start {
        lemma_start_runs(home, id, cfg, told, n, x, history);
    } else if x.stage is Saved {
        lemma_start_saves(home, id, cfg, told, n, x, history);
    } else {
        assert(x.stage is Broken || x.stage is Noted || x.stage is Finish) by {
            reveal(start_known);
        }
        lemma_start_fails(home, id, cfg, told, n, x, history);
    }
}

// What is noted.

/// Whether `new` is `old`, noted as running as the process `pid` since `at`.
pub open spec fn noted_running(
    old: ContainerStateView,
    new: ContainerStateView,
    pid: i32,
    at: Seq<char>,
) -> bool {
    &&& new.id == old.id
    &&& new.pid == Some(pid)
    &&& new.status == "running"@
    &&& new.exit_code == old.exit_code
    &&& new.created_at == old.created_at
    &&& new.started_at == Some(at)
    &&& new.stopped_at == old.stopped_at
}

/// Whether `new` is `old`, noted as stopped at `at` with the exit code `code`, and with
/// the pid `pid`.
pub open spec fn noted_stopped(
    old: ContainerStateView,
    new: ContainerStateView,
    pid: Option<i32>,
    code: i32,
    at: Seq<char>,
) -> bool {
    &&& new.id == old.id
    &&& new.pid == pid
    &&& new.status == "stopped"@
    &&& new.exit_code == Some(code)
    &&& new.created_at == old.created_at
    &&& new.started_at == old.started_at
    &&& new.stopped_at == Some(at)
}

/// Whether `metrics` is what was measured of the container `cfg` in the run that `start`
/// began, with the address of the container if it had a network.
pub open spec fn measured_here(
    cfg: ContainerConfigView,
    metrics: MetricsView,
    history: Seq<Event>,
) -> bool {
    exists|e: int, middle: i32, s: int|
        5 <= e <= history.len() && #[trigger] measured_from(
            cfg,
            metrics,
            history.subrange(5, e),
            middle,
            s,
        ) && (metrics.container_ip is Some <==> cfg.network && exists|pid: i32|
            pid > 0 && #[trigger] came(history.subrange(5, e), pid)) && (
        metrics.container_ip matches Some(address) ==> address == "10.66.0.2"@)
}

proof fn lemma_measured_here(
    home: Seq<char>,
    id: Seq<char>,
    cfg: ContainerConfigView,
    told: Telling,
    history: Seq<Event>,
    e: int,
    metrics: MetricsView,
)
    requires
        run_ended(home, id, cfg, told, history, e, Ok(metrics)),
    ensures
        measured_here(cfg, metrics, history),
{
    let record = Some(record_at(home, id, told));
    law_measured(cfg, 0, record, from_the_run(told), (e - 5) as nat);
    law_leaves_nothing(cfg, 0, record, from_the_run(told), (e - 5) as nat);
    lemma_first_address();
}

/// What `start` does with the container whose configuration it has read: it runs that
/// configuration; while it does, it notes the container as running under the pid that
/// came; when the run has ended, it notes it as stopped with its exit code and without a
/// pid, or, where it could not be run, as stopped with 127; it reports what was measured,
/// and ends with the exit code of the container, or with 1. Each note is the state as it
/// was read, with these changes and no others.
pub proof fn law_start_runs(home: Seq<char>, id: Seq<char>, told: Telling, n: nat)
    requires
        n >= 5,
        (told.answers)(0) is Done,
        (told.answers)(1) == ReplyView::Flag(true),
        (told.answers)(2) is Config,
        (told.answers)(3) is Done,
        (told.answers)(4) is Done,
    ensures
        ({
            let cfg = (told.answers)(2)->Config_0;
            let (course, history) = carried(verb_start(home, VerbView::Start(id)), told, n);
            let path = path_joined(place_of(home, id), "state.json"@);
            let last = (told.nows)(n - 1);
            match course {
                SessionCourse::Ask(x) => match x.op() {
                    OpView::ReportStart { id: name, metrics } => name == id && measured_here(
                        cfg,
                        metrics,
                        history,
                    ) && was_noted(history),
                    OpView::LoadState(file) => file == path,
                    OpView::SaveState { path: file, state } => file == path && exists|
                        old: ContainerStateView,
                    |
                        {
                            &&& #[trigger] told_last(history, path, old)
                            &&& {
                                ||| exists|pid: i32|
                                    pid > 0 && #[trigger] came(history.skip(5), pid)
                                        && noted_running(old, state, pid, (told.nows)(4))
                                ||| exists|metrics: MetricsView|
                                    #[trigger] measured_here(cfg, metrics, history)
                                        && noted_stopped(
                                        old,
                                        state,
                                        None,
                                        metrics.exit_code,
                                        last,
                                    )
                                ||| complained(history) && noted_stopped(
                                    old,
                                    state,
                                    old.pid,
                                    127,
                                    last,
                                )
                            }
                        },
                    OpView::Complain(text) => failed_with(home, id, cfg, told, n, text),
                    op => exists|middle: i32, pid: i32|
                        #[trigger] of_the_run(
                            cfg,
                            0,
                            Some(RecordView { home, id, at: (told.nows)(4) }),
                            middle,
                            pid,
                            op,
                        ),
                },
                SessionCourse::Middle(m) => m.cfg == cfg,
                SessionCourse::Exit(code) => history.len() > 0 && match history.last().0 {
                    OpView::ReportStart { metrics, .. } => code == metrics.exit_code,
                    _ => code == 1,
                },
            }
        }),
{
    let start = verb_start(home, VerbView::Start(id));
    let cfg = (told.answers)(2)->Config_0;
    lemma_start_known(home, id, start, told, n);
    let (course, history) = carried(start, told, n);
    match course {
        SessionCourse::Ask(x) => {
            if x.stage is Start {
                lemma_start_asks(home, id, cfg, told, n, x, history);
            } else {
                lemma_start_notes(home, id, cfg, told, n, x, history);
            }
        },
        _ => {
            reveal(start_known);
        },
    }
}

/// Whether `text` tells the error with which the run of the container `cfg` ended.
pub open spec fn failed_with(
    home: Seq<char>,
    id: Seq<char>,
    cfg: ContainerConfigView,
    told: Telling,
    n: nat,
    text: Seq<char>,
) -> bool {
    let record = Some(RecordView { home, id, at: (told.nows)(4) });
    &&& launch_run(cfg, 0, record, from_the_run(told), (n - 5) as nat).0 matches
        LaunchCourse::Ended(Err(e)) && text == "[mincontainer] "@ + "error"@ + ": "@
        + e.message()
}

/// Whether a command has complained.
pub open spec fn complained(history: Seq<Event>) -> bool {
    exists|k: int| 0 <= k < history.len() && (#[trigger] history[k]).0 is Complain
}

/// Whether the last thing that a command was told is that the state in `path` is `old`.
pub open spec fn told_last(
    history: Seq<Event>,
    path: Seq<char>,
    old: ContainerStateView,
) -> bool {
    history.len() > 0 && history.last() == (OpView::LoadState(path), ReplyView::State(old))
}

proof fn lemma_start_asks(
    home: Seq<char>,
    id: Seq<char>,
    cfg: ContainerConfigView,
    told: Telling,
    n: nat,
    x: SessionView,
    history: Seq<Event>,
)
    requires
        n >= 5,
        start_known(home, id, cfg, told, n, SessionCourse::Ask(x), history),
        x.stage is Start,
    ensures
        ({
            let path = path_joined(place_of(home, id), "state.json"@);
            match x.op() {
                OpView::ReportStart { .. } => false,
                OpView::Complain(_) => false,
                OpView::LoadState(file) => file == path,
                OpView::SaveState { path: file, state } => file == path && exists|
                    old: ContainerStateView,
                    pid: i32,
                |
                    {
                        &&& #[trigger] told_last(history, path, old)
                        &&& pid > 0 && #[trigger] came(history.skip(5), pid)
                        &&& noted_running(old, state, pid, (told.nows)(4))
                    },
                op => exists|middle: i32, pid: i32|
                    #[trigger] of_the_run(
                        cfg,
                        0,
                        Some(RecordView { home, id, at: (told.nows)(4) }),
                        middle,
                        pid,
                        op,
                    ),
            }
        }),
{
    reveal(start_known);
    let launch = x.stage->Start_launch;
    let record = record_at(home, id, told);
    let m = (n - 5) as nat;
    let path = path_joined(place_of(home, id), "state.json"@);
    law_nothing_but_the_run(cfg, 0, Some(record), from_the_run(told), m);
    lemma_run_sound(cfg, 0, Some(record), from_the_run(told), m);
    assert(of_the_run(
        cfg,
        0,
        Some(RecordView { home, id, at: (told.nows)(4) }),
        launch.progress.middle,
        launch.progress.container,
        x.op(),
    ));
    if x.op() is SaveState {
        crate::account::lemma_only_notes_save(cfg, 0, Some(record), launch, history.skip(5));
        let u = launch.stage->Note_0;
        if let UpdateStageView::Save(run) = u.stage {
            let pid = launch.progress.container;
            let old = choose|old: ContainerStateView|
                {
                    &&& history.skip(5).last() == (OpView::LoadState(path), ReplyView::State(old))
                    &&& run.steps == seq![
                        #[trigger] save_state_step(
                            place_of(home, id),
                            changed(old, Change::Running(pid), record.at),
                        ),
                    ]
                };
            assert(history.skip(5).len() > 0);
            assert(history.last() == history.skip(5).last());
            assert(told_last(history, path, old));
            assert(came(history.skip(5), pid));
            assert(x.op() == run.steps[0].op);
        }
    }
}

proof fn lemma_start_notes(
    home: Seq<char>,
    id: Seq<char>,
    cfg: ContainerConfigView,
    told: Telling,
    n: nat,
    x: SessionView,
    history: Seq<Event>,
)
    requires
        n >= 5,
        start_known(home, id, cfg, told, n, SessionCourse::Ask(x), history),
        !(x.stage is Start),
    ensures
        ({
            let path = path_joined(place_of(home, id), "state.json"@);
            let last = (told.nows)(n - 1);
            match x.op() {
                OpView::ReportStart { id: name, metrics } => name == id && measured_here(
                    cfg,
                    metrics,
                    history,
                ) && was_noted(history),
                OpView::LoadState(file) => file == path,
                OpView::SaveState { path: file, state } => file == path && exists|
                    old: ContainerStateView,
                |
                    {
                        &&& #[trigger] told_last(history, path, old)
                        &&& {
                            ||| exists|metrics: MetricsView|
                                #[trigger] measured_here(cfg, metrics, history) && noted_stopped(
                                    old,
                                    state,
                                    None,
                                    metrics.exit_code,
                                    last,
                                )
                            ||| complained(history) && noted_stopped(
                                old,
                                state,
                                old.pid,
                                127,
                                last,
                            )
                        }
                    },
                OpView::Complain(text) => failed_with(home, id, cfg, told, n, text),
                _ => false,
            }
        }),
{
    reveal(start_known);
    let last = (told.nows)(n - 1);
    match x.stage {
        StageView::Saved { metrics, update, .. } => {
            let change = Change::Ended(metrics.exit_code);
            let e = choose|e: int|
                #[trigger] run_ended(home, id, cfg, told, history, e, Ok(metrics)) && note_known(
                    home,
                    id,
                    change,
                    update,
                    history,
                    e,
                    last,
                );
            lemma_measured_here(home, id, cfg, told, history, e, metrics);
            lemma_note_saves(home, id, change, update, history, e, last);
        },
        StageView::Noted { update } => {
            let change = Change::Stopped(127);
            let (e, why) = choose|e: int, why: RuntimeErrorView|
                #[trigger] run_ended(home, id, cfg, told, history, e, Err(why)) && e
                    < history.len() && history[e].0 is Complain && note_known(
                    home,
                    id,
                    change,
                    update,
                    history,
                    e + 1,
                    last,
                );
            assert(complained(history));
            lemma_note_saves(home, id, change, update, history, e + 1, last);
        },
        StageView::Finish { run, code } => {
            let (e, metrics) = choose|e: int, metrics: MetricsView|
                {
                    &&& #[trigger] run_ended(home, id, cfg, told, history, e, Ok(metrics))
                    &&& run.at == 0
                    &&& run.steps == seq![may(OpView::ReportStart { id, metrics })]
                    &&& code == metrics.exit_code
                    &&& was_noted(history)
                };
            lemma_measured_here(home, id, cfg, told, history, e, metrics);
            assert(run.op() == run.steps[0].op);
        },
        _ => {},
    }
}

proof fn lemma_note_saves(
    home: Seq<char>,
    id: Seq<char>,
    change: Change,
    u: UpdateView,
    history: Seq<Event>,
    from: int,
    now: Seq<char>,
)
    requires
        note_known(home, id, change, u, history, from, now),
        from >= 0,
    ensures
        ({
            let path = path_joined(place_of(home, id), "state.json"@);
            match u.op() {
                OpView::LoadState(file) => file == path,
                OpView::SaveState { path: file, state } => file == path && exists|
                    old: ContainerStateView,
                |
                    #[trigger] told_last(history, path, old) && state == changed(old, change, now),
                _ => false,
            }
        }),
{
    let dir = place_of(home, id);
    let path = path_joined(dir, "state.json"@);
    if let UpdateStageView::Save(run) = u.stage {
        let old = choose|old: ContainerStateView|
            {
                &&& history.last() == (OpView::LoadState(path), ReplyView::State(old))
                &&& run.steps == seq![#[trigger] save_state_step(dir, changed(old, change, now))]
            };
        assert(told_last(history, path, old));
        assert(run.op() == run.steps[0].op);
    }
}

} // verus!
