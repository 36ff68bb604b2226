//! What a benchmark runs, and what it reports of its runs.

use crate::account::{
    kept_account, lemma_account_begins, lemma_account_ends, lemma_kept_account_step,
    lemma_of_the_run, lemma_run_sound_step, measured_from, run_known, run_sound,
};
use crate::commands::{
    at, bench_config, bench_running, bench_start, benching, complaining, finishing, BenchView,
    SessionCourse, SessionView, StageView,
};
use crate::config::ContainerConfigView;
use crate::container::{LaunchCourse, LaunchView, MetricsView};
use crate::error::RuntimeErrorView;
use crate::guarantees::{lemma_launch, Event};
use crate::host::{OpView, ReplyView};
use crate::lifecycle::Telling;
use crate::plan::may;
use crate::promises::carried;
use crate::stats::{ascending, law_ascending};
use crate::text::decimal;
use vstd::prelude::*;

verus! {

/// The benchmark that is asked for: so many runs of a command in a root file system, with
/// a limit on the memory of each.
pub ghost struct Trial {
    pub rootfs: Seq<char>,
    pub runs: u32,
    pub memory: u64,
    pub command: Seq<Seq<char>>,
}

/// The command of a benchmark that was given `command`.
pub open spec fn bench_command(command: Seq<Seq<char>>) -> Seq<Seq<char>> {
    if command.len() == 0 {
        seq!["/bin/true"@]
    } else {
        command
    }
}

/// Whether `cfg` is that of one run of a benchmark: under a random id, with the limit on
/// its memory that was asked for, and otherwise with what every container has.
pub open spec fn of_the_bench(
    cfg: ContainerConfigView,
    fresh: Seq<char>,
    t: Trial,
) -> bool {
    &&& cfg.id == fresh
    &&& cfg.hostname == "mc-"@ + (if fresh.len() > 12 {
        fresh.take(12)
    } else {
        fresh
    })
    &&& cfg.rootfs == t.rootfs
    &&& cfg.command == bench_command(t.command)
    &&& cfg.env == seq![
        "PATH=/usr/local/sbin:/usr/local/bin:/usr/sbin:/usr/bin:/sbin:/bin"@,
        "HOME=/root"@,
        "TERM=xterm"@,
    ]
    &&& cfg.volumes.len() == 0
    &&& cfg.resources.memory_max == t.memory
    &&& cfg.resources.cpu_quota == 0
    &&& cfg.resources.cpu_period == 100_000
    &&& cfg.resources.pids_max == 128
    &&& !cfg.network
    &&& cfg.seccomp
    &&& cfg.drop_caps
}

/// Whether `m` was measured in what is between `from` and `to` in the history, of a run of
/// a benchmark.
pub open spec fn measured_between(
    history: Seq<Event>,
    m: MetricsView,
    from: int,
    to: int,
    t: Trial,
) -> bool {
    exists|cfg: ContainerConfigView, middle: i32, s: int|
        #[trigger] measured_from(cfg, m, history.subrange(from, to), middle, s) && of_the_bench(
            cfg,
            cfg.id,
            t,
        )
}

/// Whether `list` are the measurements of the runs of a benchmark that have ended, one
/// after the other: the first run begins behind the announcement, each other one where
/// the one before it ended.
pub open spec fn runs_measured(
    history: Seq<Event>,
    list: Seq<MetricsView>,
    cuts: Seq<int>,
    t: Trial,
) -> bool {
    &&& cuts.len() == list.len() + 1
    &&& cuts[0] == 1
    &&& forall|j: int| 0 <= j < list.len() ==> #[trigger] run_measured(history, list, cuts, t, j)
}

/// Whether the run at position `j` was measured between its two cuts.
pub open spec fn run_measured(
    history: Seq<Event>,
    list: Seq<MetricsView>,
    cuts: Seq<int>,
    t: Trial,
    j: int,
) -> bool {
    &&& cuts[j] < cuts[j + 1] <= history.len()
    &&& measured_between(history, list[j], cuts[j], cuts[j + 1], t)
}

/// Where the runs of a benchmark are.
spec fn bench_at(
    home: Seq<char>,
    t: Trial,
    list: Seq<MetricsView>,
    b: BenchView,
) -> bool {
    &&& b.rootfs == t.rootfs
    &&& b.runs == t.runs
    &&& b.memory == t.memory
    &&& b.command == bench_command(t.command)
    &&& b.at == list.len()
    &&& b.setup == list.map_values(|m: MetricsView| m.setup_nanos)
    &&& b.wall == list.map_values(|m: MetricsView| m.wall_nanos)
    &&& b.peaks == list.map_values(|m: MetricsView| m.peak_mem_bytes)
}

/// Whether the benchmark `bench` is on a run under the id `fresh` that began at `from` and
/// stands at `launch`.
spec fn on_a_run(
    bench: BenchView,
    launch: LaunchView,
    history: Seq<Event>,
    from: int,
    fresh: Seq<char>,
    t: Trial,
) -> bool {
    &&& launched(bench_config(bench, fresh), LaunchCourse::Ask(launch), history.skip(from))
    &&& of_the_bench(bench_config(bench, fresh), fresh, t)
}

/// What holds of a benchmark that stands at `course`.
#[verifier::opaque]
spec fn bench_known(
    home: Seq<char>,
    t: Trial,
    course: SessionCourse,
    history: Seq<Event>,
    list: Seq<MetricsView>,
    cuts: Seq<int>,
) -> bool {
    &&& runs_measured(history, list, cuts, t)
    &&& match course {
        SessionCourse::Ask(x) => x.home == home && match x.stage {
            StageView::Bench { bench, launch } => {
                &&& bench_at(home, t, list, bench)
                &&& list.len() < t.runs
                &&& 0 <= cuts.last() <= history.len()
                &&& exists|from: int, fresh: Seq<char>|
                    from == cuts.last() && #[trigger] on_a_run(
                        bench,
                        launch,
                        history,
                        from,
                        fresh,
                        t,
                    )
            },
            StageView::Finish { run, code } => run.at == 0 && run.steps.len() == 1
                && run.steps[0] == may(run.steps[0].op) && last_of_bench(
                t.runs,
                list,
                cuts,
                history.len(),
                run.steps[0].op,
                code,
            ),
            _ => false,
        },
        SessionCourse::Middle(m) => exists|fresh: Seq<char>|
            #[trigger] of_the_bench(m.cfg, fresh, t),
        SessionCourse::Exit(code) => history.len() > 0 && last_of_bench(
            t.runs,
            list,
            cuts,
            (history.len() - 1) as nat,
            history.last().0,
            code,
        ),
    }
}

/// What a benchmark says at last, when it was told `asked` times what it asked.
spec fn last_of_bench(
    runs: u32,
    list: Seq<MetricsView>,
    cuts: Seq<int>,
    asked: nat,
    op: OpView,
    code: i32,
) -> bool {
    match op {
        OpView::ReportBench { setup, wall, memory } => {
            &&& code == 0
            &&& list.len() == runs
            &&& cuts.last() == asked
            &&& setup == ascending(list.map_values(|m: MetricsView| m.setup_nanos))
            &&& wall == ascending(list.map_values(|m: MetricsView| m.wall_nanos))
            &&& memory == ascending(list.map_values(|m: MetricsView| m.peak_mem_bytes))
        },
        OpView::Complain(text) => {
            &&& code == 1
            &&& list.len() < runs
            &&& exists|e: RuntimeErrorView|
                text == "[bench] run "@ + decimal(list.len()) + " failed: "@
                    + #[trigger] e.message()
        },
        _ => false,
    }
}

/// Whether the run of the container `cfg` stands at `course`, sound and with account kept.
spec fn launched(cfg: ContainerConfigView, course: LaunchCourse, history: Seq<Event>) -> bool {
    run_sound(cfg, 0, None, course, history) && kept_account(cfg, course, history)
}

proof fn lemma_launched(cfg: ContainerConfigView)
    ensures
        launched(cfg, LaunchCourse::Ask(LaunchView::start(cfg, 0, None)), Seq::empty()),
{
    lemma_account_begins(cfg, 0, None);
    lemma_launch(cfg, 0, None, |i: int| ReplyView::Done, 0);
    assert(run_known(LaunchView::start(cfg, 0, None)));
}

proof fn lemma_more_history(
    history: Seq<Event>,
    event: Event,
    list: Seq<MetricsView>,
    cuts: Seq<int>,
    t: Trial,
)
    requires
        runs_measured(history, list, cuts, t),
    ensures
        runs_measured(history.push(event), list, cuts, t),
{
    let longer = history.push(event);
    assert forall|j: int| 0 <= j < list.len() implies #[trigger] run_measured(
        longer,
        list,
        cuts,
        t,
        j,
    ) by {
        assert(run_measured(history, list, cuts, t, j));
        lemma_cuts_grow(history, list, cuts, t, j);
        assert(longer.subrange(cuts[j], cuts[j + 1]) =~= history.subrange(cuts[j], cuts[j + 1]));
    }
}

proof fn lemma_cuts_grow(
    history: Seq<Event>,
    list: Seq<MetricsView>,
    cuts: Seq<int>,
    t: Trial,
    j: int,
)
    requires
        runs_measured(history, list, cuts, t),
        0 <= j < cuts.len(),
    ensures
        1 <= cuts[j],
    decreases j,
{
    if j > 0 {
        lemma_cuts_grow(history, list, cuts, t, j - 1);
        assert(run_measured(history, list, cuts, t, j - 1));
    }
}

/// How a benchmark goes on once it has the measurements `list`.
proof fn lemma_benching(
    home: Seq<char>,
    t: Trial,
    b: BenchView,
    fresh: Seq<char>,
    history: Seq<Event>,
    list: Seq<MetricsView>,
    cuts: Seq<int>,
)
    requires
        runs_measured(history, list, cuts, t),
        bench_at(home, t, list, b),
        list.len() <= t.runs,
        cuts.last() == history.len(),
    ensures
        bench_known(home, t, benching(home, b, fresh), history, list, cuts),
{
    reveal(bench_known);
    if b.at < b.runs {
        let cfg = bench_config(b, fresh);
        lemma_launched(cfg);
        assert(history.skip(cuts.last()) =~= Seq::<Event>::empty());
        assert(cfg.volumes =~= Seq::empty());
        assert(of_the_bench(cfg, fresh, t));
        assert(on_a_run(
            b,
            LaunchView::start(cfg, 0, None),
            history,
            cuts.last(),
            fresh,
            t,
        ));
    } else {
        let op = OpView::ReportBench {
            setup: ascending(b.setup),
            wall: ascending(b.wall),
            memory: ascending(b.peaks),
        };
        assert(benching(home, b, fresh) == finishing(home, seq![may(op)], 0));
        let steps = seq![may(op)];
        assert(steps[0] == may(op));
    }
}

/// A benchmark in the middle of a run.
proof fn lemma_bench_asks(
    home: Seq<char>,
    t: Trial,
    bench: BenchView,
    launch: LaunchView,
    fresh: Seq<char>,
    history: Seq<Event>,
    list: Seq<MetricsView>,
    cuts: Seq<int>,
)
    requires
        runs_measured(history, list, cuts, t),
        bench_at(home, t, list, bench),
        list.len() < t.runs,
        0 <= cuts.last() <= history.len(),
        on_a_run(bench, launch, history, cuts.last(), fresh, t),
    ensures
        bench_known(
            home,
            t,
            at(home, StageView::Bench { bench, launch }),
            history,
            list,
            cuts,
        ),
{
    reveal(bench_known);
    let x = SessionView { home, stage: StageView::Bench { bench, launch } };
    let from = cuts.last();
    assert(on_a_run(bench, launch, history, from, fresh, t));
    assert(x.stage->Bench_bench == bench && x.stage->Bench_launch == launch);
    assert(at(home, x.stage) == SessionCourse::Ask(x));
    assert(bench_known(home, t, SessionCourse::Ask(x), history, list, cuts));
}

/// How a benchmark goes on in the middle of a run.
#[verifier::rlimit(40)]
proof fn lemma_bench_step(
    home: Seq<char>,
    t: Trial,
    x: SessionView,
    history: Seq<Event>,
    list: Seq<MetricsView>,
    cuts: Seq<int>,
    reply: ReplyView,
    now: Seq<char>,
    id: Seq<char>,
)
    requires
        bench_known(
            home,
            t,
            SessionCourse::Ask(x),
            history,
            list,
            cuts,
        ),
        x.stage is Bench,
    ensures
        exists|list: Seq<MetricsView>, cuts: Seq<int>|
            #[trigger] bench_known(
                home,
                t,
                x.next(reply, now, id),
                history.push((x.op(), reply)),
                list,
                cuts,
            ),
{
    reveal(bench_known);
    let bench = x.stage->Bench_bench;
    let launch = x.stage->Bench_launch;
    let event = (x.op(), reply);
    let longer = history.push(event);
    let from = cuts.last();
    let (_, fresh) = choose|k: int, fresh: Seq<char>|
        k == cuts.last() && #[trigger] on_a_run(bench, launch, history, k, fresh, t);
    let cfg = bench_config(bench, fresh);
    let course = launch.next(reply);
    assert(longer.skip(from) =~= history.skip(from).push(event));
    lemma_run_sound_step(cfg, 0, None, launch, history.skip(from), reply);
    lemma_kept_account_step(cfg, 0, None, launch, history.skip(from), reply);
    lemma_more_history(history, event, list, cuts, t);
    assert(x.next(reply, now, id) == bench_running(home, bench, course, id));
    match course {
        LaunchCourse::Ask(next) => {
            assert(on_a_run(bench, next, longer, from, fresh, t));
            lemma_bench_asks(home, t, bench, next, fresh, longer, list, cuts);
            assert(x.next(reply, now, id) == at(home, StageView::Bench { bench, launch: next }));
            assert(bench_known(home, t, x.next(reply, now, id), longer, list, cuts));
        },
        LaunchCourse::Middle(m) => {
            assert(m.cfg == cfg);
            assert(of_the_bench(m.cfg, fresh, t));
            assert(bench_known(home, t, x.next(reply, now, id), longer, list, cuts));
        },
        LaunchCourse::Ended(Ok(m)) => {
            lemma_account_ends(cfg, m, longer.skip(from));
            lemma_one_more(home, t, bench, m, longer, list, cuts, cfg);
            let more = list.push(m);
            let further = cuts.push(longer.len() as int);
            lemma_benching(
                home,
                t,
                crate::commands::measured(bench, m),
                id,
                longer,
                more,
                further,
            );
            assert(bench_known(home, t, x.next(reply, now, id), longer, more, further));
        },
        LaunchCourse::Ended(Err(e)) => {
            let text = "[bench] run "@ + decimal(bench.at as nat) + " failed: "@ + e.message();
            let op = OpView::Complain(text);
            assert(x.next(reply, now, id) == complaining(home, text));
            let steps = seq![may(op)];
            assert(steps[0] == may(op));
            assert(text == "[bench] run "@ + decimal(list.len()) + " failed: "@ + e.message());
            assert(last_of_bench(t.runs, list, cuts, longer.len(), op, 1));
            assert(bench_known(home, t, x.next(reply, now, id), longer, list, cuts));
        },
    }
}

/// The measurements of one more run.
proof fn lemma_one_more(
    home: Seq<char>,
    t: Trial,
    b: BenchView,
    m: MetricsView,
    longer: Seq<Event>,
    list: Seq<MetricsView>,
    cuts: Seq<int>,
    cfg: ContainerConfigView,
)
    requires
        runs_measured(longer, list, cuts, t),
        bench_at(home, t, list, b),
        list.len() < t.runs,
        0 <= cuts.last() < longer.len(),
        of_the_bench(cfg, cfg.id, t),
        exists|middle: i32, s: int|
            #[trigger] measured_from(cfg, m, longer.skip(cuts.last()), middle, s),
    ensures
        runs_measured(
            longer,
            list.push(m),
            cuts.push(longer.len() as int),
            t,
        ),
        bench_at(
            home,
            t,
            list.push(m),
            crate::commands::measured(b, m),
        ),
{
    let more = list.push(m);
    let further = cuts.push(longer.len() as int);
    let n = list.len() as int;
    assert(more.map_values(|m: MetricsView| m.setup_nanos) =~= list.map_values(
        |m: MetricsView| m.setup_nanos,
    ).push(m.setup_nanos));
    assert(more.map_values(|m: MetricsView| m.wall_nanos) =~= list.map_values(
        |m: MetricsView| m.wall_nanos,
    ).push(m.wall_nanos));
    assert(more.map_values(|m: MetricsView| m.peak_mem_bytes) =~= list.map_values(
        |m: MetricsView| m.peak_mem_bytes,
    ).push(m.peak_mem_bytes));
    assert forall|j: int| 0 <= j < more.len() implies #[trigger] run_measured(
        longer,
        more,
        further,
        t,
        j,
    ) by {
        if j < n {
            assert(run_measured(longer, list, cuts, t, j));
        } else {
            assert(longer.subrange(cuts[n], longer.len() as int) =~= longer.skip(cuts.last()));
        }
    }
}

proof fn lemma_bench_first(home: Seq<char>, t: Trial, told: Telling)
    ensures
        ({
            let here = carried(bench_start(home, t.rootfs, t.runs, t.memory, t.command), told, 1);
            bench_known(home, t, here.0, here.1, Seq::empty(), seq![1int])
        }),
{
    let start = bench_start(home, t.rootfs, t.runs, t.memory, t.command);
    let before = carried(start, told, 0);
    let here = carried(start, told, 1);
    let id = (told.ids)(0);
    let b = start.stage->Announce_bench;
    let list = Seq::<MetricsView>::empty();
    let cuts = seq![1int];
    assert(list.map_values(|m: MetricsView| m.setup_nanos) =~= Seq::empty());
    assert(list.map_values(|m: MetricsView| m.wall_nanos) =~= Seq::empty());
    assert(list.map_values(|m: MetricsView| m.peak_mem_bytes) =~= Seq::empty());
    assert(before.0 == SessionCourse::Ask(start));
    assert(here.0 == benching(home, b, id));
    assert(here.1.len() == 1);
    lemma_benching(home, t, b, id, here.1, list, cuts);
}

proof fn lemma_bench_last(
    home: Seq<char>,
    t: Trial,
    x: SessionView,
    history: Seq<Event>,
    list: Seq<MetricsView>,
    cuts: Seq<int>,
    reply: ReplyView,
    now: Seq<char>,
    id: Seq<char>,
)
    requires
        bench_known(home, t, SessionCourse::Ask(x), history, list, cuts),
        !(x.stage is Bench),
    ensures
        bench_known(
            home,
            t,
            x.next(reply, now, id),
            history.push((x.op(), reply)),
            list,
            cuts,
        ),
{
    reveal(bench_known);
    let event = (x.op(), reply);
    let longer = history.push(event);
    lemma_more_history(history, event, list, cuts, t);
    let run = x.stage->Finish_run;
    let code = x.stage->Finish_code;
    assert(longer.last() == event);
    assert(run.op() == run.steps[0].op);
    assert(x.next(reply, now, id) == SessionCourse::Exit(code));
}

/// Whether a benchmark that stands at `course` has its runs measured.
#[verifier::opaque]
spec fn bench_sound(home: Seq<char>, t: Trial, course: SessionCourse, history: Seq<Event>) -> bool {
    exists|list: Seq<MetricsView>, cuts: Seq<int>|
        #[trigger] bench_known(home, t, course, history, list, cuts)
}

proof fn lemma_bench_next(
    home: Seq<char>,
    t: Trial,
    x: SessionView,
    history: Seq<Event>,
    reply: ReplyView,
    now: Seq<char>,
    id: Seq<char>,
)
    requires
        bench_sound(home, t, SessionCourse::Ask(x), history),
    ensures
        bench_sound(home, t, x.next(reply, now, id), history.push((x.op(), reply))),
{
    reveal(bench_sound);
    let (list, cuts) = choose|list: Seq<MetricsView>, cuts: Seq<int>|
        #[trigger] bench_known(home, t, SessionCourse::Ask(x), history, list, cuts);
    if x.stage is Bench {
        lemma_bench_step(home, t, x, history, list, cuts, reply, now, id);
    } else {
        lemma_bench_last(home, t, x, history, list, cuts, reply, now, id);
    }
}

proof fn lemma_bench_sound(home: Seq<char>, t: Trial, start: SessionView, told: Telling, n: nat)
    requires
        n > 0,
        start == bench_start(home, t.rootfs, t.runs, t.memory, t.command),
    ensures
        bench_sound(home, t, carried(start, told, n).0, carried(start, told, n).1),
    decreases n,
{
    let m = (n - 1) as nat;
    if m == 0 {
        reveal(bench_sound);
        lemma_bench_first(home, t, told);
    } else {
        lemma_bench_sound(home, t, start, told, m);
        let before = carried(start, told, m);
        if let SessionCourse::Ask(x) = before.0 {
            lemma_bench_next(
                home,
                t,
                x,
                before.1,
                (told.answers)(m as int),
                (told.nows)(m as int),
                (told.ids)(m as int),
            );
        }
    }
}

/// Whether the values of `told` ascend and are those that `list` holds, each as often.
pub open spec fn tells_all(told: Seq<u64>, list: Seq<u64>) -> bool {
    &&& forall|i: int, j: int| 0 <= i <= j < told.len() ==> told[i] <= told[j]
    &&& told.len() == list.len()
    &&& told.to_multiset() == list.to_multiset()
}

/// What a benchmark reports of its runs: there were as many as asked for, one after the
/// other, each measured by itself; the setup times, the wall times and the peaks of the
/// memory that are reported are those of these runs, every one of them, in ascending order.
pub proof fn law_bench_reports(
    home: Seq<char>,
    t: Trial,
    told: Telling,
    n: nat,
)
    requires
        carried(bench_start(home, t.rootfs, t.runs, t.memory, t.command), told, n).0 matches
            SessionCourse::Ask(x) && x.op() is ReportBench,
    ensures
        ({
            let here = carried(bench_start(home, t.rootfs, t.runs, t.memory, t.command), told, n);
            let op = here.0->Ask_0.op();
            exists|list: Seq<MetricsView>, cuts: Seq<int>|
                {
                    &&& #[trigger] runs_measured(here.1, list, cuts, t)
                    &&& list.len() == t.runs
                    &&& cuts.last() == here.1.len()
                    &&& tells_all(
                        op->ReportBench_setup,
                        list.map_values(|m: MetricsView| m.setup_nanos),
                    )
                    &&& tells_all(
                        op->ReportBench_wall,
                        list.map_values(|m: MetricsView| m.wall_nanos),
                    )
                    &&& tells_all(
                        op->ReportBench_memory,
                        list.map_values(|m: MetricsView| m.peak_mem_bytes),
                    )
                }
        }),
{
    let here = carried(bench_start(home, t.rootfs, t.runs, t.memory, t.command), told, n);
    if n > 0 {
        lemma_bench_sound(
            home,
            t,
            bench_start(home, t.rootfs, t.runs, t.memory, t.command),
            told,
            n,
        );
        reveal(bench_sound);
        let (list, cuts) = choose|list: Seq<MetricsView>, cuts: Seq<int>|
            #[trigger] bench_known(home, t, here.0, here.1, list, cuts);
        reveal(bench_known);
        let x = here.0->Ask_0;
        lemma_not_reported(home, t, x, here.1, list, cuts);
        law_ascending(list.map_values(|m: MetricsView| m.setup_nanos));
        law_ascending(list.map_values(|m: MetricsView| m.wall_nanos));
        law_ascending(list.map_values(|m: MetricsView| m.peak_mem_bytes));
        assert(runs_measured(here.1, list, cuts, t));
    }
}

/// In the middle of a run nothing is reported of the benchmark.
proof fn lemma_not_reported(
    home: Seq<char>,
    t: Trial,
    x: SessionView,
    history: Seq<Event>,
    list: Seq<MetricsView>,
    cuts: Seq<int>,
)
    requires
        bench_known(
            home,
            t,
            SessionCourse::Ask(x),
            history,
            list,
            cuts,
        ),
    ensures
        x.op() is ReportBench || x.op() is Complain <==> x.stage is Finish,
{
    reveal(bench_known);
    if let StageView::Bench { bench, launch } = x.stage {
        let (_, fresh) = choose|from: int, fresh: Seq<char>|
            from == cuts.last() && #[trigger] on_a_run(bench, launch, history, from, fresh, t);
        lemma_of_the_run(
            bench_config(bench, fresh),
            0,
            None,
            launch,
            history.skip(cuts.last()),
        );
    }
}

/// A benchmark begins with the announcement of its runs; each process that it lets become
/// a container is given the root file system, the limit on the memory and the command of
/// the benchmark; a run that fails is told with its number, which is how many were
/// measured before it, and the reason; and the
/// benchmark ends with 0 when it has reported its runs, and with 1 when one failed.
pub proof fn law_bench_runs(
    home: Seq<char>,
    t: Trial,
    told: Telling,
    n: nat,
)
    ensures
        ({
            let start = bench_start(home, t.rootfs, t.runs, t.memory, t.command);
            let (course, history) = carried(start, told, n);
            &&& start.op() == (OpView::AnnounceBench {
                runs: t.runs,
                command: bench_command(t.command),
            })
            &&& match course {
                SessionCourse::Ask(x) => x.op() matches OpView::Complain(text) ==> exists|
                    list: Seq<MetricsView>,
                    cuts: Seq<int>,
                    e: RuntimeErrorView,
                |
                    #[trigger] runs_measured(history, list, cuts, t) && list.len() < t.runs && text
                        == "[bench] run "@ + decimal(list.len()) + " failed: "@
                        + #[trigger] e.message(),
                SessionCourse::Middle(m) => exists|fresh: Seq<char>|
                    #[trigger] of_the_bench(m.cfg, fresh, t),
                SessionCourse::Exit(code) => history.len() > 0 && match history.last().0 {
                    OpView::ReportBench { .. } => code == 0,
                    OpView::Complain(_) => code == 1,
                    _ => false,
                },
            }
        }),
{
    let start = bench_start(home, t.rootfs, t.runs, t.memory, t.command);
    let here = carried(start, told, n);
    if n > 0 {
        lemma_bench_sound(
            home,
            t,
            bench_start(home, t.rootfs, t.runs, t.memory, t.command),
            told,
            n,
        );
        reveal(bench_sound);
        let (list, cuts) = choose|list: Seq<MetricsView>, cuts: Seq<int>|
            #[trigger] bench_known(home, t, here.0, here.1, list, cuts);
        reveal(bench_known);
        if let SessionCourse::Ask(x) = here.0 {
            lemma_not_reported(home, t, x, here.1, list, cuts);
            if let OpView::Complain(text) = x.op() {
                let e = choose|e: RuntimeErrorView|
                    text == "[bench] run "@ + decimal(list.len()) + " failed: "@
                        + #[trigger] e.message();
                assert(runs_measured(here.1, list, cuts, t) && text == "[bench] run "@ + decimal(
                    list.len(),
                ) + " failed: "@ + e.message());
            }
        }
    }
}

} // verus!
