//! The life of a container that is kept, from its creation to its removal, on a host
//! that keeps what it is told to keep.

use crate::commands::{
    create_start, record_of, verb_start, well_bound, SessionCourse, SessionView, SettingsView,
    StageView, VerbView,
};
use crate::config::short;
use crate::container::{LaunchCourse, LaunchStageView, LaunchView};
use crate::guarantees::{
    launch_invariant, learned, lemma_launch_step, lemma_prepare_ops, lemma_wiring_ops, Event,
};
use crate::host::{OpView, ReplyView, StopSignal};
use crate::state::{
    changed, cleanup_step, container_dir, created, init_step, kept, law_state_is_held, recalled,
    save_state_step, state_path, Change, ContainerStateView, UpdateStageView,
};
use vstd::prelude::*;

verus! {

/// The states that a host keeps, by the paths of their files.
pub type Shelf = Map<Seq<char>, ContainerStateView>;

/// What a command is told: the host answers the operation at position `i` with
/// `answers(i)`, when the time is `nows(i)` and `ids(i)` is a new random id.
pub ghost struct Telling {
    pub answers: spec_fn(int) -> ReplyView,
    pub nows: spec_fn(int) -> Seq<char>,
    pub ids: spec_fn(int) -> Seq<char>,
}

/// Where a command stands on a host that keeps `shelf` at first, what the host keeps
/// then, and the history of the command, when the host has answered `n` operations.
pub open spec fn kept_run(
    course: SessionCourse,
    shelf: Shelf,
    told: Telling,
    n: nat,
) -> (SessionCourse, Shelf, Seq<Event>)
    decreases n,
{
    if n == 0 {
        (course, shelf, Seq::empty())
    } else {
        let before = kept_run(course, shelf, told, (n - 1) as nat);
        match before.0 {
            SessionCourse::Ask(s) => (
                s.next((told.answers)(n - 1), (told.nows)(n - 1), (told.ids)(n - 1)),
                kept(before.1, s.op()),
                before.2.push((s.op(), (told.answers)(n - 1))),
            ),
            _ => before,
        }
    }
}

/// Whether `op` is about the states that are kept.
pub open spec fn about_states(op: OpView) -> bool {
    op is LoadState || op is SaveState || op is Exists || op is RemoveTree
}

/// Whether the first `n` answers of the host, where they are about the states it keeps,
/// are true to what it keeps.
pub open spec fn keeps_states(
    course: SessionCourse,
    shelf: Shelf,
    told: Telling,
    n: nat,
) -> bool {
    forall|i: nat|
        i < n ==> {
            let there = #[trigger] kept_run(course, shelf, told, i);
            there.0 matches SessionCourse::Ask(s) ==> (about_states(s.op()) ==> (told.answers)(
                i as int,
            ) == recalled(there.1, s.op()))
        }
}

// Up to the release.

/// What the host keeps of the container `id` that runs as `pid` since `at`.
pub open spec fn with_running(
    shelf: Shelf,
    home: Seq<char>,
    id: Seq<char>,
    pid: i32,
    at: Seq<char>,
) -> Shelf {
    let path = state_path(container_dir(home, id));
    shelf.insert(path, changed(shelf[path], Change::Running(pid), at))
}

/// What holds of `start` and of what the host keeps while the container is launched.
spec fn launching(
    home: Seq<char>,
    id: Seq<char>,
    shelf: Shelf,
    l: LaunchView,
    now: Shelf,
    history: Seq<Event>,
) -> bool {
    let path = state_path(container_dir(home, id));
    &&& launch_invariant(l.cfg, l.index, l.record, LaunchCourse::Ask(l), history)
    &&& l.record matches Some(r) && r == record_of(home, id, r.at)
    &&& match l.stage {
        LaunchStageView::SetupClock(_)
        | LaunchStageView::Release(_)
        | LaunchStageView::Wait(_) => l.progress.container > 0 ==> now == with_running(
            shelf,
            home,
            id,
            l.progress.container,
            l.stamp(),
        ),
        LaunchStageView::Note(u) => now == shelf && (u.stage is Save ==> history.last().1
            == ReplyView::State(shelf[path])),
        LaunchStageView::Clock(_)
        | LaunchStageView::Create(_)
        | LaunchStageView::Prepare(_)
        | LaunchStageView::Fork(_)
        | LaunchStageView::Part(_)
        | LaunchStageView::Learn(_)
        | LaunchStageView::Attach(_) => now == shelf,
        _ => true,
    }
}

/// What holds of `start` and of what the host keeps at every stage.
spec fn starting_invariant(
    home: Seq<char>,
    id: Seq<char>,
    shelf: Shelf,
    there: (SessionCourse, Shelf, Seq<Event>),
) -> bool {
    there.0 matches SessionCourse::Ask(s) ==> {
        &&& s.home == home
        &&& match s.stage {
            StageView::Init { verb, run } => {
                &&& verb == VerbView::Start(id)
                &&& run.steps == seq![init_step(home)]
                &&& run.at == 0
                &&& there.1 == shelf
            },
            StageView::FindStart { id: name, op } => name == id && op is Exists && there.1
                == shelf,
            StageView::Config { id: name, op } => name == id && op is LoadConfig && there.1
                == shelf,
            StageView::Stdout { id: name, op, .. } => name == id && op is CreateFile && there.1
                == shelf,
            StageView::Stderr { id: name, op, .. } => name == id && op is CreateFile && there.1
                == shelf,
            StageView::Start { id: name, launch } => name == id && launching(
                home,
                id,
                shelf,
                launch,
                there.1,
                there.2,
            ),
            StageView::Saved { .. }
            | StageView::Broken { .. }
            | StageView::Noted { .. }
            | StageView::Finish { .. } => true,
            _ => false,
        }
    }
}

proof fn lemma_launch_keeps(l: LaunchView, history: Seq<Event>, shelf: Shelf)
    requires
        launch_invariant(l.cfg, l.index, l.record, LaunchCourse::Ask(l), history),
        l.stage is Clock || l.stage is Create || l.stage is Prepare || l.stage is Fork
            || l.stage is Part || l.stage is Learn || l.stage is Attach || l.stage is SetupClock
            || l.stage is Release,
    ensures
        kept(shelf, l.stage.op()) == shelf,
{
    match l.stage {
        LaunchStageView::Prepare(run) => {
            lemma_prepare_ops(l.cgroup, l.cfg.resources, run.at);
        },
        LaunchStageView::Attach(run) => {
            if run.at > 0 {
                lemma_wiring_ops(short(l.cfg.id), l.progress.container, l.index, run.at - 1);
            }
        },
        _ => {},
    }
}

proof fn lemma_launching(
    home: Seq<char>,
    id: Seq<char>,
    shelf: Shelf,
    l: LaunchView,
    now: Shelf,
    history: Seq<Event>,
    reply: ReplyView,
)
    requires
        shelf.dom().contains(state_path(container_dir(home, id))),
        launching(home, id, shelf, l, now, history),
        about_states(l.stage.op()) ==> reply == recalled(now, l.stage.op()),
    ensures
        l.next(reply) matches LaunchCourse::Ask(next) ==> launching(
            home,
            id,
            shelf,
            next,
            kept(now, l.stage.op()),
            history.push((l.stage.op(), reply)),
        ),
{
    let event = (l.stage.op(), reply);
    let longer = history.push(event);
    assert(longer.last() == event);
    lemma_launch_step(l.cfg, l.index, l.record, l, history, reply);
    match l.stage {
        LaunchStageView::Note(u) => {
            if let UpdateStageView::Save(run) = u.stage {
                let root = container_dir(home, id);
                let at = l.stamp();
                let pid = l.progress.container;
                let state = choose|state: ContainerStateView|
                    {
                        &&& history.last() == (
                            OpView::LoadState(state_path(root)),
                            ReplyView::State(state),
                        )
                        &&& run.steps == seq![
                            #[trigger] save_state_step(
                                root,
                                changed(state, Change::Running(pid), at),
                            ),
                        ]
                    };
                assert(state == shelf[state_path(root)]);
            }
        },
        LaunchStageView::Clock(_)
        | LaunchStageView::Create(_)
        | LaunchStageView::Prepare(_)
        | LaunchStageView::Fork(_)
        | LaunchStageView::Part(_)
        | LaunchStageView::Learn(_)
        | LaunchStageView::Attach(_)
        | LaunchStageView::SetupClock(_)
        | LaunchStageView::Release(_) => {
            lemma_launch_keeps(l, history, now);
        },
        _ => {},
    }
}

proof fn lemma_starting(
    home: Seq<char>,
    id: Seq<char>,
    shelf: Shelf,
    s: SessionView,
    now: Shelf,
    history: Seq<Event>,
    reply: ReplyView,
    time: Seq<char>,
    fresh: Seq<char>,
)
    requires
        shelf.dom().contains(state_path(container_dir(home, id))),
        starting_invariant(home, id, shelf, (SessionCourse::Ask(s), now, history)),
        about_states(s.op()) ==> reply == recalled(now, s.op()),
    ensures
        starting_invariant(
            home,
            id,
            shelf,
            (s.next(reply, time, fresh), kept(now, s.op()), history.push((s.op(), reply))),
        ),
{
    if let StageView::Start { launch, .. } = s.stage {
        lemma_launching(home, id, shelf, launch, now, history, reply);
    }
}

proof fn lemma_start(
    home: Seq<char>,
    id: Seq<char>,
    shelf: Shelf,
    told: Telling,
    n: nat,
)
    requires
        shelf.dom().contains(state_path(container_dir(home, id))),
        keeps_states(
            SessionCourse::Ask(verb_start(home, VerbView::Start(id))),
            shelf,
            told,
            n,
        ),
    ensures
        starting_invariant(
            home,
            id,
            shelf,
            kept_run(
                SessionCourse::Ask(verb_start(home, VerbView::Start(id))),
                shelf,
                told,
                n,
            ),
        ),
    decreases n,
{
    let start = SessionCourse::Ask(verb_start(home, VerbView::Start(id)));
    if n > 0 {
        let m = (n - 1) as nat;
        lemma_start(home, id, shelf, told, m);
        let there = kept_run(start, shelf, told, m);
        if let SessionCourse::Ask(s) = there.0 {
            lemma_starting(
                home,
                id,
                shelf,
                s,
                there.1,
                there.2,
                (told.answers)(m as int),
                (told.nows)(m as int),
                (told.ids)(m as int),
            );
        }
    }
}

// The laws.

/// What a host keeps that does all that `create` asks.
pub open spec fn made(
    home: Seq<char>,
    id: Seq<char>,
    settings: SettingsView,
    shelf: Shelf,
    nows: spec_fn(int) -> Seq<char>,
    ids: spec_fn(int) -> Seq<char>,
) -> Shelf {
    let told = Telling { answers: |i: int| ReplyView::Done, nows, ids };
    kept_run(SessionCourse::Ask(create_start(home, id, settings)), shelf, told, 6).1
}

/// A host that does all that `create` asks keeps the new state, and else what it kept.
pub proof fn law_made(
    home: Seq<char>,
    id: Seq<char>,
    settings: SettingsView,
    shelf: Shelf,
    nows: spec_fn(int) -> Seq<char>,
    ids: spec_fn(int) -> Seq<char>,
)
    requires
        well_bound(settings.binds),
    ensures
        made(home, id, settings, shelf, nows, ids) == shelf.insert(
            state_path(container_dir(home, id)),
            created(id, nows(0)),
        ),
{
    reveal_with_fuel(kept_run, 7);
}

proof fn lemma_stop(home: Seq<char>, id: Seq<char>, shelf: Shelf, pid: i32, told: Telling)
    requires
        shelf.dom().contains(state_path(container_dir(home, id))),
        shelf[state_path(container_dir(home, id))].pid == Some(pid),
        (told.answers)(0) is Done,
        keeps_states(
            SessionCourse::Ask(verb_start(home, VerbView::Stop(id))),
            shelf,
            told,
            6,
        ),
    ensures
        stopped(home, id, shelf, pid, told),
{
    let start = SessionCourse::Ask(verb_start(home, VerbView::Stop(id)));
    law_state_is_held(shelf, container_dir(home, id));
    reveal_with_fuel(kept_run, 7);
    assert(kept_run(start, shelf, told, 1).0 is Ask);
    assert(kept_run(start, shelf, told, 2).0 is Ask);
    assert(kept_run(start, shelf, told, 3).0 is Ask);
}

/// Whether `stop` asks the process `pid` to end, kills it half a second later, and ends
/// with code 0.
pub open spec fn stopped(
    home: Seq<char>,
    id: Seq<char>,
    shelf: Shelf,
    pid: i32,
    told: Telling,
) -> bool {
    let start = SessionCourse::Ask(verb_start(home, VerbView::Stop(id)));
    let end = kept_run(start, shelf, told, 6);
    &&& end.0 == SessionCourse::Exit(0)
    &&& end.2.len() == 6
    &&& end.2[3].0 == (OpView::Kill { pid, signal: StopSignal::Term })
    &&& end.2[4].0 == OpView::Sleep(500)
    &&& end.2[5].0 == (OpView::Kill { pid, signal: StopSignal::Kill })
}

/// A container that was created and started can be stopped, when it is about to be
/// released and as long as it is waited for: the pid that came through the pipe is the
/// one that `stop` asks to end, and kills half a second later, and `stop` ends with code 0.
pub proof fn law_started_can_be_stopped(
    home: Seq<char>,
    id: Seq<char>,
    settings: SettingsView,
    shelf: Shelf,
    nows: spec_fn(int) -> Seq<char>,
    ids: spec_fn(int) -> Seq<char>,
    start_told: Telling,
    n: nat,
    stop_told: Telling,
)
    requires
        well_bound(settings.binds),
        ({
            let begun = made(home, id, settings, shelf, nows, ids);
            let start = SessionCourse::Ask(verb_start(home, VerbView::Start(id)));
            let stop = SessionCourse::Ask(verb_start(home, VerbView::Stop(id)));
            let there = kept_run(start, begun, start_told, n);
            &&& keeps_states(start, begun, start_told, n)
            &&& there.0 matches SessionCourse::Ask(s) && s.stage matches StageView::Start {
                launch,
                ..
            } && (launch.stage is Release || launch.stage is Wait && launch.progress.container > 0)
            &&& (stop_told.answers)(0) is Done
            &&& keeps_states(stop, there.1, stop_told, 6)
        }),
    ensures
        ({
            let begun = made(home, id, settings, shelf, nows, ids);
            let start = SessionCourse::Ask(verb_start(home, VerbView::Start(id)));
            let there = kept_run(start, begun, start_told, n);
            exists|pid: i32|
                {
                    &&& pid > 0
                    &&& #[trigger] learned(there.2, pid)
                    &&& stopped(home, id, there.1, pid, stop_told)
                }
        }),
{
    law_made(home, id, settings, shelf, nows, ids);
    let begun = made(home, id, settings, shelf, nows, ids);
    let start = SessionCourse::Ask(verb_start(home, VerbView::Start(id)));
    let there = kept_run(start, begun, start_told, n);
    lemma_start(home, id, begun, start_told, n);
    let launch = there.0->Ask_0.stage->Start_launch;
    let pid = launch.progress.container;
    lemma_stop(home, id, there.1, pid, stop_told);
    assert(learned(there.2, pid));
}

/// `rm` removes a container that is kept, says so, and ends with code 0.
pub proof fn law_rm(home: Seq<char>, id: Seq<char>, shelf: Shelf, told: Telling)
    requires
        shelf.dom().contains(state_path(container_dir(home, id))),
        (told.answers)(0) is Done,
        keeps_states(SessionCourse::Ask(verb_start(home, VerbView::Rm(id))), shelf, told, 4),
    ensures
        ({
            let start = SessionCourse::Ask(verb_start(home, VerbView::Rm(id)));
            let end = kept_run(start, shelf, told, 4);
            &&& end.0 == SessionCourse::Exit(0)
            &&& end.1 == kept(shelf, cleanup_step(container_dir(home, id)).op)
            &&& end.2.len() == 4
            &&& end.2[3].0 == OpView::Print("Removed "@ + id + "\n"@)
        }),
{
    let start = SessionCourse::Ask(verb_start(home, VerbView::Rm(id)));
    law_state_is_held(shelf, container_dir(home, id));
    reveal_with_fuel(kept_run, 5);
    assert(kept_run(start, shelf, told, 1).0 is Ask);
    assert(kept_run(start, shelf, told, 2).0 is Ask);
}

} // verus!
