//! What the commands on containers that are kept promise.

use crate::commands::{
    at, complaining, finishing, first, printable, ps_steps, row, verb_start, SessionCourse,
    SessionView, StageView, VerbView,
};
use crate::error::RuntimeErrorView;
use crate::guarantees::{asked, Event};
use crate::host::{EntryView, OpView, ReplyView, StopSignal};
use crate::lifecycle::Telling;
use crate::plan::{may, PlanRunView};
use crate::promises::{carried, place_of};
use crate::scan::path_joined;
use crate::state::{
    changed, container_names, init_step, loaded, Change, ContainerStateView,
    ListingCourse, ListingStageView, ListingView, LookupCourse, LookupView,
};
use crate::text::{cut, law_cut, left_aligned, signed_decimal};
use vstd::prelude::*;
use vstd::utf8::encode_utf8;

verus! {

// A line of ps.

/// The line of a state shows, in 32 columns, the front of its id; behind a blank its
/// status, in 9 columns or as many as it needs; and behind another blank its pid, or a
/// dash where it has none.
pub proof fn law_row(state: ContainerStateView)
    requires
        printable(state),
    ensures
        ({
            let line = row(state);
            let status = state.status;
            let wide = 33 + status.len() as int;
            let end = if wide < 42 {
                42
            } else {
                wide
            };
            &&& end < line.len()
            &&& line[32] == ' '
            &&& line.subrange(33, wide) == status
            &&& forall|i: int| wide <= i <= end ==> #[trigger] line[i] == ' '
            &&& line.skip(end + 1) == (match state.pid {
                Some(pid) => signed_decimal(pid as int),
                None => seq!['-'],
            }).push('\n')
            &&& exists|k: int|
                {
                    &&& 0 <= k <= 32 && k <= state.id.len()
                    &&& #[trigger] line.take(k) == state.id.take(k)
                    &&& forall|i: int| k <= i < 32 ==> #[trigger] line[i] == ' '
                    &&& encode_utf8(state.id.take(k)).len() == (if encode_utf8(state.id).len()
                        < 32 {
                        encode_utf8(state.id).len()
                    } else {
                        32
                    })
                }
        }),
{
    reveal_strlit(" ");
    reveal_strlit("-");
    reveal_strlit("\n");
    law_cut(state.id, 32);
    let shown = cut(state.id, 32);
    let k = shown.len() as int;
    lemma_no_shorter(shown);
    assert(shown =~= state.id.take(k));
    let line = row(state);
    let name = left_aligned(shown, 32);
    let status = left_aligned(state.status, 9);
    let pid = match state.pid {
        Some(pid) => signed_decimal(pid as int),
        None => "-"@,
    };
    assert(name.len() == 32);
    assert(line == name + " "@ + status + " "@ + pid + "\n"@);
    assert(line.take(k) =~= shown);
    assert(line.subrange(33, 33 + state.status.len() as int) =~= state.status);
    let end = 33 + status.len() as int;
    assert("-"@ =~= seq!['-']);
    assert(line.skip(end + 1) =~= pid.push('\n'));
}

proof fn lemma_no_shorter(s: Seq<char>)
    ensures
        s.len() <= encode_utf8(s).len(),
    decreases s.len(),
{
    if s.len() > 0 {
        reveal_with_fuel(encode_utf8, 2);
        lemma_no_shorter(s.drop_first());
    }
}

/// A container that runs is shown as running under its pid, and one that has ended as
/// stopped and without a pid, whatever it was shown as before.
pub proof fn law_shown_as_it_is(state: ContainerStateView, pid: i32, code: i32, at: Seq<char>)
    requires
        printable(state),
    ensures
        ({
            let runs = row(changed(state, Change::Running(pid), at));
            let ended = row(changed(state, Change::Ended(code), at));
            &&& runs.skip(33) == "running"@ + "   "@ + signed_decimal(pid as int) + "\n"@
            &&& ended.skip(33) == "stopped"@ + "   "@ + "-"@ + "\n"@
        }),
{
    reveal_strlit(" ");
    reveal_strlit("   ");
    reveal_strlit("-");
    reveal_strlit("\n");
    reveal_strlit("running");
    reveal_strlit("stopped");
    law_cut(state.id, 32);
    lemma_no_shorter(cut(state.id, 32));
    let name = left_aligned(cut(state.id, 32), 32);
    assert(name.len() == 32);
    let runs = row(changed(state, Change::Running(pid), at));
    assert(runs =~= name + " "@ + ("running"@ + "  "@) + " "@ + signed_decimal(pid as int)
        + "\n"@) by {
        reveal_strlit("  ");
        assert(left_aligned("running"@, 9) =~= "running"@ + "  "@);
    }
    assert(runs.skip(33) =~= "running"@ + "   "@ + signed_decimal(pid as int) + "\n"@) by {
        reveal_strlit("  ");
    }
    let ended = row(changed(state, Change::Ended(code), at));
    assert(ended =~= name + " "@ + ("stopped"@ + "  "@) + " "@ + "-"@ + "\n"@) by {
        reveal_strlit("  ");
        assert(left_aligned("stopped"@, 9) =~= "stopped"@ + "  "@);
    }
    assert(ended.skip(33) =~= "stopped"@ + "   "@ + "-"@ + "\n"@) by {
        reveal_strlit("  ");
    }
}

// The commands one by one.

/// Whether a command asks for `op` when the host has answered `n` times.
pub open spec fn asks(start: SessionView, told: Telling, n: nat, op: OpView) -> bool {
    carried(start, told, n).0 matches SessionCourse::Ask(x) && x.op() == op
}

/// Whether a command has ended with `code` when the host has answered `n` times.
pub open spec fn ends(start: SessionView, told: Telling, n: nat, code: i32) -> bool {
    carried(start, told, n).0 == SessionCourse::Exit(code)
}

/// Whether a command complains with `text` when the host has answered `n` times, and then
/// ends with 1.
pub open spec fn complains(start: SessionView, told: Telling, n: nat, text: Seq<char>) -> bool {
    asks(start, told, n, OpView::Complain(text)) && ends(start, told, n + 1, 1)
}

/// A command that fails with a complaint.
pub proof fn lemma_complains(
    home: Seq<char>,
    start: SessionView,
    told: Telling,
    n: nat,
    text: Seq<char>,
)
    requires
        carried(start, told, n).0 == complaining(home, text),
    ensures
        complains(start, told, n, text),
{
}

/// Every command on the containers that are kept makes sure of their directory first, and
/// says so where it cannot.
pub proof fn law_directory_first(home: Seq<char>, verb: VerbView, told: Telling)
    ensures
        ({
            let start = verb_start(home, verb);
            &&& asks(start, told, 0, OpView::MakeDirs(home + "/.mincontainer/containers"@))
            &&& (told.answers)(0) matches ReplyView::Failed(why) ==> complains(
                start,
                told,
                1,
                "[mincontainer] "@ + "init state"@ + ": "@ + ("config error: "@ + (
                "mkdir state dir"@ + ": "@ + why)),
            )
        }),
{
    let start = verb_start(home, verb);
    if let ReplyView::Failed(why) = (told.answers)(0) {
        let text = "[mincontainer] "@ + "init state"@ + ": "@ + ("config error: "@ + (
        "mkdir state dir"@ + ": "@ + why));
        assert(carried(start, told, 1).0 == complaining(home, text));
        lemma_complains(home, start, told, 1, text);
    }
}

/// `logs` shows what the container wrote to its standard output and to its standard error
/// output, each under a heading; or it says that there is no such container.
pub proof fn law_logs(home: Seq<char>, id: Seq<char>, told: Telling)
    requires
        (told.answers)(0) is Done,
    ensures
        ({
            let start = verb_start(home, VerbView::Logs(id));
            let dir = place_of(home, id);
            &&& asks(start, told, 1, OpView::Exists(dir))
            &&& (told.answers)(1) == ReplyView::Flag(true) ==> {
                &&& asks(start, told, 2, OpView::Print("=== STDOUT ===\n"@))
                &&& asks(start, told, 3, OpView::CopyToStdout(path_joined(dir, "stdout"@)))
                &&& asks(start, told, 4, OpView::Print("\n=== STDERR ===\n"@))
                &&& asks(start, told, 5, OpView::CopyToStdout(path_joined(dir, "stderr"@)))
                &&& ends(start, told, 6, 0)
            }
            &&& (told.answers)(1) != ReplyView::Flag(true) ==> complains(
                start,
                told,
                2,
                "[mincontainer] container "@ + id + " not found"@,
            )
        }),
{
    let start = verb_start(home, VerbView::Logs(id));
    let dir = place_of(home, id);
    lemma_asks_for(home, VerbView::Logs(id), told);
    if (told.answers)(1) == ReplyView::Flag(true) {
        let steps = crate::commands::log_steps(dir);
        assert(carried(start, told, 2).0 == finishing(home, steps, 0));
        lemma_says(home, start, told, 2, steps, 0, 0);
        lemma_says(home, start, told, 2, steps, 0, 1);
        lemma_says(home, start, told, 2, steps, 0, 2);
        lemma_says(home, start, told, 2, steps, 0, 3);
        lemma_says(home, start, told, 2, steps, 0, 4);
    } else {
        lemma_complains(home, start, told, 2, "[mincontainer] container "@ + id + " not found"@);
    }
}

/// One step of a command.
pub proof fn lemma_next(start: SessionView, told: Telling, n: nat, x: SessionView)
    requires
        carried(start, told, n).0 == SessionCourse::Ask(x),
    ensures
        carried(start, told, n + 1).0 == x.next(
            (told.answers)(n as int),
            (told.nows)(n as int),
            (told.ids)(n as int),
        ),
{
}

/// Where a command stands once the directory of all containers is there.
pub proof fn lemma_asks_for(home: Seq<char>, verb: VerbView, told: Telling)
    requires
        (told.answers)(0) is Done,
    ensures
        carried(verb_start(home, verb), told, 1).0 == crate::commands::beginning(home, verb),
        carried(verb_start(home, verb), told, 1).1.len() == 1,
{
    reveal_with_fuel(carried, 2);
}

/// The last words of a command are said one after the other.
proof fn lemma_says(
    home: Seq<char>,
    start: SessionView,
    told: Telling,
    n: nat,
    steps: Seq<crate::plan::StepView>,
    code: i32,
    i: nat,
)
    requires
        carried(start, told, n).0 == finishing(home, steps, code),
        crate::commands::never_fails(steps),
        i <= steps.len(),
    ensures
        carried(start, told, n + i).0 == (if i < steps.len() {
            at(home, StageView::Finish { run: PlanRunView { steps, at: i as int }, code })
        } else {
            SessionCourse::Exit(code)
        }),
        i < steps.len() ==> asks(start, told, n + i, steps[i as int].op),
    decreases i,
{
    if i > 0 {
        let k = (i - 1) as nat;
        lemma_says(home, start, told, n, steps, code, k);
        let x = carried(start, told, n + k).0->Ask_0;
        let p = (n + k) as int;
        assert(carried(start, told, n + i).0 == x.next(
            (told.answers)(p),
            (told.nows)(p),
            (told.ids)(p),
        ));
    }
}

/// `rm` removes the directory of the container with all that is in it, and says so; or it
/// says why it could not, or that there is no such container.
pub proof fn law_rm_removes(home: Seq<char>, id: Seq<char>, told: Telling)
    requires
        (told.answers)(0) is Done,
    ensures
        ({
            let start = verb_start(home, VerbView::Rm(id));
            let dir = place_of(home, id);
            &&& asks(start, told, 1, OpView::Exists(dir))
            &&& (told.answers)(1) == ReplyView::Flag(true) ==> {
                &&& asks(start, told, 2, OpView::RemoveTree(dir))
                &&& (told.answers)(2) is Done ==> {
                    &&& asks(start, told, 3, OpView::Print("Removed "@ + id + "\n"@))
                    &&& ends(start, told, 4, 0)
                }
                &&& (told.answers)(2) matches ReplyView::Failed(why) ==> complains(
                    start,
                    told,
                    3,
                    "[mincontainer] "@ + "cleanup"@ + ": "@ + ("config error: "@ + ("cleanup "@
                        + dir + ": "@ + why)),
                )
            }
            &&& (told.answers)(1) != ReplyView::Flag(true) ==> complains(
                start,
                told,
                2,
                "[mincontainer] container "@ + id + " not found"@,
            )
        }),
{
    let start = verb_start(home, VerbView::Rm(id));
    let dir = place_of(home, id);
    lemma_asks_for(home, VerbView::Rm(id), told);
    let x = carried(start, told, 1).0->Ask_0;
    lemma_next(start, told, 1, x);
    if (told.answers)(1) == ReplyView::Flag(true) {
        let run = first(seq![crate::state::cleanup_step(dir)]);
        let y = SessionView { home, stage: StageView::Remove { id, run } };
        assert(carried(start, told, 2).0 == SessionCourse::Ask(y));
        assert(run.op() == OpView::RemoveTree(dir));
        lemma_next(start, told, 2, y);
        lemma_removing(home, id, run, told);
        if (told.answers)(2) is Done {
            let steps = seq![may(OpView::Print("Removed "@ + id + "\n"@))];
            assert(carried(start, told, 3).0 == finishing(home, steps, 0));
            lemma_says(home, start, told, 3, steps, 0, 0);
            lemma_says(home, start, told, 3, steps, 0, 1);
        } else if let ReplyView::Failed(why) = (told.answers)(2) {
            let text = "[mincontainer] "@ + "cleanup"@ + ": "@ + ("config error: "@ + ("cleanup "@
                + dir + ": "@ + why));
            assert(carried(start, told, 3).0 == complaining(home, text));
            lemma_complains(home, start, told, 3, text);
        }
    } else {
        lemma_complains(home, start, told, 2, "[mincontainer] container "@ + id + " not found"@);
    }
}

proof fn lemma_removing(home: Seq<char>, id: Seq<char>, run: PlanRunView, told: Telling)
    requires
        run == first(seq![crate::state::cleanup_step(place_of(home, id))]),
    ensures
        (told.answers)(2) is Done ==> crate::commands::removing(
            home,
            id,
            run.next((told.answers)(2)),
        ) == finishing(home, seq![may(OpView::Print("Removed "@ + id + "\n"@))], 0),
        (told.answers)(2) matches ReplyView::Failed(why) ==> crate::commands::removing(
            home,
            id,
            run.next((told.answers)(2)),
        ) == complaining(
            home,
            "[mincontainer] "@ + "cleanup"@ + ": "@ + ("config error: "@ + ("cleanup "@ + place_of(
                home,
                id,
            ) + ": "@ + why)),
        ),
{
    if let ReplyView::Failed(why) = (told.answers)(2) {
        let e = RuntimeErrorView::Config("cleanup "@ + place_of(home, id) + ": "@ + why);
        assert(run.next((told.answers)(2)) == crate::plan::Course::Ended(Err(e)));
    }
}

/// `stop` asks the process that the state of the container names to end, waits half a
/// second and kills it; where the state names none there is nothing to do. Where there is
/// no state it says why.
pub proof fn law_stop(home: Seq<char>, id: Seq<char>, told: Telling)
    requires
        (told.answers)(0) is Done,
    ensures
        ({
            let start = verb_start(home, VerbView::Stop(id));
            let dir = place_of(home, id);
            let refused = "[mincontainer] "@ + "get container"@ + ": "@;
            &&& asks(start, told, 1, OpView::Exists(dir))
            &&& (told.answers)(1) == ReplyView::Flag(true) ==> {
                &&& asks(start, told, 2, OpView::LoadState(path_joined(dir, "state.json"@)))
                &&& match (told.answers)(2) {
                    ReplyView::State(state) => match state.pid {
                        Some(pid) => {
                            &&& asks(
                                start,
                                told,
                                3,
                                OpView::Kill { pid, signal: StopSignal::Term },
                            )
                            &&& asks(start, told, 4, OpView::Sleep(500))
                            &&& asks(
                                start,
                                told,
                                5,
                                OpView::Kill { pid, signal: StopSignal::Kill },
                            )
                            &&& ends(start, told, 6, 0)
                        },
                        None => ends(start, told, 3, 0),
                    },
                    ReplyView::Malformed(e) => complains(
                        start,
                        told,
                        3,
                        refused + ("json error: "@ + e),
                    ),
                    reply => complains(
                        start,
                        told,
                        3,
                        refused + ("config error: "@ + ("read state: "@ + reply.reason())),
                    ),
                }
            }
            &&& (told.answers)(1) != ReplyView::Flag(true) ==> complains(
                start,
                told,
                2,
                refused + ("config error: "@ + ("container "@ + id + " not found"@)),
            )
        }),
{
    let start = verb_start(home, VerbView::Stop(id));
    let refused = "[mincontainer] "@ + "get container"@ + ": "@;
    let dir = place_of(home, id);
    lemma_asks_for(home, VerbView::Stop(id), told);
    let x = carried(start, told, 1).0->Ask_0;
    lemma_next(start, told, 1, x);
    if (told.answers)(1) == ReplyView::Flag(true) {
        let lookup = LookupView {
            id,
            root: dir,
            found: true,
            op: OpView::LoadState(path_joined(dir, "state.json"@)),
        };
        let y = SessionView { home, stage: StageView::Stop { lookup } };
        assert(carried(start, told, 2).0 == SessionCourse::Ask(y));
        lemma_next(start, told, 2, y);
        lemma_stopping(home, id, start, told);
    } else {
        let e = RuntimeErrorView::Config("container "@ + id + " not found"@);
        assert(carried(start, told, 2).0 == complaining(home, refused + e.message()));
        lemma_complains(home, start, told, 2, refused + e.message());
    }
}

#[verifier::rlimit(40)]
proof fn lemma_stopping(home: Seq<char>, id: Seq<char>, start: SessionView, told: Telling)
    requires
        carried(start, told, 3).0 == crate::commands::stopping(
            home,
            LookupCourse::Ended(loaded((told.answers)(2))),
        ),
    ensures
        ({
            let refused = "[mincontainer] "@ + "get container"@ + ": "@;
            match (told.answers)(2) {
                ReplyView::State(state) => match state.pid {
                    Some(pid) => {
                        &&& asks(start, told, 3, OpView::Kill { pid, signal: StopSignal::Term })
                        &&& asks(start, told, 4, OpView::Sleep(500))
                        &&& asks(start, told, 5, OpView::Kill { pid, signal: StopSignal::Kill })
                        &&& ends(start, told, 6, 0)
                    },
                    None => ends(start, told, 3, 0),
                },
                ReplyView::Malformed(e) => complains(
                    start,
                    told,
                    3,
                    refused + ("json error: "@ + e),
                ),
                reply => complains(
                    start,
                    told,
                    3,
                    refused + ("config error: "@ + ("read state: "@ + reply.reason())),
                ),
            }
        }),
{
    let refused = "[mincontainer] "@ + "get container"@ + ": "@;
    match (told.answers)(2) {
        ReplyView::State(state) => {
            let steps = crate::commands::stop_steps(state.pid);
            assert(carried(start, told, 3).0 == finishing(home, steps, 0));
            if state.pid is Some {
                lemma_says(home, start, told, 3, steps, 0, 0);
                lemma_says(home, start, told, 3, steps, 0, 1);
                lemma_says(home, start, told, 3, steps, 0, 2);
                lemma_says(home, start, told, 3, steps, 0, 3);
            }
        },
        ReplyView::Malformed(e) => {
            lemma_complains(home, start, told, 3, refused + ("json error: "@ + e));
        },
        reply => {
            lemma_complains(
                home,
                start,
                told,
                3,
                refused + ("config error: "@ + ("read state: "@ + reply.reason())),
            );
        },
    }
}

// ps

/// The states that a command was told, in their order.
pub open spec fn states_told(history: Seq<Event>) -> Seq<ContainerStateView>
    decreases history.len(),
{
    if history.len() == 0 {
        Seq::empty()
    } else {
        let before = states_told(history.drop_last());
        match history.last() {
            (OpView::LoadState(_), ReplyView::State(state)) => before.push(state),
            _ => before,
        }
    }
}

/// How many texts a command has printed.
pub open spec fn printed(history: Seq<Event>) -> nat
    decreases history.len(),
{
    if history.len() == 0 {
        0
    } else {
        printed(history.drop_last()) + if history.last().0 is Print {
            1nat
        } else {
            0nat
        }
    }
}

/// Whether the directory of all containers was listed, and holds those with the names
/// `ids`.
pub open spec fn listed_names(home: Seq<char>, history: Seq<Event>, ids: Seq<Seq<char>>) -> bool {
    exists|k: int, entries: Seq<EntryView>|
        0 <= k < history.len() && #[trigger] history[k] == (
            OpView::ListDir(home + "/.mincontainer/containers"@),
            ReplyView::Entries(entries),
        ) && ids == #[trigger] container_names(entries)
}

/// Whether each of the first `n` of the containers `ids` was asked for.
pub open spec fn each_asked(
    home: Seq<char>,
    history: Seq<Event>,
    ids: Seq<Seq<char>>,
    n: int,
) -> bool {
    forall|i: int|
        0 <= i < n && i < ids.len() ==> asked(
            history,
            OpView::Exists(place_of(home, #[trigger] ids[i])),
        )
}

/// Whether every container was asked for: all that the directory holds, or none where the
/// directory is not there.
pub open spec fn all_asked(home: Seq<char>, history: Seq<Event>) -> bool {
    ||| exists|k: int|
        0 <= k < history.len() && (#[trigger] history[k]).0 == OpView::Exists(
            home + "/.mincontainer/containers"@,
        ) && history[k].1 != ReplyView::Flag(true)
    ||| exists|ids: Seq<Seq<char>>|
        #[trigger] listed_names(home, history, ids) && each_asked(
            home,
            history,
            ids,
            ids.len() as int,
        )
}

spec fn listing_known(home: Seq<char>, listing: ListingView, history: Seq<Event>) -> bool {
    &&& listing.home == home
    &&& printed(history) == 0
    &&& match listing.stage {
        ListingStageView::Root(op) => op == OpView::Exists(home + "/.mincontainer/containers"@)
            && states_told(history).len() == 0,
        ListingStageView::Entries(op) => op == OpView::ListDir(
            home + "/.mincontainer/containers"@,
        ) && states_told(history).len() == 0,
        ListingStageView::Visit { ids, at, lookup, found } => {
            &&& found == states_told(history)
            &&& 0 <= at < ids.len()
            &&& lookup.root == place_of(home, ids[at])
            &&& lookup.op == if lookup.found {
                OpView::LoadState(path_joined(lookup.root, "state.json"@))
            } else {
                OpView::Exists(lookup.root)
            }
            &&& lookup.found ==> asked(history, OpView::Exists(lookup.root))
            &&& listed_names(home, history, ids)
            &&& each_asked(home, history, ids, at)
        },
    }
}

#[verifier::opaque]
spec fn ps_known(home: Seq<char>, course: SessionCourse, history: Seq<Event>) -> bool {
    match course {
        SessionCourse::Ask(x) => x.home == home && match x.stage {
            StageView::Init { verb, run } => {
                &&& verb is Ps
                &&& history.len() == 0
                &&& run == first(seq![init_step(home)])
            },
            StageView::Ps { listing } => listing_known(home, listing, history),
            StageView::Finish { run, code } => {
                ||| {
                    &&& code == 0
                    &&& run.steps == ps_steps(states_told(history))
                    &&& run.at == printed(history)
                    &&& 0 <= run.at < run.steps.len()
                    &&& all_asked(home, history)
                }
                ||| {
                    &&& code == 1 && run.at == 0 && run.steps.len() == 1
                    &&& run.steps[0].op is Complain && run.steps[0] == may(run.steps[0].op)
                }
            },
            _ => false,
        },
        SessionCourse::Middle(_) => false,
        SessionCourse::Exit(code) => {
            ||| {
                &&& code == 0
                &&& printed(history) == 1 + states_told(history).len()
                &&& all_asked(home, history)
            }
            ||| code == 1 && history.len() > 0 && history.last().0 is Complain
        },
    }
}

proof fn lemma_one_more_event(history: Seq<Event>, event: Event)
    ensures
        states_told(history.push(event)) == (match event {
            (OpView::LoadState(_), ReplyView::State(state)) => states_told(history).push(state),
            _ => states_told(history),
        }),
        printed(history.push(event)) == printed(history) + if event.0 is Print {
            1nat
        } else {
            0nat
        },
{
    assert(history.push(event).drop_last() =~= history);
}

proof fn lemma_still_asked(
    home: Seq<char>,
    history: Seq<Event>,
    event: Event,
    ids: Seq<Seq<char>>,
    n: int,
)
    ensures
        listed_names(home, history, ids) ==> listed_names(home, history.push(event), ids),
        each_asked(home, history, ids, n) ==> each_asked(home, history.push(event), ids, n),
        asked(history.push(event), event.0),
{
    let longer = history.push(event);
    assert(forall|k: int| 0 <= k < history.len() ==> #[trigger] longer[k] == history[k]);
    assert(longer[history.len() as int] == event);
    if listed_names(home, history, ids) {
        let (k, entries) = choose|k: int, entries: Seq<EntryView>|
            0 <= k < history.len() && #[trigger] history[k] == (
                OpView::ListDir(home + "/.mincontainer/containers"@),
                ReplyView::Entries(entries),
            ) && ids == #[trigger] container_names(entries);
        assert(longer[k] == history[k]);
    }
    if each_asked(home, history, ids, n) {
        assert forall|i: int| 0 <= i < n && i < ids.len() implies asked(
            longer,
            OpView::Exists(place_of(home, #[trigger] ids[i])),
        ) by {
            let op = OpView::Exists(place_of(home, ids[i]));
            lemma_asked_stays(history, event, op);
        }
    }
}

proof fn lemma_asked_stays(history: Seq<Event>, event: Event, op: OpView)
    ensures
        asked(history, op) ==> asked(history.push(event), op),
{
    if asked(history, op) {
        let k = choose|k: int| 0 <= k < history.len() && (#[trigger] history[k]).0 == op;
        assert(history.push(event)[k] == history[k]);
    }
}

proof fn lemma_all_asked_stays(home: Seq<char>, history: Seq<Event>, event: Event)
    ensures
        all_asked(home, history) ==> all_asked(home, history.push(event)),
{
    let longer = history.push(event);
    assert(forall|k: int| 0 <= k < history.len() ==> #[trigger] longer[k] == history[k]);
    if all_asked(home, history) {
        if exists|k: int|
            0 <= k < history.len() && (#[trigger] history[k]).0 == OpView::Exists(
                home + "/.mincontainer/containers"@,
            ) && history[k].1 != ReplyView::Flag(true) {
            let k = choose|k: int|
                0 <= k < history.len() && (#[trigger] history[k]).0 == OpView::Exists(
                    home + "/.mincontainer/containers"@,
                ) && history[k].1 != ReplyView::Flag(true);
            assert(longer[k] == history[k]);
        } else {
            let ids = choose|ids: Seq<Seq<char>>|
                #[trigger] listed_names(home, history, ids) && each_asked(
                    home,
                    history,
                    ids,
                    ids.len() as int,
                );
            lemma_still_asked(home, history, event, ids, ids.len() as int);
            assert(listed_names(home, longer, ids));
        }
    }
}

/// How a listing goes on when the containers from `at` on are still to be asked for.
proof fn lemma_visiting(
    home: Seq<char>,
    me: ListingView,
    ids: Seq<Seq<char>>,
    at: int,
    history: Seq<Event>,
)
    requires
        me.home == home,
        0 <= at <= ids.len(),
        printed(history) == 0,
        listed_names(home, history, ids),
        each_asked(home, history, ids, at),
    ensures
        match me.visiting(ids, at, states_told(history)) {
            ListingCourse::Ask(next) => listing_known(home, next, history),
            ListingCourse::Ended(Ok(list)) => list == states_told(history) && all_asked(
                home,
                history,
            ),
            ListingCourse::Ended(Err(_)) => false,
        },
{
}

proof fn lemma_listing_step(
    home: Seq<char>,
    listing: ListingView,
    history: Seq<Event>,
    reply: ReplyView,
)
    requires
        listing_known(home, listing, history),
    ensures
        ({
            let longer = history.push((listing.op(), reply));
            &&& printed(longer) == 0
            &&& match listing.next(reply) {
                ListingCourse::Ask(next) => listing_known(home, next, longer),
                ListingCourse::Ended(Ok(list)) => list == states_told(longer) && all_asked(
                    home,
                    longer,
                ),
                ListingCourse::Ended(Err(_)) => true,
            }
        }),
{
    let event = (listing.op(), reply);
    let longer = history.push(event);
    let n = history.len() as int;
    lemma_one_more_event(history, event);
    assert(longer[n] == event);
    match listing.stage {
        ListingStageView::Root(_) => {
            assert(states_told(longer) =~= Seq::empty());
        },
        ListingStageView::Entries(_) => {
            assert(states_told(longer) =~= Seq::empty());
            if let ReplyView::Entries(entries) = reply {
                let ids = container_names(entries);
                assert(listed_names(home, longer, ids));
                lemma_visiting(home, listing, ids, 0, longer);
            }
        },
        ListingStageView::Visit { ids, at, lookup, found } => {
            lemma_still_asked(home, history, event, ids, at);
            lemma_asked_stays(history, event, OpView::Exists(lookup.root));
            match lookup.next(reply) {
                LookupCourse::Ask(_) => {},
                LookupCourse::Ended(_) => {
                    assert(asked(longer, OpView::Exists(place_of(home, ids[at]))));
                    assert(each_asked(home, longer, ids, at + 1));
                    lemma_visiting(home, listing, ids, at + 1, longer);
                },
            }
        },
    }
}

proof fn lemma_ps_listing(
    home: Seq<char>,
    x: SessionView,
    history: Seq<Event>,
    reply: ReplyView,
    now: Seq<char>,
    id: Seq<char>,
)
    requires
        ps_known(home, SessionCourse::Ask(x), history),
        x.stage is Ps,
    ensures
        ps_known(home, x.next(reply, now, id), history.push((x.op(), reply))),
{
    reveal(ps_known);
    let listing = x.stage->Ps_listing;
    let longer = history.push((x.op(), reply));
    lemma_listing_step(home, listing, history, reply);
    let next = x.next(reply, now, id);
    assert(next == crate::commands::showing(home, listing.next(reply)));
    match listing.next(reply) {
        ListingCourse::Ask(_) => {},
        ListingCourse::Ended(Ok(list)) => {
            let steps = ps_steps(list);
            assert(next == finishing(home, steps, 0));
            assert(steps.len() == 1 + list.len());
        },
        ListingCourse::Ended(Err(e)) => {
            let text = crate::commands::complaint("list containers"@, e.message());
            assert(next == complaining(home, text));
            let steps = seq![may(OpView::Complain(text))];
            assert(steps[0] == may(OpView::Complain(text)));
        },
    }
}

proof fn lemma_ps_other(
    home: Seq<char>,
    x: SessionView,
    history: Seq<Event>,
    reply: ReplyView,
    now: Seq<char>,
    id: Seq<char>,
)
    requires
        ps_known(home, SessionCourse::Ask(x), history),
        !(x.stage is Ps),
    ensures
        ps_known(home, x.next(reply, now, id), history.push((x.op(), reply))),
{
    reveal(ps_known);
    let event = (x.op(), reply);
    let longer = history.push(event);
    lemma_one_more_event(history, event);
    lemma_all_asked_stays(home, history, event);
    assert(longer.last() == event);
    let next = x.next(reply, now, id);
    match x.stage {
        StageView::Init { run, .. } => {
            assert(states_told(longer) =~= Seq::empty());
            assert(run.op() is MakeDirs);
            match run.next(reply) {
                crate::plan::Course::Ended(Ok(_)) => {
                    assert(next == at(home, StageView::Ps { listing: ListingView::start(home) }));
                },
                crate::plan::Course::Ended(Err(e)) => {
                    let text = crate::commands::complaint("init state"@, e.message());
                    assert(next == complaining(home, text));
                    let steps = seq![may(OpView::Complain(text))];
                    assert(steps[0] == may(OpView::Complain(text)));
                },
                _ => {},
            }
        },
        StageView::Finish { run, code } => {
            if code == 0 {
                let steps = run.steps;
                assert(steps[run.at] == may(steps[run.at].op) && steps[run.at].op is Print);
                assert(run.next(reply) == crate::plan::place(steps, run.at + 1));
            }
        },
        _ => {},
    }
}

proof fn lemma_ps_known(home: Seq<char>, start: SessionView, told: Telling, n: nat)
    requires
        start == verb_start(home, VerbView::Ps),
    ensures
        ps_known(home, carried(start, told, n).0, carried(start, told, n).1),
    decreases n,
{
    if n == 0 {
        reveal(ps_known);
    } else {
        let m = (n - 1) as nat;
        lemma_ps_known(home, start, told, m);
        let before = carried(start, told, m);
        let reply = (told.answers)(m as int);
        let now = (told.nows)(m as int);
        let id = (told.ids)(m as int);
        if let SessionCourse::Ask(x) = before.0 {
            if x.stage is Ps {
                lemma_ps_listing(home, x, before.1, reply, now, id);
            } else {
                lemma_ps_other(home, x, before.1, reply, now, id);
            }
        }
    }
}

/// `ps` prints a heading and then a line for every state that it was told, in the order in
/// which it was told them; it has asked for every container that there is before it
/// prints, and asks for nothing else. It ends with 0 when all is printed, and with 1 and a
/// complaint where the containers cannot be listed.
pub proof fn law_ps(home: Seq<char>, told: Telling, n: nat)
    ensures
        ({
            let (course, history) = carried(verb_start(home, VerbView::Ps), told, n);
            let base = home + "/.mincontainer/containers"@;
            match course {
                SessionCourse::Ask(x) => match x.op() {
                    OpView::MakeDirs(path) => path == base,
                    OpView::ListDir(path) => path == base,
                    OpView::Exists(path) => path == base || exists|name: Seq<char>|
                        path == #[trigger] place_of(home, name) && named(home, history, name),
                    OpView::LoadState(path) => exists|name: Seq<char>|
                        path == path_joined(#[trigger] place_of(home, name), "state.json"@)
                            && named(home, history, name),
                    OpView::Print(text) => {
                        let k = printed(history) as int;
                        &&& all_asked(home, history)
                        &&& k <= states_told(history).len()
                        &&& text == if k == 0 {
                            "ID                              STATUS    PID\n"@
                        } else {
                            row(states_told(history)[k - 1])
                        }
                    },
                    OpView::Complain(_) => true,
                    _ => false,
                },
                SessionCourse::Middle(_) => false,
                SessionCourse::Exit(code) => {
                    ||| code == 0 && printed(history) == 1 + states_told(history).len()
                    ||| code == 1 && history.len() > 0 && history.last().0 is Complain
                },
            }
        }),
{
    let start = verb_start(home, VerbView::Ps);
    lemma_ps_known(home, start, told, n);
    reveal(ps_known);
    let (course, history) = carried(start, told, n);
    if let SessionCourse::Ask(x) = course {
        match x.stage {
            StageView::Ps { listing } => {
                if let ListingStageView::Visit { ids, at, lookup, .. } = listing.stage {
                    let name = ids[at];
                    assert(named(home, history, name));
                    assert(lookup.root == place_of(home, name));
                }
            },
            StageView::Finish { run, code } => {
                if code == 0 {
                    let list = states_told(history);
                    assert(run.op() == ps_steps(list)[run.at].op);
                }
            },
            _ => {},
        }
    }
}

/// Whether the directory of all containers was listed, and holds one with this name.
pub open spec fn named(home: Seq<char>, history: Seq<Event>, name: Seq<char>) -> bool {
    exists|ids: Seq<Seq<char>>| #[trigger] listed_names(home, history, ids) && ids.contains(name)
}

/// Where the containers cannot be listed, or one of the entries cannot be read, `ps` says
/// so with the reason.
pub proof fn law_ps_fails(home: Seq<char>, told: Telling)
    requires
        (told.answers)(0) is Done,
        (told.answers)(1) == ReplyView::Flag(true),
    ensures
        ({
            let start = verb_start(home, VerbView::Ps);
            let head = "[mincontainer] "@ + "list containers"@ + ": "@ + "config error: "@;
            &&& (told.answers)(2) matches ReplyView::Failed(why) ==> complains(
                start,
                told,
                3,
                head + ("list containers: "@ + why),
            )
            &&& (told.answers)(2) matches ReplyView::Entries(entries) ==> (
            crate::state::unreadable(entries) matches Some(why) ==> complains(
                start,
                told,
                3,
                head + ("read entry: "@ + why),
            ))
        }),
{
    let start = verb_start(home, VerbView::Ps);
    lemma_asks_for(home, VerbView::Ps, told);
    lemma_next(start, told, 1, carried(start, told, 1).0->Ask_0);
    let base = home + "/.mincontainer/containers"@;
    let listing = ListingView { home, stage: ListingStageView::Entries(OpView::ListDir(base)) };
    let y = SessionView { home, stage: StageView::Ps { listing } };
    assert(carried(start, told, 2).0 == SessionCourse::Ask(y));
    lemma_next(start, told, 2, y);
    let begin = "[mincontainer] "@ + "list containers"@ + ": "@;
    if let ReplyView::Failed(why) = (told.answers)(2) {
        let e = "list containers: "@ + why;
        assert(begin + "config error: "@ + e =~= begin + ("config error: "@ + e));
        lemma_complains(home, start, told, 3, begin + ("config error: "@ + e));
    }
    if let ReplyView::Entries(entries) = (told.answers)(2) {
        if let Some(why) = crate::state::unreadable(entries) {
            let e = "read entry: "@ + why;
            assert(begin + "config error: "@ + e =~= begin + ("config error: "@ + e));
            lemma_complains(home, start, told, 3, begin + ("config error: "@ + e));
        }
    }
}


/// A container whose id is ASCII can be listed, however long its id is.
pub proof fn law_ascii_is_listed(state: ContainerStateView)
    requires
        vstd::utf8::is_ascii_chars(state.id),
    ensures
        printable(state),
{
    crate::text::law_cut_ascii(state.id, 32);
}

} // verus!
