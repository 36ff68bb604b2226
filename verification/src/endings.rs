//! Every process and every command of the runtime comes to an end, whatever the host
//! answers.

use crate::cgroups::{CgroupCreationView, CreationCourse, CreationStageView, QuestionView};
use crate::commands::{session_run, SessionCourse, SessionView, StageView};
use crate::config::ContainerConfigView;
use crate::container::{
    LaunchCourse, LaunchStageView, LaunchView, MiddleCourse, MiddleStageView, MiddleView,
    RecordView,
};
use crate::guarantees::{launch_run, middle_run};
use crate::host::ReplyView;
use crate::plan::{Course, PlanRunView};
use crate::state::{ListingCourse, ListingView, UpdateCourse, UpdateStageView, UpdateView};
use vstd::prelude::*;

verus! {

/// How far something is from its end: the parts before the last count more.
pub ghost struct Rank {
    pub stage: nat,
    pub runs: nat,
    pub part: nat,
    pub question: nat,
    pub steps: nat,
}

/// Whether `a` is nearer to the end than `b`.
pub open spec fn nearer(a: Rank, b: Rank) -> bool {
    ||| a.stage < b.stage
    ||| a.stage == b.stage && a.runs < b.runs
    ||| a.stage == b.stage && a.runs == b.runs && a.part < b.part
    ||| a.stage == b.stage && a.runs == b.runs && a.part == b.part && a.question < b.question
    ||| a.stage == b.stage && a.runs == b.runs && a.part == b.part && a.question == b.question
        && a.steps < b.steps
}

/// How many steps of a plan are still ahead.
pub open spec fn plan_ahead(run: PlanRunView) -> nat {
    if run.at < run.steps.len() {
        (run.steps.len() - run.at) as nat
    } else {
        0
    }
}

proof fn lemma_plan_nearer(run: PlanRunView, reply: ReplyView)
    requires
        run.wf(),
    ensures
        run.next(reply) matches Course::Ask(next) ==> next.wf() && plan_ahead(next) < plan_ahead(
            run,
        ),
{
}

// The process between the runtime and a container.

spec fn middle_rank(m: MiddleView) -> Rank {
    let (stage, steps) = match m.stage {
        MiddleStageView::Part(run) => (8nat, plan_ahead(run)),
        MiddleStageView::Unshare(_) => (7, 0),
        MiddleStageView::Fork(_) => (6, 0),
        MiddleStageView::Setup(run) => (5, plan_ahead(run)),
        MiddleStageView::Exec(_) => (4, 0),
        MiddleStageView::Report { .. } => (3, 0),
        MiddleStageView::Wait(_) => (2, 0),
        MiddleStageView::Complain { .. } => (1, 0),
    };
    Rank { stage, runs: 0, part: 0, question: 0, steps }
}

proof fn lemma_middle_nearer(m: MiddleView, reply: ReplyView)
    requires
        m.wf(),
    ensures
        m.next(reply) matches MiddleCourse::Ask(next) ==> next.wf() && nearer(
            middle_rank(next),
            middle_rank(m),
        ),
{
    match m.stage {
        MiddleStageView::Part(run) => lemma_plan_nearer(run, reply),
        MiddleStageView::Setup(run) => lemma_plan_nearer(run, reply),
        _ => {},
    }
}

proof fn lemma_middle_ends(
    cfg: ContainerConfigView,
    answers: spec_fn(int) -> ReplyView,
    n: nat,
    m: MiddleView,
)
    requires
        middle_run(cfg, answers, n).0 == MiddleCourse::Ask(m),
        m.wf(),
    ensures
        exists|k: nat| (#[trigger] middle_run(cfg, answers, k)).0 is Exit,
    decreases middle_rank(m).stage, middle_rank(m).steps,
{
    let reply = answers(n as int);
    lemma_middle_nearer(m, reply);
    assert(middle_run(cfg, answers, n + 1).0 == m.next(reply));
    if let MiddleCourse::Ask(next) = m.next(reply) {
        lemma_middle_ends(cfg, answers, n + 1, next);
    }
}

/// The process between the runtime and the container exits after finitely many
/// operations, whatever the host answers; and so does a container process that is not
/// replaced by its command.
pub proof fn law_middle_ends(cfg: ContainerConfigView, answers: spec_fn(int) -> ReplyView)
    ensures
        exists|k: nat| (#[trigger] middle_run(cfg, answers, k)).0 is Exit,
{
    lemma_middle_ends(cfg, answers, 0, MiddleView::start(cfg));
}

// The process that runs a container.

spec fn creation_rank(c: CgroupCreationView) -> (nat, nat) {
    match c.stage {
        CreationStageView::Ask { question, .. } => match question {
            QuestionView::Controllers => (4, 0),
            QuestionView::Subtree { .. } => (3, 0),
            QuestionView::InitLeaf { .. } => (2, 0),
            QuestionView::Procs { .. } => (1, 0),
        },
        CreationStageView::Finish(run) => (0, plan_ahead(run)),
    }
}

proof fn lemma_creation_nearer(c: CgroupCreationView, reply: ReplyView)
    requires
        c.stage.wf(),
    ensures
        c.next(reply) matches CreationCourse::Ask(next) ==> {
            &&& next.stage.wf()
            &&& creation_rank(next).0 < creation_rank(c).0 || (creation_rank(next).0
                == creation_rank(c).0 && creation_rank(next).1 < creation_rank(c).1)
        },
{
    if let CreationStageView::Finish(run) = c.stage {
        lemma_plan_nearer(run, reply);
    }
}

spec fn update_rank(u: UpdateView) -> (nat, nat) {
    match u.stage {
        UpdateStageView::Load(_) => (1, 0),
        UpdateStageView::Save(run) => (0, plan_ahead(run)),
    }
}

proof fn lemma_update_nearer(u: UpdateView, reply: ReplyView, now: Seq<char>)
    requires
        u.wf(),
    ensures
        u.next(reply, now) matches UpdateCourse::Ask(next) ==> {
            let a = update_rank(next);
            let b = update_rank(u);
            &&& next.wf()
            &&& a.0 < b.0 || (a.0 == b.0 && a.1 < b.1)
        },
{
    if let UpdateStageView::Save(run) = u.stage {
        lemma_plan_nearer(run, reply);
    }
}

spec fn launch_rank(l: LaunchView) -> Rank {
    let (part, question, steps) = match l.stage {
        LaunchStageView::Clock(_) => (16nat, 0nat, 0nat),
        LaunchStageView::Create(c) => (15, creation_rank(c).0, creation_rank(c).1),
        LaunchStageView::Prepare(run) => (14, 0, plan_ahead(run)),
        LaunchStageView::Fork(_) => (13, 0, 0),
        LaunchStageView::Part(run) => (12, 0, plan_ahead(run)),
        LaunchStageView::Learn(_) => (11, 0, 0),
        LaunchStageView::Attach(run) => (10, 0, plan_ahead(run)),
        LaunchStageView::Note(u) => (9, update_rank(u).0, update_rank(u).1),
        LaunchStageView::SetupClock(_) => (8, 0, 0),
        LaunchStageView::Release(_) => (7, 0, 0),
        LaunchStageView::Abandon(_) => (7, 0, 0),
        LaunchStageView::Wait(_) => (6, 0, 0),
        LaunchStageView::WallClock(_) => (5, 0, 0),
        LaunchStageView::Peak(_) => (4, 0, 0),
        LaunchStageView::Current(_) => (3, 0, 0),
        LaunchStageView::Cpu(_) => (2, 0, 0),
        LaunchStageView::Clean(run) => (1, 0, plan_ahead(run)),
    };
    Rank { stage: 0, runs: 0, part, question, steps }
}

proof fn lemma_launch_nearer(l: LaunchView, reply: ReplyView)
    requires
        l.stage.wf(),
    ensures
        l.next(reply) matches LaunchCourse::Ask(next) ==> next.stage.wf() && nearer(
            launch_rank(next),
            launch_rank(l),
        ),
{
    match l.stage {
        LaunchStageView::Create(c) => lemma_creation_nearer(c, reply),
        LaunchStageView::Prepare(run) => lemma_plan_nearer(run, reply),
        LaunchStageView::Part(run) => lemma_plan_nearer(run, reply),
        LaunchStageView::Attach(run) => lemma_plan_nearer(run, reply),
        LaunchStageView::Note(u) => lemma_update_nearer(u, reply, l.stamp()),
        LaunchStageView::Clean(run) => lemma_plan_nearer(run, reply),
        _ => {},
    }
}

proof fn lemma_launch_ends(
    cfg: ContainerConfigView,
    index: u8,
    record: Option<RecordView>,
    answers: spec_fn(int) -> ReplyView,
    n: nat,
    l: LaunchView,
)
    requires
        launch_run(cfg, index, record, answers, n).0 == LaunchCourse::Ask(l),
        l.stage.wf(),
    ensures
        exists|k: nat| !((#[trigger] launch_run(cfg, index, record, answers, k)).0 is Ask),
    decreases launch_rank(l).part, launch_rank(l).question, launch_rank(l).steps,
{
    let reply = answers(n as int);
    lemma_launch_nearer(l, reply);
    assert(launch_run(cfg, index, record, answers, n + 1).0 == l.next(reply));
    if let LaunchCourse::Ask(next) = l.next(reply) {
        lemma_launch_ends(cfg, index, record, answers, n + 1, next);
    }
}

/// A run comes to an end after finitely many operations, whatever the host answers.
pub proof fn law_run_ends(
    cfg: ContainerConfigView,
    index: u8,
    record: Option<RecordView>,
    answers: spec_fn(int) -> ReplyView,
)
    ensures
        exists|k: nat| !((#[trigger] launch_run(cfg, index, record, answers, k)).0 is Ask),
{
    lemma_launch_ends(cfg, index, record, answers, 0, LaunchView::start(cfg, index, record));
}

// The commands.

spec fn listing_rank(l: ListingView) -> (nat, nat, nat) {
    let course = ListingCourse::Ask(l);
    (course.rank(), course.ahead(), course.half())
}

proof fn lemma_listing_nearer(l: ListingView, reply: ReplyView)
    requires
        l.wf(),
    ensures
        l.next(reply) matches ListingCourse::Ask(next) ==> {
            let a = listing_rank(next);
            let b = listing_rank(l);
            &&& next.wf()
            &&& a.0 < b.0 || (a.0 == b.0 && (a.1 < b.1 || (a.1 == b.1 && a.2 < b.2)))
        },
{
}

/// Whether all that a command is about to do is there to be done.
pub open spec fn steady(s: SessionView) -> bool {
    match s.stage {
        StageView::CreateInit { run, .. } => run.wf(),
        StageView::CreateState { run, .. } => run.wf(),
        StageView::CreateConfig { run, .. } => run.wf(),
        StageView::Init { run, .. } => run.wf(),
        StageView::Ps { listing } => listing.wf(),
        StageView::Remove { run, .. } => run.wf(),
        StageView::Start { launch, .. } => launch.stage.wf(),
        StageView::Saved { update, .. } => update.wf(),
        StageView::Noted { update } => update.wf(),
        StageView::Run { launch, .. } => launch.stage.wf(),
        StageView::Bench { bench, launch } => launch.stage.wf() && bench.at < bench.runs,
        StageView::Finish { run, .. } => run.wf(),
        _ => true,
    }
}

spec fn simple(stage: nat, steps: nat) -> Rank {
    Rank { stage, runs: 0, part: 0, question: 0, steps }
}

spec fn launching(stage: nat, runs: nat, l: LaunchView) -> Rank {
    Rank { stage, runs, ..launch_rank(l) }
}

spec fn session_rank(s: SessionView) -> Rank {
    match s.stage {
        StageView::CreateInit { run, .. } => simple(30, plan_ahead(run)),
        StageView::CreateState { run, .. } => simple(29, plan_ahead(run)),
        StageView::CreateConfig { run, .. } => simple(28, plan_ahead(run)),
        StageView::Init { run, .. } => simple(30, plan_ahead(run)),
        StageView::FindStart { .. } => simple(20, 0),
        StageView::FindLogs { .. } => simple(20, 0),
        StageView::FindRm { .. } => simple(20, 0),
        StageView::Stop { lookup } => simple(
            20,
            if lookup.found {
                0
            } else {
                1
            },
        ),
        StageView::Ps { listing } => Rank {
            stage: 20,
            runs: 0,
            part: listing_rank(listing).0,
            question: listing_rank(listing).1,
            steps: listing_rank(listing).2,
        },
        StageView::Remove { run, .. } => simple(19, plan_ahead(run)),
        StageView::Config { .. } => simple(19, 0),
        StageView::Stdout { .. } => simple(18, 0),
        StageView::Stderr { .. } => simple(17, 0),
        StageView::Start { launch, .. } => launching(16, 0, launch),
        StageView::Saved { update, .. } => Rank {
            stage: 15,
            runs: 0,
            part: 0,
            question: update_rank(update).0,
            steps: update_rank(update).1,
        },
        StageView::Broken { .. } => simple(14, 0),
        StageView::Noted { update } => Rank {
            stage: 13,
            runs: 0,
            part: 0,
            question: update_rank(update).0,
            steps: update_rank(update).1,
        },
        StageView::Run { launch, .. } => launching(16, 0, launch),
        StageView::Announce { .. } => simple(17, 0),
        StageView::Bench { bench, launch } => launching(
            16,
            if bench.at < bench.runs {
                (bench.runs - bench.at) as nat
            } else {
                0
            },
            launch,
        ),
        StageView::Finish { run, .. } => simple(1, plan_ahead(run)),
    }
}

/// Whether a command is nearer to its end at `course` than at `s`.
spec fn gains(s: SessionView, course: SessionCourse) -> bool {
    course matches SessionCourse::Ask(next) ==> steady(next) && nearer(
        session_rank(next),
        session_rank(s),
    )
}

proof fn lemma_create_nearer(s: SessionView, reply: ReplyView, now: Seq<char>, fresh: Seq<char>)
    requires
        steady(s),
        s.stage is CreateInit || s.stage is CreateState || s.stage is CreateConfig,
    ensures
        gains(s, s.next(reply, now, fresh)),
{
    match s.stage {
        StageView::CreateInit { run, .. } => lemma_plan_nearer(run, reply),
        StageView::CreateState { run, .. } => lemma_plan_nearer(run, reply),
        StageView::CreateConfig { run, .. } => lemma_plan_nearer(run, reply),
        _ => {},
    }
}

proof fn lemma_find_nearer(s: SessionView, reply: ReplyView, now: Seq<char>, fresh: Seq<char>)
    requires
        steady(s),
        s.stage is Init || s.stage is FindStart || s.stage is FindLogs || s.stage is FindRm,
    ensures
        gains(s, s.next(reply, now, fresh)),
{
    match s.stage {
        StageView::Init { run, .. } => lemma_plan_nearer(run, reply),
        _ => {},
    }
}

proof fn lemma_show_nearer(s: SessionView, reply: ReplyView, now: Seq<char>, fresh: Seq<char>)
    requires
        steady(s),
        s.stage is Stop || s.stage is Ps || s.stage is Remove,
    ensures
        gains(s, s.next(reply, now, fresh)),
{
    match s.stage {
        StageView::Ps { listing } => lemma_listing_nearer(listing, reply),
        StageView::Remove { run, .. } => lemma_plan_nearer(run, reply),
        _ => {},
    }
}

proof fn lemma_start_nearer(s: SessionView, reply: ReplyView, now: Seq<char>, fresh: Seq<char>)
    requires
        steady(s),
        s.stage is Config || s.stage is Stdout || s.stage is Stderr || s.stage is Start,
    ensures
        gains(s, s.next(reply, now, fresh)),
{
    match s.stage {
        StageView::Start { launch, .. } => lemma_launch_nearer(launch, reply),
        _ => {},
    }
}

proof fn lemma_note_nearer(s: SessionView, reply: ReplyView, now: Seq<char>, fresh: Seq<char>)
    requires
        steady(s),
        s.stage is Saved || s.stage is Broken || s.stage is Noted,
    ensures
        gains(s, s.next(reply, now, fresh)),
{
    match s.stage {
        StageView::Saved { update, .. } => lemma_update_nearer(update, reply, now),
        StageView::Noted { update } => lemma_update_nearer(update, reply, now),
        _ => {},
    }
}

proof fn lemma_run_nearer(s: SessionView, reply: ReplyView, now: Seq<char>, fresh: Seq<char>)
    requires
        steady(s),
        s.stage is Run || s.stage is Announce || s.stage is Bench || s.stage is Finish,
    ensures
        gains(s, s.next(reply, now, fresh)),
{
    match s.stage {
        StageView::Run { launch, .. } => lemma_launch_nearer(launch, reply),
        StageView::Bench { launch, .. } => lemma_launch_nearer(launch, reply),
        StageView::Finish { run, .. } => lemma_plan_nearer(run, reply),
        _ => {},
    }
}

proof fn lemma_session_nearer(
    s: SessionView,
    reply: ReplyView,
    now: Seq<char>,
    fresh: Seq<char>,
)
    requires
        steady(s),
    ensures
        gains(s, s.next(reply, now, fresh)),
{
    match s.stage {
        StageView::CreateInit { .. }
        | StageView::CreateState { .. }
        | StageView::CreateConfig { .. } => {
            lemma_create_nearer(s, reply, now, fresh);
        },
        StageView::Init { .. }
        | StageView::FindStart { .. }
        | StageView::FindLogs { .. }
        | StageView::FindRm { .. } => {
            lemma_find_nearer(s, reply, now, fresh);
        },
        StageView::Stop { .. }
        | StageView::Ps { .. }
        | StageView::Remove { .. } => {
            lemma_show_nearer(s, reply, now, fresh);
        },
        StageView::Config { .. }
        | StageView::Stdout { .. }
        | StageView::Stderr { .. }
        | StageView::Start { .. } => {
            lemma_start_nearer(s, reply, now, fresh);
        },
        StageView::Saved { .. }
        | StageView::Broken { .. }
        | StageView::Noted { .. } => {
            lemma_note_nearer(s, reply, now, fresh);
        },
        StageView::Run { .. }
        | StageView::Announce { .. }
        | StageView::Bench { .. }
        | StageView::Finish { .. } => {
            lemma_run_nearer(s, reply, now, fresh);
        },
    }
}

proof fn lemma_session_ends(
    start: SessionCourse,
    answers: spec_fn(int) -> ReplyView,
    nows: spec_fn(int) -> Seq<char>,
    ids: spec_fn(int) -> Seq<char>,
    n: nat,
    s: SessionView,
)
    requires
        session_run(start, answers, nows, ids, n) == SessionCourse::Ask(s),
        steady(s),
    ensures
        exists|k: nat| !((#[trigger] session_run(start, answers, nows, ids, k)) is Ask),
    decreases
            session_rank(s).stage,
            session_rank(s).runs,
            session_rank(s).part,
            session_rank(s).question,
            session_rank(s).steps,
{
    let i = n as int;
    let then = s.next(answers(i), nows(i), ids(i));
    lemma_session_nearer(s, answers(i), nows(i), ids(i));
    assert(session_run(start, answers, nows, ids, n + 1) == then);
    if let SessionCourse::Ask(next) = then {
        lemma_session_ends(start, answers, nows, ids, n + 1, next);
    }
}

/// Every command comes to an end after finitely many operations, whatever the host
/// answers: with an exit code, or as the process between the runtime and a container.
pub proof fn law_command_ends(
    s: SessionView,
    answers: spec_fn(int) -> ReplyView,
    nows: spec_fn(int) -> Seq<char>,
    ids: spec_fn(int) -> Seq<char>,
)
    requires
        s.wf(),
    ensures
        exists|k: nat|
            !((#[trigger] session_run(SessionCourse::Ask(s), answers, nows, ids, k)) is Ask),
{
    lemma_session_ends(SessionCourse::Ask(s), answers, nows, ids, 0, s);
}

} // verus!
