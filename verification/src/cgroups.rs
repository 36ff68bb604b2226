//! Control groups: the limits of a container, and the account of what it used.

use crate::config::Resources;
use crate::error::{RuntimeError, RuntimeErrorView};
use crate::host::{Op, OpView, Reply, ReplyView};
use crate::plan::{
    may, must, place, unskippable, Course, OnFailure, OnFailureView, Plan, PlanRun, PlanRunView,
    PlanTurn, Step, StepView,
};
use crate::scan::{join_path, lines, path_joined, split_lines, split_words, trim, trimmed, words};
use crate::state::opt_view;
use crate::text::{
    begins_with, cat, cat3, decimal, join, joined, number_text, parse_u64, parsed_u64, same,
    signed_decimal, signed_text, slice, views,
};
use vstd::prelude::*;
use vstd::string::StrSliceExecFns;

verus! {

/// Where the control groups of the host are found.
pub open spec fn cgroup_root() -> Seq<char> {
    "/sys/fs/cgroup"@
}

/// The file of the root that lists the controllers there are.
pub open spec fn controllers_file() -> Seq<char> {
    "/sys/fs/cgroup/cgroup.controllers"@
}

/// The file of the root that enables controllers for its children.
pub open spec fn subtree_file() -> Seq<char> {
    "/sys/fs/cgroup/cgroup.subtree_control"@
}

/// The file of the root that lists the processes in it.
pub open spec fn procs_file() -> Seq<char> {
    "/sys/fs/cgroup/cgroup.procs"@
}

/// The leaf that the processes of the root are moved into.
pub open spec fn init_leaf() -> Seq<char> {
    "/sys/fs/cgroup/mc.init"@
}

/// The file of that leaf by which a process is moved into it.
pub open spec fn init_procs_file() -> Seq<char> {
    "/sys/fs/cgroup/mc.init/cgroup.procs"@
}

/// A cgroup v2 leaf that limits and measures one container.
#[derive(Debug)]
pub struct Cgroup {
    pub path: String,
}

impl View for Cgroup {
    type V = Seq<char>;

    open spec fn view(&self) -> Seq<char> {
        self.path@
    }
}

/// The path of the leaf with the name `id`.
pub open spec fn leaf_path(id: Seq<char>) -> Seq<char> {
    path_joined(cgroup_root(), id)
}

// Delegation.

/// The request to enable the controller `name`, if `available` lists it.
pub open spec fn wanted_one(available: Seq<char>, name: Seq<char>) -> Seq<Seq<char>> {
    if words(available).contains(name) {
        seq!["+"@ + name]
    } else {
        Seq::empty()
    }
}

/// The requests to enable the controllers we need, as far as `available` lists them.
pub open spec fn wanted(available: Seq<char>) -> Seq<Seq<char>> {
    wanted_one(available, "memory"@) + wanted_one(available, "cpu"@) + wanted_one(
        available,
        "pids"@,
    )
}

/// Whether one of `names` is the controller that `request` asks for.
pub open spec fn grants(names: Seq<Seq<char>>, request: Seq<char>) -> bool {
    exists|j: int| 0 <= j < names.len() && "+"@ + #[trigger] names[j] == request
}

/// Whether `current` lists every controller that `want` asks for.
pub open spec fn is_delegated(want: Seq<Seq<char>>, current: Seq<char>) -> bool {
    forall|i: int| 0 <= i < want.len() ==> #[trigger] grants(words(current), want[i])
}

fn holds(list: &Vec<String>, word: &str) -> (r: bool)
    ensures
        r == views(list@).contains(word@),
{
    for i in 0..list.len()
        invariant
            forall|j: int| 0 <= j < i ==> views(list@)[j] != word@,
    {
        if same(list[i].as_str(), word) {
            assert(views(list@)[i as int] == word@);
            return true;
        }
    }
    false
}

fn want_one(available: &Vec<String>, name: &str) -> (r: Vec<String>)
    ensures
        views(r@) == (if views(available@).contains(name@) {
            seq!["+"@ + name@]
        } else {
            Seq::empty()
        }),
{
    let mut r: Vec<String> = Vec::new();
    if holds(available, name) {
        r.push(cat("+", name));
        assert(views(r@) =~= seq!["+"@ + name@]);
    } else {
        assert(views(r@) =~= Seq::<Seq<char>>::empty());
    }
    r
}

/// The requests to enable the controllers we need, as far as they are available.
pub fn wanted_controllers(available: &str) -> (r: Vec<String>)
    ensures
        views(r@) == wanted(available@),
{
    let list: Vec<String> = split_words(available);
    let mut r: Vec<String> = want_one(&list, "memory");
    let mut cpu: Vec<String> = want_one(&list, "cpu");
    let mut pids: Vec<String> = want_one(&list, "pids");
    let ghost parts = views(r@) + views(cpu@) + views(pids@);
    r.append(&mut cpu);
    r.append(&mut pids);
    assert(views(r@) =~= parts);
    r
}

/// Whether one of `names` is the controller that `request` asks for.
fn granted(names: &Vec<String>, request: &str) -> (r: bool)
    ensures
        r == grants(views(names@), request@),
{
    for j in 0..names.len()
        invariant
            forall|m: int| 0 <= m < j ==> "+"@ + #[trigger] views(names@)[m] != request@,
    {
        let one: String = cat("+", names[j].as_str());
        assert(one@ == "+"@ + views(names@)[j as int]);
        if same(one.as_str(), request) {
            return true;
        }
    }
    false
}

/// Whether every controller that `want` asks for is enabled already.
pub fn already_delegated(want: &Vec<String>, current: &str) -> (r: bool)
    ensures
        r == is_delegated(views(want@), current@),
{
    let list: Vec<String> = split_words(current);
    for i in 0..want.len()
        invariant
            views(list@) == words(current@),
            forall|k: int| 0 <= k < i ==> #[trigger] grants(words(current@), views(want@)[k]),
    {
        assert(views(want@)[i as int] == want@[i as int]@);
        if !granted(&list, want[i].as_str()) {
            return false;
        }
    }
    true
}

/// The steps that move each process of `pids` out of the root.
pub open spec fn moves(pids: Seq<Seq<char>>) -> Seq<StepView> {
    Seq::new(
        pids.len(),
        |i: int| may(OpView::WriteFile { path: init_procs_file(), contents: pids[i] }),
    )
}

/// The step that enables the controllers `want` for the children of the root.
pub open spec fn enable_step(want: Seq<Seq<char>>) -> StepView {
    must(
        OpView::WriteFile { path: subtree_file(), contents: joined(want) },
        OnFailureView::Cgroup("enable "@ + joined(want)),
    )
}

/// The step that creates the leaf of a container.
pub open spec fn leaf_step(leaf: Seq<char>) -> StepView {
    must(OpView::MakeDirs(leaf), OnFailureView::Cgroup("mkdir "@ + leaf))
}

/// The steps that empty the root of the processes `pids`, enable the controllers
/// `want` and create the leaf.
pub open spec fn delegation_steps(
    pids: Seq<Seq<char>>,
    want: Seq<Seq<char>>,
    leaf: Seq<char>,
) -> Seq<StepView> {
    moves(pids) + seq![enable_step(want), leaf_step(leaf)]
}

fn make_leaf(leaf: &str) -> (r: Step)
    ensures
        r@ == leaf_step(leaf@),
{
    let what: String = cat("mkdir ", leaf);
    Step::must(Op::MakeDirs(leaf.to_owned()), OnFailure::Cgroup(what))
}

fn delegate(procs: &str, want: &Vec<String>, leaf: &str) -> (plan: Plan)
    ensures
        plan@ == delegation_steps(words(procs@), views(want@), leaf@),
{
    let pids: Vec<String> = split_words(procs);
    let ghost all = words(procs@);
    let mut plan: Plan = Plan::new();
    assert(plan@ =~= moves(all).take(0));
    for i in 0..pids.len()
        invariant
            views(pids@) == all,
            plan@ == moves(all).take(i as int),
    {
        assert(pids@[i as int]@ == views(pids@)[i as int]);
        plan.push(
            Step::may(
                Op::WriteFile {
                    path: "/sys/fs/cgroup/mc.init/cgroup.procs".to_owned(),
                    contents: pids[i].clone(),
                },
            ),
        );
        assert(plan@ =~= moves(all).take(i + 1));
    }
    assert(moves(all).take(pids@.len() as int) =~= moves(all));
    let list: String = join(want);
    let what: String = cat("enable ", list.as_str());
    plan.push(
        Step::must(
            Op::WriteFile {
                path: "/sys/fs/cgroup/cgroup.subtree_control".to_owned(),
                contents: list,
            },
            OnFailure::Cgroup(what),
        ),
    );
    plan.push(make_leaf(leaf));
    assert(plan@ =~= delegation_steps(all, views(want@), leaf@));
    plan
}

/// What the answer to a question decides while a leaf is created.
#[derive(Debug)]
pub enum Question {
    /// Which controllers are there?
    Controllers,
    /// Which of those we want are enabled?
    Subtree { want: Vec<String> },
    /// Could the leaf for the processes of the root be created?
    InitLeaf { want: Vec<String> },
    /// Which processes are in the root?
    Procs { want: Vec<String> },
}

/// The model of a [`Question`].
pub ghost enum QuestionView {
    Controllers,
    Subtree { want: Seq<Seq<char>> },
    InitLeaf { want: Seq<Seq<char>> },
    Procs { want: Seq<Seq<char>> },
}

impl View for Question {
    type V = QuestionView;

    open spec fn view(&self) -> QuestionView {
        match self {
            Question::Controllers => QuestionView::Controllers,
            Question::Subtree { want } => QuestionView::Subtree { want: views(want@) },
            Question::InitLeaf { want } => QuestionView::InitLeaf { want: views(want@) },
            Question::Procs { want } => QuestionView::Procs { want: views(want@) },
        }
    }
}

/// How far the creation of a leaf has come.
#[derive(Debug)]
pub enum CreationStage {
    /// An operation is to be done, and its answer decides what comes next.
    Ask { op: Op, question: Question },
    /// All is decided.
    Finish(PlanRun),
}

/// The model of a [`CreationStage`].
pub ghost enum CreationStageView {
    Ask { op: OpView, question: QuestionView },
    Finish(PlanRunView),
}

impl View for CreationStage {
    type V = CreationStageView;

    open spec fn view(&self) -> CreationStageView {
        match self {
            CreationStage::Ask { op, question } => CreationStageView::Ask {
                op: op@,
                question: question@,
            },
            CreationStage::Finish(run) => CreationStageView::Finish(run@),
        }
    }
}

impl CreationStageView {
    pub open spec fn wf(self) -> bool {
        match self {
            CreationStageView::Ask { .. } => true,
            CreationStageView::Finish(run) => run.wf(),
        }
    }

    /// The operation to be done now.
    pub open spec fn op(self) -> OpView {
        match self {
            CreationStageView::Ask { op, .. } => op,
            CreationStageView::Finish(run) => run.op(),
        }
    }
}

/// A leaf that is being created.
///
/// cgroup v2 forbids a cgroup from *both* containing processes and enabling
/// controllers in `subtree_control` (the "no internal process" rule), unless it
/// is the true root. Inside a container the mount root is only a *namespace*
/// root, so it is not exempt: our own runtime process living there blocks
/// delegation. All processes of the root are therefore moved into a dedicated leaf
/// first, which empties the root and lets the controllers be enabled.
#[derive(Debug)]
pub struct CgroupCreation {
    pub leaf: String,
    pub stage: CreationStage,
}

/// The model of a [`CgroupCreation`].
pub ghost struct CgroupCreationView {
    pub leaf: Seq<char>,
    pub stage: CreationStageView,
}

impl View for CgroupCreation {
    type V = CgroupCreationView;

    open spec fn view(&self) -> CgroupCreationView {
        CgroupCreationView { leaf: self.leaf@, stage: self.stage@ }
    }
}

/// What comes of the creation of a leaf next.
#[derive(Debug)]
pub enum CreationTurn {
    Ask(CgroupCreation),
    Ended(Result<Cgroup, RuntimeError>),
}

/// The model of a [`CreationTurn`].
pub ghost enum CreationCourse {
    Ask(CgroupCreationView),
    Ended(Result<Seq<char>, RuntimeErrorView>),
}

impl View for CreationTurn {
    type V = CreationCourse;

    open spec fn view(&self) -> CreationCourse {
        match self {
            CreationTurn::Ask(c) => CreationCourse::Ask(c@),
            CreationTurn::Ended(Ok(g)) => CreationCourse::Ended(Ok(g@)),
            CreationTurn::Ended(Err(e)) => CreationCourse::Ended(Err(e@)),
        }
    }
}

impl CreationCourse {
    pub open spec fn wf(self) -> bool {
        match self {
            CreationCourse::Ask(c) => c.stage.wf(),
            CreationCourse::Ended(_) => true,
        }
    }
}

/// The creation of the leaf `leaf` when its last plan stands at `course`.
pub open spec fn finishing(leaf: Seq<char>, course: Course) -> CreationCourse {
    match course {
        Course::Ask(run) => CreationCourse::Ask(
            CgroupCreationView { leaf, stage: CreationStageView::Finish(run) },
        ),
        Course::Ended(Ok(_)) => CreationCourse::Ended(Ok(leaf)),
        Course::Ended(Err(e)) => CreationCourse::Ended(Err(e)),
    }
}

/// The creation of the leaf `leaf` when `op` is to be done for `question`.
pub open spec fn asking(leaf: Seq<char>, op: OpView, question: QuestionView) -> CreationCourse {
    CreationCourse::Ask(
        CgroupCreationView { leaf, stage: CreationStageView::Ask { op, question } },
    )
}

impl CgroupCreationView {
    /// Where the creation begins: with the question which controllers there are.
    pub open spec fn start(leaf: Seq<char>) -> CgroupCreationView {
        CgroupCreationView {
            leaf,
            stage: CreationStageView::Ask {
                op: OpView::ReadFile(controllers_file()),
                question: QuestionView::Controllers,
            },
        }
    }

    /// What comes of it when the host answers with `reply`.
    pub open spec fn next(self, reply: ReplyView) -> CreationCourse {
        let leaf = self.leaf;
        match self.stage {
            CreationStageView::Ask { question, .. } => match question {
                QuestionView::Controllers => match reply.text() {
                    None => CreationCourse::Ended(
                        Err(
                            RuntimeErrorView::Cgroup(
                                "read cgroup.controllers: "@ + reply.reason(),
                            ),
                        ),
                    ),
                    Some(available) => if wanted(available).len() == 0 {
                        CreationCourse::Ended(
                            Err(
                                RuntimeErrorView::Cgroup(
                                    "no memory/cpu/pids controllers available (need cgroup v2, privileged)"@,
                                ),
                            ),
                        )
                    } else {
                        asking(
                            leaf,
                            OpView::ReadFile(subtree_file()),
                            QuestionView::Subtree { want: wanted(available) },
                        )
                    },
                },
                QuestionView::Subtree { want } => if reply.text() is Some && is_delegated(
                    want,
                    reply.text()->0,
                ) {
                    finishing(leaf, place(seq![leaf_step(leaf)], 0))
                } else {
                    asking(leaf, OpView::MakeDirs(init_leaf()), QuestionView::InitLeaf { want })
                },
                QuestionView::InitLeaf { want } => if reply is Done {
                    asking(leaf, OpView::ReadFile(procs_file()), QuestionView::Procs { want })
                } else {
                    CreationCourse::Ended(
                        Err(RuntimeErrorView::Cgroup("mkdir mc.init: "@ + reply.reason())),
                    )
                },
                QuestionView::Procs { want } => {
                    let procs = match reply.text() {
                        Some(t) => t,
                        None => Seq::empty(),
                    };
                    finishing(leaf, place(delegation_steps(words(procs), want, leaf), 0))
                },
            },
            CreationStageView::Finish(run) => finishing(leaf, run.next(reply)),
        }
    }
}

fn finish(leaf: String, turn: PlanTurn) -> (r: CreationTurn)
    requires
        turn@.wf(),
    ensures
        r@ == finishing(leaf@, turn@),
        r@.wf(),
{
    match turn {
        PlanTurn::Ask(run) => CreationTurn::Ask(
            CgroupCreation { leaf, stage: CreationStage::Finish(run) },
        ),
        PlanTurn::Ended(Ok(_)) => CreationTurn::Ended(Ok(Cgroup { path: leaf })),
        PlanTurn::Ended(Err(e)) => CreationTurn::Ended(Err(e)),
    }
}

impl CgroupCreation {
    /// The operation to be done now.
    pub fn op(&self) -> (r: &Op)
        requires
            self@.stage.wf(),
        ensures
            r@ == self@.stage.op(),
    {
        match &self.stage {
            CreationStage::Ask { op, .. } => op,
            CreationStage::Finish(run) => run.op(),
        }
    }

    /// Go on from the answer to that operation.
    pub fn resume(self, reply: Reply) -> (r: CreationTurn)
        requires
            self@.stage.wf(),
        ensures
            r@ == self@.next(reply@),
            r@.wf(),
    {
        let leaf: String = self.leaf;
        match self.stage {
            CreationStage::Ask { question, .. } => match question {
                Question::Controllers => {
                    let why: String = reply.reason();
                    match reply.into_text() {
                        None => CreationTurn::Ended(
                            Err(
                                RuntimeError::Cgroup(
                                    cat("read cgroup.controllers: ", why.as_str()),
                                ),
                            ),
                        ),
                        Some(available) => {
                            let want: Vec<String> = wanted_controllers(available.as_str());
                            assert(views(want@).len() == want@.len());
                            if want.len() == 0 {
                                CreationTurn::Ended(
                                    Err(
                                        RuntimeError::Cgroup(
                                            "no memory/cpu/pids controllers available (need cgroup v2, privileged)".to_owned(),
                                        ),
                                    ),
                                )
                            } else {
                                CreationTurn::Ask(
                                    CgroupCreation {
                                        leaf,
                                        stage: CreationStage::Ask {
                                            op: Op::ReadFile(
                                                "/sys/fs/cgroup/cgroup.subtree_control".to_owned(),
                                            ),
                                            question: Question::Subtree { want },
                                        },
                                    },
                                )
                            }
                        },
                    }
                },
                Question::Subtree { want } => {
                    let done: bool = match reply.into_text() {
                        Some(current) => already_delegated(&want, current.as_str()),
                        None => false,
                    };
                    if done {
                        let mut plan: Plan = Plan::new();
                        plan.push(make_leaf(leaf.as_str()));
                        assert(plan@ =~= seq![leaf_step(leaf@)]);
                        finish(leaf, PlanRun::start(plan))
                    } else {
                        CreationTurn::Ask(
                            CgroupCreation {
                                leaf,
                                stage: CreationStage::Ask {
                                    op: Op::MakeDirs("/sys/fs/cgroup/mc.init".to_owned()),
                                    question: Question::InitLeaf { want },
                                },
                            },
                        )
                    }
                },
                Question::InitLeaf { want } => if reply.is_done() {
                    CreationTurn::Ask(
                        CgroupCreation {
                            leaf,
                            stage: CreationStage::Ask {
                                op: Op::ReadFile("/sys/fs/cgroup/cgroup.procs".to_owned()),
                                question: Question::Procs { want },
                            },
                        },
                    )
                } else {
                    CreationTurn::Ended(
                        Err(RuntimeError::Cgroup(cat("mkdir mc.init: ", reply.reason().as_str()))),
                    )
                },
                Question::Procs { want } => {
                    let procs: String = match reply.into_text() {
                        Some(t) => t,
                        None => String::new(),
                    };
                    let plan: Plan = delegate(procs.as_str(), &want, leaf.as_str());
                    finish(leaf, PlanRun::start(plan))
                },
            },
            CreationStage::Finish(run) => finish(leaf, run.resume(reply)),
        }
    }
}

// The leaf of a container.

/// The step that writes `value` into the file `file` of the leaf at `path`.
pub open spec fn write_step(path: Seq<char>, file: Seq<char>, value: Seq<char>) -> StepView {
    must(
        OpView::WriteFile { path: path_joined(path, file), contents: value },
        OnFailureView::Cgroup(
            "write "@ + path_joined(path, file) + "=\""@ + value + "\""@,
        ),
    )
}

/// The steps that limit memory. Swap is disabled so the memory ceiling is a true RSS
/// ceiling; that need not succeed.
pub open spec fn memory_steps(path: Seq<char>, r: Resources) -> Seq<StepView> {
    if r.memory_max > 0 {
        seq![
            write_step(path, "memory.max"@, decimal(r.memory_max as nat)),
            may(
                OpView::WriteFile {
                    path: path_joined(path, "memory.swap.max"@),
                    contents: "0"@,
                },
            ),
        ]
    } else {
        Seq::empty()
    }
}

/// The step that limits the CPU.
pub open spec fn cpu_steps(path: Seq<char>, r: Resources) -> Seq<StepView> {
    if r.cpu_quota > 0 {
        seq![
            write_step(
                path,
                "cpu.max"@,
                decimal(r.cpu_quota as nat) + " "@ + decimal(r.cpu_period as nat),
            ),
        ]
    } else {
        Seq::empty()
    }
}

/// The step that limits the number of processes.
pub open spec fn pids_steps(path: Seq<char>, r: Resources) -> Seq<StepView> {
    if r.pids_max > 0 {
        seq![write_step(path, "pids.max"@, decimal(r.pids_max as nat))]
    } else {
        Seq::empty()
    }
}

/// The steps that apply the limits `r` to the leaf at `path`.
pub open spec fn limit_steps(path: Seq<char>, r: Resources) -> Seq<StepView> {
    memory_steps(path, r) + cpu_steps(path, r) + pids_steps(path, r)
}

/// The number that a file of a leaf holds, if it could be read and holds one.
pub open spec fn reading(text: Option<Seq<char>>) -> Option<u64> {
    match text {
        Some(t) => parsed_u64(trimmed(t)),
        None => None,
    }
}

/// What the first line of `list` that tells the CPU time says of it.
pub open spec fn usage(list: Seq<Seq<char>>) -> Option<u64>
    decreases list.len(),
{
    if list.len() == 0 {
        None
    } else if "usage_usec "@.is_prefix_of(list[0]) {
        parsed_u64(trimmed(list[0].skip(11)))
    } else {
        usage(list.drop_first())
    }
}

fn usage_in(text: &str) -> (r: Option<u64>)
    ensures
        r == usage(lines(text@)),
{
    let list: Vec<String> = split_lines(text);
    let ghost all = lines(text@);
    proof {
        reveal_strlit("usage_usec ");
    }
    assert(all.skip(0) =~= all);
    for i in 0..list.len()
        invariant
            views(list@) == all,
            all == lines(text@),
            usage(all) == usage(all.skip(i as int)),
            "usage_usec "@.len() == 11,
    {
        assert(all.skip(i as int)[0] == list@[i as int]@);
        if begins_with(list[i].as_str(), "usage_usec ") {
            let len: usize = list[i].as_str().unicode_len();
            let rest: String = slice(list[i].as_str(), 11, len);
            assert(rest@ =~= list@[i as int]@.skip(11));
            return parse_u64(trim(rest.as_str()).as_str());
        }
        assert(all.skip(i as int).drop_first() =~= all.skip(i + 1));
    }
    None
}

impl Cgroup {
    /// The leaf of the container `id`, whether it exists or not.
    pub fn leaf(id: &str) -> (r: Self)
        ensures
            r@ == leaf_path(id@),
    {
        Cgroup { path: join_path("/sys/fs/cgroup", id) }
    }

    /// Create the cgroup leaf and enable the controllers we need.
    pub fn create(id: &str) -> (r: CgroupCreation)
        ensures
            r@ == CgroupCreationView::start(leaf_path(id@)),
            r@.stage.wf(),
    {
        CgroupCreation {
            leaf: Cgroup::leaf(id).path,
            stage: CreationStage::Ask {
                op: Op::ReadFile("/sys/fs/cgroup/cgroup.controllers".to_owned()),
                question: Question::Controllers,
            },
        }
    }

    /// Write one file of the leaf.
    fn write(&self, file: &str, value: &str) -> (r: Step)
        ensures
            r@ == write_step(self@, file@, value@),
    {
        let path: String = join_path(self.path.as_str(), file);
        let what: String = cat3("write ", path.as_str(), "=\"");
        let what: String = cat3(what.as_str(), value, "\"");
        Step::must(
            Op::WriteFile { path, contents: value.to_owned() },
            OnFailure::Cgroup(what),
        )
    }

    /// Apply the configured resource limits.
    pub fn apply(&self, r: &Resources) -> (plan: Plan)
        ensures
            plan@ == limit_steps(self@, *r),
    {
        let mut plan: Plan = Plan::new();
        if r.memory_max > 0 {
            plan.push(self.write("memory.max", number_text(r.memory_max).as_str()));
            plan.push(
                Step::may(
                    Op::WriteFile {
                        path: join_path(self.path.as_str(), "memory.swap.max"),
                        contents: "0".to_owned(),
                    },
                ),
            );
        }
        assert(plan@ =~= memory_steps(self@, *r));
        if r.cpu_quota > 0 {
            let quota: String = number_text(r.cpu_quota);
            let period: String = number_text(r.cpu_period);
            let value: String = cat3(quota.as_str(), " ", period.as_str());
            plan.push(self.write("cpu.max", value.as_str()));
        }
        assert(plan@ =~= memory_steps(self@, *r) + cpu_steps(self@, *r));
        if r.pids_max > 0 {
            plan.push(self.write("pids.max", number_text(r.pids_max).as_str()));
        }
        assert(plan@ =~= limit_steps(self@, *r));
        plan
    }

    /// Move a process (and thus its future children) into this cgroup.
    pub fn add_process(&self, pid: i32) -> (r: Step)
        ensures
            r@ == write_step(self@, "cgroup.procs"@, signed_decimal(pid as int)),
    {
        self.write("cgroup.procs", signed_text(pid).as_str())
    }

    /// The file that holds the peak memory used (kernel >= 5.19).
    pub fn peak_file(&self) -> (r: Op)
        ensures
            r@ == OpView::ReadFile(path_joined(self@, "memory.peak"@)),
    {
        Op::ReadFile(join_path(self.path.as_str(), "memory.peak"))
    }

    /// The file that holds the memory used now.
    pub fn current_file(&self) -> (r: Op)
        ensures
            r@ == OpView::ReadFile(path_joined(self@, "memory.current"@)),
    {
        Op::ReadFile(join_path(self.path.as_str(), "memory.current"))
    }

    /// The file that holds the CPU time consumed.
    pub fn stat_file(&self) -> (r: Op)
        ensures
            r@ == OpView::ReadFile(path_joined(self@, "cpu.stat"@)),
    {
        Op::ReadFile(join_path(self.path.as_str(), "cpu.stat"))
    }

    /// Peak memory used by the cgroup, in bytes: what memory.peak holds; where that
    /// is not to be had, what memory.current holds.
    pub fn peak_memory(&self, peak: &Option<String>, current: &Option<String>) -> (r: Option<u64>)
        ensures
            r == (if reading(opt_view(*peak)) is Some {
                reading(opt_view(*peak))
            } else {
                reading(opt_view(*current))
            }),
    {
        if let Some(text) = peak {
            if let Some(n) = parse_u64(trim(text.as_str()).as_str()) {
                return Some(n);
            }
        }
        if let Some(text) = current {
            if let Some(n) = parse_u64(trim(text.as_str()).as_str()) {
                return Some(n);
            }
        }
        None
    }

    /// Total CPU time consumed by the cgroup, in microseconds, from what cpu.stat
    /// holds.
    pub fn cpu_usage_usec(&self, stat: &Option<String>) -> (r: Option<u64>)
        ensures
            r == (match opt_view(*stat) {
                Some(text) => usage(lines(text)),
                None => None,
            }),
    {
        match stat {
            None => None,
            Some(text) => usage_in(text.as_str()),
        }
    }

    /// Remove the cgroup. Must be empty (no processes) first.
    ///
    /// It is passed over where it fails.
    pub fn cleanup(&self) -> (r: Step)
        ensures
            r@ == may(OpView::RemoveDir(self@)),
    {
        Step::may(Op::RemoveDir(self.path.clone()))
    }
}

// What holds of every leaf.

/// A limit of 0 is no limit: nothing is written for it.
pub proof fn law_zero_is_unlimited(path: Seq<char>, r: Resources)
    ensures
        r.memory_max == 0 ==> memory_steps(path, r).len() == 0,
        r.cpu_quota == 0 ==> cpu_steps(path, r).len() == 0,
        r.pids_max == 0 ==> pids_steps(path, r).len() == 0,
        r.memory_max == 0 && r.cpu_quota == 0 && r.pids_max == 0 ==> limit_steps(path, r).len()
            == 0,
{
}

/// Every limit that is given must be written, and none of the steps can be skipped.
pub proof fn law_limits_are_written(path: Seq<char>, r: Resources)
    ensures
        crate::plan::closed(limit_steps(path, r)),
        r.memory_max > 0 ==> limit_steps(path, r).contains(
            write_step(path, "memory.max"@, decimal(r.memory_max as nat)),
        ),
        r.cpu_quota > 0 ==> limit_steps(path, r).contains(
            write_step(
                path,
                "cpu.max"@,
                decimal(r.cpu_quota as nat) + " "@ + decimal(r.cpu_period as nat),
            ),
        ),
        r.pids_max > 0 ==> limit_steps(path, r).contains(
            write_step(path, "pids.max"@, decimal(r.pids_max as nat)),
        ),
        forall|i: int| 0 <= i <= limit_steps(path, r).len() ==> unskippable(limit_steps(path, r), i),
{
    let all = limit_steps(path, r);
    assert forall|i: int| 0 <= i < all.len() implies (#[trigger] all[i]).skip == 0 by {}
    if r.memory_max > 0 {
        assert(all[0] == write_step(path, "memory.max"@, decimal(r.memory_max as nat)));
    }
    let m = memory_steps(path, r).len() as int;
    if r.cpu_quota > 0 {
        assert(all[m] == cpu_steps(path, r)[0]);
    }
    let c = m + cpu_steps(path, r).len();
    if r.pids_max > 0 {
        assert(all[c] == pids_steps(path, r)[0]);
    }
}

/// The controllers are enabled only after every process of the root was moved out of
/// it, or could not be moved: the "no internal process" rule.
pub proof fn law_root_is_emptied_first(
    pids: Seq<Seq<char>>,
    want: Seq<Seq<char>>,
    leaf: Seq<char>,
    answers: spec_fn(int) -> ReplyView,
    i: int,
)
    requires
        0 <= i < pids.len(),
        crate::plan::taken(delegation_steps(pids, want, leaf), 0, answers).contains(
            pids.len() as int,
        ),
    ensures
        delegation_steps(pids, want, leaf)[pids.len() as int] == enable_step(want),
        delegation_steps(pids, want, leaf)[i].op == (OpView::WriteFile {
            path: init_procs_file(),
            contents: pids[i],
        }),
        crate::plan::taken(delegation_steps(pids, want, leaf), 0, answers).contains(i),
{
    let steps = delegation_steps(pids, want, leaf);
    assert forall|k: int| 0 <= k < i implies k + 1 + (#[trigger] steps[k]).skip <= i by {
        assert(steps[k] == moves(pids)[k]);
    }
    crate::plan::law_nothing_left_out(steps, 0, answers, i, pids.len() as int);
    assert(steps[i] == moves(pids)[i]);
}

/// Nothing is written to enable controllers where those we want are enabled already:
/// the leaf is created, and that is all.
pub proof fn law_delegated_once(leaf: Seq<char>, want: Seq<Seq<char>>, current: Seq<char>)
    requires
        is_delegated(want, current),
    ensures
        ({
            let asked = CgroupCreationView {
                leaf,
                stage: CreationStageView::Ask {
                    op: OpView::ReadFile(subtree_file()),
                    question: QuestionView::Subtree { want },
                },
            };
            asked.next(ReplyView::Text(current)) == finishing(leaf, place(seq![leaf_step(leaf)], 0))
        }),
{
}

/// Where every controller that is available is enabled, those we want are found
/// enabled.
pub proof fn law_all_enabled_is_delegated(available: Seq<char>)
    ensures
        forall|i: int|
            0 <= i < wanted(available).len() ==> grants(
                words(available),
                #[trigger] wanted(available)[i],
            ),
        is_delegated(wanted(available), available),
{
    let all = wanted(available);
    assert forall|i: int| 0 <= i < all.len() implies grants(words(available), #[trigger] all[i]) by {
        let name = if all[i] == "+"@ + "memory"@ {
            "memory"@
        } else if all[i] == "+"@ + "cpu"@ {
            "cpu"@
        } else {
            "pids"@
        };
        let first = wanted_one(available, "memory"@);
        let second = wanted_one(available, "cpu"@);
        let third = wanted_one(available, "pids"@);
        if i < first.len() {
            assert(all[i] == first[i]);
        } else if i < first.len() + second.len() {
            assert(all[i] == second[i - first.len()]);
        } else {
            assert(all[i] == third[i - first.len() - second.len()]);
        }
        assert(all[i] == "+"@ + name);
        assert(words(available).contains(name)) by {
            if i < first.len() {
            } else if i < first.len() + second.len() {
                lemma_plus_is_one_to_one("cpu"@, name);
            } else {
                lemma_plus_is_one_to_one("pids"@, name);
            }
        }
        let j = choose|j: int| 0 <= j < words(available).len() && words(available)[j] == name;
        assert("+"@ + words(available)[j] == all[i]);
    }
}

proof fn lemma_plus_is_one_to_one(a: Seq<char>, b: Seq<char>)
    requires
        "+"@ + a == "+"@ + b,
    ensures
        a == b,
{
    reveal_strlit("+");
    assert(a =~= ("+"@ + a).skip(1));
    assert(b =~= ("+"@ + b).skip(1));
}


/// Where the creation of a leaf stands when the host has answered `n` operations, the one
/// at position `i` with `answers(i)`.
pub open spec fn creation_run(
    leaf: Seq<char>,
    answers: spec_fn(int) -> ReplyView,
    n: nat,
) -> CreationCourse
    decreases n,
{
    if n == 0 {
        CreationCourse::Ask(CgroupCreationView::start(leaf))
    } else {
        match creation_run(leaf, answers, (n - 1) as nat) {
            CreationCourse::Ask(c) => c.next(answers(n - 1)),
            other => other,
        }
    }
}

/// Whether the creation of a leaf asks for `op` when the host has answered `n` operations.
pub open spec fn creation_asks(
    leaf: Seq<char>,
    answers: spec_fn(int) -> ReplyView,
    n: nat,
    op: OpView,
) -> bool {
    creation_run(leaf, answers, n) matches CreationCourse::Ask(c) && c.stage.op() == op
}

/// The request to enable those of memory, cpu and pids that `names` holds, in this order.
pub open spec fn request_for(names: Seq<Seq<char>>) -> Seq<char> {
    joined(
        (if names.contains("memory"@) {
            seq!["+memory"@]
        } else {
            Seq::empty()
        }) + (if names.contains("cpu"@) {
            seq!["+cpu"@]
        } else {
            Seq::empty()
        }) + (if names.contains("pids"@) {
            seq!["+pids"@]
        } else {
            Seq::empty()
        }),
    )
}

/// Whether `current` holds each of memory, cpu and pids that `names` holds.
pub open spec fn all_enabled(names: Seq<Seq<char>>, current: Seq<Seq<char>>) -> bool {
    &&& names.contains("memory"@) ==> current.contains("memory"@)
    &&& names.contains("cpu"@) ==> current.contains("cpu"@)
    &&& names.contains("pids"@) ==> current.contains("pids"@)
}

proof fn lemma_requests(available: Seq<char>)
    ensures
        joined(wanted(available)) == request_for(words(available)),
        wanted(available).len() == 0 <==> !words(available).contains("memory"@) && !words(
            available,
        ).contains("cpu"@) && !words(available).contains("pids"@),
{
    reveal_strlit("+");
    reveal_strlit("memory");
    reveal_strlit("cpu");
    reveal_strlit("pids");
    reveal_strlit("+memory");
    reveal_strlit("+cpu");
    reveal_strlit("+pids");
    assert("+"@ + "memory"@ =~= "+memory"@);
    assert("+"@ + "cpu"@ =~= "+cpu"@);
    assert("+"@ + "pids"@ =~= "+pids"@);
}

proof fn lemma_granted(names: Seq<Seq<char>>, name: Seq<char>)
    ensures
        grants(names, "+"@ + name) <==> names.contains(name),
{
    reveal_strlit("+");
    if grants(names, "+"@ + name) {
        let j = choose|j: int|
            0 <= j < names.len() && "+"@ + #[trigger] names[j] == "+"@ + name;
        assert(("+"@ + names[j]).skip(1) =~= names[j]);
        assert(("+"@ + name).skip(1) =~= name);
    }
    if names.contains(name) {
        let j = names.index_of(name);
        assert("+"@ + names[j] == "+"@ + name);
    }
}

proof fn lemma_enabled(available: Seq<char>, current: Seq<char>)
    ensures
        is_delegated(wanted(available), current) <==> all_enabled(
            words(available),
            words(current),
        ),
{
    let want = wanted(available);
    let a = wanted_one(available, "memory"@);
    let b = wanted_one(available, "cpu"@);
    let c = wanted_one(available, "pids"@);
    lemma_granted(words(current), "memory"@);
    lemma_granted(words(current), "cpu"@);
    lemma_granted(words(current), "pids"@);
    assert(want == a + b + c);
    if is_delegated(want, current) {
        if a.len() > 0 {
            assert(want[0] == a[0]);
            assert(grants(words(current), want[0]));
        }
        if b.len() > 0 {
            assert(want[a.len() as int] == b[0]);
            assert(grants(words(current), want[a.len() as int]));
        }
        if c.len() > 0 {
            let k = (a.len() + b.len()) as int;
            assert(want[k] == c[0]);
            assert(grants(words(current), want[k]));
        }
    }
    if all_enabled(words(available), words(current)) {
        assert forall|i: int| 0 <= i < want.len() implies #[trigger] grants(
            words(current),
            want[i],
        ) by {
            if i < a.len() {
                assert(want[i] == a[0]);
            } else if i < a.len() + b.len() {
                assert(want[i] == b[0]);
            } else {
                assert(want[i] == c[0]);
            }
        }
    }
}

/// How a leaf is created where the controllers are enabled already: it asks which there
/// are and which of them are enabled, and then only makes the leaf. Where none of memory,
/// cpu and pids is there it fails.
pub proof fn law_creation_where_enabled(
    leaf: Seq<char>,
    answers: spec_fn(int) -> ReplyView,
    available: Seq<char>,
    current: Seq<char>,
)
    requires
        answers(0) == ReplyView::Text(available),
        answers(1) == ReplyView::Text(current),
        all_enabled(words(available), words(current)),
    ensures
        creation_asks(
            leaf,
            answers,
            0,
            OpView::ReadFile("/sys/fs/cgroup/cgroup.controllers"@),
        ),
        ({
            let names = words(available);
            let some = names.contains("memory"@) || names.contains("cpu"@) || names.contains(
                "pids"@,
            );
            &&& some ==> {
                &&& creation_asks(
                    leaf,
                    answers,
                    1,
                    OpView::ReadFile("/sys/fs/cgroup/cgroup.subtree_control"@),
                )
                &&& creation_asks(leaf, answers, 2, OpView::MakeDirs(leaf))
                &&& answers(2) is Done ==> creation_run(leaf, answers, 3) == CreationCourse::Ended(
                    Ok(leaf),
                )
            }
            &&& !some ==> creation_run(leaf, answers, 1) == CreationCourse::Ended(
                Err(
                    RuntimeErrorView::Cgroup(
                        "no memory/cpu/pids controllers available (need cgroup v2, privileged)"@,
                    ),
                ),
            )
        }),
{
    reveal_with_fuel(creation_run, 4);
    lemma_requests(available);
    lemma_enabled(available, current);
    let names = words(available);
    if names.contains("memory"@) || names.contains("cpu"@) || names.contains("pids"@) {
        let run = PlanRunView { steps: seq![leaf_step(leaf)], at: 0 };
        assert(creation_run(leaf, answers, 2) == finishing(leaf, Course::Ask(run)));
        if answers(2) is Done {
            assert(run.next(answers(2)) == Course::Ended(Ok(())));
        }
    }
}

/// How a leaf is created where a controller that is there is not enabled: every process of
/// the root is moved out of it, one after the other; then those of memory, cpu and pids
/// that are there are enabled; then the leaf is made.
pub proof fn law_creation_where_not_enabled(
    leaf: Seq<char>,
    answers: spec_fn(int) -> ReplyView,
    available: Seq<char>,
    current: Seq<char>,
    procs: Seq<char>,
    i: nat,
)
    requires
        answers(0) == ReplyView::Text(available),
        answers(1) == ReplyView::Text(current),
        !all_enabled(words(available), words(current)),
        answers(2) is Done,
        answers(3) == ReplyView::Text(procs),
        i <= words(procs).len(),
    ensures
        ({
            let pids = words(procs);
            let k = pids.len();
            &&& creation_asks(
                leaf,
                answers,
                1,
                OpView::ReadFile("/sys/fs/cgroup/cgroup.subtree_control"@),
            )
            &&& creation_asks(leaf, answers, 2, OpView::MakeDirs("/sys/fs/cgroup/mc.init"@))
            &&& creation_asks(leaf, answers, 3, OpView::ReadFile("/sys/fs/cgroup/cgroup.procs"@))
            &&& i < k ==> creation_asks(
                leaf,
                answers,
                4 + i,
                OpView::WriteFile {
                    path: "/sys/fs/cgroup/mc.init/cgroup.procs"@,
                    contents: pids[i as int],
                },
            )
            &&& i == k ==> creation_asks(
                leaf,
                answers,
                4 + i,
                OpView::WriteFile {
                    path: "/sys/fs/cgroup/cgroup.subtree_control"@,
                    contents: request_for(words(available)),
                },
            )
            &&& answers(4 + k as int) is Done ==> creation_asks(
                leaf,
                answers,
                5 + k,
                OpView::MakeDirs(leaf),
            )
            &&& answers(4 + k as int) is Done && answers(5 + k as int) is Done ==> creation_run(
                leaf,
                answers,
                6 + k,
            ) == CreationCourse::Ended(Ok(leaf))
        }),
{
    let pids = words(procs);
    let k = pids.len();
    let want = wanted(available);
    let steps = delegation_steps(pids, want, leaf);
    lemma_requests(available);
    lemma_enabled(available, current);
    reveal_with_fuel(creation_run, 5);
    assert(creation_run(leaf, answers, 4) == finishing(leaf, place(steps, 0)));
    lemma_moving(leaf, answers, pids, want, i);
    lemma_moving(leaf, answers, pids, want, k);
    assert(steps[k as int] == enable_step(want));
    assert(steps[k as int + 1] == leaf_step(leaf));
    if i < k {
        assert(steps[i as int] == moves(pids)[i as int]);
    }
    if answers(4 + k as int) is Done {
        let at = PlanRunView { steps, at: k as int };
        assert(at.next(answers(4 + k as int)) == place(steps, k as int + 1));
        assert(creation_run(leaf, answers, 5 + k) == finishing(leaf, place(steps, k as int + 1)));
        if answers(5 + k as int) is Done {
            let last = PlanRunView { steps, at: k as int + 1 };
            assert(last.next(answers(5 + k as int)) == place(steps, k as int + 2));
            assert(steps.len() == k + 2);
            assert(creation_run(leaf, answers, 6 + k) == finishing(
                leaf,
                place(steps, k as int + 2),
            ));
        }
    }
}

proof fn lemma_moving(
    leaf: Seq<char>,
    answers: spec_fn(int) -> ReplyView,
    pids: Seq<Seq<char>>,
    want: Seq<Seq<char>>,
    i: nat,
)
    requires
        creation_run(leaf, answers, 4) == finishing(
            leaf,
            place(delegation_steps(pids, want, leaf), 0),
        ),
        i <= pids.len(),
    ensures
        creation_run(leaf, answers, 4 + i) == finishing(
            leaf,
            Course::Ask(
                PlanRunView { steps: delegation_steps(pids, want, leaf), at: i as int },
            ),
        ),
    decreases i,
{
    if i > 0 {
        let m = (i - 1) as nat;
        let steps = delegation_steps(pids, want, leaf);
        lemma_moving(leaf, answers, pids, want, m);
        assert(steps[m as int] == moves(pids)[m as int]);
        let run = PlanRunView { steps, at: m as int };
        assert(run.next(answers(4 + m as int)) == place(steps, i as int));
        assert(creation_run(leaf, answers, 4 + i) == finishing(leaf, place(steps, i as int)));
    }
}

/// What a leaf tells of the CPU time: what the first line says that begins with
/// `usage_usec` and a blank; other lines do not matter.
pub proof fn law_usage(line: Seq<char>, rest: Seq<Seq<char>>)
    ensures
        usage(Seq::empty()) is None,
        "usage_usec "@.is_prefix_of(line) ==> usage(seq![line] + rest) == parsed_u64(
            trimmed(line.skip(11)),
        ),
        !"usage_usec "@.is_prefix_of(line) ==> usage(seq![line] + rest) == usage(rest),
{
    let list = seq![line] + rest;
    assert(list[0] == line);
    assert(list.drop_first() =~= rest);
}

/// The path of a leaf is that of the root of the control groups, a slash and its id.
pub proof fn law_leaf_path(id: Seq<char>)
    requires
        id.len() > 0,
        id[0] != '/',
    ensures
        leaf_path(id) == "/sys/fs/cgroup/"@ + id,
{
    reveal_strlit("/sys/fs/cgroup");
    reveal_strlit("/sys/fs/cgroup/");
    reveal_strlit("/");
    assert(leaf_path(id) =~= "/sys/fs/cgroup/"@ + id);
}

} // verus!
