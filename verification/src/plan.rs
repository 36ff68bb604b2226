//! Plans: operations one after the other, and what happens where one fails.

use crate::error::{RuntimeError, RuntimeErrorView};
use crate::host::{Op, OpView, Reply, ReplyView};
use crate::scan::{trim, trimmed};
use crate::text::{cat, cat3, join, joined};
use vstd::prelude::*;

verus! {

/// What becomes of a plan when one of its steps is not done.
///
/// Every variant but the first ends the plan with an error. The text that some hold
/// stands before the reason in that error.
#[derive(Debug)]
pub enum OnFailure {
    /// The plan goes on.
    Ignore,
    /// A system call of this name failed.
    Syscall(&'static str),
    Io,
    Cgroup(String),
    Filesystem(String),
    Config(String),
    Seccomp(String),
    /// A program could not be run, or reported a failure.
    Command,
}

/// The model of an [`OnFailure`].
pub ghost enum OnFailureView {
    Ignore,
    Syscall(Seq<char>),
    Io,
    Cgroup(Seq<char>),
    Filesystem(Seq<char>),
    Config(Seq<char>),
    Seccomp(Seq<char>),
    Command,
}

impl View for OnFailure {
    type V = OnFailureView;

    open spec fn view(&self) -> OnFailureView {
        match self {
            OnFailure::Ignore => OnFailureView::Ignore,
            OnFailure::Syscall(name) => OnFailureView::Syscall(name@),
            OnFailure::Io => OnFailureView::Io,
            OnFailure::Cgroup(what) => OnFailureView::Cgroup(what@),
            OnFailure::Filesystem(what) => OnFailureView::Filesystem(what@),
            OnFailure::Config(what) => OnFailureView::Config(what@),
            OnFailure::Seccomp(what) => OnFailureView::Seccomp(what@),
            OnFailure::Command => OnFailureView::Command,
        }
    }
}

/// One step of a plan.
#[derive(Debug)]
pub struct Step {
    pub op: Op,
    pub on_failure: OnFailure,
    /// How many of the steps behind this one are not needed once it is done.
    pub skip: usize,
}

/// The model of a [`Step`].
#[verifier::ext_equal]
pub ghost struct StepView {
    pub op: OpView,
    pub on_failure: OnFailureView,
    pub skip: nat,
}

impl View for Step {
    type V = StepView;

    open spec fn view(&self) -> StepView {
        StepView { op: self.op@, on_failure: self.on_failure@, skip: self.skip as nat }
    }
}

/// A step that ends the plan where it fails, and otherwise leads to the next one.
pub open spec fn must(op: OpView, on_failure: OnFailureView) -> StepView {
    StepView { op, on_failure, skip: 0 }
}

/// A step after which the plan goes on, done or not.
pub open spec fn may(op: OpView) -> StepView {
    StepView { op, on_failure: OnFailureView::Ignore, skip: 0 }
}

/// A step that saves the `skip` steps behind it where it is done.
pub open spec fn attempt(op: OpView, skip: nat) -> StepView {
    StepView { op, on_failure: OnFailureView::Ignore, skip }
}

impl Step {
    /// A step that ends the plan where it fails.
    pub fn must(op: Op, on_failure: OnFailure) -> (r: Self)
        ensures
            r@ == must(op@, on_failure@),
    {
        Step { op, on_failure, skip: 0 }
    }

    /// A step after which the plan goes on, done or not.
    pub fn may(op: Op) -> (r: Self)
        ensures
            r@ == may(op@),
    {
        Step { op, on_failure: OnFailure::Ignore, skip: 0 }
    }

    /// A step that saves the `skip` steps behind it where it is done.
    pub fn attempt(op: Op, skip: usize) -> (r: Self)
        ensures
            r@ == attempt(op@, skip as nat),
    {
        Step { op, on_failure: OnFailure::Ignore, skip }
    }
}

/// The error of a step that was answered with `reply`.
///
/// An error that the answer holds comes out as it is, and a text that does not fit
/// its format is always told as such. Otherwise the step says what was attempted.
pub open spec fn failure(step: StepView, reply: ReplyView) -> RuntimeErrorView {
    let e = reply.reason();
    match reply {
        ReplyView::Refused(error) => error,
        ReplyView::Malformed(_) => RuntimeErrorView::Json(e),
        _ => match step.on_failure {
            OnFailureView::Ignore => RuntimeErrorView::Io(e),
            OnFailureView::Syscall(name) => RuntimeErrorView::Syscall(name, e),
            OnFailureView::Io => RuntimeErrorView::Io(e),
            OnFailureView::Cgroup(what) => RuntimeErrorView::Cgroup(what + ": "@ + e),
            OnFailureView::Filesystem(what) => RuntimeErrorView::Filesystem(what + ": "@ + e),
            OnFailureView::Config(what) => RuntimeErrorView::Config(what + ": "@ + e),
            OnFailureView::Seccomp(what) => RuntimeErrorView::Seccomp(what + ": "@ + e),
            OnFailureView::Command => RuntimeErrorView::Network(command_failure(step.op, reply)),
        },
    }
}

/// What is told of a program that could not be run, or that reported a failure.
pub open spec fn command_failure(op: OpView, reply: ReplyView) -> Seq<char> {
    match op {
        OpView::Command { program, args } => match reply {
            ReplyView::Exited(complaint) => program + " "@ + joined(args) + ": "@ + trimmed(
                complaint,
            ),
            _ => "spawn "@ + program + ": "@ + reply.reason(),
        },
        _ => reply.reason(),
    }
}

fn command_failure_text(op: &Op, reply: &Reply) -> (r: String)
    ensures
        r@ == command_failure(op@, reply@),
{
    match op {
        Op::Command { program, args } => match reply {
            Reply::Exited(complaint) => {
                let list: String = join(args);
                let call: String = cat3(program.as_str(), " ", list.as_str());
                let tail: String = trim(complaint.as_str());
                cat3(call.as_str(), ": ", tail.as_str())
            },
            _ => {
                let head: String = cat3("spawn ", program.as_str(), ": ");
                cat(head.as_str(), reply.reason().as_str())
            },
        },
        _ => reply.reason(),
    }
}

/// The error of a step that was answered with `reply`.
pub fn step_error(step: &Step, reply: Reply) -> (r: RuntimeError)
    ensures
        r@ == failure(step@, reply@),
{
    let e: String = reply.reason();
    match reply {
        Reply::Refused(error) => error,
        Reply::Malformed(_) => RuntimeError::Json(e),
        other => match &step.on_failure {
            OnFailure::Ignore => RuntimeError::Io(e),
            OnFailure::Syscall(name) => RuntimeError::Syscall(name, e),
            OnFailure::Io => RuntimeError::Io(e),
            OnFailure::Cgroup(what) => RuntimeError::Cgroup(
                cat3(what.as_str(), ": ", e.as_str()),
            ),
            OnFailure::Filesystem(what) => RuntimeError::Filesystem(
                cat3(what.as_str(), ": ", e.as_str()),
            ),
            OnFailure::Config(what) => RuntimeError::Config(
                cat3(what.as_str(), ": ", e.as_str()),
            ),
            OnFailure::Seccomp(what) => RuntimeError::Seccomp(
                cat3(what.as_str(), ": ", e.as_str()),
            ),
            OnFailure::Command => RuntimeError::Network(command_failure_text(&step.op, &other)),
        },
    }
}

/// Steps to be taken one after the other.
#[derive(Debug)]
pub struct Plan {
    pub steps: Vec<Step>,
}

/// The views of a sequence of steps.
pub open spec fn step_views(list: Seq<Step>) -> Seq<StepView> {
    Seq::new(list.len(), |i: int| list[i]@)
}

impl View for Plan {
    type V = Seq<StepView>;

    open spec fn view(&self) -> Seq<StepView> {
        step_views(self.steps@)
    }
}

impl Plan {
    /// The plan without a step.
    pub fn new() -> (r: Self)
        ensures
            r@ == Seq::<StepView>::empty(),
    {
        let r = Plan { steps: Vec::new() };
        assert(r@ =~= Seq::<StepView>::empty());
        r
    }

    /// Put one step behind the others.
    pub fn push(&mut self, step: Step)
        ensures
            final(self)@ == old(self)@.push(step@),
    {
        self.steps.push(step);
        assert(self@ =~= old(self)@.push(step@));
    }

    /// Put the steps of `other` behind the others.
    pub fn extend(&mut self, other: Plan)
        ensures
            final(self)@ == old(self)@ + other@,
    {
        let mut rest: Vec<Step> = other.steps;
        self.steps.append(&mut rest);
        assert(self@ =~= old(self)@ + other@);
    }
}

/// A plan under way.
#[derive(Debug)]
pub struct PlanRun {
    pub plan: Plan,
    pub at: usize,
}

/// The model of a [`PlanRun`].
pub ghost struct PlanRunView {
    pub steps: Seq<StepView>,
    pub at: int,
}

impl View for PlanRun {
    type V = PlanRunView;

    open spec fn view(&self) -> PlanRunView {
        PlanRunView { steps: self.plan@, at: self.at as int }
    }
}

impl PlanRunView {
    /// Whether a step is still to be taken.
    pub open spec fn wf(self) -> bool {
        0 <= self.at < self.steps.len()
    }

    /// The operation to be done now.
    pub open spec fn op(self) -> OpView {
        self.steps[self.at].op
    }
}

/// Where a plan stands: before a step, or at its end.
pub ghost enum Course {
    Ask(PlanRunView),
    Ended(Result<(), RuntimeErrorView>),
}

/// Where a plan stands at position `at`.
pub open spec fn place(steps: Seq<StepView>, at: int) -> Course {
    if at < steps.len() {
        Course::Ask(PlanRunView { steps, at })
    } else {
        Course::Ended(Ok(()))
    }
}

/// Where a plan stands once the step at `at` was answered with `reply`.
pub open spec fn after(steps: Seq<StepView>, at: int, reply: ReplyView) -> Course {
    let step = steps[at];
    if reply is Done {
        place(steps, at + 1 + step.skip)
    } else if step.on_failure is Ignore {
        place(steps, at + 1)
    } else {
        Course::Ended(Err(failure(step, reply)))
    }
}

impl PlanRunView {
    /// Where the plan stands once its operation was answered with `reply`.
    pub open spec fn next(self, reply: ReplyView) -> Course {
        after(self.steps, self.at, reply)
    }
}

impl Course {
    pub open spec fn wf(self) -> bool {
        match self {
            Course::Ask(run) => run.wf(),
            Course::Ended(_) => true,
        }
    }
}

/// What comes of a plan next.
#[derive(Debug)]
pub enum PlanTurn {
    /// Its next operation is to be done.
    Ask(PlanRun),
    Ended(Result<(), RuntimeError>),
}

/// The model of a result without a value.
pub open spec fn result_view(r: Result<(), RuntimeError>) -> Result<(), RuntimeErrorView> {
    match r {
        Ok(_) => Ok(()),
        Err(e) => Err(e@),
    }
}

impl View for PlanTurn {
    type V = Course;

    open spec fn view(&self) -> Course {
        match self {
            PlanTurn::Ask(run) => Course::Ask(run@),
            PlanTurn::Ended(r) => Course::Ended(result_view(*r)),
        }
    }
}

impl PlanRun {
    /// Begin a plan.
    pub fn start(plan: Plan) -> (r: PlanTurn)
        ensures
            r@ == place(plan@, 0),
            r@.wf(),
    {
        if plan.steps.len() > 0 {
            PlanTurn::Ask(PlanRun { plan, at: 0 })
        } else {
            PlanTurn::Ended(Ok(()))
        }
    }

    /// The operation to be done now.
    pub fn op(&self) -> (r: &Op)
        requires
            self@.wf(),
        ensures
            r@ == self@.op(),
    {
        &self.plan.steps[self.at].op
    }

    /// Go on from the answer to that operation.
    pub fn resume(self, reply: Reply) -> (r: PlanTurn)
        requires
            self@.wf(),
        ensures
            r@ == self@.next(reply@),
            r@.wf(),
    {
        let len: usize = self.plan.steps.len();
        let at: usize = self.at;
        let step: &Step = &self.plan.steps[at];
        assert(step@ == self@.steps[self@.at]);
        let skip: usize = step.skip;
        if reply.is_done() {
            if skip < len - at - 1 {
                PlanTurn::Ask(PlanRun { plan: self.plan, at: at + 1 + skip })
            } else {
                PlanTurn::Ended(Ok(()))
            }
        } else {
            match step.on_failure {
                OnFailure::Ignore => {
                    if at + 1 < len {
                        PlanTurn::Ask(PlanRun { plan: self.plan, at: at + 1 })
                    } else {
                        PlanTurn::Ended(Ok(()))
                    }
                },
                _ => PlanTurn::Ended(Err(step_error(step, reply))),
            }
        }
    }
}

// What holds of every plan, whatever the host answers.

/// The positions of the steps that are taken from `at` on, where the host answers
/// the step at position `i` with `answers(i)`.
pub open spec fn taken(steps: Seq<StepView>, at: int, answers: spec_fn(int) -> ReplyView) -> Seq<
    int,
>
    decreases steps.len() - at,
{
    if at < 0 || at >= steps.len() {
        Seq::empty()
    } else {
        match after(steps, at, answers(at)) {
            Course::Ask(run) => seq![at] + taken(steps, run.at, answers),
            Course::Ended(_) => seq![at],
        }
    }
}

/// How a plan ends from `at` on.
pub open spec fn ending(
    steps: Seq<StepView>,
    at: int,
    answers: spec_fn(int) -> ReplyView,
) -> Result<(), RuntimeErrorView>
    decreases steps.len() - at,
{
    if at < 0 || at >= steps.len() {
        Ok(())
    } else {
        match after(steps, at, answers(at)) {
            Course::Ask(run) => ending(steps, run.at, answers),
            Course::Ended(r) => r,
        }
    }
}

/// Whether no step before `i` can save the step at `i`.
pub open spec fn unskippable(steps: Seq<StepView>, i: int) -> bool {
    forall|k: int| 0 <= k < i ==> k + 1 + (#[trigger] steps[k]).skip <= i
}

/// Whether no step can save one behind the end of `steps`.
pub open spec fn closed(steps: Seq<StepView>) -> bool {
    unskippable(steps, steps.len() as int)
}

/// The steps that are taken are taken in their order, and each only once.
pub proof fn law_in_order(steps: Seq<StepView>, at: int, answers: spec_fn(int) -> ReplyView)
    requires
        0 <= at,
    ensures
        ({
            let t = taken(steps, at, answers);
            &&& forall|i: int, j: int| 0 <= i < j < t.len() ==> t[i] < t[j]
            &&& forall|i: int| 0 <= i < t.len() ==> at <= #[trigger] t[i] < steps.len()
        }),
    decreases steps.len() - at,
{
    if at < steps.len() {
        match after(steps, at, answers(at)) {
            Course::Ask(run) => {
                let next = run.at;
                law_in_order(steps, next, answers);
                let rest = taken(steps, next, answers);
                let t = taken(steps, at, answers);
                assert(t == seq![at] + rest);
                assert forall|i: int, j: int| 0 <= i < j < t.len() implies t[i] < t[j] by {
                    assert(t[j] == rest[j - 1]);
                    if i > 0 {
                        assert(t[i] == rest[i - 1]);
                    }
                }
                assert forall|i: int| 0 <= i < t.len() implies at <= #[trigger] t[i]
                    < steps.len() by {
                    if i > 0 {
                        assert(t[i] == rest[i - 1]);
                    }
                }
            },
            Course::Ended(_) => {},
        }
    }
}

/// A step that is taken comes after every step before it that nothing can save; and
/// those of them that would have ended the plan were done.
pub proof fn law_nothing_left_out(
    steps: Seq<StepView>,
    at: int,
    answers: spec_fn(int) -> ReplyView,
    i: int,
    j: int,
)
    requires
        0 <= at <= i < j,
        unskippable(steps, i),
        taken(steps, at, answers).contains(j),
    ensures
        taken(steps, at, answers).contains(i),
        steps[i].on_failure is Ignore || answers(i) is Done,
    decreases steps.len() - at,
{
    let t = taken(steps, at, answers);
    law_in_order(steps, at, answers);
    let k = choose|k: int| 0 <= k < t.len() && t[k] == j;
    match after(steps, at, answers(at)) {
        Course::Ask(run) => {
            let next = run.at;
            let rest = taken(steps, next, answers);
            assert(t == seq![at] + rest);
            assert(k > 0) by {
                assert(t[0] == at);
            }
            assert(rest[k - 1] == j);
            assert(rest.contains(j));
            assert(t[0] == at);
            assert(t.contains(at));
            if at < i {
                assert(at + 1 + steps[at].skip <= i);
                law_nothing_left_out(steps, next, answers, i, j);
                let m = choose|m: int| 0 <= m < rest.len() && rest[m] == i;
                assert(t[m + 1] == i);
            }
        },
        Course::Ended(_) => {
            assert(t =~= seq![at]);
            assert(t[k] == at);
        },
    }
}

/// A plan that ends well has taken every step that nothing can save; and those of
/// them that would have ended it were done.
pub proof fn law_good_ending(
    steps: Seq<StepView>,
    at: int,
    answers: spec_fn(int) -> ReplyView,
    i: int,
)
    requires
        0 <= at <= i < steps.len(),
        unskippable(steps, i),
        ending(steps, at, answers) is Ok,
    ensures
        taken(steps, at, answers).contains(i),
        steps[i].on_failure is Ignore || answers(i) is Done,
    decreases steps.len() - at,
{
    let t = taken(steps, at, answers);
    assert(t[0] == at);
    assert(t.contains(at));
    match after(steps, at, answers(at)) {
        Course::Ask(run) => {
            let next = run.at;
            let rest = taken(steps, next, answers);
            assert(t == seq![at] + rest);
            if at < i {
                assert(at + 1 + steps[at].skip <= i);
                law_good_ending(steps, next, answers, i);
                let m = choose|m: int| 0 <= m < rest.len() && rest[m] == i;
                assert(t[m + 1] == i);
            }
        },
        Course::Ended(_) => {
            if at < i {
                assert(at + 1 + steps[at].skip <= i);
            }
        },
    }
}

/// A plan that ends well has done a step that spares it others, or else the step behind
/// it, where the plan cannot go on without that one.
pub proof fn law_fallback(
    steps: Seq<StepView>,
    at: int,
    answers: spec_fn(int) -> ReplyView,
    i: int,
)
    requires
        0 <= at <= i,
        i + 1 < steps.len(),
        unskippable(steps, i),
        steps[i].skip > 0,
        !(steps[i + 1].on_failure is Ignore),
        ending(steps, at, answers) is Ok,
    ensures
        answers(i) is Done || answers(i + 1) is Done,
    decreases steps.len() - at,
{
    match after(steps, at, answers(at)) {
        Course::Ask(run) => {
            if at < i {
                assert(at + 1 + steps[at].skip <= i);
                law_fallback(steps, run.at, answers, i);
            } else if !(answers(i) is Done) {
                assert(run.at == i + 1);
                assert(ending(steps, i + 1, answers) is Ok);
            }
        },
        Course::Ended(_) => {
            if at < i {
                assert(at + 1 + steps[at].skip <= i);
            }
        },
    }
}

/// A plan that ends badly ends with the error of the last step that it took, one
/// that was not done and does not let the plan go on.
pub proof fn law_bad_ending(steps: Seq<StepView>, at: int, answers: spec_fn(int) -> ReplyView)
    requires
        0 <= at < steps.len(),
        ending(steps, at, answers) is Err,
    ensures
        ({
            let t = taken(steps, at, answers);
            &&& t.len() > 0
            &&& ending(steps, at, answers) == Err::<(), RuntimeErrorView>(
                failure(steps[t.last()], answers(t.last())),
            )
            &&& !(steps[t.last()].on_failure is Ignore)
            &&& !(answers(t.last()) is Done)
        }),
    decreases steps.len() - at,
{
    match after(steps, at, answers(at)) {
        Course::Ask(run) => {
            let next = run.at;
            law_bad_ending(steps, next, answers);
            let rest = taken(steps, next, answers);
            let t = taken(steps, at, answers);
            assert(t == seq![at] + rest);
            assert(t.last() == rest.last());
        },
        Course::Ended(_) => {},
    }
}

/// What nothing can save in a plan, nothing can save when the plan follows another
/// that saves nothing behind its own end.
pub proof fn lemma_unskippable_after(first: Seq<StepView>, second: Seq<StepView>, i: int)
    requires
        closed(first),
        0 <= i <= second.len(),
        unskippable(second, i),
    ensures
        unskippable(first + second, first.len() + i),
{
    let all = first + second;
    assert forall|k: int| 0 <= k < first.len() + i implies k + 1 + (#[trigger] all[k]).skip
        <= first.len() + i by {
        if k < first.len() {
            assert(all[k] == first[k]);
        } else {
            assert(all[k] == second[k - first.len()]);
        }
    }
}


/// What a step that must be done says of its failure: what was attempted, and the reason
/// that the host gave. An error that the host itself tells comes out as it is.
pub proof fn law_failure_words(step: StepView, why: Seq<char>)
    ensures
        ({
            let e = failure(step, ReplyView::Failed(why));
            match step.on_failure {
                OnFailureView::Ignore => true,
                OnFailureView::Io => e == RuntimeErrorView::Io(why),
                OnFailureView::Syscall(name) => e == RuntimeErrorView::Syscall(name, why),
                OnFailureView::Cgroup(what) => e == RuntimeErrorView::Cgroup(
                    what + (": "@ + why),
                ),
                OnFailureView::Filesystem(what) => e == RuntimeErrorView::Filesystem(
                    what + (": "@ + why),
                ),
                OnFailureView::Config(what) => e == RuntimeErrorView::Config(
                    what + (": "@ + why),
                ),
                OnFailureView::Seccomp(what) => e == RuntimeErrorView::Seccomp(
                    what + (": "@ + why),
                ),
                OnFailureView::Command => step.op matches OpView::Command { program, .. } ==> e
                    == RuntimeErrorView::Network("spawn "@ + (program + (": "@ + why))),
            }
        }),
        step.on_failure is Command ==> (step.op matches OpView::Command { program, args }
            ==> failure(step, ReplyView::Exited(why)) == RuntimeErrorView::Network(
            program + (" "@ + (joined(args) + (": "@ + trimmed(why)))),
        )),
        failure(step, ReplyView::Malformed(why)) == RuntimeErrorView::Json(why),
        forall|e: RuntimeErrorView| #[trigger] failure(step, ReplyView::Refused(e)) == e,
{
    match step.on_failure {
        OnFailureView::Cgroup(what) => {
            assert(what + ": "@ + why =~= what + (": "@ + why));
        },
        OnFailureView::Filesystem(what) => {
            assert(what + ": "@ + why =~= what + (": "@ + why));
        },
        OnFailureView::Config(what) => {
            assert(what + ": "@ + why =~= what + (": "@ + why));
        },
        OnFailureView::Seccomp(what) => {
            assert(what + ": "@ + why =~= what + (": "@ + why));
        },
        OnFailureView::Command => {
            if let OpView::Command { program, args } = step.op {
                let list = joined(args);
                let tail = trimmed(why);
                assert("spawn "@ + program + ": "@ + why =~= "spawn "@ + (program + (": "@
                    + why)));
                assert(program + " "@ + list + ": "@ + tail =~= program + (" "@ + (list + (": "@
                    + tail))));
            }
        },
        _ => {},
    }
}

} // verus!
