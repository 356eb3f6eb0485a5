//! Running tasks directly on the calling thread, without a queue: what is done with each task,
//! and the settling of those that are not to run.
use vstd::prelude::*;
use crate::queue::TaskObservation;
use crate::task::{signal_finished, task_views, Running, Task, TaskState, TaskView};

verus! {

/// What running a task directly does with it.
#[derive(PartialEq, Eq, Structural, Clone, Copy, Debug)]
pub enum RunAction {
    /// Mark the task panicked, signal what it signals on completion, and drop it.
    FinishPanicked,
    /// Mark the task cancelled, signal what it signals on completion, and drop it.
    FinishCancelled,
    /// Run the task to completion now, then signal what it signals on completion.
    Execute,
    /// Leave the task for a later round.
    Defer,
}

/// What running a task directly does with it: a panicked dependency or a cancellation is
/// settled first, whether or not the task could start; a task that can start runs; any other
/// task waits for a later round.
pub open spec fn run_action_of(task: TaskObservation) -> RunAction {
    if task.panicked {
        RunAction::FinishPanicked
    } else if task.cancelled {
        RunAction::FinishCancelled
    } else if task.can_execute {
        RunAction::Execute
    } else {
        RunAction::Defer
    }
}

/// What running a task directly does with it (see [`run_action_of`]).
pub fn run_action(task: &TaskObservation) -> (a: RunAction)
    ensures
        a == run_action_of(*task),
{
    if task.panicked {
        RunAction::FinishPanicked
    } else if task.cancelled {
        RunAction::FinishCancelled
    } else if task.can_execute {
        RunAction::Execute
    } else {
        RunAction::Defer
    }
}

/// One round over a list of tasks: what is done with each, in order, and whether any task was
/// settled or run (when none was, the round made no progress).
pub fn run_round(tasks: &Vec<TaskObservation>) -> (r: (Vec<RunAction>, bool))
    ensures
        r.0@ == tasks@.map_values(|t: TaskObservation| run_action_of(t)),
        r.1 == exists|i: int| 0 <= i < tasks@.len() && run_action_of(#[trigger] tasks@[i]) != RunAction::Defer,
{
    let mut actions: Vec<RunAction> = Vec::new();
    let mut ran = false;
    let mut i: usize = 0;
    while i < tasks.len()
        invariant
            i <= tasks@.len(),
            actions@ == tasks@.take(i as int).map_values(|t: TaskObservation| run_action_of(t)),
            ran == exists|j: int| 0 <= j < i && run_action_of(#[trigger] tasks@[j]) != RunAction::Defer,
        decreases tasks@.len() - i,
    {
        let a = run_action(&tasks[i]);
        if a != RunAction::Defer {
            ran = true;
        }
        actions.push(a);
        proof {
            assert(tasks@.take(i + 1) =~= tasks@.take(i as int).push(tasks@[i as int]));
            assert(tasks@.take(i + 1).map_values(|t: TaskObservation| run_action_of(t)) =~= tasks@.take(
                i as int,
            ).map_values(|t: TaskObservation| run_action_of(t)).push(run_action_of(tasks@[i as int])));
        }
        i = i + 1;
    }
    assert(tasks@.take(tasks@.len() as int) =~= tasks@);
    (actions, ran)
}

/// What running a task directly comes to.
#[verifier::reject_recursive_types(J)]
pub enum RunStep<J> {
    /// Settle the task in this state without running it (see [`Task::finish_as`]).
    Settle(Task<J>, TaskState),
    /// The task can start: run its work to completion, then signal what it signals.
    Start(Running<J>),
    /// The task cannot start yet; here it is back.
    Defer(Task<J>),
}

/// Runs a task directly, up to its work: it looks at the task (whether its dependency
/// panicked, whether it was cancelled, whether it can start) and decides (see
/// [`run_action`]). It hands back what it saw and what is to be done: a task to settle with
/// the state to settle it in, a task to start taken apart for running, or the task itself
/// when it cannot start yet.
pub fn run_step<J>(task: Task<J>) -> (r: (TaskObservation, RunStep<J>))
    ensures
        r.0.preferred_thread is None,
        match run_action_of(r.0) {
            RunAction::FinishPanicked => r.1 matches RunStep::Settle(t, s) && t == task && s == TaskState::Panicked,
            RunAction::FinishCancelled => r.1 matches RunStep::Settle(t, s) && t == task && s
                == TaskState::Cancelled,
            RunAction::Execute => r.1 matches RunStep::Start(x) && x.state == task@.own_state && x.job
                == task@.job && x.semaphores@ == task@.semaphores && x.signals == task@.signal && x.fences@
                == task@.fences,
            RunAction::Defer => r.1 matches RunStep::Defer(t) && t == task,
        },
{
    let observation = TaskObservation {
        can_execute: task.can_execute(),
        panicked: task.is_panicked(),
        cancelled: task.is_cancelled(),
        preferred_thread: None,
    };
    let step = match run_action(&observation) {
        RunAction::FinishPanicked => RunStep::Settle(task, TaskState::Panicked),
        RunAction::FinishCancelled => RunStep::Settle(task, TaskState::Cancelled),
        RunAction::Execute => RunStep::Start(task.start()),
        RunAction::Defer => RunStep::Defer(task),
    };
    (observation, step)
}

/// Carries a step out: a task to settle is settled; a task that starts has its work run by
/// `execute`, then everything it signals on completion is signaled; a deferred task is handed
/// back.
fn carry_out<J, F: Fn(J)>(step: RunStep<J>, execute: &F) -> (r: Option<Task<J>>)
    requires
        forall|j: J| #[trigger] execute.requires((j,)),
    ensures
        match step {
            RunStep::Defer(t) => r == Some(t),
            _ => r is None,
        },
{
    match step {
        RunStep::Settle(t, s) => {
            t.finish_as(s);
            None
        },
        RunStep::Start(x) => {
            let Running { state: _, job, semaphores, signals, fences } = x;
            execute(job);
            signal_finished(&semaphores, &signals, &fences);
            None
        },
        RunStep::Defer(t) => Some(t),
    }
}

/// Runs a task directly on the calling thread: settles it if its dependency panicked or it was
/// cancelled; otherwise, if it can start, runs its work with `execute` and signals what it
/// signals on completion. A task that cannot start yet is dropped.
pub fn run<J, F: Fn(J)>(task: Task<J>, execute: &F)
    requires
        forall|j: J| #[trigger] execute.requires((j,)),
{
    let (_, step) = run_step(task);
    let _ = carry_out(step, execute);
}

/// The tasks that a round of direct running defers, in order, given what it saw of each.
pub open spec fn deferred_of<J>(tasks: Seq<TaskView<J>>, seen: Seq<TaskObservation>) -> Seq<TaskView<J>>
    decreases tasks.len(),
{
    if tasks.len() == 0 {
        Seq::empty()
    } else {
        let rest = deferred_of(tasks.drop_last(), seen.drop_last());
        if run_action_of(seen.last()) == RunAction::Defer {
            rest.push(tasks.last())
        } else {
            rest
        }
    }
}

/// One round of direct running over `tasks`, in order (see [`run`]). It hands back what it saw
/// of each task, the tasks it deferred, in order, and whether it settled or ran any task.
pub fn run_all_round<J, F: Fn(J)>(tasks: Vec<Task<J>>, execute: &F) -> (r: (Vec<TaskObservation>, Vec<Task<J>>, bool))
    requires
        forall|j: J| #[trigger] execute.requires((j,)),
    ensures
        r.0@.len() == tasks@.len(),
        task_views(r.1@) == deferred_of(task_views(tasks@), r.0@),
        r.2 == exists|i: int| 0 <= i < r.0@.len() && run_action_of(#[trigger] r.0@[i]) != RunAction::Defer,
        r.1@.len() <= tasks@.len(),
        r.2 == (r.1@.len() < tasks@.len()),
{
    let ghost tvs = task_views(tasks@);
    let n = tasks.len();
    let mut rest = tasks;
    let mut seen: Vec<TaskObservation> = Vec::new();
    let mut left: Vec<Task<J>> = Vec::new();
    let mut ran = false;
    let mut k: usize = 0;
    while k < n
        invariant
            k <= n,
            n == tvs.len(),
            rest@.len() == n - k,
            forall|j: int| 0 <= j < n - k ==> (#[trigger] rest@[j])@ == tvs[j + k],
            forall|j: J| #[trigger] execute.requires((j,)),
            seen@.len() == k,
            task_views(left@) == deferred_of(tvs.take(k as int), seen@),
            ran == exists|i: int| 0 <= i < k && run_action_of(#[trigger] seen@[i]) != RunAction::Defer,
            left@.len() <= k,
            ran == (left@.len() < k),
        decreases n - k,
    {
        let task = rest.remove(0);
        let ghost tv = task@;
        let ghost before = task_views(left@);
        let ghost seen_before = seen@;
        let (o, step) = run_step(task);
        let back = carry_out(step, execute);
        let deferred = back.is_some();
        assert(deferred == (run_action_of(o) == RunAction::Defer));
        match back {
            Some(t) => {
                left.push(t);
                assert(task_views(left@) =~= before.push(tv));
            },
            None => {
                assert(task_views(left@) =~= before);
                ran = true;
            },
        }
        seen.push(o);
        proof {
            assert(tvs.take(k + 1).drop_last() =~= tvs.take(k as int));
            assert(seen@.drop_last() =~= seen_before);
            assert(tvs.take(k + 1).last() == tv);
            assert(seen@.last() == o);
            assert(seen@[k as int] == o);
            assert(forall|i: int| 0 <= i < k ==> seen@[i] == seen_before[i]);
        }
        k = k + 1;
    }
    assert(tvs.take(n as int) =~= tvs);
    (seen, left, ran)
}

/// Runs tasks directly on the calling thread, round after round (see [`run_all_round`]): each
/// round settles or runs every task that is ready for it and keeps the others for the next
/// round. It stops once five rounds in a row settled and ran nothing.
pub fn run_all<J, F: Fn(J)>(tasks: Vec<Task<J>>, execute: &F)
    requires
        forall|j: J| #[trigger] execute.requires((j,)),
{
    let mut tasks = tasks;
    let mut idle: usize = 0;
    while idle < 5
        invariant
            idle <= 5,
            forall|j: J| #[trigger] execute.requires((j,)),
        decreases tasks@.len() * 6 + (5 - idle),
    {
        let (_, left, ran) = run_all_round(tasks, execute);
        if ran {
            idle = 0;
        } else {
            idle = idle + 1;
        }
        tasks = left;
    }
}

} // verus!
