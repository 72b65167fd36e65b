//! The decisions of the scheduler. The scheduler proposes transitions of
//! tasks; whoever runs it asks the store to make each transition and tells
//! the scheduler whether the store accepted it.
use vstd::prelude::*;
use vstd::string::*;
use crate::manager::processor::{remove_first, TasksProcessor};
use crate::objects::{TaskState, TaskUpdate, ThreadStatus};
use crate::text::spells;

verus! {

/// A transition of a task that the scheduler asks for.
#[derive(Debug, Clone, Copy, PartialEq, Eq, Structural)]
pub struct Proposal {
    pub task_id: i32,
    pub from: TaskState,
    pub to: TaskState,
}

/// What is to be done once the store has accepted a transition.
#[derive(Debug, Clone, Copy, PartialEq, Eq, Structural)]
pub enum Effect {
    /// Nothing.
    Nothing,
    /// A worker is to be started for the task.
    Spawn(i32),
    /// What the worker of the task reported, and its cancel flag, are to be
    /// dropped.
    Forget(i32),
}

/// What the scheduler does about a task that it sees in the store.
#[derive(Debug, Clone, Copy, PartialEq, Eq, Structural)]
pub enum Reaction {
    /// Nothing: the task is known, or its state asks for nothing.
    Nothing,
    /// The task is new among the pending ones and is to be started where a
    /// worker is free.
    Promote(i32),
    /// The task is new among those being cancelled and is to be cancelled.
    Cancel(i32),
    /// The task is marked as running though no worker runs it, and is to be
    /// failed.
    Fail(Proposal),
}

/// What a worker has reported of its task.
#[derive(Debug, Clone, Copy, PartialEq, Eq, Structural)]
pub struct WorkerReport {
    pub task_id: i32,
    pub is_complete: bool,
    pub success: bool,
    /// Whether the worker ended because it was told to stop.
    pub cancelled: bool,
}

/// The scheduler's state: its lists of tasks and the number of workers that
/// may run at once.
pub struct Scheduler {
    pub tasks: TasksProcessor,
    pub max_threads: usize,
}

/// The order in which a task passes through its states.
pub open spec fn stage(state: TaskState) -> int {
    match state {
        TaskState::Created => 0,
        TaskState::Pending => 1,
        TaskState::Running => 2,
        TaskState::Cancelling => 3,
        _ => 4,
    }
}

/// Whether each state of a history is followed by one that it may move to.
pub open spec fn is_path(history: Seq<TaskState>) -> bool {
    forall|k: int| 0 <= k < history.len() - 1 ==> (#[trigger] history[k]).accepts(history[k + 1])
}

/// An accepted transition moves a task to a later stage.
pub proof fn lemma_transitions_advance(from: TaskState, to: TaskState)
    requires
        from.accepts(to),
    ensures
        stage(from) < stage(to),
{
}

/// Along a history of accepted transitions the stages rise.
pub proof fn lemma_path_rises(history: Seq<TaskState>, i: int, j: int)
    requires
        is_path(history),
        0 <= i < j < history.len(),
    ensures
        stage(history[i]) < stage(history[j]),
    decreases j - i,
{
    lemma_transitions_advance(history[j - 1], history[j]);
    if i < j - 1 {
        lemma_path_rises(history, i, j - 1);
    }
}

/// A history of accepted transitions visits no state twice and has at most
/// five states; a state in which a task stays for good is the last of it,
/// and so it holds at most one of them.
pub proof fn lemma_paths_end(history: Seq<TaskState>)
    requires
        is_path(history),
    ensures
        history.no_duplicates(),
        history.len() <= 5,
        forall|k: int|
            0 <= k < history.len() && (#[trigger] history[k]).terminal() ==> k == history.len() - 1,
{
    assert forall|i: int, j: int| 0 <= i < history.len() && 0 <= j < history.len() && i != j implies history[i]
        != history[j] by {
        if i < j {
            lemma_path_rises(history, i, j);
        } else {
            lemma_path_rises(history, j, i);
        }
    }
    if history.len() > 5 {
        lemma_path_rises(history, 0, 1);
        lemma_path_rises(history, 1, 2);
        lemma_path_rises(history, 2, 3);
        lemma_path_rises(history, 3, 4);
        lemma_path_rises(history, 4, 5);
    }
    assert forall|k: int| 0 <= k < history.len() && (#[trigger] history[k]).terminal() implies k
        == history.len() - 1 by {
        if k < history.len() - 1 {
            assert(history[k].accepts(history[k + 1]));
        }
    }
}

/// What a report asks for: a running task that is complete is to become
/// `Completed` where it succeeded, `Cancelling` where it ended because it was
/// told to stop, and `Failed` otherwise.
pub open spec fn verdict(running: Seq<i32>, report: WorkerReport) -> Option<Proposal> {
    if running.contains(report.task_id) && report.is_complete {
        Some(
            Proposal {
                task_id: report.task_id,
                from: TaskState::Running,
                to: if report.success {
                    TaskState::Completed
                } else if report.cancelled {
                    TaskState::Cancelling
                } else {
                    TaskState::Failed
                },
            },
        )
    } else {
        None
    }
}

/// What the reports ask for, in their order.
pub open spec fn verdicts(running: Seq<i32>, reports: Seq<WorkerReport>) -> Seq<Proposal>
    decreases reports.len(),
{
    if reports.len() == 0 {
        Seq::empty()
    } else {
        match verdict(running, reports.last()) {
            Some(proposal) => verdicts(running, reports.drop_last()).push(proposal),
            None => verdicts(running, reports.drop_last()),
        }
    }
}

fn holds(list: &Vec<i32>, id: i32) -> (r: bool)
    ensures
        r == list@.contains(id),
{
    let mut i: usize = 0;
    while i < list.len()
        invariant
            i <= list.len(),
            forall|j: int| 0 <= j < i ==> list[j] != id,
        decreases list.len() - i,
    {
        if list[i] == id {
            return true;
        }
        i += 1;
    }
    false
}

impl Proposal {
    /// The update that announces the transition once it is made.
    pub fn update(&self) -> (update: TaskUpdate)
        ensures
            update.task_id == self.task_id,
            update.state@ == self.to.name(),
    {
        TaskUpdate::announce(self.task_id, self.to)
    }
}

impl Scheduler {
    /// Whether the lists of the scheduler are in order.
    pub open spec fn wf(&self) -> bool {
        self.tasks.wf()
    }

    /// A scheduler without tasks.
    pub fn new(max_threads: usize) -> (scheduler: Self)
        ensures
            scheduler.wf(),
            scheduler.max_threads == max_threads,
            scheduler.tasks.pending() == Seq::<i32>::empty(),
            scheduler.tasks.cancelling() == Seq::<i32>::empty(),
            scheduler.tasks.running() == Seq::<i32>::empty(),
    {
        Scheduler { tasks: TasksProcessor::new(), max_threads }
    }

    /// The transitions that the workers' reports ask for: each running task
    /// that is complete is to be completed, cancelled or failed.
    pub fn reap(&self, reports: &Vec<WorkerReport>) -> (proposals: Vec<Proposal>)
        ensures
            proposals@ == verdicts(self.tasks.running(), reports@),
            forall|k: int|
                0 <= k < proposals.len() ==> (#[trigger] proposals[k]).from.accepts(proposals[k].to),
    {
        let running = self.tasks.get_running_tasks();
        let mut proposals: Vec<Proposal> = Vec::new();
        let mut i: usize = 0;
        while i < reports.len()
            invariant
                running@ == self.tasks.running(),
                i <= reports.len(),
                proposals@ == verdicts(running@, reports@.subrange(0, i as int)),
                forall|k: int|
                    0 <= k < proposals.len() ==> (#[trigger] proposals[k]).from.accepts(
                        proposals[k].to,
                    ),
            decreases reports.len() - i,
        {
            proof {
                assert(reports@.subrange(0, i + 1).drop_last() =~= reports@.subrange(0, i as int));
                assert(reports@.subrange(0, i + 1).last() == reports[i as int]);
            }
            let report = reports[i];
            if holds(&running, report.task_id) && report.is_complete {
                let to = if report.success {
                    TaskState::Completed
                } else if report.cancelled {
                    TaskState::Cancelling
                } else {
                    TaskState::Failed
                };
                proposals.push(Proposal { task_id: report.task_id, from: TaskState::Running, to });
            }
            i += 1;
        }
        assert(reports@.subrange(0, i as int) =~= reports@);
        proposals
    }

    /// Whether a worker is free.
    pub fn has_free_worker(&self) -> (free: bool)
        ensures
            free == (self.tasks.running().len() < self.max_threads),
    {
        self.tasks.get_running_tasks().len() < self.max_threads
    }

    /// The transition that starts a pending task, where a worker is free.
    pub fn promote(&self, task_id: i32) -> (proposal: Option<Proposal>)
        ensures
            proposal == if self.tasks.running().len() < self.max_threads {
                Some(Proposal { task_id, from: TaskState::Pending, to: TaskState::Running })
            } else {
                None
            },
            proposal matches Some(p) ==> p.from.accepts(p.to),
    {
        if self.has_free_worker() {
            Some(Proposal { task_id, from: TaskState::Pending, to: TaskState::Running })
        } else {
            None
        }
    }

    /// Takes note of what the store answered to a proposal. A transition that
    /// the store did not accept changes nothing. An accepted start moves the
    /// task from the pending to the running ones and asks for a worker; an
    /// accepted end of a running task removes it from the running ones and
    /// asks to forget its worker; an accepted move of a running task to
    /// `Cancelling` asks to forget its worker and leaves the rest to the
    /// cancellation; an accepted end of a cancellation removes the task from
    /// those being cancelled.
    pub fn confirm(&mut self, proposal: &Proposal, accepted: bool) -> (effect: Effect)
        requires
            old(self).wf(),
        ensures
            final(self).wf(),
            final(self).max_threads == old(self).max_threads,
            !accepted ==> effect == Effect::Nothing && final(self).tasks.pending() == old(self).tasks.pending() && final(self).tasks.running() == old(self).tasks.running()
                && final(self).tasks.cancelling() == old(self).tasks.cancelling(),
            accepted ==> match (proposal.from, proposal.to) {
                (TaskState::Pending, TaskState::Running) => {
                    &&& effect == Effect::Spawn(proposal.task_id)
                    &&& final(self).tasks.pending() == remove_first(
                        old(self).tasks.pending(),
                        proposal.task_id,
                    )
                    &&& final(self).tasks.running() == if old(self).tasks.running().contains(
                        proposal.task_id,
                    ) {
                        old(self).tasks.running()
                    } else {
                        old(self).tasks.running().push(proposal.task_id)
                    }
                    &&& final(self).tasks.cancelling() == old(self).tasks.cancelling()
                },
                (TaskState::Running, TaskState::Completed) | (
                    TaskState::Running,
                    TaskState::Failed,
                ) => {
                    &&& effect == Effect::Forget(proposal.task_id)
                    &&& final(self).tasks.running() == remove_first(
                        old(self).tasks.running(),
                        proposal.task_id,
                    )
                    &&& final(self).tasks.pending() == old(self).tasks.pending()
                    &&& final(self).tasks.cancelling() == old(self).tasks.cancelling()
                },
                (TaskState::Running, TaskState::Cancelling) => {
                    &&& effect == Effect::Forget(proposal.task_id)
                    &&& final(self).tasks.pending() == old(self).tasks.pending()
                    &&& final(self).tasks.running() == old(self).tasks.running()
                    &&& final(self).tasks.cancelling() == old(self).tasks.cancelling()
                },
                (TaskState::Cancelling, TaskState::Cancelled) => {
                    &&& effect == Effect::Nothing
                    &&& final(self).tasks.cancelling() == remove_first(
                        old(self).tasks.cancelling(),
                        proposal.task_id,
                    )
                    &&& final(self).tasks.pending() == old(self).tasks.pending()
                    &&& final(self).tasks.running() == old(self).tasks.running()
                },
                _ => {
                    &&& effect == Effect::Nothing
                    &&& final(self).tasks.pending() == old(self).tasks.pending()
                    &&& final(self).tasks.running() == old(self).tasks.running()
                    &&& final(self).tasks.cancelling() == old(self).tasks.cancelling()
                },
            },
    {
        if !accepted {
            return Effect::Nothing;
        }
        match (proposal.from, proposal.to) {
            (TaskState::Pending, TaskState::Running) => {
                self.tasks.add_running_task(proposal.task_id);
                self.tasks.remove_pending_task(proposal.task_id);
                Effect::Spawn(proposal.task_id)
            },
            (TaskState::Running, TaskState::Completed) | (TaskState::Running, TaskState::Failed) => {
                self.tasks.remove_running_task(proposal.task_id);
                Effect::Forget(proposal.task_id)
            },
            (TaskState::Running, TaskState::Cancelling) => Effect::Forget(proposal.task_id),
            (TaskState::Cancelling, TaskState::Cancelled) => {
                self.tasks.remove_cancelling_task(proposal.task_id);
                Effect::Nothing
            },
            _ => Effect::Nothing,
        }
    }

    /// Takes note of a task that is seen in the store in the given state. A
    /// task that is new among the pending ones is to be promoted, one that is
    /// new among those being cancelled is to be cancelled, and one that is
    /// marked as running without being known as running is to be failed.
    pub fn observe(&mut self, task_id: i32, state: TaskState) -> (reaction: Reaction)
        requires
            old(self).wf(),
        ensures
            final(self).wf(),
            final(self).max_threads == old(self).max_threads,
            match state {
                TaskState::Pending => {
                    &&& reaction == if old(self).tasks.pending().contains(task_id) {
                        Reaction::Nothing
                    } else {
                        Reaction::Promote(task_id)
                    }
                    &&& final(self).tasks.pending() == if old(self).tasks.pending().contains(
                        task_id,
                    ) {
                        old(self).tasks.pending()
                    } else {
                        old(self).tasks.pending().push(task_id)
                    }
                    &&& final(self).tasks.running() == old(self).tasks.running()
                    &&& final(self).tasks.cancelling() == old(self).tasks.cancelling()
                },
                TaskState::Cancelling => {
                    &&& reaction == if old(self).tasks.cancelling().contains(task_id) {
                        Reaction::Nothing
                    } else {
                        Reaction::Cancel(task_id)
                    }
                    &&& final(self).tasks.cancelling() == if old(self).tasks.cancelling().contains(
                        task_id,
                    ) {
                        old(self).tasks.cancelling()
                    } else {
                        old(self).tasks.cancelling().push(task_id)
                    }
                    &&& final(self).tasks.pending() == old(self).tasks.pending()
                    &&& final(self).tasks.running() == old(self).tasks.running()
                },
                TaskState::Running => {
                    &&& reaction == if old(self).tasks.running().contains(task_id) {
                        Reaction::Nothing
                    } else {
                        Reaction::Fail(
                            Proposal { task_id, from: TaskState::Running, to: TaskState::Failed },
                        )
                    }
                    &&& final(self).tasks.running() == if old(self).tasks.running().contains(
                        task_id,
                    ) {
                        old(self).tasks.running()
                    } else {
                        old(self).tasks.running().push(task_id)
                    }
                    &&& final(self).tasks.pending() == old(self).tasks.pending()
                    &&& final(self).tasks.cancelling() == old(self).tasks.cancelling()
                },
                _ => {
                    &&& reaction == Reaction::Nothing
                    &&& final(self).tasks.pending() == old(self).tasks.pending()
                    &&& final(self).tasks.running() == old(self).tasks.running()
                    &&& final(self).tasks.cancelling() == old(self).tasks.cancelling()
                },
            },
    {
        match state {
            TaskState::Pending => {
                if self.tasks.add_pending_task(task_id) {
                    Reaction::Promote(task_id)
                } else {
                    Reaction::Nothing
                }
            },
            TaskState::Cancelling => {
                if self.tasks.add_cancelling_task(task_id) {
                    Reaction::Cancel(task_id)
                } else {
                    Reaction::Nothing
                }
            },
            TaskState::Running => {
                if self.tasks.add_running_task(task_id) {
                    Reaction::Fail(
                        Proposal { task_id, from: TaskState::Running, to: TaskState::Failed },
                    )
                } else {
                    Reaction::Nothing
                }
            },
            _ => Reaction::Nothing,
        }
    }

    /// Begins the cancellation of a task: the task leaves the pending ones
    /// where it is among them, and the running ones where it is among
    /// them. The first part of the result says whether it was running: its
    /// worker is then to be told to stop. The second part is the transition
    /// that ends the cancellation.
    pub fn begin_cancel(&mut self, task_id: i32) -> (begun: (bool, Proposal))
        requires
            old(self).wf(),
        ensures
            final(self).wf(),
            final(self).max_threads == old(self).max_threads,
            begun.0 == old(self).tasks.running().contains(task_id),
            begun.1 == (Proposal {
                task_id,
                from: TaskState::Cancelling,
                to: TaskState::Cancelled,
            }),
            begun.1.from.accepts(begun.1.to),
            final(self).tasks.pending() == remove_first(old(self).tasks.pending(), task_id),
            final(self).tasks.running() == remove_first(old(self).tasks.running(), task_id),
            final(self).tasks.cancelling() == old(self).tasks.cancelling(),
    {
        let proposal = Proposal { task_id, from: TaskState::Cancelling, to: TaskState::Cancelled };
        self.tasks.remove_pending_task(task_id);
        let running = self.tasks.get_running_tasks();
        let stop = holds(&running, task_id);
        self.tasks.remove_running_task(task_id);
        (stop, proposal)
    }
}

/// Starting a task never lets more workers run than may run at once.
pub proof fn lemma_bound_kept(before: Scheduler, after: Scheduler, task_id: i32)
    requires
        before.wf(),
        before.tasks.running().len() < before.max_threads,
        after.tasks.running() == if before.tasks.running().contains(task_id) {
            before.tasks.running()
        } else {
            before.tasks.running().push(task_id)
        },
        after.max_threads == before.max_threads,
    ensures
        after.tasks.running().len() <= after.max_threads,
{
}

/// The message with which a worker ends that was told to stop.
pub open spec fn cancellation_message() -> Seq<char> {
    "Task was cancelled"@
}

/// Whether a worker's result says that it was told to stop.
pub fn is_cancellation(result: &String) -> (r: bool)
    ensures
        r == (result@ == cancellation_message()),
{
    spells(result, "Task was cancelled")
}

/// What a worker reports when it starts.
pub fn started(start_time: u64) -> (status: ThreadStatus)
    ensures
        !status.is_complete,
        !status.success,
        status.start_time == start_time,
        status.duration == 0,
        status.result@ == Seq::<char>::empty(),
{
    ThreadStatus {
        is_complete: false,
        success: false,
        start_time,
        duration: 0,
        result: String::new(),
    }
}

/// What a worker reports when it ends: whether it succeeded, how long it
/// ran, and its result or the error that ended it.
pub fn finished(start_time: u64, now: u64, outcome: Result<String, String>) -> (status:
    ThreadStatus)
    ensures
        status.is_complete,
        status.success == outcome is Ok,
        status.start_time == start_time,
        status.duration == if now >= start_time {
            now - start_time
        } else {
            0
        },
        status.result == match outcome {
            Ok(text) => text,
            Err(text) => text,
        },
{
    let success = outcome.is_ok();
    let result = match outcome {
        Ok(text) => text,
        Err(text) => text,
    };
    let duration = if now >= start_time {
        now - start_time
    } else {
        0
    };
    ThreadStatus { is_complete: true, success, start_time, duration, result }
}

} // verus!
