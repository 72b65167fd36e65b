use backend::manager::processor::TasksProcessor;
use backend::manager::scheduler::{
    finished, is_cancellation, started, Effect, Proposal, Reaction, Scheduler, WorkerReport,
};
use backend::objects::TaskState;

#[test]
fn a_new_processor_holds_no_tasks() {
    let processor = TasksProcessor::new();
    assert!(processor.get_pending_tasks().is_empty());
    assert!(processor.get_cancelling_tasks().is_empty());
    assert!(processor.get_running_tasks().is_empty());
}

#[test]
fn a_task_is_added_once() {
    let mut processor = TasksProcessor::new();
    assert!(processor.add_pending_task(3));
    assert!(!processor.add_pending_task(3));
    assert!(processor.add_pending_task(5));
    assert_eq!(processor.get_pending_tasks(), vec![3, 5]);
    assert!(processor.add_running_task(3));
    assert!(!processor.add_running_task(3));
    assert!(processor.add_cancelling_task(3));
    assert!(!processor.add_cancelling_task(3));
    assert_eq!(processor.get_running_tasks(), vec![3]);
    assert_eq!(processor.get_cancelling_tasks(), vec![3]);
    assert_eq!(processor.get_pending_tasks(), vec![3, 5]);
}

#[test]
fn removing_keeps_the_order_of_the_others() {
    let mut processor = TasksProcessor::new();
    for id in [1, 2, 3, 4] {
        processor.add_running_task(id);
        processor.add_pending_task(id);
        processor.add_cancelling_task(id);
    }
    processor.remove_running_task(2);
    processor.remove_running_task(9);
    processor.remove_pending_task(1);
    processor.remove_cancelling_task(4);
    assert_eq!(processor.get_running_tasks(), vec![1, 3, 4]);
    assert_eq!(processor.get_pending_tasks(), vec![2, 3, 4]);
    assert_eq!(processor.get_cancelling_tasks(), vec![1, 2, 3]);
    processor.remove_running_task(2);
    assert_eq!(processor.get_running_tasks(), vec![1, 3, 4]);
    assert!(processor.add_running_task(2));
    assert_eq!(processor.get_running_tasks(), vec![1, 3, 4, 2]);
}

fn report(task_id: i32, is_complete: bool, success: bool) -> WorkerReport {
    WorkerReport { task_id, is_complete, success, cancelled: false }
}

fn start(scheduler: &mut Scheduler, transitions: &mut Vec<Proposal>, task_id: i32) -> bool {
    match scheduler.promote(task_id) {
        Some(proposal) => {
            transitions.push(proposal);
            assert_eq!(scheduler.confirm(&proposal, true), Effect::Spawn(task_id));
            true
        }
        None => false,
    }
}

#[test]
fn one_worker_runs_two_tasks_one_after_the_other() {
    let mut scheduler = Scheduler::new(1);
    let mut transitions: Vec<Proposal> = Vec::new();
    assert_eq!(scheduler.observe(1, TaskState::Pending), Reaction::Promote(1));
    assert!(start(&mut scheduler, &mut transitions, 1));
    assert_eq!(scheduler.observe(2, TaskState::Pending), Reaction::Promote(2));
    assert!(!start(&mut scheduler, &mut transitions, 2));
    assert_eq!(scheduler.tasks.get_running_tasks(), vec![1]);
    assert_eq!(scheduler.tasks.get_pending_tasks(), vec![2]);

    assert!(scheduler.reap(&vec![report(1, false, false)]).is_empty());
    for id in scheduler.tasks.get_pending_tasks() {
        assert!(!start(&mut scheduler, &mut transitions, id));
    }
    assert_eq!(scheduler.observe(1, TaskState::Running), Reaction::Nothing);
    assert_eq!(scheduler.observe(2, TaskState::Pending), Reaction::Nothing);

    let reaped = scheduler.reap(&vec![report(1, true, true)]);
    assert_eq!(
        reaped,
        vec![Proposal { task_id: 1, from: TaskState::Running, to: TaskState::Completed }]
    );
    transitions.push(reaped[0]);
    assert_eq!(scheduler.confirm(&reaped[0], true), Effect::Forget(1));
    assert!(scheduler.tasks.get_running_tasks().is_empty());
    for id in scheduler.tasks.get_pending_tasks() {
        assert!(start(&mut scheduler, &mut transitions, id));
    }
    let reaped = scheduler.reap(&vec![report(2, true, true)]);
    transitions.push(reaped[0]);
    assert_eq!(scheduler.confirm(&reaped[0], true), Effect::Forget(2));

    let seen: Vec<(i32, TaskState, TaskState)> =
        transitions.iter().map(|p| (p.task_id, p.from, p.to)).collect();
    assert_eq!(
        seen,
        vec![
            (1, TaskState::Pending, TaskState::Running),
            (1, TaskState::Running, TaskState::Completed),
            (2, TaskState::Pending, TaskState::Running),
            (2, TaskState::Running, TaskState::Completed),
        ]
    );
    assert!(transitions.iter().all(|p| p.from.can_move_to(p.to)));
    assert!(scheduler.tasks.get_pending_tasks().is_empty());
    assert!(scheduler.tasks.get_running_tasks().is_empty());
}

#[test]
fn a_running_task_is_cancelled() {
    let mut scheduler = Scheduler::new(2);
    let mut transitions: Vec<Proposal> = Vec::new();
    scheduler.observe(7, TaskState::Pending);
    assert!(start(&mut scheduler, &mut transitions, 7));
    assert_eq!(scheduler.observe(7, TaskState::Cancelling), Reaction::Cancel(7));
    let (stop, proposal) = scheduler.begin_cancel(7);
    assert!(stop);
    assert_eq!(
        proposal,
        Proposal { task_id: 7, from: TaskState::Cancelling, to: TaskState::Cancelled }
    );
    assert!(scheduler.tasks.get_running_tasks().is_empty());
    assert_eq!(scheduler.tasks.get_cancelling_tasks(), vec![7]);
    assert_eq!(scheduler.confirm(&proposal, true), Effect::Nothing);
    assert!(scheduler.tasks.get_cancelling_tasks().is_empty());
    let update = proposal.update();
    assert_eq!(update.to_string(), "{ \"task_id\": 7, \"state\": \"CANCELLED\" }");

    let status = finished(10, 25, Err(String::from("Task was cancelled")));
    assert!(status.is_complete);
    assert!(!status.success);
    assert_eq!(status.result, "Task was cancelled");
    assert!(is_cancellation(&status.result));
    assert!(scheduler.reap(&vec![report(7, true, false)]).is_empty());
    assert!(TaskState::Running.can_move_to(TaskState::Cancelling));
    assert!(TaskState::Cancelling.can_move_to(TaskState::Cancelled));
}

#[test]
fn a_pending_task_is_cancelled_without_stopping_a_worker() {
    let mut scheduler = Scheduler::new(2);
    scheduler.observe(7, TaskState::Pending);
    scheduler.observe(7, TaskState::Cancelling);
    let (stop, proposal) = scheduler.begin_cancel(7);
    assert!(!stop);
    assert!(scheduler.tasks.get_pending_tasks().is_empty());
    assert_eq!(scheduler.confirm(&proposal, false), Effect::Nothing);
    assert_eq!(scheduler.tasks.get_cancelling_tasks(), vec![7]);
    assert_eq!(scheduler.confirm(&proposal, true), Effect::Nothing);
    assert!(scheduler.tasks.get_cancelling_tasks().is_empty());
}

#[test]
fn an_unknown_task_is_cancelled_without_stopping_a_worker() {
    let mut scheduler = Scheduler::new(2);
    scheduler.observe(1, TaskState::Pending);
    let (stop, _) = scheduler.begin_cancel(9);
    assert!(!stop);
    assert_eq!(scheduler.tasks.get_pending_tasks(), vec![1]);
}

#[test]
fn a_failed_worker_fails_its_task() {
    let mut scheduler = Scheduler::new(4);
    scheduler.observe(1, TaskState::Pending);
    scheduler.observe(2, TaskState::Pending);
    let mut transitions = Vec::new();
    start(&mut scheduler, &mut transitions, 1);
    start(&mut scheduler, &mut transitions, 2);
    let reaped = scheduler.reap(&vec![
        report(3, true, true),
        report(2, true, false),
        report(1, false, true),
    ]);
    assert_eq!(reaped, vec![Proposal { task_id: 2, from: TaskState::Running, to: TaskState::Failed }]);
    assert_eq!(scheduler.confirm(&reaped[0], false), Effect::Nothing);
    assert_eq!(scheduler.tasks.get_running_tasks(), vec![1, 2]);
    assert_eq!(scheduler.confirm(&reaped[0], true), Effect::Forget(2));
    assert_eq!(scheduler.tasks.get_running_tasks(), vec![1]);
}

#[test]
fn a_task_left_running_by_an_earlier_scheduler_is_failed() {
    let mut scheduler = Scheduler::new(4);
    let reaction = scheduler.observe(5, TaskState::Running);
    let proposal = Proposal { task_id: 5, from: TaskState::Running, to: TaskState::Failed };
    assert_eq!(reaction, Reaction::Fail(proposal));
    assert_eq!(scheduler.tasks.get_running_tasks(), vec![5]);
    assert_eq!(scheduler.confirm(&proposal, true), Effect::Forget(5));
    assert!(scheduler.tasks.get_running_tasks().is_empty());
}

#[test]
fn other_states_ask_for_nothing() {
    let mut scheduler = Scheduler::new(4);
    for state in [TaskState::Created, TaskState::Cancelled, TaskState::Completed, TaskState::Failed] {
        assert_eq!(scheduler.observe(1, state), Reaction::Nothing);
    }
    assert!(scheduler.tasks.get_pending_tasks().is_empty());
    assert!(scheduler.tasks.get_running_tasks().is_empty());
    assert!(scheduler.tasks.get_cancelling_tasks().is_empty());
}

#[test]
fn a_refused_start_changes_nothing() {
    let mut scheduler = Scheduler::new(1);
    scheduler.observe(1, TaskState::Pending);
    let proposal = scheduler.promote(1).unwrap();
    assert_eq!(scheduler.confirm(&proposal, false), Effect::Nothing);
    assert_eq!(scheduler.tasks.get_pending_tasks(), vec![1]);
    assert!(scheduler.tasks.get_running_tasks().is_empty());
    assert!(scheduler.has_free_worker());
}

#[test]
fn no_worker_no_start() {
    let scheduler = Scheduler::new(0);
    assert!(!scheduler.has_free_worker());
    assert_eq!(scheduler.promote(1), None);
}

#[test]
fn workers_report_their_start_and_their_end() {
    let status = started(1000);
    assert!(!status.is_complete);
    assert!(!status.success);
    assert_eq!(status.start_time, 1000);
    assert_eq!(status.duration, 0);
    assert_eq!(status.result, "");
    let done = finished(1000, 4500, Ok(String::from("Task completed successfully")));
    assert!(done.is_complete);
    assert!(done.success);
    assert_eq!(done.duration, 3500);
    assert_eq!(done.result, "Task completed successfully");
    assert!(!is_cancellation(&done.result));
    let early = finished(1000, 400, Err(String::from("no")));
    assert_eq!(early.duration, 0);
    assert!(!early.success);
}

#[test]
fn a_worker_that_was_told_to_stop_is_not_failed() {
    let mut scheduler = Scheduler::new(2);
    scheduler.observe(7, TaskState::Pending);
    let mut transitions = Vec::new();
    start(&mut scheduler, &mut transitions, 7);
    let status = finished(0, 5, Err(String::from("Task was cancelled")));
    let report = WorkerReport {
        task_id: 7,
        is_complete: status.is_complete,
        success: status.success,
        cancelled: is_cancellation(&status.result),
    };
    let reaped = scheduler.reap(&vec![report]);
    let proposal = Proposal { task_id: 7, from: TaskState::Running, to: TaskState::Cancelling };
    assert_eq!(reaped, vec![proposal]);
    assert_eq!(scheduler.confirm(&proposal, true), Effect::Forget(7));
    assert_eq!(scheduler.tasks.get_running_tasks(), vec![7]);
    assert_eq!(scheduler.observe(7, TaskState::Cancelling), Reaction::Cancel(7));
    let (stop, last) = scheduler.begin_cancel(7);
    assert!(stop);
    assert_eq!(scheduler.confirm(&last, true), Effect::Nothing);
    assert!(scheduler.tasks.get_running_tasks().is_empty());
    assert!(scheduler.tasks.get_cancelling_tasks().is_empty());
    assert_eq!(last.to, TaskState::Cancelled);
}

#[test]
fn a_task_both_pending_and_running_is_stopped() {
    let mut scheduler = Scheduler::new(2);
    assert!(scheduler.tasks.add_pending_task(7));
    assert!(scheduler.tasks.add_running_task(7));
    assert!(scheduler.tasks.add_running_task(8));
    let (stop, _) = scheduler.begin_cancel(7);
    assert!(stop);
    assert!(scheduler.tasks.get_pending_tasks().is_empty());
    assert_eq!(scheduler.tasks.get_running_tasks(), vec![8]);
}
