use backend::objects::{Task, TaskState, TaskUpdate};

const STATES: [(TaskState, &str); 7] = [
    (TaskState::Created, "CREATED"),
    (TaskState::Pending, "PENDING"),
    (TaskState::Running, "RUNNING"),
    (TaskState::Cancelling, "CANCELLING"),
    (TaskState::Cancelled, "CANCELLED"),
    (TaskState::Completed, "COMPLETED"),
    (TaskState::Failed, "FAILED"),
];

#[test]
fn task_states_are_read_from_their_names() {
    for (state, name) in STATES.iter() {
        assert_eq!(TaskState::parse_from(name), *state);
        assert_eq!(state.to_string(), *name);
    }
}

#[test]
fn unknown_task_state_reads_as_created() {
    assert_eq!(TaskState::parse_from("running"), TaskState::Created);
    assert_eq!(TaskState::parse_from(""), TaskState::Created);
    assert_eq!(TaskState::parse_from("DONE"), TaskState::Created);
}

#[test]
fn only_the_transitions_of_the_table_are_accepted() {
    let accepted = [
        (TaskState::Created, TaskState::Pending),
        (TaskState::Created, TaskState::Cancelling),
        (TaskState::Pending, TaskState::Running),
        (TaskState::Pending, TaskState::Cancelling),
        (TaskState::Running, TaskState::Cancelling),
        (TaskState::Running, TaskState::Completed),
        (TaskState::Running, TaskState::Failed),
        (TaskState::Cancelling, TaskState::Cancelled),
    ];
    for (from, _) in STATES.iter() {
        for (to, _) in STATES.iter() {
            assert_eq!(from.can_move_to(*to), accepted.contains(&(*from, *to)));
        }
    }
}

#[test]
fn terminal_states_accept_nothing() {
    for (from, _) in STATES.iter() {
        let leaves = STATES.iter().any(|(to, _)| from.can_move_to(*to));
        assert_eq!(from.is_terminal(), !leaves);
    }
    assert!(TaskState::Cancelled.is_terminal());
    assert!(TaskState::Completed.is_terminal());
    assert!(TaskState::Failed.is_terminal());
    assert!(!TaskState::Cancelling.is_terminal());
}

#[test]
fn a_new_task_refers_to_nothing() {
    let task = Task::new(4, TaskState::Created, 1735325040000);
    assert_eq!(task.id, 4);
    assert_eq!(task.state, TaskState::Created);
    assert_eq!(task.created_at, 1735325040000);
    assert!(task.other_parameters.is_none());
    assert!(task.mh_object_id.is_none());
    assert!(task.crypto_list_id.is_none());
    assert!(task.indicator_combination_id.is_none());
    assert!(task.result_id.is_none());
}

#[test]
fn task_updates_are_written_as_lines() {
    let update = TaskUpdate { task_id: 12, state: String::from("RUNNING") };
    assert_eq!(update.to_string(), "{ \"task_id\": 12, \"state\": \"RUNNING\" }");
    let negative = TaskUpdate { task_id: -7, state: String::new() };
    assert_eq!(negative.to_string(), "{ \"task_id\": -7, \"state\": \"\" }");
}

#[test]
fn the_first_update_is_the_sentinel() {
    let update = TaskUpdate::initial();
    assert_eq!(update.task_id, 0);
    assert_eq!(update.state, "created");
    assert_eq!(update.to_string(), "{ \"task_id\": 0, \"state\": \"created\" }");
}

#[test]
fn an_announcement_names_the_new_state() {
    let update = TaskUpdate::announce(3, TaskState::Cancelling);
    assert_eq!(update.task_id, 3);
    assert_eq!(update.state, "CANCELLING");
}
