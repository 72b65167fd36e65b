//! The configuration records that the scheduler and the evaluator read, and
//! the states a task moves through.
use vstd::prelude::*;
use vstd::string::*;
use crate::intervals::CryptoInterval;
use crate::text::{decimal, render_i64, spells};

verus! {

/// A named list of symbols to evaluate on: their ids, the interval and the
/// number of candlesticks of the window.
#[derive(Debug, Clone)]
pub struct CryptoListComplete {
    pub id: i32,
    pub hidden: bool,
    pub name: String,
    pub interval: CryptoInterval,
    pub limit_count: i32,
    pub kind: String,
    pub crypto_symbols: Vec<i32>,
}

/// A configured optimizer: the algorithm's name and its parameters as text.
#[derive(Debug, Clone)]
pub struct MHObject {
    pub id: i32,
    pub hidden: bool,
    pub mh_algorithm_name: String,
    pub mh_parameters: String,
    pub other_parameters: Option<String>,
}

/// The state of a task.
#[derive(Debug, Clone, Copy, PartialEq, Eq, Structural)]
pub enum TaskState {
    Created,
    Pending,
    Running,
    Cancelling,
    Cancelled,
    Completed,
    Failed,
}

impl TaskState {
    /// The spelling of the state in the store.
    pub open spec fn name(self) -> Seq<char> {
        match self {
            TaskState::Created => "CREATED"@,
            TaskState::Pending => "PENDING"@,
            TaskState::Running => "RUNNING"@,
            TaskState::Cancelling => "CANCELLING"@,
            TaskState::Cancelled => "CANCELLED"@,
            TaskState::Completed => "COMPLETED"@,
            TaskState::Failed => "FAILED"@,
        }
    }

    /// The state that a stored spelling stands for; an unknown spelling reads
    /// as `Created`.
    pub open spec fn from_name(s: Seq<char>) -> TaskState {
        if s == "PENDING"@ {
            TaskState::Pending
        } else if s == "RUNNING"@ {
            TaskState::Running
        } else if s == "CANCELLING"@ {
            TaskState::Cancelling
        } else if s == "CANCELLED"@ {
            TaskState::Cancelled
        } else if s == "COMPLETED"@ {
            TaskState::Completed
        } else if s == "FAILED"@ {
            TaskState::Failed
        } else {
            TaskState::Created
        }
    }

    /// The states in which a task stays for good.
    pub open spec fn terminal(self) -> bool {
        self == TaskState::Cancelled || self == TaskState::Completed || self == TaskState::Failed
    }

    /// The accepted transitions: a created task is queued or cancelled, a
    /// pending one is started or cancelled, a running one is cancelled,
    /// completes or fails, and a cancelling one becomes cancelled.
    pub open spec fn accepts(self, to: TaskState) -> bool {
        match self {
            TaskState::Created => to == TaskState::Pending || to == TaskState::Cancelling,
            TaskState::Pending => to == TaskState::Running || to == TaskState::Cancelling,
            TaskState::Running => to == TaskState::Cancelling || to == TaskState::Completed || to
                == TaskState::Failed,
            TaskState::Cancelling => to == TaskState::Cancelled,
            _ => false,
        }
    }

    /// Reads a state from its spelling in the store.
    pub fn parse_from(state: &str) -> (r: TaskState)
        ensures
            r == Self::from_name(state@),
    {
        let s = String::from_str(state);
        if spells(&s, "PENDING") {
            TaskState::Pending
        } else if spells(&s, "RUNNING") {
            TaskState::Running
        } else if spells(&s, "CANCELLING") {
            TaskState::Cancelling
        } else if spells(&s, "CANCELLED") {
            TaskState::Cancelled
        } else if spells(&s, "COMPLETED") {
            TaskState::Completed
        } else if spells(&s, "FAILED") {
            TaskState::Failed
        } else {
            TaskState::Created
        }
    }

    /// The spelling of the state in the store.
    pub fn to_string(&self) -> (s: String)
        ensures
            s@ == self.name(),
    {
        match self {
            TaskState::Created => String::from_str("CREATED"),
            TaskState::Pending => String::from_str("PENDING"),
            TaskState::Running => String::from_str("RUNNING"),
            TaskState::Cancelling => String::from_str("CANCELLING"),
            TaskState::Cancelled => String::from_str("CANCELLED"),
            TaskState::Completed => String::from_str("COMPLETED"),
            TaskState::Failed => String::from_str("FAILED"),
        }
    }

    /// Whether a task stays in this state for good.
    pub fn is_terminal(&self) -> (r: bool)
        ensures
            r == self.terminal(),
    {
        match self {
            TaskState::Cancelled | TaskState::Completed | TaskState::Failed => true,
            _ => false,
        }
    }

    /// Whether a task in this state may move to `to`.
    pub fn can_move_to(&self, to: TaskState) -> (r: bool)
        ensures
            r == self.accepts(to),
    {
        match self {
            TaskState::Created => to == TaskState::Pending || to == TaskState::Cancelling,
            TaskState::Pending => to == TaskState::Running || to == TaskState::Cancelling,
            TaskState::Running => to == TaskState::Cancelling || to == TaskState::Completed || to
                == TaskState::Failed,
            TaskState::Cancelling => to == TaskState::Cancelled,
            _ => false,
        }
    }
}

/// Reading the stored spelling of a state gives the state back.
pub proof fn lemma_state_name_round_trip(s: TaskState)
    ensures
        TaskState::from_name(s.name()) == s,
{
    reveal_strlit("CREATED");
    reveal_strlit("PENDING");
    reveal_strlit("RUNNING");
    reveal_strlit("CANCELLING");
    reveal_strlit("CANCELLED");
    reveal_strlit("COMPLETED");
    reveal_strlit("FAILED");
    assert("CREATED"@.len() == 7 && "CREATED"@[0] == 'C' && "CREATED"@[1] == 'R');
    assert("PENDING"@.len() == 7 && "PENDING"@[0] == 'P' && "PENDING"@[1] == 'E');
    assert("RUNNING"@.len() == 7 && "RUNNING"@[0] == 'R' && "RUNNING"@[1] == 'U');
    assert("CANCELLING"@.len() == 10 && "CANCELLING"@[0] == 'C' && "CANCELLING"@[1] == 'A');
    assert("CANCELLED"@.len() == 9 && "CANCELLED"@[0] == 'C' && "CANCELLED"@[1] == 'A');
    assert("COMPLETED"@.len() == 9 && "COMPLETED"@[0] == 'C' && "COMPLETED"@[1] == 'O');
    assert("FAILED"@.len() == 6 && "FAILED"@[0] == 'F' && "FAILED"@[1] == 'A');
}

/// No transition leaves a terminal state, and every other state has one.
pub proof fn lemma_terminal_states_are_final(from: TaskState)
    ensures
        from.terminal() <==> forall|to: TaskState| !from.accepts(to),
{
    if !from.terminal() {
        match from {
            TaskState::Created => assert(from.accepts(TaskState::Pending)),
            TaskState::Pending => assert(from.accepts(TaskState::Running)),
            TaskState::Running => assert(from.accepts(TaskState::Completed)),
            _ => assert(from.accepts(TaskState::Cancelled)),
        }
    }
}

/// A task as the store holds it; `created_at` counts milliseconds since the
/// epoch.
#[derive(Debug, Clone)]
pub struct Task {
    pub id: i32,
    pub state: TaskState,
    pub created_at: i64,
    pub other_parameters: Option<String>,
    pub mh_object_id: Option<i32>,
    pub crypto_list_id: Option<i32>,
    pub indicator_combination_id: Option<i32>,
    pub result_id: Option<i32>,
}

impl Task {
    /// A task that refers to nothing yet.
    pub fn new(id: i32, state: TaskState, created_at: i64) -> (t: Task)
        ensures
            t.id == id,
            t.state == state,
            t.created_at == created_at,
            t.other_parameters is None,
            t.mh_object_id is None,
            t.crypto_list_id is None,
            t.indicator_combination_id is None,
            t.result_id is None,
    {
        Task {
            id,
            state,
            created_at,
            other_parameters: None,
            mh_object_id: None,
            crypto_list_id: None,
            indicator_combination_id: None,
            result_id: None,
        }
    }
}

/// A change of a task's state, as subscribers receive it.
#[derive(Debug, Clone)]
pub struct TaskUpdate {
    pub task_id: i32,
    pub state: String,
}

impl TaskUpdate {
    /// The line that a subscriber reads for this update.
    pub open spec fn line(self) -> Seq<char> {
        "{ \"task_id\": "@ + decimal(self.task_id as int) + ", \"state\": \""@ + self.state@
            + "\" }"@
    }

    /// The value that a subscriber sees before any task has changed.
    pub fn initial() -> (u: TaskUpdate)
        ensures
            u.task_id == 0,
            u.state@ == "created"@,
    {
        TaskUpdate { task_id: 0, state: String::from_str("created") }
    }

    /// The update that announces `state` for the task `task_id`.
    pub fn announce(task_id: i32, state: TaskState) -> (u: TaskUpdate)
        ensures
            u.task_id == task_id,
            u.state@ == state.name(),
    {
        TaskUpdate { task_id, state: state.to_string() }
    }

    /// Writes the update as the line that is streamed to subscribers.
    pub fn to_string(&self) -> (s: String)
        ensures
            s@ == self.line(),
    {
        let mut s = String::from_str("{ \"task_id\": ");
        let id = render_i64(self.task_id as i64);
        s.append(id.as_str());
        s.append(", \"state\": \"");
        s.append(self.state.as_str());
        s.append("\" }");
        s
    }
}

/// What a worker reports about its task; times count milliseconds.
#[derive(Debug, Clone)]
pub struct ThreadStatus {
    pub is_complete: bool,
    pub success: bool,
    pub start_time: u64,
    pub duration: u64,
    pub result: String,
}

} // verus!
