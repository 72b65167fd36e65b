//! The scheduler's bookkeeping: which tasks are pending, being cancelled and
//! running.
use vstd::prelude::*;

verus! {

/// `s` without the first occurrence of `id`.
pub open spec fn remove_first(s: Seq<i32>, id: i32) -> Seq<i32>
    decreases s.len(),
{
    if s.len() == 0 {
        s
    } else if s[0] == id {
        s.subrange(1, s.len() as int)
    } else {
        seq![s[0]] + remove_first(s.subrange(1, s.len() as int), id)
    }
}

/// Removing the first occurrence found at `k` is removing position `k`.
proof fn lemma_remove_first_at(s: Seq<i32>, id: i32, k: int)
    requires
        0 <= k < s.len(),
        s[k] == id,
        forall|j: int| 0 <= j < k ==> s[j] != id,
    ensures
        remove_first(s, id) == s.remove(k),
    decreases s.len(),
{
    if k == 0 {
        assert(s.remove(0) =~= s.subrange(1, s.len() as int));
    } else {
        let tail = s.subrange(1, s.len() as int);
        lemma_remove_first_at(tail, id, k - 1);
        assert(s.remove(k) =~= seq![s[0]] + tail.remove(k - 1));
    }
}

/// Nothing is removed from a sequence that does not hold `id`.
pub proof fn lemma_remove_absent(s: Seq<i32>, id: i32)
    requires
        !s.contains(id),
    ensures
        remove_first(s, id) == s,
    decreases s.len(),
{
    if s.len() > 0 {
        let tail = s.subrange(1, s.len() as int);
        assert(s[0] != id);
        assert forall|j: int| 0 <= j < tail.len() implies tail[j] != id by {
            assert(tail[j] == s[j + 1]);
        }
        lemma_remove_absent(tail, id);
        assert(s =~= seq![s[0]] + tail);
    }
}

/// Removing an entry from a sequence without duplicates leaves a sequence
/// without duplicates that no longer holds it and holds all the others.
pub proof fn lemma_remove_first_no_duplicates(s: Seq<i32>, id: i32)
    requires
        s.no_duplicates(),
    ensures
        remove_first(s, id).no_duplicates(),
        !remove_first(s, id).contains(id),
        forall|x: i32| x != id ==> (remove_first(s, id).contains(x) <==> s.contains(x)),
{
    if s.contains(id) {
        let k = s.index_of(id);
        assert forall|j: int| 0 <= j < k implies s[j] != id by {}
        lemma_remove_first_at(s, id, k);
        let r = s.remove(k);
        assert forall|x: i32| x != id implies (r.contains(x) <==> s.contains(x)) by {
            if s.contains(x) {
                let i = s.index_of(x);
                if i < k {
                    assert(r[i] == x);
                } else {
                    assert(r[i - 1] == x);
                }
            }
            if r.contains(x) {
                let i = r.index_of(x);
                if i < k {
                    assert(s[i] == x);
                } else {
                    assert(s[i + 1] == x);
                }
            }
        }
        if r.contains(id) {
            let i = r.index_of(id);
            if i < k {
                assert(s[i] == id);
            } else {
                assert(s[i + 1] == id);
            }
        }
    } else {
        lemma_remove_absent(s, id);
    }
}

/// The three task lists of the scheduler.
pub struct TasksProcessor {
    pending_tasks: Vec<i32>,
    cancelling_tasks: Vec<i32>,
    running_tasks: Vec<i32>,
}

fn position(list: &Vec<i32>, id: i32) -> (r: Option<usize>)
    ensures
        match r {
            Some(k) => k < list.len() && list[k as int] == id && forall|j: int|
                0 <= j < k ==> list[j] != id,
            None => !list@.contains(id),
        },
{
    let mut i: usize = 0;
    while i < list.len()
        invariant
            i <= list.len(),
            forall|j: int| 0 <= j < i ==> list[j] != id,
        decreases list.len() - i,
    {
        if list[i] == id {
            return Some(i);
        }
        i += 1;
    }
    None
}

fn insert_absent(list: &mut Vec<i32>, id: i32) -> (added: bool)
    requires
        old(list)@.no_duplicates(),
    ensures
        final(list)@.no_duplicates(),
        added == !old(list)@.contains(id),
        final(list)@ == if added {
            old(list)@.push(id)
        } else {
            old(list)@
        },
{
    match position(list, id) {
        Some(_) => false,
        None => {
            list.push(id);
            true
        },
    }
}

fn discard(list: &mut Vec<i32>, id: i32)
    requires
        old(list)@.no_duplicates(),
    ensures
        final(list)@.no_duplicates(),
        final(list)@ == remove_first(old(list)@, id),
{
    proof {
        lemma_remove_first_no_duplicates(list@, id);
    }
    match position(list, id) {
        Some(k) => {
            proof {
                lemma_remove_first_at(list@, id, k as int);
            }
            list.remove(k);
        },
        None => {
            proof {
                lemma_remove_absent(list@, id);
            }
        },
    }
}

impl TasksProcessor {
    /// No list holds a task twice.
    pub closed spec fn wf(self) -> bool {
        &&& self.pending_tasks@.no_duplicates()
        &&& self.cancelling_tasks@.no_duplicates()
        &&& self.running_tasks@.no_duplicates()
    }

    /// The pending tasks, oldest first.
    pub closed spec fn pending(self) -> Seq<i32> {
        self.pending_tasks@
    }

    /// The tasks being cancelled, oldest first.
    pub closed spec fn cancelling(self) -> Seq<i32> {
        self.cancelling_tasks@
    }

    /// The running tasks, oldest first.
    pub closed spec fn running(self) -> Seq<i32> {
        self.running_tasks@
    }

    /// Three empty lists.
    pub fn new() -> (p: Self)
        ensures
            p.wf(),
            p.pending() == Seq::<i32>::empty(),
            p.cancelling() == Seq::<i32>::empty(),
            p.running() == Seq::<i32>::empty(),
    {
        Self { pending_tasks: Vec::new(), cancelling_tasks: Vec::new(), running_tasks: Vec::new() }
    }

    /// In a well-formed processor no list holds a task twice.
    pub proof fn lemma_no_task_twice(self)
        requires
            self.wf(),
        ensures
            self.pending().no_duplicates(),
            self.cancelling().no_duplicates(),
            self.running().no_duplicates(),
    {
    }

    /// Records a task as pending unless it already is; says whether it was
    /// added.
    pub fn add_pending_task(&mut self, task_id: i32) -> (added: bool)
        requires
            old(self).wf(),
        ensures
            final(self).wf(),
            added == !old(self).pending().contains(task_id),
            final(self).pending() == if added {
                old(self).pending().push(task_id)
            } else {
                old(self).pending()
            },
            final(self).cancelling() == old(self).cancelling(),
            final(self).running() == old(self).running(),
    {
        insert_absent(&mut self.pending_tasks, task_id)
    }

    /// Records a task as being cancelled unless it already is; says whether
    /// it was added.
    pub fn add_cancelling_task(&mut self, task_id: i32) -> (added: bool)
        requires
            old(self).wf(),
        ensures
            final(self).wf(),
            added == !old(self).cancelling().contains(task_id),
            final(self).cancelling() == if added {
                old(self).cancelling().push(task_id)
            } else {
                old(self).cancelling()
            },
            final(self).pending() == old(self).pending(),
            final(self).running() == old(self).running(),
    {
        insert_absent(&mut self.cancelling_tasks, task_id)
    }

    /// Records a task as running unless it already is; says whether it was
    /// added.
    pub fn add_running_task(&mut self, task_id: i32) -> (added: bool)
        requires
            old(self).wf(),
        ensures
            final(self).wf(),
            added == !old(self).running().contains(task_id),
            final(self).running() == if added {
                old(self).running().push(task_id)
            } else {
                old(self).running()
            },
            final(self).pending() == old(self).pending(),
            final(self).cancelling() == old(self).cancelling(),
    {
        insert_absent(&mut self.running_tasks, task_id)
    }

    /// Forgets a pending task.
    pub fn remove_pending_task(&mut self, task_id: i32)
        requires
            old(self).wf(),
        ensures
            final(self).wf(),
            final(self).pending() == remove_first(old(self).pending(), task_id),
            final(self).cancelling() == old(self).cancelling(),
            final(self).running() == old(self).running(),
    {
        discard(&mut self.pending_tasks, task_id)
    }

    /// Forgets a task that was being cancelled.
    pub fn remove_cancelling_task(&mut self, task_id: i32)
        requires
            old(self).wf(),
        ensures
            final(self).wf(),
            final(self).cancelling() == remove_first(old(self).cancelling(), task_id),
            final(self).pending() == old(self).pending(),
            final(self).running() == old(self).running(),
    {
        discard(&mut self.cancelling_tasks, task_id)
    }

    /// Forgets a running task.
    pub fn remove_running_task(&mut self, task_id: i32)
        requires
            old(self).wf(),
        ensures
            final(self).wf(),
            final(self).running() == remove_first(old(self).running(), task_id),
            final(self).pending() == old(self).pending(),
            final(self).cancelling() == old(self).cancelling(),
    {
        discard(&mut self.running_tasks, task_id)
    }

    /// The pending tasks, oldest first.
    pub fn get_pending_tasks(&self) -> (tasks: Vec<i32>)
        ensures
            tasks@ == self.pending(),
    {
        self.pending_tasks.clone()
    }

    /// The tasks being cancelled, oldest first.
    pub fn get_cancelling_tasks(&self) -> (tasks: Vec<i32>)
        ensures
            tasks@ == self.cancelling(),
    {
        self.cancelling_tasks.clone()
    }

    /// The running tasks, oldest first.
    pub fn get_running_tasks(&self) -> (tasks: Vec<i32>)
        ensures
            tasks@ == self.running(),
    {
        self.running_tasks.clone()
    }
}

} // verus!
