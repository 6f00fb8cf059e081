//! Round-robin task scheduler: cyclic fair share over a fixed task table.
//!
//! Tasks carry a priority, but it is only stored: the pick goes by slot
//! order alone. This table is independent of the process table.

use vstd::prelude::*;

use crate::occupancy::{count_set, lemma_count_set_bound, lemma_count_set_full_inv, lemma_count_set_update, lemma_count_set_zero};

verus! {

/// Slots in the task table.
pub const MAX_TASKS: usize = 32;

/// Ticks a task may run before it should be rescheduled.
pub const DEFAULT_TIME_SLICE: u32 = 10;

#[derive(Clone, Copy, Debug, PartialEq, Eq, Structural)]
pub enum TaskState {
    Unused,
    Ready,
    Running,
    Blocked,
}

/// What a task record holds.
pub struct TaskView {
    pub id: u32,
    pub state: TaskState,
    pub priority: u8,
    pub time_slice: u32,
    pub remaining_time: u32,
}

#[derive(Clone, Copy)]
pub struct Task {
    id: u32,
    state: TaskState,
    priority: u8,
    time_slice: u32,
    remaining_time: u32,
}

impl View for Task {
    type V = TaskView;

    closed spec fn view(&self) -> TaskView {
        TaskView {
            id: self.id,
            state: self.state,
            priority: self.priority,
            time_slice: self.time_slice,
            remaining_time: self.remaining_time,
        }
    }
}

impl Task {
    pub fn id(&self) -> (r: u32)
        ensures
            r == self@.id,
    {
        self.id
    }

    pub fn state(&self) -> (r: TaskState)
        ensures
            r == self@.state,
    {
        self.state
    }

    pub fn priority(&self) -> (r: u8)
        ensures
            r == self@.priority,
    {
        self.priority
    }

    pub fn remaining_time(&self) -> (r: u32)
        ensures
            r == self@.remaining_time,
    {
        self.remaining_time
    }
}

/// The id issued after `id`, wrapping past the largest to 0.
pub open spec fn next_id_after(id: u32) -> u32 {
    if id == u32::MAX {
        0
    } else {
        (id + 1) as u32
    }
}

/// Which slots hold a task.
pub open spec fn occupied(s: Seq<Option<TaskView>>) -> Seq<bool> {
    Seq::new(s.len(), |i: int| s[i].is_some())
}

/// Slot `i` holds a task in state `st`.
pub open spec fn in_state(s: Seq<Option<TaskView>>, i: int, st: TaskState) -> bool {
    s[i].is_some() && s[i].unwrap().state == st
}

/// Slot index reached `a` steps after `start`, going round the table.
pub open spec fn lap_slot(start: int, a: int) -> int {
    (start + a) % (MAX_TASKS as int)
}

/// `i` is the first ready slot met going round the table from `start`
/// (`start` itself first).
pub open spec fn is_rr_pick(s: Seq<Option<TaskView>>, start: int, i: int) -> bool {
    exists|a: int|
        0 <= a < MAX_TASKS && i == lap_slot(start, a) && in_state(s, i, TaskState::Ready)
            && forall|b: int| 0 <= b < a ==> !in_state(s, lap_slot(start, b), TaskState::Ready)
}

/// Some slot holds a ready task.
pub open spec fn any_ready(s: Seq<Option<TaskView>>) -> bool {
    exists|i: int| 0 <= i < s.len() && in_state(s, i, TaskState::Ready)
}

/// `i` is the earliest slot holding a task with id `id`.
pub open spec fn first_with_id(s: Seq<Option<TaskView>>, id: u32, i: int) -> bool {
    &&& 0 <= i < s.len()
    &&& s[i].is_some() && s[i].unwrap().id == id
    &&& forall|j: int| 0 <= j < i ==> !(s[j].is_some() && s[j].unwrap().id == id)
}

/// `i` is the earliest empty slot.
pub open spec fn first_empty(s: Seq<Option<TaskView>>, i: int) -> bool {
    &&& 0 <= i < s.len()
    &&& s[i].is_none()
    &&& forall|j: int| 0 <= j < i ==> s[j].is_some()
}

/// The table after slot `i` is dispatched while the cursor is at `cur`: a
/// running task at the cursor becomes ready, and `i` runs with a full slice.
pub open spec fn rr_dispatched(s: Seq<Option<TaskView>>, cur: int, i: int) -> Seq<Option<TaskView>> {
    Seq::new(
        s.len(),
        |j: int|
            if j == i {
                Some(
                    TaskView {
                        state: TaskState::Running,
                        remaining_time: s[j].unwrap().time_slice,
                        ..s[j].unwrap()
                    },
                )
            } else if j == cur && in_state(s, j, TaskState::Running) {
                Some(TaskView { state: TaskState::Ready, ..s[j].unwrap() })
            } else {
                s[j]
            },
    )
}

/// The task table as numbers: its slots, the cursor and the id issued next.
pub struct TaskTable {
    pub slots: Seq<Option<TaskView>>,
    pub current: nat,
    pub next_id: u32,
}

pub struct RoundRobinScheduler {
    tasks: [Option<Task>; MAX_TASKS],
    current_task_idx: usize,
    task_count: usize,
    next_task_id: u32,
}

impl View for RoundRobinScheduler {
    type V = TaskTable;

    closed spec fn view(&self) -> TaskTable {
        TaskTable {
            slots: Seq::new(
                MAX_TASKS as nat,
                |i: int|
                    match self.tasks@[i] {
                        Some(t) => Some(t@),
                        None => None,
                    },
            ),
            current: self.current_task_idx as nat,
            next_id: self.next_task_id,
        }
    }
}

/// Only the slot under the cursor may be running.
pub open spec fn running_at_cursor(t: TaskTable) -> bool {
    forall|i: int|
        #![trigger t.slots[i]]
        0 <= i < t.slots.len() && in_state(t.slots, i, TaskState::Running) ==> i == t.current
}

impl RoundRobinScheduler {
    pub closed spec fn wf(&self) -> bool {
        &&& self.current_task_idx < MAX_TASKS
        &&& self.task_count == count_set(occupied(self@.slots))
        &&& running_at_cursor(self@)
    }

    /// An empty table; the cursor is at slot 0 and the first id issued is 1.
    pub fn new() -> (r: RoundRobinScheduler)
        ensures
            r.wf(),
            r@.slots.len() == MAX_TASKS,
            forall|i: int| 0 <= i < MAX_TASKS ==> r@.slots[i].is_none(),
            r@.current == 0,
            r@.next_id == 1,
    {
        let r = RoundRobinScheduler {
            tasks: [None; MAX_TASKS],
            current_task_idx: 0,
            task_count: 0,
            next_task_id: 1,
        };
        proof {
            lemma_count_set_zero(occupied(r@.slots));
        }
        r
    }

    /// Puts a new ready task with `priority` and a full default slice in the
    /// first empty slot and returns its id, or `None`, changing nothing, when
    /// the table is full.
    pub fn create_task(&mut self, priority: u8) -> (r: Option<u32>)
        requires
            old(self).wf(),
        ensures
            final(self).wf(),
            final(self)@.slots.len() == MAX_TASKS,
            final(self)@.current == old(self)@.current,
            r.is_none() <==> (forall|i: int| 0 <= i < MAX_TASKS ==> old(self)@.slots[i].is_some()),
            r.is_none() ==> final(self)@ == old(self)@,
            r.is_some() ==> {
                &&& r.unwrap() == old(self)@.next_id
                &&& final(self)@.next_id == next_id_after(old(self)@.next_id)
                &&& exists|i: int|
                    first_empty(old(self)@.slots, i) && final(self)@.slots == old(self)@.slots.update(
                        i,
                        Some(
                            TaskView {
                                id: old(self)@.next_id,
                                state: TaskState::Ready,
                                priority,
                                time_slice: DEFAULT_TIME_SLICE,
                                remaining_time: DEFAULT_TIME_SLICE,
                            },
                        ),
                    )
            },
    {
        let ghost before = self@.slots;
        if self.task_count >= MAX_TASKS {
            proof {
                lemma_count_set_bound(occupied(before));
                assert forall|i: int| 0 <= i < MAX_TASKS implies before[i].is_some() by {
                    lemma_count_set_full_inv(occupied(before), i);
                }
            }
            return None;
        }
        let mut idx: usize = 0;
        while idx < MAX_TASKS
            invariant
                self.wf(),
                self@ == old(self)@,
                self.task_count < MAX_TASKS,
                before == old(self)@.slots,
                idx <= MAX_TASKS,
                forall|j: int| 0 <= j < idx ==> before[j].is_some(),
            decreases MAX_TASKS - idx,
        {
            if self.tasks[idx].is_none() {
                let task_id = self.next_task_id;
                self.next_task_id = self.next_task_id.wrapping_add(1);
                let task = Task {
                    id: task_id,
                    state: TaskState::Ready,
                    priority,
                    time_slice: DEFAULT_TIME_SLICE,
                    remaining_time: DEFAULT_TIME_SLICE,
                };
                self.tasks[idx] = Some(task);
                proof {
                    assert(self@.slots =~= before.update(idx as int, Some(task@)));
                    assert(occupied(self@.slots) =~= occupied(before).update(idx as int, true));
                    lemma_count_set_update(occupied(before), idx as int, true);
                    assert(first_empty(before, idx as int));
                }
                self.task_count = self.task_count + 1;
                return Some(task_id);
            }
            idx = idx + 1;
        }
        None
    }

    /// Empties the first slot holding task `task_id`; false, changing
    /// nothing, when no slot holds it. When that slot was under the cursor,
    /// the cursor goes back to slot 0.
    pub fn terminate_task(&mut self, task_id: u32) -> (r: bool)
        requires
            old(self).wf(),
        ensures
            final(self).wf(),
            final(self)@.next_id == old(self)@.next_id,
            r == exists|i: int| first_with_id(old(self)@.slots, task_id, i),
            !r ==> final(self)@ == old(self)@,
            r ==> exists|i: int|
                first_with_id(old(self)@.slots, task_id, i) && final(self)@.slots
                    == old(self)@.slots.update(i, None) && final(self)@.current == (if i
                    == old(self)@.current {
                    0
                } else {
                    old(self)@.current
                }),
    {
        let ghost before = self@.slots;
        let mut idx: usize = 0;
        while idx < MAX_TASKS
            invariant
                self.wf(),
                self@ == old(self)@,
                before == old(self)@.slots,
                idx <= MAX_TASKS,
                forall|j: int| 0 <= j < idx ==> !(before[j].is_some() && before[j].unwrap().id == task_id),
            decreases MAX_TASKS - idx,
        {
            let matches = match &self.tasks[idx] {
                Some(task) => task.id == task_id,
                None => false,
            };
            if matches {
                self.tasks[idx] = None;
                proof {
                    assert(first_with_id(before, task_id, idx as int));
                    assert(self@.slots =~= before.update(idx as int, None));
                    assert(occupied(self@.slots) =~= occupied(before).update(idx as int, false));
                    lemma_count_set_update(occupied(before), idx as int, false);
                }
                self.task_count = self.task_count.saturating_sub(1);
                if idx == self.current_task_idx {
                    self.current_task_idx = 0;
                }
                return true;
            }
            idx = idx + 1;
        }
        false
    }

    /// Going round the table from the cursor slot for at most one lap, picks
    /// the first ready task: a running task under the cursor becomes ready,
    /// the pick runs with a full slice and the cursor moves to it. Returns its
    /// id, or `None`, changing nothing, when no task is ready. Priorities play
    /// no part. The lap takes in the cursor slot itself; the task running
    /// there is not ready, so in steady state the search begins right after it.
    pub fn schedule_next(&mut self) -> (r: Option<u32>)
        requires
            old(self).wf(),
        ensures
            final(self).wf(),
            final(self)@.next_id == old(self)@.next_id,
            r.is_none() <==> !any_ready(old(self)@.slots),
            r.is_none() ==> final(self)@ == old(self)@,
            r.is_some() ==> exists|i: int|
                is_rr_pick(old(self)@.slots, old(self)@.current as int, i) && r.unwrap()
                    == old(self)@.slots[i].unwrap().id && final(self)@.current == i
                    && final(self)@.slots == rr_dispatched(
                    old(self)@.slots,
                    old(self)@.current as int,
                    i,
                ),
    {
        let ghost s = self@.slots;
        let start_idx = self.current_task_idx;
        if self.task_count == 0 {
            proof {
                assert forall|i: int| 0 <= i < MAX_TASKS implies s[i].is_none() by {
                    if s[i].is_some() {
                        lemma_count_set_update(occupied(s), i, false);
                    }
                }
            }
            return None;
        }
        let mut attempts: usize = 0;
        while attempts < MAX_TASKS
            invariant
                self.wf(),
                self@ == old(self)@,
                s == old(self)@.slots,
                start_idx == old(self)@.current,
                start_idx < MAX_TASKS,
                attempts <= MAX_TASKS,
                forall|b: int|
                    0 <= b < attempts ==> !in_state(s, lap_slot(start_idx as int, b), TaskState::Ready),
            decreases MAX_TASKS - attempts,
        {
            let idx = (start_idx + attempts) % MAX_TASKS;
            let ready = match &self.tasks[idx] {
                Some(task) => task.state == TaskState::Ready,
                None => false,
            };
            if ready {
                assert(idx as int == lap_slot(start_idx as int, attempts as int));
                assert(in_state(s, idx as int, TaskState::Ready));
                assert(is_rr_pick(s, start_idx as int, idx as int));
                let id = self.dispatch(idx);
                return Some(id);
            }
            attempts = attempts + 1;
        }
        proof {
            assert forall|i: int| 0 <= i < MAX_TASKS implies !in_state(s, i, TaskState::Ready) by {
                let b = if i >= start_idx {
                    i - start_idx
                } else {
                    i + MAX_TASKS - start_idx
                };
                assert(lap_slot(start_idx as int, b) == i);
            }
        }
        None
    }

    /// Runs the ready task in slot `idx` with a full slice and moves the
    /// cursor to it; a running task under the cursor becomes ready.
    fn dispatch(&mut self, idx: usize) -> (id: u32)
        requires
            old(self).wf(),
            idx < MAX_TASKS,
            in_state(old(self)@.slots, idx as int, TaskState::Ready),
        ensures
            final(self).wf(),
            final(self)@.next_id == old(self)@.next_id,
            final(self)@.current == idx,
            id == old(self)@.slots[idx as int].unwrap().id,
            final(self)@.slots == rr_dispatched(
                old(self)@.slots,
                old(self)@.current as int,
                idx as int,
            ),
    {
        let ghost s = self@.slots;
        let ghost cur = self.current_task_idx as int;
        self.mark_current_as_ready();
        assert(self@.slots[idx as int].is_some());
        assert(self.tasks@[idx as int].is_some());
        let mut task = self.tasks[idx].unwrap();
        task.state = TaskState::Running;
        task.remaining_time = task.time_slice;
        let ghost mid = self@.slots;
        self.tasks[idx] = Some(task);
        self.current_task_idx = idx;
        proof {
            assert(self@.slots =~= mid.update(idx as int, Some(task@)));
            assert(self@.slots =~= rr_dispatched(s, cur, idx as int));
            assert(occupied(self@.slots) =~= occupied(mid));
        }
        task.id
    }

    /// Counts down the slice of the task under the cursor when it is running
    /// with time left. Returns true exactly when this uses up the slice; the
    /// caller then reschedules.
    pub fn tick(&mut self) -> (r: bool)
        requires
            old(self).wf(),
        ensures
            final(self).wf(),
            ({
                let c = old(self)@.current as int;
                let s = old(self)@.slots;
                if in_state(s, c, TaskState::Running) && s[c].unwrap().remaining_time > 0 {
                    &&& final(self)@ == (TaskTable {
                        slots: s.update(
                            c,
                            Some(
                                TaskView {
                                    remaining_time: (s[c].unwrap().remaining_time - 1) as u32,
                                    ..s[c].unwrap()
                                },
                            ),
                        ),
                        ..old(self)@
                    })
                    &&& r == (s[c].unwrap().remaining_time == 1)
                } else {
                    final(self)@ == old(self)@ && !r
                }
            }),
    {
        let ghost s = self@.slots;
        let idx = self.current_task_idx;
        match self.tasks[idx] {
            Some(t) => {
                if t.state == TaskState::Running && t.remaining_time > 0 {
                    let mut task = t;
                    task.remaining_time = task.remaining_time - 1;
                    self.tasks[idx] = Some(task);
                    proof {
                        assert(self@.slots =~= s.update(idx as int, Some(task@)));
                        assert(occupied(self@.slots) =~= occupied(s));
                    }
                    return task.remaining_time == 0;
                }
                false
            },
            None => false,
        }
    }

    /// Marks task `task_id` blocked, wherever it is; false when no slot holds it.
    pub fn block_task(&mut self, task_id: u32) -> (r: bool)
        requires
            old(self).wf(),
        ensures
            final(self).wf(),
            r == exists|i: int| first_with_id(old(self)@.slots, task_id, i),
            !r ==> final(self)@ == old(self)@,
            r ==> exists|i: int|
                first_with_id(old(self)@.slots, task_id, i) && final(self)@ == (TaskTable {
                    slots: old(self)@.slots.update(
                        i,
                        Some(TaskView { state: TaskState::Blocked, ..old(self)@.slots[i].unwrap() }),
                    ),
                    ..old(self)@
                }),
    {
        self.update_task_state(task_id, TaskState::Blocked)
    }

    /// Marks task `task_id` ready, wherever it is; false when no slot holds it.
    pub fn unblock_task(&mut self, task_id: u32) -> (r: bool)
        requires
            old(self).wf(),
        ensures
            final(self).wf(),
            r == exists|i: int| first_with_id(old(self)@.slots, task_id, i),
            !r ==> final(self)@ == old(self)@,
            r ==> exists|i: int|
                first_with_id(old(self)@.slots, task_id, i) && final(self)@ == (TaskTable {
                    slots: old(self)@.slots.update(
                        i,
                        Some(TaskView { state: TaskState::Ready, ..old(self)@.slots[i].unwrap() }),
                    ),
                    ..old(self)@
                }),
    {
        self.update_task_state(task_id, TaskState::Ready)
    }

    /// Number of tasks in the table.
    pub fn get_task_count(&self) -> (r: usize)
        requires
            self.wf(),
        ensures
            r == count_set(occupied(self@.slots)),
    {
        self.task_count
    }

    /// A running task under the cursor becomes ready.
    fn mark_current_as_ready(&mut self)
        requires
            old(self).wf(),
        ensures
            final(self).wf(),
            final(self)@.current == old(self)@.current,
            final(self)@.next_id == old(self)@.next_id,
            final(self)@.slots == (if in_state(old(self)@.slots, old(self)@.current as int, TaskState::Running) {
                old(self)@.slots.update(
                    old(self)@.current as int,
                    Some(TaskView { state: TaskState::Ready, ..old(self)@.slots[old(self)@.current as int].unwrap() }),
                )
            } else {
                old(self)@.slots
            }),
            forall|i: int|
                #![trigger final(self)@.slots[i]]
                0 <= i < MAX_TASKS ==> !in_state(final(self)@.slots, i, TaskState::Running),
    {
        let ghost s = self@.slots;
        let idx = self.current_task_idx;
        match self.tasks[idx] {
            Some(t) => {
                if t.state == TaskState::Running {
                    let mut task = t;
                    task.state = TaskState::Ready;
                    self.tasks[idx] = Some(task);
                    proof {
                        assert(self@.slots =~= s.update(idx as int, Some(task@)));
                        assert(occupied(self@.slots) =~= occupied(s));
                    }
                }
            },
            None => {},
        }
    }

    fn update_task_state(&mut self, task_id: u32, new_state: TaskState) -> (r: bool)
        requires
            old(self).wf(),
            new_state != TaskState::Running,
        ensures
            final(self).wf(),
            r == exists|i: int| first_with_id(old(self)@.slots, task_id, i),
            !r ==> final(self)@ == old(self)@,
            r ==> exists|i: int|
                first_with_id(old(self)@.slots, task_id, i) && final(self)@ == (TaskTable {
                    slots: old(self)@.slots.update(
                        i,
                        Some(TaskView { state: new_state, ..old(self)@.slots[i].unwrap() }),
                    ),
                    ..old(self)@
                }),
    {
        let ghost before = self@.slots;
        let mut idx: usize = 0;
        while idx < MAX_TASKS
            invariant
                self.wf(),
                new_state != TaskState::Running,
                old(self).wf(),
                self@ == old(self)@,
                before == old(self)@.slots,
                idx <= MAX_TASKS,
                forall|j: int| 0 <= j < idx ==> !(before[j].is_some() && before[j].unwrap().id == task_id),
            decreases MAX_TASKS - idx,
        {
            match self.tasks[idx] {
                Some(t) => {
                    if t.id == task_id {
                        let mut task = t;
                        task.state = new_state;
                        self.tasks[idx] = Some(task);
                        proof {
                            assert(first_with_id(before, task_id, idx as int));
                            assert(self@.slots =~= before.update(idx as int, Some(task@)));
                            assert(occupied(self@.slots) =~= occupied(before));
                            assert forall|i: int|
                                0 <= i < MAX_TASKS && in_state(
                                    self@.slots,
                                    i,
                                    TaskState::Running,
                                ) implies i == self@.current by {
                                if i != idx {
                                    assert(self@.slots[i] == before[i]);
                                    assert(in_state(old(self)@.slots, i, TaskState::Running));
                                } else {
                                    assert(self@.slots[i] == Some(task@));
                                }
                            }
                        }
                        return true;
                    }
                },
                None => {},
            }
            idx = idx + 1;
        }
        false
    }
}

/// In every state the table reaches, the cursor is in range and no task
/// but the one under it runs.
pub proof fn lemma_running_only_at_cursor(rr: &RoundRobinScheduler)
    requires
        rr.wf(),
    ensures
        rr@.current < MAX_TASKS,
        running_at_cursor(rr@),
{
}

/// The round-robin pick depends on which slots hold ready tasks alone:
/// two tables whose tasks differ only in priority (or any field but the
/// state) pick the same slot.
pub proof fn lemma_pick_ignores_priority(
    s1: Seq<Option<TaskView>>,
    s2: Seq<Option<TaskView>>,
    start: int,
    i: int,
)
    requires
        s1.len() == MAX_TASKS,
        s2.len() == MAX_TASKS,
        0 <= start,
        forall|j: int|
            0 <= j < MAX_TASKS ==> s1[j].is_some() == s2[j].is_some() && (s1[j].is_some()
                ==> s1[j].unwrap().state == s2[j].unwrap().state),
        is_rr_pick(s1, start, i),
    ensures
        is_rr_pick(s2, start, i),
{
    let a = choose|a: int|
        0 <= a < MAX_TASKS && i == lap_slot(start, a) && in_state(s1, i, TaskState::Ready)
            && forall|b: int| 0 <= b < a ==> !in_state(s1, lap_slot(start, b), TaskState::Ready);
    assert(in_state(s2, i, TaskState::Ready));
    assert forall|b: int| 0 <= b < a implies !in_state(s2, lap_slot(start, b), TaskState::Ready) by {
        assert(!in_state(s1, lap_slot(start, b), TaskState::Ready));
    }
}

} // verus!

