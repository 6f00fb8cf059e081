//! Process table with a priority scheduler.

use vstd::prelude::*;

use crate::occupancy::{count_set, lemma_count_set_bound, lemma_count_set_full_inv, lemma_count_set_update, lemma_count_set_zero};

verus! {

/// Slots in the process table.
pub const MAX_PROCESSES: usize = 32;

/// Bytes of a process name that are kept.
pub const PROCESS_NAME_LEN: usize = 16;

#[derive(Clone, Copy, Debug, PartialEq, Eq, Structural)]
pub enum ProcessState {
    Unused,
    Ready,
    Running,
    Blocked,
}

/// What a process record holds.
pub struct ProcessView {
    pub pid: u32,
    pub state: ProcessState,
    pub priority: u8,
    pub name: Seq<u8>,
}

#[derive(Clone, Copy)]
pub struct ProcessInfo {
    pid: u32,
    state: ProcessState,
    priority: u8,
    name: [u8; PROCESS_NAME_LEN],
}

impl View for ProcessInfo {
    type V = ProcessView;

    closed spec fn view(&self) -> ProcessView {
        ProcessView { pid: self.pid, state: self.state, priority: self.priority, name: self.name@ }
    }
}

impl ProcessInfo {
    /// An unused record.
    pub fn new() -> (r: ProcessInfo)
        ensures
            r@ == (ProcessView {
                pid: 0,
                state: ProcessState::Unused,
                priority: 0,
                name: Seq::new(PROCESS_NAME_LEN as nat, |k: int| 0u8),
            }),
    {
        let r = ProcessInfo {
            pid: 0,
            state: ProcessState::Unused,
            priority: 0,
            name: [0u8; PROCESS_NAME_LEN],
        };
        assert(r@.name =~= Seq::new(PROCESS_NAME_LEN as nat, |k: int| 0u8));
        r
    }

    pub fn pid(&self) -> (r: u32)
        ensures
            r == self@.pid,
    {
        self.pid
    }

    pub fn state(&self) -> (r: ProcessState)
        ensures
            r == self@.state,
    {
        self.state
    }

    pub fn priority(&self) -> (r: u8)
        ensures
            r == self@.priority,
    {
        self.priority
    }
}

/// The stored form of a name: its first `PROCESS_NAME_LEN` bytes, padded with zeros.
pub open spec fn stored_name(name: Seq<u8>) -> Seq<u8> {
    Seq::new(
        PROCESS_NAME_LEN as nat,
        |k: int|
            if k < name.len() {
                name[k]
            } else {
                0u8
            },
    )
}

/// The pid issued after `pid`: the next integer, wrapping past the largest
/// to 1 so that 0 is never issued.
pub open spec fn next_pid_after(pid: u32) -> u32 {
    if pid == u32::MAX {
        1
    } else {
        (pid + 1) as u32
    }
}

/// Which slots hold a process.
pub open spec fn live_slots(s: Seq<ProcessView>) -> Seq<bool> {
    Seq::new(s.len(), |i: int| s[i].state != ProcessState::Unused)
}

/// No two slots are running.
pub open spec fn at_most_one_running(s: Seq<ProcessView>) -> bool {
    forall|i: int, j: int|
        0 <= i < s.len() && 0 <= j < s.len() && s[i].state == ProcessState::Running
            && s[j].state == ProcessState::Running ==> i == j
}

/// `i` is the earliest live slot that holds `pid`.
pub open spec fn first_with_pid(s: Seq<ProcessView>, pid: u32, i: int) -> bool {
    &&& 0 <= i < s.len()
    &&& s[i].pid == pid && s[i].state != ProcessState::Unused
    &&& forall|j: int| 0 <= j < i ==> !(s[j].pid == pid && s[j].state != ProcessState::Unused)
}

/// `i` is the earliest unused slot.
pub open spec fn first_unused(s: Seq<ProcessView>, i: int) -> bool {
    &&& 0 <= i < s.len()
    &&& s[i].state == ProcessState::Unused
    &&& forall|j: int| 0 <= j < i ==> s[j].state != ProcessState::Unused
}

/// `i` is the slot the scheduler picks: a ready slot of the greatest priority
/// among ready slots, that priority above 0, the earliest such slot on a tie.
pub open spec fn is_pick(s: Seq<ProcessView>, i: int) -> bool {
    &&& 0 <= i < s.len()
    &&& s[i].state == ProcessState::Ready
    &&& s[i].priority > 0
    &&& forall|j: int|
        0 <= j < s.len() && s[j].state == ProcessState::Ready ==> s[j].priority <= s[i].priority
    &&& forall|j: int|
        0 <= j < i && s[j].state == ProcessState::Ready ==> s[j].priority < s[i].priority
}

/// Some ready slot has a priority above 0.
pub open spec fn has_candidate(s: Seq<ProcessView>) -> bool {
    exists|i: int| 0 <= i < s.len() && s[i].state == ProcessState::Ready && s[i].priority > 0
}

/// The table after slot `i` is dispatched: it runs, and whatever ran before is ready.
pub open spec fn dispatched(s: Seq<ProcessView>, i: int) -> Seq<ProcessView> {
    Seq::new(
        s.len(),
        |j: int|
            if j == i {
                ProcessView { state: ProcessState::Running, ..s[j] }
            } else if s[j].state == ProcessState::Running {
                ProcessView { state: ProcessState::Ready, ..s[j] }
            } else {
                s[j]
            },
    )
}

/// The process table as numbers: its slots and the pid that is issued next.
pub struct ProcessTable {
    pub slots: Seq<ProcessView>,
    pub next_pid: u32,
}

pub struct ProcessManager {
    processes: [ProcessInfo; MAX_PROCESSES],
    next_pid: u32,
    active_count: usize,
}

impl View for ProcessManager {
    type V = ProcessTable;

    closed spec fn view(&self) -> ProcessTable {
        ProcessTable {
            slots: Seq::new(MAX_PROCESSES as nat, |i: int| self.processes@[i]@),
            next_pid: self.next_pid,
        }
    }
}

impl ProcessManager {
    pub closed spec fn wf(&self) -> bool {
        &&& self.next_pid != 0
        &&& self.active_count == count_set(live_slots(self@.slots))
        &&& at_most_one_running(self@.slots)
        &&& forall|i: int|
            0 <= i < MAX_PROCESSES && #[trigger] self@.slots[i].state != ProcessState::Unused
                ==> self@.slots[i].pid != 0
    }

    /// A table of `MAX_PROCESSES` unused slots; the first pid issued is 1.
    pub fn new() -> (r: ProcessManager)
        ensures
            r.wf(),
            r@.next_pid == 1,
            r@.slots.len() == MAX_PROCESSES,
            forall|i: int| 0 <= i < MAX_PROCESSES ==> r@.slots[i].state == ProcessState::Unused,
    {
        let blank = ProcessInfo::new();
        let r = ProcessManager { processes: [blank; MAX_PROCESSES], next_pid: 1, active_count: 0 };
        proof {
            lemma_count_set_zero(live_slots(r@.slots));
        }
        r
    }

    /// Puts a new ready process with `priority` and `name` (its first
    /// `PROCESS_NAME_LEN` bytes) in the first unused slot and returns its pid,
    /// or `None`, changing nothing, when every slot is in use.
    pub fn create_process(&mut self, priority: u8, name: &[u8]) -> (r: Option<u32>)
        requires
            old(self).wf(),
        ensures
            final(self).wf(),
            final(self)@.slots.len() == MAX_PROCESSES,
            r.is_none() <==> (forall|i: int|
                0 <= i < MAX_PROCESSES ==> old(self)@.slots[i].state != ProcessState::Unused),
            r.is_none() ==> final(self)@ == old(self)@,
            r.is_some() ==> {
                &&& r.unwrap() == old(self)@.next_pid
                &&& r.unwrap() != 0
                &&& final(self)@.next_pid == next_pid_after(old(self)@.next_pid)
                &&& exists|i: int|
                    first_unused(old(self)@.slots, i) && final(self)@.slots == old(self)@.slots.update(
                        i,
                        ProcessView {
                            pid: old(self)@.next_pid,
                            state: ProcessState::Ready,
                            priority,
                            name: stored_name(name@),
                        },
                    )
            },
    {
        let ghost before = self@.slots;
        if self.active_count >= MAX_PROCESSES {
            proof {
                lemma_count_set_bound(live_slots(before));
                assert forall|i: int| 0 <= i < MAX_PROCESSES implies before[i].state
                    != ProcessState::Unused by {
                    lemma_count_set_full_inv(live_slots(before), i);
                }
            }
            return None;
        }
        let mut idx: usize = 0;
        while idx < MAX_PROCESSES
            invariant
                self.wf(),
                self@ == old(self)@,
                self.active_count < MAX_PROCESSES,
                before == old(self)@.slots,
                idx <= MAX_PROCESSES,
                forall|j: int| 0 <= j < idx ==> before[j].state != ProcessState::Unused,
            decreases MAX_PROCESSES - idx,
        {
            if self.processes[idx].state == ProcessState::Unused {
                let pid = self.next_pid;
                let mut name_buf = [0u8; PROCESS_NAME_LEN];
                let copy_len: usize = if name.len() < PROCESS_NAME_LEN {
                    name.len()
                } else {
                    PROCESS_NAME_LEN
                };
                let mut k: usize = 0;
                while k < copy_len
                    invariant
                        copy_len <= PROCESS_NAME_LEN,
                        copy_len <= name@.len(),
                        copy_len == name@.len() || copy_len == PROCESS_NAME_LEN,
                        k <= copy_len,
                        forall|m: int| 0 <= m < k ==> name_buf@[m] == name@[m],
                        forall|m: int| k <= m < PROCESS_NAME_LEN ==> name_buf@[m] == 0u8,
                    decreases copy_len - k,
                {
                    name_buf[k] = name[k];
                    k = k + 1;
                }
                assert(name_buf@ =~= stored_name(name@));
                let info = ProcessInfo {
                    pid,
                    state: ProcessState::Ready,
                    priority,
                    name: name_buf,
                };
                self.processes[idx] = info;
                self.next_pid = if self.next_pid == u32::MAX {
                    1
                } else {
                    self.next_pid + 1
                };
                proof {
                    assert(self@.slots =~= before.update(idx as int, info@));
                    assert(live_slots(self@.slots) =~= live_slots(before).update(idx as int, true));
                    lemma_count_set_update(live_slots(before), idx as int, true);
                    assert(first_unused(before, idx as int));
                }
                self.active_count = self.active_count + 1;
                return Some(pid);
            }
            idx = idx + 1;
        }
        None
    }

    /// Frees the first live slot holding `pid`; false, changing nothing, when
    /// no live slot holds it.
    pub fn terminate_process(&mut self, pid: u32) -> (r: bool)
        requires
            old(self).wf(),
        ensures
            final(self).wf(),
            final(self)@.next_pid == old(self)@.next_pid,
            r == exists|i: int| first_with_pid(old(self)@.slots, pid, i),
            !r ==> final(self)@ == old(self)@,
            r ==> exists|i: int|
                first_with_pid(old(self)@.slots, pid, i) && final(self)@.slots
                    == old(self)@.slots.update(
                    i,
                    ProcessView { state: ProcessState::Unused, ..old(self)@.slots[i] },
                ),
    {
        let ghost before = self@.slots;
        let mut idx: usize = 0;
        while idx < MAX_PROCESSES
            invariant
                self.wf(),
                self@ == old(self)@,
                before == old(self)@.slots,
                idx <= MAX_PROCESSES,
                forall|j: int|
                    0 <= j < idx ==> !(before[j].pid == pid && before[j].state
                        != ProcessState::Unused),
            decreases MAX_PROCESSES - idx,
        {
            if self.processes[idx].pid == pid && self.processes[idx].state != ProcessState::Unused {
                let mut info = self.processes[idx];
                info.state = ProcessState::Unused;
                self.processes[idx] = info;
                proof {
                    assert(first_with_pid(before, pid, idx as int));
                    assert(self@.slots =~= before.update(
                        idx as int,
                        ProcessView { state: ProcessState::Unused, ..before[idx as int] },
                    ));
                    assert(live_slots(self@.slots) =~= live_slots(before).update(idx as int, false));
                    lemma_count_set_update(live_slots(before), idx as int, false);
                }
                self.active_count = self.active_count - 1;
                return true;
            }
            idx = idx + 1;
        }
        false
    }

    /// Dispatches the ready process of greatest priority (the earliest slot
    /// on a tie; priority 0 is never picked): whatever ran before becomes
    /// ready and the pick runs. Returns its pid, or `None`, changing nothing,
    /// when no ready process has a priority above 0.
    pub fn schedule_next(&mut self) -> (r: Option<u32>)
        requires
            old(self).wf(),
        ensures
            final(self).wf(),
            final(self)@.next_pid == old(self)@.next_pid,
            r.is_none() <==> !has_candidate(old(self)@.slots),
            r.is_some() ==> r.unwrap() != 0,
            r.is_none() ==> final(self)@ == old(self)@,
            r.is_some() ==> exists|i: int|
                is_pick(old(self)@.slots, i) && r.unwrap() == old(self)@.slots[i].pid
                    && final(self)@.slots == dispatched(old(self)@.slots, i),
    {
        let ghost s = self@.slots;
        let mut best_idx: Option<usize> = None;
        let mut highest_priority: u8 = 0;
        let mut idx: usize = 0;
        while idx < MAX_PROCESSES
            invariant
                self@.slots == s,
                s.len() == MAX_PROCESSES,
                idx <= MAX_PROCESSES,
                best_idx.is_none() ==> highest_priority == 0,
                forall|j: int|
                    0 <= j < idx && s[j].state == ProcessState::Ready ==> s[j].priority
                        <= highest_priority,
                best_idx.is_some() ==> {
                    let b = best_idx.unwrap() as int;
                    &&& b < idx
                    &&& s[b].state == ProcessState::Ready
                    &&& s[b].priority == highest_priority
                    &&& highest_priority > 0
                    &&& forall|j: int|
                        0 <= j < b && s[j].state == ProcessState::Ready ==> s[j].priority
                            < highest_priority
                },
            decreases MAX_PROCESSES - idx,
        {
            let p = self.processes[idx];
            if p.state == ProcessState::Ready && p.priority > highest_priority {
                highest_priority = p.priority;
                best_idx = Some(idx);
            }
            idx = idx + 1;
        }
        match best_idx {
            None => {
                assert(!has_candidate(s));
                None
            },
            Some(b) => {
                assert(is_pick(s, b as int));
                self.dispatch(b);
                let pid = self.processes[b].pid;
                assert(pid == self@.slots[b as int].pid);
                assert(self@.slots[b as int].pid == s[b as int].pid);
                Some(pid)
            },
        }
    }

    /// Makes slot `b` the running one; whatever ran before becomes ready.
    fn dispatch(&mut self, b: usize)
        requires
            old(self).wf(),
            b < MAX_PROCESSES,
            old(self)@.slots[b as int].state == ProcessState::Ready,
        ensures
            final(self).wf(),
            final(self)@.next_pid == old(self)@.next_pid,
            final(self)@.slots == dispatched(old(self)@.slots, b as int),
    {
        let ghost s = self@.slots;
        let mut idx: usize = 0;
        while idx < MAX_PROCESSES
            invariant
                self.next_pid == old(self).next_pid,
                self.active_count == old(self).active_count,
                old(self)@.slots == s,
                b < MAX_PROCESSES,
                idx <= MAX_PROCESSES,
                forall|j: int|
                    0 <= j < idx ==> self@.slots[j] == (if s[j].state == ProcessState::Running {
                        ProcessView { state: ProcessState::Ready, ..s[j] }
                    } else {
                        s[j]
                    }),
                forall|j: int| idx <= j < MAX_PROCESSES ==> self@.slots[j] == s[j],
            decreases MAX_PROCESSES - idx,
        {
            if self.processes[idx].state == ProcessState::Running {
                let ghost cur = self@.slots;
                let mut info = self.processes[idx];
                info.state = ProcessState::Ready;
                self.processes[idx] = info;
                assert(self@.slots =~= cur.update(
                    idx as int,
                    ProcessView { state: ProcessState::Ready, ..cur[idx as int] },
                ));
            }
            idx = idx + 1;
        }
        let ghost mid = self@.slots;
        assert(mid[b as int] == s[b as int]);
        assert(self.processes@[b as int]@ == s[b as int]);
        let mut info = self.processes[b];
        info.state = ProcessState::Running;
        self.processes[b] = info;
        proof {
            assert(self@.slots =~= mid.update(
                b as int,
                ProcessView { state: ProcessState::Running, ..s[b as int] },
            ));
            assert(self@.slots =~= dispatched(s, b as int));
            assert(live_slots(self@.slots) =~= live_slots(s));
        }
    }

    /// Number of live processes.
    pub fn get_active_count(&self) -> (r: usize)
        requires
            self.wf(),
        ensures
            r == count_set(live_slots(self@.slots)),
    {
        self.active_count
    }
}

/// In every state the table reaches, at most one process runs and no live
/// process has pid 0.
pub proof fn lemma_table_invariants(pm: &ProcessManager)
    requires
        pm.wf(),
    ensures
        at_most_one_running(pm@.slots),
        forall|i: int|
            0 <= i < pm@.slots.len() && pm@.slots[i].state != ProcessState::Unused
                ==> pm@.slots[i].pid != 0,
{
    assert forall|i: int|
        0 <= i < pm@.slots.len() && pm@.slots[i].state != ProcessState::Unused implies pm@.slots[i].pid
        != 0 by {
        assert(pm@.slots[i].state != ProcessState::Unused);
    }
}

/// The priority pick is unique: equal top priorities go to the earliest slot.
pub proof fn lemma_pick_is_unique(s: Seq<ProcessView>, i: int, j: int)
    requires
        is_pick(s, i),
        is_pick(s, j),
    ensures
        i == j,
{
    if i < j {
        assert(s[i].priority < s[j].priority);
    } else if j < i {
        assert(s[j].priority < s[i].priority);
    }
}

} // verus!
