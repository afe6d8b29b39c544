use vstd::prelude::*;

use crate::config::MAX_SYSCALL_NUM;
use vstd::arithmetic::div_mod::{lemma_mod_add_multiples_vanish, lemma_small_mod};

verus! {

/// Lifecycle state of a task.
#[derive(Clone, Copy, Debug, PartialEq, Eq, Structural)]
pub enum TaskStatus {
    UnInit,
    Ready,
    Running,
    Exited,
}

/// The moves of the lifecycle: `UnInit -> Ready -> Running`, `Running -> Ready`
/// and `Running -> Exited`. Nothing leaves `Exited`.
pub open spec fn can_move(from: TaskStatus, to: TaskStatus) -> bool {
    match (from, to) {
        (TaskStatus::UnInit, TaskStatus::Ready) => true,
        (TaskStatus::Ready, TaskStatus::Running) => true,
        (TaskStatus::Running, TaskStatus::Ready) => true,
        (TaskStatus::Running, TaskStatus::Exited) => true,
        _ => false,
    }
}

/// Registers saved across a task switch; owned and restored by the scheduler.
#[derive(Clone, Copy, Debug)]
pub struct TaskContext {
    pub ra: usize,
    pub sp: usize,
    pub s: [usize; 12],
}

impl TaskContext {
    pub fn zero_init() -> (r: TaskContext)
        ensures
            r.ra == 0,
            r.sp == 0,
            r.s@ == Seq::new(12, |i: int| 0usize),
    {
        let r = TaskContext { ra: 0, sp: 0, s: [0usize; 12] };
        assert(r.s@ =~= Seq::new(12, |i: int| 0usize));
        r
    }
}

/// The task control block of a task.
#[derive(Clone, Copy)]
pub struct TaskControlBlock {
    /// The task status in its lifecycle
    pub task_status: TaskStatus,
    /// The task context
    pub task_cx: TaskContext,
    /// Number of calls of each syscall, by syscall id
    pub syscall_times_list: [u32; MAX_SYSCALL_NUM],
    /// Time in milliseconds at which the task was first dispatched
    pub start_time: usize,
    /// Whether the task has been dispatched yet
    pub is_started: bool,
}

/// The block after the first dispatch at time `now_ms` has been recorded;
/// a block that has already started is left as it is.
pub open spec fn started_at(t: TaskControlBlock, now_ms: int) -> TaskControlBlock {
    if t.is_started {
        t
    } else {
        TaskControlBlock { start_time: now_ms as usize, is_started: true, ..t }
    }
}

/// Milliseconds from the first dispatch to `now_ms`, or 0 if `now_ms` comes earlier.
pub open spec fn elapsed(t: TaskControlBlock, now_ms: int) -> int {
    if now_ms >= t.start_time {
        now_ms - t.start_time
    } else {
        0
    }
}

impl TaskControlBlock {
    pub open spec fn counts(&self) -> Seq<u32> {
        self.syscall_times_list@
    }

    /// A fresh, uninitialised task with every counter at zero.
    pub fn new() -> (r: TaskControlBlock)
        ensures
            r.task_status == TaskStatus::UnInit,
            r.counts() == Seq::new(MAX_SYSCALL_NUM as nat, |i: int| 0u32),
            r.start_time == 0,
            !r.is_started,
    {
        let r = TaskControlBlock {
            task_status: TaskStatus::UnInit,
            task_cx: TaskContext::zero_init(),
            syscall_times_list: [0u32; MAX_SYSCALL_NUM],
            start_time: 0,
            is_started: false,
        };
        assert(r.counts() =~= Seq::new(MAX_SYSCALL_NUM as nat, |i: int| 0u32));
        r
    }

    /// Counts one call of syscall `syscall_id`. Returns whether the count was
    /// applied: an id out of range is refused, and so is a counter already at
    /// its largest value.
    pub fn increase_syscall_count(&mut self, syscall_id: usize) -> (r: bool)
        ensures
            r == (syscall_id < MAX_SYSCALL_NUM && old(self).counts()[syscall_id as int] < u32::MAX),
            final(self).counts() == if r {
                old(self).counts().update(
                    syscall_id as int,
                    (old(self).counts()[syscall_id as int] + 1) as u32,
                )
            } else {
                old(self).counts()
            },
            syscall_id >= MAX_SYSCALL_NUM ==> !r && final(self).counts() == old(self).counts(),
            final(self).task_status == old(self).task_status,
            final(self).start_time == old(self).start_time,
            final(self).is_started == old(self).is_started,
    {
        if syscall_id >= MAX_SYSCALL_NUM {
            return false;
        }
        let n = self.syscall_times_list[syscall_id];
        if n == u32::MAX {
            return false;
        }
        self.syscall_times_list[syscall_id] = n + 1;
        true
    }

    /// Records `now_ms` as the start time on the first dispatch only.
    pub fn set_start_time(&mut self, now_ms: usize)
        ensures
            *final(self) == started_at(*old(self), now_ms as int),
    {
        if !self.is_started {
            self.start_time = now_ms;
            self.is_started = true;
        }
    }

    /// Milliseconds since the first dispatch.
    pub fn elapsed_ms(&self, now_ms: usize) -> (r: usize)
        ensures
            r == elapsed(*self, now_ms as int),
    {
        if now_ms >= self.start_time {
            now_ms - self.start_time
        } else {
            0
        }
    }

    pub fn current_status(&self) -> (r: TaskStatus)
        ensures
            r == self.task_status,
    {
        self.task_status
    }

    /// Moves the task to status `to` when the lifecycle allows it; returns
    /// whether it moved.
    pub fn set_status(&mut self, to: TaskStatus) -> (r: bool)
        ensures
            r == can_move(old(self).task_status, to),
            *final(self) == if r {
                TaskControlBlock { task_status: to, ..*old(self) }
            } else {
                *old(self)
            },
    {
        let ok = match (self.task_status, to) {
            (TaskStatus::UnInit, TaskStatus::Ready) => true,
            (TaskStatus::Ready, TaskStatus::Running) => true,
            (TaskStatus::Running, TaskStatus::Ready) => true,
            (TaskStatus::Running, TaskStatus::Exited) => true,
            _ => false,
        };
        if ok {
            self.task_status = to;
        }
        ok
    }
}

/// Starting a task twice keeps the first start time, so the elapsed time is
/// always measured from the first dispatch.
pub proof fn lemma_start_time_kept(t: TaskControlBlock, first_ms: int, second_ms: int, now_ms: int)
    requires
        !t.is_started,
        0 <= first_ms <= usize::MAX,
    ensures
        started_at(started_at(t, first_ms), second_ms) == started_at(t, first_ms),
        started_at(started_at(t, first_ms), second_ms).start_time == first_ms,
        now_ms >= first_ms ==> elapsed(started_at(started_at(t, first_ms), second_ms), now_ms) == now_ms
            - first_ms,
{
}

/// Position `k` steps after `cur` on a ring of `n` tasks.
pub open spec fn ring_step(cur: int, k: int, n: int) -> int {
    (cur + k) % n
}

proof fn lemma_ring_step(cur: int, k: int, n: int)
    requires
        0 <= cur < n,
        0 <= k <= n,
    ensures
        ring_step(cur, k, n) == if cur + k < n {
            cur + k
        } else {
            cur + k - n
        },
{
    if cur + k < n {
        lemma_small_mod((cur + k) as nat, n as nat);
    } else {
        lemma_mod_add_multiples_vanish(cur + k - n, n);
        lemma_small_mod((cur + k - n) as nat, n as nat);
    }
}

/// `j` is the first `Ready` task met when walking the ring of `tasks` from the
/// one after `cur`, round to `cur` itself.
pub open spec fn is_next_ready(tasks: Seq<TaskControlBlock>, cur: int, j: int) -> bool {
    exists|k: int|
        1 <= k <= tasks.len() && j == ring_step(cur, k, tasks.len() as int) && tasks[j].task_status
            == TaskStatus::Ready && forall|k2: int|
            1 <= k2 < k ==> tasks[#[trigger] ring_step(cur, k2, tasks.len() as int)].task_status
                != TaskStatus::Ready
}

pub open spec fn none_ready(tasks: Seq<TaskControlBlock>) -> bool {
    forall|i: int| 0 <= i < tasks.len() ==> #[trigger] tasks[i].task_status != TaskStatus::Ready
}

pub open spec fn none_running(tasks: Seq<TaskControlBlock>) -> bool {
    forall|i: int| 0 <= i < tasks.len() ==> #[trigger] tasks[i].task_status != TaskStatus::Running
}

/// `tasks` after task `j` has been dispatched at time `now_ms`.
pub open spec fn dispatched(tasks: Seq<TaskControlBlock>, j: int, now_ms: int) -> Seq<TaskControlBlock> {
    tasks.update(j, started_at(TaskControlBlock { task_status: TaskStatus::Running, ..tasks[j] }, now_ms))
}

/// The table of tasks and the index of the current one. At most the current
/// task is `Running`.
pub struct TaskManager {
    pub tasks: Vec<TaskControlBlock>,
    pub current: usize,
}

impl TaskManager {
    pub open spec fn wf(&self) -> bool {
        &&& self.current < self.tasks@.len()
        &&& forall|i: int|
            0 <= i < self.tasks@.len() && i != self.current ==> #[trigger] self.tasks@[i].task_status
                != TaskStatus::Running
    }

    /// A table over `tasks` with task 0 as current; `None` when `tasks` is
    /// empty or a task claims to be running already.
    pub fn new(tasks: Vec<TaskControlBlock>) -> (r: Option<TaskManager>)
        ensures
            r is Some <==> tasks@.len() > 0 && none_running(tasks@),
            r matches Some(m) ==> m.wf() && m.tasks@ == tasks@ && m.current == 0,
    {
        if tasks.len() == 0 {
            return None;
        }
        let mut i: usize = 0;
        while i < tasks.len()
            invariant
                i <= tasks@.len(),
                forall|k: int| 0 <= k < i ==> #[trigger] tasks@[k].task_status != TaskStatus::Running,
            decreases tasks@.len() - i,
        {
            if tasks[i].task_status == TaskStatus::Running {
                return None;
            }
            i = i + 1;
        }
        Some(TaskManager { tasks, current: 0 })
    }

    /// The next `Ready` task in round-robin order after the current one.
    pub fn find_next_task(&self) -> (r: Option<usize>)
        requires
            self.wf(),
        ensures
            match r {
                Some(j) => j < self.tasks@.len() && is_next_ready(self.tasks@, self.current as int, j as int),
                None => none_ready(self.tasks@),
            },
    {
        let n = self.tasks.len();
        let cur = self.current;
        let mut step: usize = 0;
        while step < n
            invariant
                step <= n,
                n == self.tasks@.len(),
                cur == self.current,
                cur < n,
                forall|k2: int|
                    1 <= k2 <= step ==> self.tasks@[#[trigger] ring_step(cur as int, k2, n as int)].task_status
                        != TaskStatus::Ready,
            decreases n - step,
        {
            let k = step + 1;
            let j = if k < n - cur {
                cur + k
            } else {
                k - (n - cur)
            };
            proof {
                lemma_ring_step(cur as int, k as int, n as int);
            }
            if self.tasks[j].task_status == TaskStatus::Ready {
                return Some(j);
            }
            step = k;
        }
        assert forall|i: int| 0 <= i < n implies #[trigger] self.tasks@[i].task_status
            != TaskStatus::Ready by {
            let k2 = if i > cur {
                i - cur
            } else {
                i + n - cur
            };
            lemma_ring_step(cur as int, k2, n as int);
            assert(i == ring_step(cur as int, k2, n as int));
        }
        None
    }

    /// Dispatches the next `Ready` task, recording its start time on its first
    /// dispatch. Returns false, changing nothing, when no task is `Ready`.
    pub fn run_next_task(&mut self, now_ms: usize) -> (r: bool)
        requires
            old(self).wf(),
            none_running(old(self).tasks@),
        ensures
            final(self).wf(),
            r == !none_ready(old(self).tasks@),
            r ==> is_next_ready(old(self).tasks@, old(self).current as int, final(self).current as int)
                && final(self).tasks@ == dispatched(
                old(self).tasks@,
                final(self).current as int,
                now_ms as int,
            ),
            !r ==> *final(self) == *old(self),
    {
        match self.find_next_task() {
            None => false,
            Some(j) => {
                let mut t = self.tasks[j];
                t.task_status = TaskStatus::Running;
                t.set_start_time(now_ms);
                self.tasks.set(j, t);
                self.current = j;
                true
            },
        }
    }
}

} // verus!
