//! The earlier scheduler: one vector of tasks per CPU, the first being the
//! CPU's main task, walked in turn from the running one.
use vstd::prelude::*;

verus! {

/// The states a task of this scheduler goes through.
#[derive(Debug, Copy, Clone, PartialEq, Eq, Structural)]
pub enum CpuTaskState {
    Unused,
    Running,
    Runnable,
    AwaitingIo,
    /// Asked to give up the CPU while it held locks.
    ToReschedule,
    /// Finished; to be removed.
    ToDelete,
}

/// What the scheduler knows of a task.
#[derive(Debug, Copy, Clone)]
pub struct CpuTask {
    pub state: CpuTaskState,
    /// How many locks the task holds.
    pub locks: usize,
    /// When its timed sleep ends, in nanoseconds; 0 when there is none.
    pub sleep_until: usize,
    /// How many holders the task has (the queue's own included).
    pub refs: usize,
}

/// The tasks of one CPU, with the running one and the one that ran before.
pub struct CpuQueue {
    pub tasks: Vec<CpuTask>,
    pub current: usize,
    pub previous: usize,
}

/// The tasks and the running index after the finished tasks at the running
/// index are removed, each time stepping back to the task before.
pub open spec fn pruned(ts: Seq<CpuTask>, cur: int) -> (Seq<CpuTask>, int)
    decreases ts.len(),
{
    if 0 <= cur < ts.len() && ts[cur].state == CpuTaskState::ToDelete {
        pruned(ts.remove(cur), cur - 1)
    } else {
        (ts, cur)
    }
}

/// Whether the removals of `pruned` go through: each removed task has no
/// other holder and is not the main task.
pub open spec fn prunable(ts: Seq<CpuTask>, cur: int) -> bool
    decreases ts.len(),
{
    0 <= cur < ts.len() && if ts[cur].state == CpuTaskState::ToDelete {
        ts[cur].refs == 1 && cur != 0 && prunable(ts.remove(cur), cur - 1)
    } else {
        true
    }
}

/// The task after `c` in the walk, which skips the main task 0.
pub open spec fn walk_next(c: int, len: int) -> int {
    (c % (len - 1)) + 1
}

/// The task the walk settles on, from `c` after `loops` steps: a task whose
/// timed sleep is over at `now`, a runnable one, the running one if it still
/// runs, or, after a full round, the main task.
pub open spec fn scan(ts: Seq<CpuTask>, cur: int, now: int, c: int, loops: int) -> int
    decreases ts.len() - 1 - loops,
{
    let t = ts[c];
    if t.state == CpuTaskState::AwaitingIo && t.sleep_until != 0 && now > t.sleep_until {
        c
    } else if t.state == CpuTaskState::Runnable {
        c
    } else if c == cur && ts[cur].state == CpuTaskState::Running {
        cur
    } else if loops >= ts.len() - 1 {
        0
    } else {
        scan(ts, cur, now, walk_next(c, ts.len() as int), loops + 1)
    }
}

/// Whether the task found was asleep with its time over (and is woken).
pub open spec fn woken(t: CpuTask, now: int) -> bool {
    t.state == CpuTaskState::AwaitingIo && t.sleep_until != 0 && now > t.sleep_until
}

impl CpuQueue {
    /// At least the main task, and the running index points at a task.
    pub open spec fn wf(&self) -> bool {
        self.tasks@.len() >= 1 && self.current < self.tasks@.len()
    }
}

/// The outcome of `CpuQueue::schedule_next` on the tasks `ts0` with the
/// running index `cur0` and the previous one `prev0`.
pub open spec fn schedule_outcome(
    ts0: Seq<CpuTask>,
    cur0: int,
    prev0: int,
    now: int,
    ts: Seq<CpuTask>,
    cur: int,
    prev: int,
) -> bool {
    let pc = pruned(ts0, cur0);
    let p = pc.0;
    let c = pc.1;
    if p[c].locks > 0 {
        &&& ts == p.update(c, CpuTask { state: CpuTaskState::ToReschedule, ..p[c] })
        &&& cur == c
        &&& prev == prev0
    } else if p.len() == 1 {
        &&& ts == p
        &&& cur == c
        &&& prev == prev0
    } else {
        let f = scan(p, c, now, walk_next(c, p.len() as int), 0);
        let p1 = if woken(p[f], now) {
            p.update(f, CpuTask { state: CpuTaskState::Runnable, sleep_until: 0, ..p[f] })
        } else {
            p
        };
        let p2 = if p1[c].state == CpuTaskState::Running {
            p1.update(c, CpuTask { state: CpuTaskState::Runnable, ..p1[c] })
        } else {
            p1
        };
        &&& ts == p2.update(f, CpuTask { state: CpuTaskState::Running, ..p2[f] })
        &&& cur == f
        &&& prev == c
    }
}

impl CpuQueue {
    /// A queue holding only the main task, which runs.
    pub fn new(main: CpuTask) -> (q: CpuQueue)
        ensures
            q.wf(),
            q.tasks@ == seq![main],
            q.current == 0 && q.previous == 0,
    {
        let mut tasks: Vec<CpuTask> = Vec::new();
        tasks.push(main);
        CpuQueue { tasks, current: 0, previous: 0 }
    }

    /// Adds a task at the end.
    pub fn add_task(&mut self, task: CpuTask)
        requires
            old(self).wf(),
        ensures
            final(self).wf(),
            final(self).tasks@ == old(self).tasks@.push(task),
            final(self).current == old(self).current && final(self).previous == old(self).previous,
    {
        self.tasks.push(task);
    }

    /// Removes the task at `idx`, which has no holder besides the queue.
    pub fn remove_task(&mut self, idx: usize)
        requires
            idx < old(self).tasks@.len(),
            old(self).tasks@[idx as int].refs == 1,
        ensures
            final(self).tasks@ == old(self).tasks@.remove(idx as int),
            final(self).current == old(self).current && final(self).previous == old(self).previous,
    {
        self.tasks.remove(idx);
    }

    /// The index the walk settles on; see `scan`.
    fn find_next(&self, now: usize) -> (f: usize)
        requires
            self.wf(),
            self.tasks@.len() > 1,
        ensures
            f == scan(self.tasks@, self.current as int, now as int, walk_next(self.current as int, self.tasks@.len() as int), 0),
            f < self.tasks@.len(),
    {
        let len = self.tasks.len();
        let cur = self.current;
        let mut c: usize = (cur % (len - 1)) + 1;
        let mut loops: usize = 0;
        let ghost ts = self.tasks@;
        let ghost target = scan(ts, cur as int, now as int, c as int, 0);
        while loops < len
            invariant
                len == ts.len() && len > 1,
                ts == self.tasks@,
                cur == self.current,
                cur < len,
                1 <= c < len,
                loops <= len - 1,
                scan(ts, cur as int, now as int, c as int, loops as int) == target,
                target == scan(ts, cur as int, now as int, walk_next(cur as int, len as int), 0),
            decreases len - loops,
        {
            let t = self.tasks[c];
            if t.state == CpuTaskState::AwaitingIo && t.sleep_until != 0 && now > t.sleep_until {
                return c;
            }
            if t.state == CpuTaskState::Runnable {
                return c;
            } else if c == cur && self.tasks[cur].state == CpuTaskState::Running {
                return cur;
            } else if loops == len - 1 {
                return 0;
            }
            c = (c % (len - 1)) + 1;
            loops = loops + 1;
        }
        0
    }

    /// Chooses the task to run at `now` and makes it the running one.
    /// Finished tasks at the running index are removed first (stepping back
    /// each time). A running task that holds locks is marked to give up the
    /// CPU later and keeps it; a lone main task keeps it too. Otherwise the
    /// walk from the running task picks the next one (waking it if its timed
    /// sleep is over); the task that ran becomes runnable, the one picked
    /// runs, and the index of the one that ran is kept as the previous one.
    pub fn schedule_next(&mut self, now: usize) -> (found: usize)
        requires
            old(self).wf(),
            prunable(old(self).tasks@, old(self).current as int),
        ensures
            final(self).wf(),
            schedule_outcome(
                old(self).tasks@,
                old(self).current as int,
                old(self).previous as int,
                now as int,
                final(self).tasks@,
                final(self).current as int,
                final(self).previous as int,
            ),
            found == final(self).current,
        decreases old(self).tasks@.len(),
    {
        let cur = self.current;
        if self.tasks[cur].state == CpuTaskState::ToDelete {
            self.remove_task(cur);
            self.current = cur - 1;
            return self.schedule_next(now);
        }
        let t = self.tasks[cur];
        if t.locks > 0 {
            self.tasks.set(cur, CpuTask { state: CpuTaskState::ToReschedule, ..t });
            return cur;
        }
        if self.tasks.len() == 1 {
            return cur;
        }
        let f = self.find_next(now);
        let tf = self.tasks[f];
        if tf.state == CpuTaskState::AwaitingIo && tf.sleep_until != 0 && now > tf.sleep_until {
            self.tasks.set(f, CpuTask { state: CpuTaskState::Runnable, sleep_until: 0, ..tf });
        }
        let tc = self.tasks[cur];
        if tc.state == CpuTaskState::Running {
            self.tasks.set(cur, CpuTask { state: CpuTaskState::Runnable, ..tc });
        }
        let tf2 = self.tasks[f];
        self.tasks.set(f, CpuTask { state: CpuTaskState::Running, ..tf2 });
        self.previous = cur;
        self.current = f;
        f
    }

    /// Whether the last choice switched to another task.
    pub fn reschedule(&self) -> (r: bool)
        ensures
            r == (self.current != self.previous),
    {
        self.current != self.previous
    }

    /// The running task takes a lock.
    pub fn enter_critical_section(&mut self)
        requires
            old(self).wf(),
            old(self).tasks@[old(self).current as int].locks < usize::MAX,
        ensures
            final(self).wf(),
            final(self).current == old(self).current && final(self).previous == old(self).previous,
            final(self).tasks@ == old(self).tasks@.update(
                old(self).current as int,
                CpuTask { locks: (old(self).tasks@[old(self).current as int].locks + 1) as usize, ..old(self).tasks@[old(self).current as int] },
            ),
    {
        let t = self.tasks[self.current];
        self.tasks.set(self.current, CpuTask { locks: t.locks + 1, ..t });
    }

    /// The running task lets go of a lock. When it holds no more and was
    /// asked to give up the CPU, it is unmarked (running again) and the
    /// answer is yes: the CPU is to be given up now.
    pub fn leave_critical_section(&mut self) -> (resched: bool)
        requires
            old(self).wf(),
            old(self).tasks@[old(self).current as int].locks > 0,
        ensures
            final(self).wf(),
            final(self).current == old(self).current && final(self).previous == old(self).previous,
            ({
                let t = old(self).tasks@[old(self).current as int];
                let l = (t.locks - 1) as usize;
                &&& resched == (l == 0 && t.state == CpuTaskState::ToReschedule)
                &&& final(self).tasks@ == old(self).tasks@.update(
                    old(self).current as int,
                    if resched {
                        CpuTask { locks: l, state: CpuTaskState::Running, ..t }
                    } else {
                        CpuTask { locks: l, ..t }
                    },
                )
            }),
    {
        let t = self.tasks[self.current];
        let l = t.locks - 1;
        if l == 0 && t.state == CpuTaskState::ToReschedule {
            self.tasks.set(self.current, CpuTask { locks: l, state: CpuTaskState::Running, ..t });
            true
        } else {
            self.tasks.set(self.current, CpuTask { locks: l, ..t });
            false
        }
    }

    /// The running task is done: it is marked for removal.
    pub fn current_task_finished(&mut self)
        requires
            old(self).wf(),
        ensures
            final(self).wf(),
            final(self).current == old(self).current && final(self).previous == old(self).previous,
            final(self).tasks@ == old(self).tasks@.update(
                old(self).current as int,
                CpuTask { state: CpuTaskState::ToDelete, ..old(self).tasks@[old(self).current as int] },
            ),
    {
        let t = self.tasks[self.current];
        self.tasks.set(self.current, CpuTask { state: CpuTaskState::ToDelete, ..t });
    }
}

/// Whether the walk may settle on task `c`: its timed sleep is over, it is
/// runnable, or it is the running task and still runs.
pub open spec fn ready_at(ts: Seq<CpuTask>, cur: int, now: int, c: int) -> bool {
    woken(ts[c], now) || ts[c].state == CpuTaskState::Runnable || (c == cur && ts[c].state
        == CpuTaskState::Running)
}

/// The task `j` steps of the walk after task `c` (the main task 0 skipped).
pub open spec fn walk_pos(c: int, j: int, len: int) -> int {
    ((c - 1 + j) % (len - 1)) + 1
}

/// From `c` with `loops` steps made, the walk settles on a task that may
/// run, or on the main task when none of the tasks it passes may.
proof fn lemma_scan_from(ts: Seq<CpuTask>, cur: int, now: int, c: int, loops: int)
    requires
        ts.len() > 1,
        1 <= c < ts.len(),
        0 <= loops <= ts.len() - 1,
    ensures
        ({
            let r = scan(ts, cur, now, c, loops);
            &&& 0 <= r < ts.len()
            &&& r != 0 ==> ready_at(ts, cur, now, r)
            &&& r == 0 ==> forall|j: int| 0 <= j < ts.len() - loops ==> !ready_at(ts, cur, now, #[trigger] walk_pos(c, j, ts.len() as int))
        }),
    decreases ts.len() - 1 - loops,
{
    let len = ts.len() as int;
    let m = len - 1;
    assert(walk_pos(c, 0, len) == c) by {
        vstd::arithmetic::div_mod::lemma_small_mod((c - 1) as nat, m as nat);
    }
    if ready_at(ts, cur, now, c) {
    } else if loops >= len - 1 {
    } else {
        let c2 = walk_next(c, len);
        vstd::arithmetic::div_mod::lemma_mod_bound(c, m);
        lemma_scan_from(ts, cur, now, c2, loops + 1);
        if scan(ts, cur, now, c, loops) == 0 {
            assert forall|j: int| 0 <= j < len - loops implies !ready_at(ts, cur, now, #[trigger] walk_pos(c, j, len)) by {
                if j > 0 {
                    vstd::arithmetic::div_mod::lemma_add_mod_noop(c, j - 1, m);
                    vstd::arithmetic::div_mod::lemma_small_mod((j - 1) as nat, m as nat);
                    assert(walk_pos(c2, j - 1, len) == walk_pos(c, j, len));
                }
            }
        }
    }
}

/// The walk of `schedule_next` settles on a task that may run: one whose
/// timed sleep is over, a runnable one, or the running task if it still
/// runs. It settles on the main task only when no other task may run.
pub proof fn lemma_walk_finds_ready(ts: Seq<CpuTask>, cur: int, now: int)
    requires
        ts.len() > 1,
        0 <= cur < ts.len(),
    ensures
        ({
            let f = scan(ts, cur, now, walk_next(cur, ts.len() as int), 0);
            &&& 0 <= f < ts.len()
            &&& f != 0 ==> ready_at(ts, cur, now, f)
            &&& f == 0 ==> forall|x: int| 1 <= x < ts.len() ==> !#[trigger] ready_at(ts, cur, now, x)
        }),
{
    let len = ts.len() as int;
    let m = len - 1;
    let start = walk_next(cur, len);
    vstd::arithmetic::div_mod::lemma_mod_bound(cur, m);
    lemma_scan_from(ts, cur, now, start, 0);
    if scan(ts, cur, now, start, 0) == 0 {
        assert forall|x: int| 1 <= x < len implies !#[trigger] ready_at(ts, cur, now, x) by {
            let j = (x - start + m) % m;
            vstd::arithmetic::div_mod::lemma_mod_bound(x - start + m, m);
            vstd::arithmetic::div_mod::lemma_add_mod_noop(start - 1, x - start + m, m);
            vstd::arithmetic::div_mod::lemma_small_mod((start - 1) as nat, m as nat);
            vstd::arithmetic::div_mod::lemma_mod_add_multiples_vanish(x - 1, m);
            vstd::arithmetic::div_mod::lemma_small_mod((x - 1) as nat, m as nat);
            assert(walk_pos(start, j, len) == x);
        }
    }
}

} // verus!
