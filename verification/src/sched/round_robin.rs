//! The round-robin run queues of one CPU: the runnable tasks in order, the
//! tasks asleep with and without a deadline, and the stopped ones.
use vstd::prelude::*;
use std::collections::BTreeMap;
use crate::sched::{TaskState, SignalError, SLEEP_NON_INTERRUPTIBLE};

verus! {

broadcast use {vstd::laws_cmp::group_laws_cmp, vstd::std_specs::btree::group_btree_axioms};

/// What the queues know of a task.
#[derive(Debug, Copy, Clone)]
pub struct SchedTask {
    pub state: TaskState,
    /// When a timed sleep ends, in nanoseconds; 0 when there is none.
    pub sleep_until: usize,
    /// A wake-up came while the task was not asleep.
    pub pending_io: bool,
}

/// The queues of one CPU. Tasks are named by their ids; `tasks` holds what
/// the queues know of each.
pub struct Queues {
    pub idle_task: usize,
    pub current: usize,
    pub tasks: BTreeMap<usize, SchedTask>,
    pub runnable: Vec<usize>,
    pub deadline_awaiting: Vec<usize>,
    pub awaiting: Vec<usize>,
    pub stopped: Vec<usize>,
}

/// `s` without the occurrence of `t`, if any.
pub open spec fn without(s: Seq<usize>, t: usize) -> Seq<usize> {
    if s.contains(t) {
        s.remove(s.index_of(t))
    } else {
        s
    }
}

/// `a` and `b` have no element in common.
pub open spec fn disjoint(a: Seq<usize>, b: Seq<usize>) -> bool {
    forall|i: int, j: int| 0 <= i < a.len() && 0 <= j < b.len() ==> #[trigger] a[i] != #[trigger] b[j]
}

/// Every element of `s` is a task whose state is `st`.
pub open spec fn all_in_state(s: Seq<usize>, tasks: Map<usize, SchedTask>, st: TaskState) -> bool {
    forall|i: int| 0 <= i < s.len() ==> tasks.contains_key(#[trigger] s[i]) && tasks[s[i]].state == st
}

impl Queues {
    /// Whether `t` is in one of the queues.
    pub open spec fn linked(&self, t: usize) -> bool {
        self.runnable@.contains(t) || self.deadline_awaiting@.contains(t) || self.awaiting@.contains(t)
            || self.stopped@.contains(t)
    }

    /// Each task is in at most one queue, at most once; the idle task is in
    /// none; every queued task is known, in the state of its queue; the idle
    /// and the current task are known.
    pub open spec fn wf(&self) -> bool {
        &&& self.runnable@.no_duplicates()
        &&& self.deadline_awaiting@.no_duplicates()
        &&& self.awaiting@.no_duplicates()
        &&& self.stopped@.no_duplicates()
        &&& disjoint(self.runnable@, self.deadline_awaiting@)
        &&& disjoint(self.runnable@, self.awaiting@)
        &&& disjoint(self.runnable@, self.stopped@)
        &&& disjoint(self.deadline_awaiting@, self.awaiting@)
        &&& disjoint(self.deadline_awaiting@, self.stopped@)
        &&& disjoint(self.awaiting@, self.stopped@)
        &&& !self.linked(self.idle_task)
        &&& all_in_state(self.runnable@, self.tasks@, TaskState::Runnable)
        &&& all_in_state(self.deadline_awaiting@, self.tasks@, TaskState::AwaitingIo)
        &&& all_in_state(self.awaiting@, self.tasks@, TaskState::AwaitingIo)
        &&& all_in_state(self.stopped@, self.tasks@, TaskState::Stopped)
        &&& self.tasks@.contains_key(self.idle_task)
        &&& self.tasks@[self.idle_task].state == TaskState::Idle
        &&& self.tasks@.contains_key(self.current)
    }

    /// Between two operations: well formed, and the running task is in no
    /// queue.
    pub open spec fn settled(&self) -> bool {
        self.wf() && !self.linked(self.current)
    }

    /// Empty queues on a CPU whose only task is its idle task, which runs.
    pub fn new(idle: usize) -> (q: Queues)
        ensures
            q.settled(),
            q.idle_task == idle && q.current == idle,
            q.tasks@ == map![idle => SchedTask { state: TaskState::Idle, sleep_until: 0, pending_io: false }],
            q.runnable@.len() == 0 && q.deadline_awaiting@.len() == 0 && q.awaiting@.len() == 0
                && q.stopped@.len() == 0,
    {
        let mut tasks: BTreeMap<usize, SchedTask> = BTreeMap::new();
        tasks.insert(idle, SchedTask { state: TaskState::Idle, sleep_until: 0, pending_io: false });
        let q = Queues {
            idle_task: idle,
            current: idle,
            tasks,
            runnable: Vec::new(),
            deadline_awaiting: Vec::new(),
            awaiting: Vec::new(),
            stopped: Vec::new(),
        };
        assert(q.tasks@ =~= map![idle => SchedTask { state: TaskState::Idle, sleep_until: 0, pending_io: false }]);
        q
    }

    /// What the queues know of `t`.
    pub fn task(&self, t: usize) -> (r: SchedTask)
        requires
            self.tasks@.contains_key(t),
        ensures
            r == self.tasks@[t],
    {
        *self.tasks.get(&t).unwrap()
    }
}

/// The queues after `t` took the record `r`, with the lists given.
pub open spec fn queues_after(
    old_q: Queues,
    q: Queues,
    t: usize,
    r: SchedTask,
    runnable: Seq<usize>,
    deadline: Seq<usize>,
    awaiting: Seq<usize>,
    stopped: Seq<usize>,
) -> bool {
    &&& q.idle_task == old_q.idle_task && q.current == old_q.current
    &&& q.tasks@ == old_q.tasks@.insert(t, r)
    &&& q.runnable@ == runnable && q.deadline_awaiting@ == deadline && q.awaiting@ == awaiting
        && q.stopped@ == stopped
}

impl Queues {
    /// Appends `t`, which is in no queue, to the runnable queue.
    pub fn push_runnable(&mut self, t: usize)
        requires
            old(self).wf(),
            old(self).tasks@.contains_key(t),
            !old(self).linked(t),
            t != old(self).idle_task,
        ensures
            final(self).wf(),
            queues_after(
                *old(self),
                *final(self),
                t,
                SchedTask { state: TaskState::Runnable, ..old(self).tasks@[t] },
                old(self).runnable@.push(t),
                old(self).deadline_awaiting@,
                old(self).awaiting@,
                old(self).stopped@,
            ),
    {
        let mut r = self.task(t);
        r.state = TaskState::Runnable;
        self.tasks.insert(t, r);
        self.runnable.push(t);
        proof {
            assert(forall|i: int| 0 <= i < old(self).runnable@.len() ==> old(self).runnable@[i] != t);
        }
    }

    /// Puts `t`, which is in no queue, at the head of the runnable queue.
    pub fn push_runnable_front(&mut self, t: usize)
        requires
            old(self).wf(),
            old(self).tasks@.contains_key(t),
            !old(self).linked(t),
            t != old(self).idle_task,
        ensures
            final(self).wf(),
            queues_after(
                *old(self),
                *final(self),
                t,
                SchedTask { state: TaskState::Runnable, ..old(self).tasks@[t] },
                seq![t] + old(self).runnable@,
                old(self).deadline_awaiting@,
                old(self).awaiting@,
                old(self).stopped@,
            ),
    {
        let mut r = self.task(t);
        r.state = TaskState::Runnable;
        self.tasks.insert(t, r);
        self.runnable.insert(0, t);
        assert(self.runnable@ =~= seq![t] + old(self).runnable@);
        proof {
            assert(forall|i: int| 0 <= i < old(self).runnable@.len() ==> old(self).runnable@[i] != t);
            assert forall|i: int, j: int| 0 <= i < self.runnable@.len() && 0 <= j < self.runnable@.len()
                && i != j implies self.runnable@[i] != self.runnable@[j] by {
                if i > 0 && j > 0 {
                    assert(self.runnable@[i] == old(self).runnable@[i - 1]);
                    assert(self.runnable@[j] == old(self).runnable@[j - 1]);
                }
            }
        }
    }

    /// Appends `t`, which is in no queue, to the tasks asleep without a
    /// deadline.
    pub fn push_awaiting(&mut self, t: usize)
        requires
            old(self).wf(),
            old(self).tasks@.contains_key(t),
            !old(self).linked(t),
            t != old(self).idle_task,
        ensures
            final(self).wf(),
            queues_after(
                *old(self),
                *final(self),
                t,
                SchedTask { state: TaskState::AwaitingIo, sleep_until: 0, ..old(self).tasks@[t] },
                old(self).runnable@,
                old(self).deadline_awaiting@,
                old(self).awaiting@.push(t),
                old(self).stopped@,
            ),
    {
        let mut r = self.task(t);
        r.state = TaskState::AwaitingIo;
        r.sleep_until = 0;
        self.tasks.insert(t, r);
        self.awaiting.push(t);
        proof {
            assert(forall|i: int| 0 <= i < old(self).awaiting@.len() ==> old(self).awaiting@[i] != t);
        }
    }

    /// Appends `t`, which is in no queue, to the stopped tasks.
    pub fn push_stopped(&mut self, _sig: usize, t: usize)
        requires
            old(self).wf(),
            old(self).tasks@.contains_key(t),
            !old(self).linked(t),
            t != old(self).idle_task,
        ensures
            final(self).wf(),
            queues_after(
                *old(self),
                *final(self),
                t,
                SchedTask { state: TaskState::Stopped, ..old(self).tasks@[t] },
                old(self).runnable@,
                old(self).deadline_awaiting@,
                old(self).awaiting@,
                old(self).stopped@.push(t),
            ),
    {
        let mut r = self.task(t);
        r.state = TaskState::Stopped;
        self.tasks.insert(t, r);
        self.stopped.push(t);
        proof {
            assert(forall|i: int| 0 <= i < old(self).stopped@.len() ==> old(self).stopped@[i] != t);
        }
    }

    /// Appends `t`, which is in no queue, to the tasks asleep until `now`
    /// plus `time_ns`.
    pub fn push_deadline_awaiting(&mut self, t: usize, now: usize, time_ns: usize)
        requires
            old(self).wf(),
            old(self).tasks@.contains_key(t),
            !old(self).linked(t),
            t != old(self).idle_task,
            now + time_ns <= usize::MAX,
        ensures
            final(self).wf(),
            queues_after(
                *old(self),
                *final(self),
                t,
                SchedTask {
                    state: TaskState::AwaitingIo,
                    sleep_until: (now + time_ns) as usize,
                    ..old(self).tasks@[t]
                },
                old(self).runnable@,
                old(self).deadline_awaiting@.push(t),
                old(self).awaiting@,
                old(self).stopped@,
            ),
    {
        let mut r = self.task(t);
        r.state = TaskState::AwaitingIo;
        r.sleep_until = now + time_ns;
        self.tasks.insert(t, r);
        self.deadline_awaiting.push(t);
        proof {
            assert(forall|i: int| 0 <= i < old(self).deadline_awaiting@.len()
                ==> old(self).deadline_awaiting@[i] != t);
        }
    }

    /// Whether `t` is in one of the queues.
    pub fn is_linked(&self, t: usize) -> (r: bool)
        ensures
            r == self.linked(t),
    {
        position(&self.runnable, t).is_some() || position(&self.deadline_awaiting, t).is_some()
            || position(&self.awaiting, t).is_some() || position(&self.stopped, t).is_some()
    }
}

/// Takes `t` out of `v`, which holds it at most once; whether it was there.
pub fn remove_tid(v: &mut Vec<usize>, t: usize) -> (found: bool)
    requires
        old(v)@.no_duplicates(),
    ensures
        found == old(v)@.contains(t),
        final(v)@ == without(old(v)@, t),
        final(v)@.no_duplicates(),
        forall|x: usize| final(v)@.contains(x) <==> (old(v)@.contains(x) && x != t),
{
    match position(v, t) {
        Some(i) => {
            let ghost o = v@;
            proof {
                assert(o.contains(t));
                let j = o.index_of(t);
                assert(o[j] == t);
                assert(j == i);
            }
            v.remove(i);
            proof {
                assert forall|x: usize| v@.contains(x) implies (o.contains(x) && x != t) by {
                    let k = choose|k: int| 0 <= k < v@.len() && v@[k] == x;
                    if k < i {
                        assert(o[k] == x);
                    } else {
                        assert(o[k + 1] == x);
                    }
                }
                assert forall|x: usize| (o.contains(x) && x != t) implies v@.contains(x) by {
                    let k = choose|k: int| 0 <= k < o.len() && o[k] == x;
                    if k < i {
                        assert(v@[k] == x);
                    } else {
                        assert(k != i);
                        assert(v@[k - 1] == x);
                    }
                }
                assert forall|a: int, b: int| 0 <= a < v@.len() && 0 <= b < v@.len() && a != b implies v@[a]
                    != v@[b] by {
                    let a1 = if a < i { a } else { a + 1 };
                    let b1 = if b < i { b } else { b + 1 };
                    assert(v@[a] == o[a1] && v@[b] == o[b1]);
                }
            }
            true
        },
        None => false,
    }
}

/// What holds of a list holds of one whose elements it has.
proof fn lemma_sublist(a: Seq<usize>, a2: Seq<usize>, b: Seq<usize>, tasks: Map<usize, SchedTask>, st: TaskState)
    requires
        forall|x: usize| a2.contains(x) ==> a.contains(x),
    ensures
        disjoint(a, b) ==> disjoint(a2, b),
        disjoint(b, a) ==> disjoint(b, a2),
        all_in_state(a, tasks, st) ==> all_in_state(a2, tasks, st),
{
    assert forall|i: int| 0 <= i < a2.len() implies a.contains(#[trigger] a2[i]) by {
        assert(a2.contains(a2[i]));
    }
    if disjoint(a, b) {
        assert forall|i: int, j: int| 0 <= i < a2.len() && 0 <= j < b.len() implies #[trigger] a2[i] != #[trigger] b[j] by {
            assert(a.contains(a2[i]));
            let k = choose|k: int| 0 <= k < a.len() && a[k] == a2[i];
            assert(a[k] != b[j]);
        }
    }
    if disjoint(b, a) {
        assert forall|j: int, i: int| 0 <= j < b.len() && 0 <= i < a2.len() implies #[trigger] b[j] != #[trigger] a2[i] by {
            assert(a.contains(a2[i]));
            let k = choose|k: int| 0 <= k < a.len() && a[k] == a2[i];
            assert(b[j] != a[k]);
        }
    }
    if all_in_state(a, tasks, st) {
        assert forall|i: int| 0 <= i < a2.len() implies tasks.contains_key(#[trigger] a2[i]) && tasks[a2[i]].state == st by {
            assert(a.contains(a2[i]));
            let k = choose|k: int| 0 <= k < a.len() && a[k] == a2[i];
            assert(tasks.contains_key(a[k]));
        }
    }
}

/// The outcome of `Queues::wake`.
pub open spec fn wake_step(old_q: Queues, q: Queues, t: usize) -> bool {
    let o = old_q;
    let r = o.tasks@[t];
    let timed = r.sleep_until > 0;
    let queued = if timed {
        o.deadline_awaiting@.contains(t)
    } else {
        o.awaiting@.contains(t)
    };
    if r.state == TaskState::AwaitingIo {
        if queued {
            queues_after(
                o,
                q,
                t,
                SchedTask { state: TaskState::Runnable, ..r },
                o.runnable@.push(t),
                if timed { without(o.deadline_awaiting@, t) } else { o.deadline_awaiting@ },
                if timed { o.awaiting@ } else { without(o.awaiting@, t) },
                o.stopped@,
            )
        } else {
            queues_after(o, q, t, r, o.runnable@, o.deadline_awaiting@, o.awaiting@, o.stopped@)
        }
    } else {
        queues_after(
            o,
            q,
            t,
            SchedTask { pending_io: true, ..r },
            o.runnable@,
            o.deadline_awaiting@,
            o.awaiting@,
            o.stopped@,
        )
    }
}

impl Queues {
    /// A wake-up for `t`: asleep in its queue, it moves to the back of the
    /// runnable queue; otherwise it keeps the wake-up for its next sleep.
    pub fn wake(&mut self, t: usize)
        requires
            old(self).settled(),
            old(self).tasks@.contains_key(t),
        ensures
            final(self).settled(),
            wake_step(*old(self), *final(self), t),
    {
        let r = self.task(t);
        let ghost o = *self;
        if r.state == TaskState::AwaitingIo {
            let found = if r.sleep_until > 0 {
                remove_tid(&mut self.deadline_awaiting, t)
            } else {
                remove_tid(&mut self.awaiting, t)
            };
            proof {
                lemma_sublist(o.deadline_awaiting@, self.deadline_awaiting@, o.runnable@, o.tasks@, TaskState::AwaitingIo);
                lemma_sublist(o.deadline_awaiting@, self.deadline_awaiting@, o.awaiting@, o.tasks@, TaskState::AwaitingIo);
                lemma_sublist(o.deadline_awaiting@, self.deadline_awaiting@, o.stopped@, o.tasks@, TaskState::AwaitingIo);
                lemma_sublist(o.awaiting@, self.awaiting@, o.runnable@, o.tasks@, TaskState::AwaitingIo);
                lemma_sublist(o.awaiting@, self.awaiting@, o.deadline_awaiting@, o.tasks@, TaskState::AwaitingIo);
                lemma_sublist(o.awaiting@, self.awaiting@, o.stopped@, o.tasks@, TaskState::AwaitingIo);
                assert(o.tasks@.insert(t, r) =~= o.tasks@);
            }
            if found {
                self.push_runnable(t);
            }
        } else {
            let mut r2 = r;
            r2.pending_io = true;
            self.tasks.insert(t, r2);
        }
    }
}

impl Queues {
    /// A wake-up for `t` that lets it run next: asleep in its queue, or
    /// runnable in the runnable queue, it moves to the head of the runnable
    /// queue; a runnable task also keeps the wake-up, and a task in any
    /// other state only keeps it.
    pub fn wake_as_next(&mut self, t: usize)
        requires
            old(self).settled(),
            old(self).tasks@.contains_key(t),
        ensures
            final(self).settled(),
            ({
                let o = *old(self);
                let r = o.tasks@[t];
                let timed = r.sleep_until > 0;
                let queued = if timed {
                    o.deadline_awaiting@.contains(t)
                } else {
                    o.awaiting@.contains(t)
                };
                if r.state == TaskState::AwaitingIo {
                    if queued {
                        queues_after(
                            o,
                            *final(self),
                            t,
                            SchedTask { state: TaskState::Runnable, ..r },
                            seq![t] + o.runnable@,
                            if timed { without(o.deadline_awaiting@, t) } else { o.deadline_awaiting@ },
                            if timed { o.awaiting@ } else { without(o.awaiting@, t) },
                            o.stopped@,
                        )
                    } else {
                        queues_after(o, *final(self), t, r, o.runnable@, o.deadline_awaiting@, o.awaiting@, o.stopped@)
                    }
                } else if r.state == TaskState::Runnable {
                    queues_after(
                        o,
                        *final(self),
                        t,
                        SchedTask { pending_io: true, ..r },
                        if o.runnable@.contains(t) { seq![t] + without(o.runnable@, t) } else { o.runnable@ },
                        o.deadline_awaiting@,
                        o.awaiting@,
                        o.stopped@,
                    )
                } else {
                    queues_after(
                        o,
                        *final(self),
                        t,
                        SchedTask { pending_io: true, ..r },
                        o.runnable@,
                        o.deadline_awaiting@,
                        o.awaiting@,
                        o.stopped@,
                    )
                }
            }),
    {
        let r = self.task(t);
        let ghost o = *self;
        if r.state == TaskState::AwaitingIo {
            let found = if r.sleep_until > 0 {
                remove_tid(&mut self.deadline_awaiting, t)
            } else {
                remove_tid(&mut self.awaiting, t)
            };
            proof {
                lemma_sublist(o.deadline_awaiting@, self.deadline_awaiting@, o.runnable@, o.tasks@, TaskState::AwaitingIo);
                lemma_sublist(o.deadline_awaiting@, self.deadline_awaiting@, o.awaiting@, o.tasks@, TaskState::AwaitingIo);
                lemma_sublist(o.deadline_awaiting@, self.deadline_awaiting@, o.stopped@, o.tasks@, TaskState::AwaitingIo);
                lemma_sublist(o.awaiting@, self.awaiting@, o.runnable@, o.tasks@, TaskState::AwaitingIo);
                lemma_sublist(o.awaiting@, self.awaiting@, o.deadline_awaiting@, o.tasks@, TaskState::AwaitingIo);
                lemma_sublist(o.awaiting@, self.awaiting@, o.stopped@, o.tasks@, TaskState::AwaitingIo);
                assert(o.tasks@.insert(t, r) =~= o.tasks@);
            }
            if found {
                self.push_runnable_front(t);
            }
        } else if r.state == TaskState::Runnable {
            let mut r2 = r;
            r2.pending_io = true;
            self.tasks.insert(t, r2);
            let ghost o2 = *self;
            let found = remove_tid(&mut self.runnable, t);
            proof {
                lemma_sublist(o.runnable@, self.runnable@, o.deadline_awaiting@, o2.tasks@, TaskState::Runnable);
                lemma_sublist(o.runnable@, self.runnable@, o.awaiting@, o2.tasks@, TaskState::Runnable);
                lemma_sublist(o.runnable@, self.runnable@, o.stopped@, o2.tasks@, TaskState::Runnable);
                assert(o2.tasks@.insert(t, SchedTask { state: TaskState::Runnable, ..r2 }) =~= o2.tasks@);
            }
            if found {
                self.push_runnable_front(t);
            }
        } else {
            let mut r2 = r;
            r2.pending_io = true;
            self.tasks.insert(t, r2);
        }
    }

    /// Continues `t`: a stopped task moves to the head of the runnable
    /// queue; any other gets a wake-up, so that it looks at its signals.
    pub fn cont(&mut self, t: usize)
        requires
            old(self).settled(),
            old(self).tasks@.contains_key(t),
            old(self).tasks@[t].state == TaskState::Stopped ==> old(self).stopped@.contains(t),
        ensures
            final(self).settled(),
            old(self).tasks@[t].state == TaskState::Stopped ==> queues_after(
                *old(self),
                *final(self),
                t,
                SchedTask { state: TaskState::Runnable, ..old(self).tasks@[t] },
                seq![t] + old(self).runnable@,
                old(self).deadline_awaiting@,
                old(self).awaiting@,
                without(old(self).stopped@, t),
            ),
            old(self).tasks@[t].state != TaskState::Stopped ==> wake_step(*old(self), *final(self), t),
    {
        let r = self.task(t);
        let ghost o = *self;
        if r.state == TaskState::Stopped {
            let _ = remove_tid(&mut self.stopped, t);
            proof {
                lemma_sublist(o.stopped@, self.stopped@, o.runnable@, o.tasks@, TaskState::Stopped);
                lemma_sublist(o.stopped@, self.stopped@, o.deadline_awaiting@, o.tasks@, TaskState::Stopped);
                lemma_sublist(o.stopped@, self.stopped@, o.awaiting@, o.tasks@, TaskState::Stopped);
            }
            self.push_runnable_front(t);
        } else {
            self.wake(t);
        }
    }
}

/// Whether the timed sleep of `t` is over at `now`.
pub open spec fn due(tasks: Map<usize, SchedTask>, now: usize) -> spec_fn(usize) -> bool {
    |t: usize| tasks[t].sleep_until <= now
}

/// Whether the timed sleep of `t` goes on at `now`.
pub open spec fn not_due(tasks: Map<usize, SchedTask>, now: usize) -> spec_fn(usize) -> bool {
    |t: usize| !(tasks[t].sleep_until <= now)
}

/// The records after the tasks of `woken` whose sleep is over at `now`
/// became runnable with no deadline.
pub open spec fn woken_tasks(tasks: Map<usize, SchedTask>, woken: Seq<usize>, now: usize) -> Map<usize, SchedTask> {
    Map::new(
        |k: usize| tasks.contains_key(k),
        |k: usize|
            if woken.contains(k) && tasks[k].sleep_until <= now {
                SchedTask { state: TaskState::Runnable, sleep_until: 0, ..tasks[k] }
            } else {
                tasks[k]
            },
    )
}

/// The queues stay settled when the tasks whose sleep is over move to the
/// runnable queue.
proof fn lemma_check_deadline_settled(o: Queues, q: Queues, now: usize)
    requires
        o.wf(),
        q.idle_task == o.idle_task && q.current == o.current,
        q.tasks@ == woken_tasks(o.tasks@, o.deadline_awaiting@, now),
        q.runnable@ == o.runnable@ + o.deadline_awaiting@.filter(due(o.tasks@, now)),
        q.deadline_awaiting@ == o.deadline_awaiting@.filter(not_due(o.tasks@, now)),
        q.deadline_awaiting@.no_duplicates(),
        o.deadline_awaiting@.filter(due(o.tasks@, now)).no_duplicates(),
        q.awaiting@ == o.awaiting@,
        q.stopped@ == o.stopped@,
    ensures
        q.wf(),
        !o.linked(o.current) ==> !q.linked(q.current),
{
    broadcast use vstd::seq_lib::group_filter_ensures;
    let t0 = o.tasks@;
    let d0 = o.deadline_awaiting@;
    let r0 = o.runnable@;
    let added = d0.filter(due(t0, now));
    let keep = d0.filter(not_due(t0, now));
    let nt = q.tasks@;
    assert forall|x: usize| added.contains(x) implies d0.contains(x) && t0[x].sleep_until <= now by {
        d0.lemma_filter_contains_rev(due(t0, now), x);
        let j = choose|j: int| 0 <= j < added.len() && added[j] == x;
        assert(due(t0, now)(added[j]));
    }
    assert forall|x: usize| keep.contains(x) implies d0.contains(x) && !(t0[x].sleep_until <= now) by {
        d0.lemma_filter_contains_rev(not_due(t0, now), x);
        let j = choose|j: int| 0 <= j < keep.len() && keep[j] == x;
        assert(not_due(t0, now)(keep[j]));
    }
    assert forall|x: usize| #[trigger] d0.contains(x) implies !r0.contains(x) && !o.awaiting@.contains(x)
        && !o.stopped@.contains(x) && t0.contains_key(x) && t0[x].state == TaskState::AwaitingIo by {
        {
            let j = choose|j: int| 0 <= j < d0.len() && d0[j] == x;
            if r0.contains(x) {
                let k = choose|k: int| 0 <= k < r0.len() && r0[k] == x;
                assert(r0[k] != d0[j]);
            }
            if o.awaiting@.contains(x) {
                let k = choose|k: int| 0 <= k < o.awaiting@.len() && o.awaiting@[k] == x;
                assert(d0[j] != o.awaiting@[k]);
            }
            if o.stopped@.contains(x) {
                let k = choose|k: int| 0 <= k < o.stopped@.len() && o.stopped@[k] == x;
                assert(d0[j] != o.stopped@[k]);
            }
        }
    }
    assert forall|a: int, b: int| 0 <= a < r0.len() && 0 <= b < added.len() implies r0[a] != added[b] by {
        assert(added.contains(added[b]));
        assert(r0.contains(r0[a]));
    }
    vstd::seq_lib::lemma_no_dup_in_concat(r0, added);
    let nr = q.runnable@;
    assert forall|x: usize| nr.contains(x) implies r0.contains(x) || added.contains(x) by {
        let j = choose|j: int| 0 <= j < nr.len() && nr[j] == x;
        if j < r0.len() {
            assert(r0[j] == x);
        } else {
            assert(added[j - r0.len()] == x);
        }
    }
    // Membership in the new queues.
    assert forall|i: int, j: int| 0 <= i < nr.len() && 0 <= j < keep.len() implies #[trigger] nr[i] != #[trigger] keep[j] by {
        assert(nr.contains(nr[i]));
        assert(keep.contains(keep[j]));
    }
    assert forall|i: int, j: int| 0 <= i < nr.len() && 0 <= j < o.awaiting@.len() implies #[trigger] nr[i] != #[trigger] o.awaiting@[j] by {
        assert(nr.contains(nr[i]));
        assert(o.awaiting@.contains(o.awaiting@[j]));
        if r0.contains(nr[i]) {
            let k = choose|k: int| 0 <= k < r0.len() && r0[k] == nr[i];
            assert(r0[k] != o.awaiting@[j]);
        }
    }
    assert forall|i: int, j: int| 0 <= i < nr.len() && 0 <= j < o.stopped@.len() implies #[trigger] nr[i] != #[trigger] o.stopped@[j] by {
        assert(nr.contains(nr[i]));
        assert(o.stopped@.contains(o.stopped@[j]));
        if r0.contains(nr[i]) {
            let k = choose|k: int| 0 <= k < r0.len() && r0[k] == nr[i];
            assert(r0[k] != o.stopped@[j]);
        }
    }
    lemma_sublist(d0, keep, o.awaiting@, t0, TaskState::AwaitingIo);
    lemma_sublist(d0, keep, o.stopped@, t0, TaskState::AwaitingIo);
    assert forall|i: int| 0 <= i < nr.len() implies nt.contains_key(#[trigger] nr[i]) && nt[nr[i]].state
        == TaskState::Runnable by {
        let x = nr[i];
        assert(nr.contains(x));
        if i < r0.len() {
            assert(r0[i] == x);
            assert(r0.contains(x));
            assert(!d0.contains(x));
        } else {
            assert(added.contains(x));
        }
    }
    assert forall|i: int| 0 <= i < keep.len() implies nt.contains_key(#[trigger] keep[i]) && nt[keep[i]].state
        == TaskState::AwaitingIo by {
        assert(keep.contains(keep[i]));
    }
    assert forall|i: int| 0 <= i < o.awaiting@.len() implies nt.contains_key(#[trigger] o.awaiting@[i])
        && nt[o.awaiting@[i]].state == TaskState::AwaitingIo by {
        let x = o.awaiting@[i];
        assert(o.awaiting@.contains(x));
        if d0.contains(x) {
        }
    }
    assert forall|i: int| 0 <= i < o.stopped@.len() implies nt.contains_key(#[trigger] o.stopped@[i])
        && nt[o.stopped@[i]].state == TaskState::Stopped by {
        let x = o.stopped@[i];
        assert(o.stopped@.contains(x));
        if d0.contains(x) {
        }
    }
    assert(!d0.contains(o.idle_task));
    assert(!nr.contains(o.idle_task));
    assert(!keep.contains(o.idle_task));
    if !o.linked(o.current) {
        assert(!d0.contains(o.current));
        assert(!nr.contains(o.current));
        assert(!keep.contains(o.current));
    }
}

impl Queues {
    /// Moves the tasks whose timed sleep is over at `now` to the back of the
    /// runnable queue, in the order they went to sleep.
    pub fn schedule_check_deadline(&mut self, now: usize)
        requires
            old(self).wf(),
        ensures
            final(self).wf(),
            old(self).settled() ==> final(self).settled(),
            final(self).idle_task == old(self).idle_task && final(self).current == old(self).current,
            final(self).tasks@ == woken_tasks(old(self).tasks@, old(self).deadline_awaiting@, now),
            final(self).runnable@ == old(self).runnable@ + old(self).deadline_awaiting@.filter(
                due(old(self).tasks@, now),
            ),
            final(self).deadline_awaiting@ == old(self).deadline_awaiting@.filter(
                not_due(old(self).tasks@, now),
            ),
            final(self).awaiting@ == old(self).awaiting@,
            final(self).stopped@ == old(self).stopped@,
    {
        let ghost t0 = self.tasks@;
        let ghost d0 = self.deadline_awaiting@;
        let ghost r0 = self.runnable@;
        let ghost o = *self;
        let mut keep: Vec<usize> = Vec::new();
        let ghost mut added: Seq<usize> = Seq::empty();
        let mut i: usize = 0;
        assert(d0.take(0) =~= Seq::<usize>::empty());
        assert(self.runnable@ =~= r0 + added);
        assert(t0 =~= woken_tasks(t0, d0.take(0), now));
        while i < self.deadline_awaiting.len()
            invariant
                o.wf(),
                o.tasks@ == t0 && o.deadline_awaiting@ == d0 && o.runnable@ == r0,
                self.deadline_awaiting@ == d0,
                self.awaiting@ == o.awaiting@ && self.stopped@ == o.stopped@,
                self.idle_task == o.idle_task && self.current == o.current,
                i <= d0.len(),
                keep@ == d0.take(i as int).filter(not_due(t0, now)),
                added == d0.take(i as int).filter(due(t0, now)),
                self.runnable@ == r0 + added,
                self.tasks@ == woken_tasks(t0, d0.take(i as int), now),
                forall|x: usize| keep@.contains(x) ==> d0.take(i as int).contains(x),
                forall|x: usize| added.contains(x) ==> d0.take(i as int).contains(x),
                keep@.no_duplicates(),
                added.no_duplicates(),
            decreases d0.len() - i,
        {
            let t = self.deadline_awaiting[i];
            let ghost s0 = d0.take(i as int);
            let ghost s1 = d0.take(i as int + 1);
            proof {
                assert(t0.contains_key(d0[i as int]));
                assert(!s0.contains(t)) by {
                    if s0.contains(t) {
                        let j = choose|j: int| 0 <= j < i && s0[j] == t;
                        assert(d0[j] == d0[i as int]);
                    }
                }
                assert(s1 =~= s0.push(t));
                assert forall|x: usize| s1.contains(x) <==> (s0.contains(x)
                    || x == t) by {
                    if s1.contains(x) && x != t {
                        let j = choose|j: int| 0 <= j < s1.len() && s1[j] == x;
                        assert(j < i);
                        assert(s0[j] == x);
                    }
                    if s0.contains(x) {
                        let j = choose|j: int| 0 <= j < s0.len() && s0[j] == x;
                        assert(s1[j] == x);
                    }
                    if x == t {
                        assert(s1[i as int] == x);
                    }
                }
                s0.lemma_filter_push(t, due(t0, now));
                s0.lemma_filter_push(t, not_due(t0, now));
            }
            let r = self.task(t);
            assert(r == t0[t]);
            if r.sleep_until <= now {
                let mut r2 = r;
                r2.state = TaskState::Runnable;
                r2.sleep_until = 0;
                self.tasks.insert(t, r2);
                self.runnable.push(t);
                proof {
                    assert forall|x: usize| added.push(t).contains(x) implies s1.contains(x) by {
                        if x != t {
                            let j = choose|j: int| 0 <= j < added.push(t).len() && added.push(t)[j] == x;
                            assert(added[j] == x);
                            assert(added.contains(x));
                            assert(s0.contains(x));
                        } else {
                            assert(s1[i as int] == t);
                        }
                    }
                    assert(!added.contains(t));
                    added = added.push(t);
                    assert(self.runnable@ =~= r0 + added);
                    assert(self.tasks@ =~= woken_tasks(t0, s1, now));
                }
            } else {
                let ghost k0 = keep@;
                keep.push(t);
                proof {
                    assert forall|x: usize| keep@.contains(x) implies s1.contains(x) by {
                        if x != t {
                            let j = choose|j: int| 0 <= j < keep@.len() && keep@[j] == x;
                            assert(k0[j] == x);
                            assert(k0.contains(x));
                            assert(s0.contains(x));
                        } else {
                            assert(s1[i as int] == t);
                        }
                    }
                    assert(!k0.contains(t));
                    assert(self.tasks@ =~= woken_tasks(t0, s1, now));
                }
            }
            i = i + 1;
        }
        proof {
            assert(d0.take(d0.len() as int) =~= d0);
        }
        self.deadline_awaiting = keep;
        proof {
            lemma_check_deadline_settled(o, *self, now);
        }
    }
}

/// The task to run after the deadline check: the head of the runnable
/// queue; else the running task, if it is runnable and not the idle task;
/// else the idle task.
pub open spec fn next_task(q: Queues, now: usize) -> usize {
    let t1 = woken_tasks(q.tasks@, q.deadline_awaiting@, now);
    let r1 = q.runnable@ + q.deadline_awaiting@.filter(due(q.tasks@, now));
    if r1.len() > 0 {
        r1[0]
    } else if q.current != q.idle_task && t1[q.current].state == TaskState::Runnable {
        q.current
    } else {
        q.idle_task
    }
}

/// The outcome of `Queues::schedule_next`.
pub open spec fn schedule_step(o: Queues, q: Queues, now: usize) -> bool {
    let t1 = woken_tasks(o.tasks@, o.deadline_awaiting@, now);
    let r1 = o.runnable@ + o.deadline_awaiting@.filter(due(o.tasks@, now));
    let d1 = o.deadline_awaiting@.filter(not_due(o.tasks@, now));
    let cur = o.current;
    let to = next_task(o, now);
    let r2 = if r1.len() > 0 {
        r1.drop_first()
    } else {
        r1
    };
    let requeue = cur != to && !(r2.contains(cur) || d1.contains(cur) || o.awaiting@.contains(cur)
        || o.stopped@.contains(cur)) && t1[cur].state == TaskState::Runnable;
    &&& q.idle_task == o.idle_task
    &&& q.current == to
    &&& q.tasks@ == t1
    &&& q.runnable@ == if requeue {
        r2.push(cur)
    } else {
        r2
    }
    &&& q.deadline_awaiting@ == d1
    &&& q.awaiting@ == o.awaiting@
    &&& q.stopped@ == o.stopped@
}

impl Queues {
    /// Picks the task to run at `now` (after waking the timed sleepers whose
    /// time is over) and makes it the running one; the task that ran goes
    /// back to the runnable queue when it is still runnable and in no queue.
    /// Returns the task to switch to, and whether it differs from the one
    /// that ran.
    pub fn schedule_next(&mut self, now: usize) -> (r: (usize, bool))
        requires
            old(self).wf(),
        ensures
            final(self).settled(),
            schedule_step(*old(self), *final(self), now),
            r.0 == final(self).current,
            r.1 == (old(self).current != final(self).current),
    {
        let ghost o = *self;
        self.schedule_check_deadline(now);
        let ghost q1 = *self;
        let cur = self.current;
        let rc = self.task(cur);
        let to_run = if self.runnable.len() > 0 {
            self.runnable.remove(0)
        } else if cur != self.idle_task && rc.state == TaskState::Runnable {
            cur
        } else {
            self.idle_task
        };
        let ghost q2 = *self;
        proof {
            if q1.runnable@.len() > 0 {
                assert(q2.runnable@ =~= q1.runnable@.drop_first());
                assert forall|x: usize| q2.runnable@.contains(x) implies q1.runnable@.contains(x) by {
                    let j = choose|j: int| 0 <= j < q2.runnable@.len() && q2.runnable@[j] == x;
                    assert(q1.runnable@[j + 1] == x);
                }
                lemma_sublist(q1.runnable@, q2.runnable@, q1.deadline_awaiting@, q1.tasks@, TaskState::Runnable);
                lemma_sublist(q1.runnable@, q2.runnable@, q1.awaiting@, q1.tasks@, TaskState::Runnable);
                lemma_sublist(q1.runnable@, q2.runnable@, q1.stopped@, q1.tasks@, TaskState::Runnable);
                assert(!q2.runnable@.contains(to_run)) by {
                    if q2.runnable@.contains(to_run) {
                        let j = choose|j: int| 0 <= j < q2.runnable@.len() && q2.runnable@[j] == to_run;
                        assert(q1.runnable@[j + 1] == q1.runnable@[0]);
                    }
                }
            }
        }
        let requeue = cur != to_run && !self.is_linked(cur) && rc.state == TaskState::Runnable;
        if requeue {
            self.push_runnable(cur);
            assert(self.tasks@ =~= q1.tasks@);
        }
        self.current = to_run;
        proof {
            // The task to run is in no queue.
            let q3 = *self;
            if q1.runnable@.len() > 0 {
                let x = q1.runnable@[0];
                assert(q1.runnable@.contains(x));
                assert(!q1.deadline_awaiting@.contains(x)) by {
                    if q1.deadline_awaiting@.contains(x) {
                        let j = choose|j: int| 0 <= j < q1.deadline_awaiting@.len() && q1.deadline_awaiting@[j] == x;
                        assert(q1.runnable@[0] != q1.deadline_awaiting@[j]);
                    }
                }
                assert(!q1.awaiting@.contains(x)) by {
                    if q1.awaiting@.contains(x) {
                        let j = choose|j: int| 0 <= j < q1.awaiting@.len() && q1.awaiting@[j] == x;
                        assert(q1.runnable@[0] != q1.awaiting@[j]);
                    }
                }
                assert(!q1.stopped@.contains(x)) by {
                    if q1.stopped@.contains(x) {
                        let j = choose|j: int| 0 <= j < q1.stopped@.len() && q1.stopped@[j] == x;
                        assert(q1.runnable@[0] != q1.stopped@[j]);
                    }
                }
                if requeue {
                    assert(q3.runnable@.contains(x) ==> x == cur);
                }
            } else if to_run == cur {
                assert(!q1.deadline_awaiting@.contains(cur)) by {
                    if q1.deadline_awaiting@.contains(cur) {
                        let j = choose|j: int| 0 <= j < q1.deadline_awaiting@.len() && q1.deadline_awaiting@[j] == cur;
                    }
                }
                assert(!q1.awaiting@.contains(cur)) by {
                    if q1.awaiting@.contains(cur) {
                        let j = choose|j: int| 0 <= j < q1.awaiting@.len() && q1.awaiting@[j] == cur;
                    }
                }
                assert(!q1.stopped@.contains(cur)) by {
                    if q1.stopped@.contains(cur) {
                        let j = choose|j: int| 0 <= j < q1.stopped@.len() && q1.stopped@[j] == cur;
                    }
                }
            }
        }
        (to_run, cur != to_run)
    }
}

/// What a call to sleep came to, when it was not refused.
#[derive(Debug, Copy, Clone, PartialEq, Eq, Structural)]
pub enum SleepStep {
    /// A wake-up had come before: the task goes on at once.
    Resumed,
    /// The task went to sleep; switch to this one.
    Switch(usize),
}

/// The queues after the running task went to sleep: until `now` plus the
/// time given, or with no deadline.
pub open spec fn asleep(o: Queues, m: Queues, time_ns: Option<usize>, now: usize) -> bool {
    let cur = o.current;
    let r = o.tasks@[cur];
    match time_ns {
        Some(t) => queues_after(
            o,
            m,
            cur,
            SchedTask { state: TaskState::AwaitingIo, sleep_until: (now + t) as usize, ..r },
            o.runnable@,
            o.deadline_awaiting@.push(cur),
            o.awaiting@,
            o.stopped@,
        ),
        None => queues_after(
            o,
            m,
            cur,
            SchedTask { state: TaskState::AwaitingIo, sleep_until: 0, ..r },
            o.runnable@,
            o.deadline_awaiting@,
            o.awaiting@.push(cur),
            o.stopped@,
        ),
    }
}

/// The queues after the running task went to the stopped queue.
pub open spec fn stopped_now(o: Queues, m: Queues) -> bool {
    queues_after(
        o,
        m,
        o.current,
        SchedTask { state: TaskState::Stopped, ..o.tasks@[o.current] },
        o.runnable@,
        o.deadline_awaiting@,
        o.awaiting@,
        o.stopped@.push(o.current),
    )
}

/// The queues after the running task became unused.
pub open spec fn exited_now(o: Queues, m: Queues) -> bool {
    queues_after(
        o,
        m,
        o.current,
        SchedTask { state: TaskState::Unused, ..o.tasks@[o.current] },
        o.runnable@,
        o.deadline_awaiting@,
        o.awaiting@,
        o.stopped@,
    )
}

/// The copy of `v`.
fn copy_tids(v: &Vec<usize>) -> (c: Vec<usize>)
    ensures
        c@ == v@,
{
    let mut c: Vec<usize> = Vec::new();
    let mut i: usize = 0;
    while i < v.len()
        invariant
            i <= v@.len(),
            c@ == v@.take(i as int),
        decreases v@.len() - i,
    {
        c.push(v[i]);
        i = i + 1;
        assert(c@ =~= v@.take(i as int));
    }
    assert(v@.take(v@.len() as int) =~= v@);
    c
}

/// The queues of one CPU as a report lists them.
pub struct SchedReport {
    pub cpu: usize,
    pub current: usize,
    pub runnable: Vec<usize>,
    pub awaiting: Vec<usize>,
    pub deadline_awaiting: Vec<usize>,
}

/// Whether a sleep that began with the signal mask `before` ends
/// interrupted: the pending signals changed while it slept.
pub fn sleep_result(before: u64, after: u64) -> (r: Result<(), SignalError>)
    ensures
        r is Ok <==> before == after,
{
    if after != before {
        Err(SignalError::Interrupted)
    } else {
        Ok(())
    }
}

impl Queues {
    /// Puts `t` at the back of the runnable queue.
    pub fn queue_task(&mut self, t: usize)
        requires
            old(self).settled(),
            old(self).tasks@.contains_key(t),
            !old(self).linked(t),
            t != old(self).idle_task,
            t != old(self).current,
        ensures
            final(self).settled(),
            queues_after(
                *old(self),
                *final(self),
                t,
                SchedTask { state: TaskState::Runnable, ..old(self).tasks@[t] },
                old(self).runnable@.push(t),
                old(self).deadline_awaiting@,
                old(self).awaiting@,
                old(self).stopped@,
            ),
    {
        self.push_runnable(t);
    }

    /// Chooses the next task to run at `now`; see `schedule_next`.
    pub fn reschedule(&mut self, now: usize) -> (r: (usize, bool))
        requires
            old(self).wf(),
        ensures
            final(self).settled(),
            schedule_step(*old(self), *final(self), now),
            r.0 == final(self).current,
            r.1 == (old(self).current != final(self).current),
    {
        self.schedule_next(now)
    }

    /// The running task asks to sleep, for `time_ns` from `now` or until
    /// woken. A wake-up that came before ends the sleep at once (and is
    /// used up); pending signals (unless `flags` holds the non-interruptible
    /// bit) or a terminating parent refuse it; otherwise the task goes to
    /// its queue and the next task is chosen.
    pub fn sleep(
        &mut self,
        time_ns: Option<usize>,
        flags: u64,
        now: usize,
        signals_pending: bool,
        parent_terminating: bool,
    ) -> (r: Result<SleepStep, SignalError>)
        requires
            old(self).settled(),
            !(old(self).tasks@[old(self).current].pending_io || (flags & SLEEP_NON_INTERRUPTIBLE == 0
                && signals_pending) || parent_terminating) ==> old(self).current != old(self).idle_task,
            time_ns matches Some(t) ==> now + t <= usize::MAX,
        ensures
            final(self).settled(),
            ({
                let o = *old(self);
                let cur = o.current;
                let rc = o.tasks@[cur];
                let refused = (flags & SLEEP_NON_INTERRUPTIBLE == 0 && signals_pending) || parent_terminating;
                if rc.pending_io {
                    &&& r == Ok::<SleepStep, SignalError>(SleepStep::Resumed)
                    &&& queues_after(
                        o,
                        *final(self),
                        cur,
                        SchedTask { pending_io: false, ..rc },
                        o.runnable@,
                        o.deadline_awaiting@,
                        o.awaiting@,
                        o.stopped@,
                    )
                } else if refused {
                    &&& r == Err::<SleepStep, SignalError>(SignalError::Interrupted)
                    &&& queues_after(o, *final(self), cur, rc, o.runnable@, o.deadline_awaiting@, o.awaiting@, o.stopped@)
                } else {
                    &&& r == Ok::<SleepStep, SignalError>(SleepStep::Switch(final(self).current))
                    &&& exists|m: Queues| #[trigger] asleep(o, m, time_ns, now) && schedule_step(m, *final(self), now)
                }
            }),
    {
        let cur = self.current;
        let rc = self.task(cur);
        if rc.pending_io {
            let mut r2 = rc;
            r2.pending_io = false;
            self.tasks.insert(cur, r2);
            return Ok(SleepStep::Resumed);
        }
        if (flags & SLEEP_NON_INTERRUPTIBLE == 0 && signals_pending) || parent_terminating {
            assert(self.tasks@.insert(cur, rc) =~= self.tasks@);
            return Err(SignalError::Interrupted);
        }
        let ghost o = *self;
        match time_ns {
            Some(t) => self.push_deadline_awaiting(cur, now, t),
            None => self.push_awaiting(cur),
        }
        let ghost m = *self;
        assert(asleep(o, m, time_ns, now));
        let (next, _) = self.reschedule(now);
        Ok(SleepStep::Switch(next))
    }

    /// The running task stops (on signal `sig`): it goes to the stopped
    /// queue and the next task is chosen, which is returned.
    pub fn stop(&mut self, sig: usize, now: usize) -> (next: usize)
        requires
            old(self).settled(),
            old(self).current != old(self).idle_task,
        ensures
            final(self).settled(),
            next == final(self).current,
            exists|m: Queues| #[trigger] stopped_now(*old(self), m) && schedule_step(m, *final(self), now),
    {
        let cur = self.current;
        self.push_stopped(sig, cur);
        let ghost m = *self;
        assert(stopped_now(*old(self), m));
        let (next, _) = self.reschedule(now);
        assert(schedule_step(m, *self, now));
        next
    }

    /// The running task ends: it becomes unused and the next task is
    /// chosen, which is returned.
    pub fn exit(&mut self, now: usize) -> (next: usize)
        requires
            old(self).settled(),
            old(self).current != old(self).idle_task,
        ensures
            final(self).settled(),
            next == final(self).current,
            exists|m: Queues| #[trigger] exited_now(*old(self), m) && schedule_step(m, *final(self), now),
    {
        let cur = self.current;
        let mut r = self.task(cur);
        r.state = TaskState::Unused;
        self.tasks.insert(cur, r);
        let ghost m = *self;
        assert(exited_now(*old(self), m));
        let (next, _) = self.reschedule(now);
        assert(schedule_step(m, *self, now));
        next
    }

    /// A thread of a process ends; the queues do as for `exit`.
    pub fn exit_thread(&mut self, now: usize) -> (next: usize)
        requires
            old(self).settled(),
            old(self).current != old(self).idle_task,
        ensures
            final(self).settled(),
            next == final(self).current,
            exists|m: Queues| #[trigger] exited_now(*old(self), m) && schedule_step(m, *final(self), now),
    {
        self.exit(now)
    }

    /// The queues of this CPU, as a report lists them.
    pub fn debug_sched(&self, cpu: usize) -> (rep: SchedReport)
        ensures
            rep.cpu == cpu && rep.current == self.current,
            rep.runnable@ == self.runnable@,
            rep.awaiting@ == self.awaiting@,
            rep.deadline_awaiting@ == self.deadline_awaiting@,
    {
        SchedReport {
            cpu,
            current: self.current,
            runnable: copy_tids(&self.runnable),
            awaiting: copy_tids(&self.awaiting),
            deadline_awaiting: copy_tids(&self.deadline_awaiting),
        }
    }
}

/// Where `t` is in `v`, if it is there.
pub fn position(v: &Vec<usize>, t: usize) -> (r: Option<usize>)
    ensures
        r matches Some(i) ==> i < v@.len() && v@[i as int] == t && forall|j: int| 0 <= j < i ==> v@[j] != t,
        r is None <==> !v@.contains(t),
{
    let mut i: usize = 0;
    while i < v.len()
        invariant
            i <= v@.len(),
            forall|j: int| 0 <= j < i ==> v@[j] != t,
        decreases v@.len() - i,
    {
        if v[i] == t {
            return Some(i);
        }
        i = i + 1;
    }
    None
}

/// A list with no repeats holds `t` no more once `t` is taken out.
proof fn lemma_without_drops(s: Seq<usize>, t: usize)
    requires
        s.no_duplicates(),
    ensures
        !without(s, t).contains(t),
        forall|x: usize| x != t ==> (without(s, t).contains(x) <==> s.contains(x)),
{
    if s.contains(t) {
        let k = s.index_of(t);
        let w = s.remove(k);
        assert forall|j: int| 0 <= j < w.len() implies w[j] != t by {
            if j < k {
                assert(s[j] == w[j]);
            } else {
                assert(s[j + 1] == w[j]);
            }
        }
        assert forall|x: usize| x != t implies (w.contains(x) <==> s.contains(x)) by {
            if s.contains(x) {
                let m = choose|m: int| 0 <= m < s.len() && s[m] == x;
                if m < k {
                    assert(w[m] == x);
                } else {
                    assert(m != k);
                    assert(w[m - 1] == x);
                }
            }
            if w.contains(x) {
                let m = choose|m: int| 0 <= m < w.len() && w[m] == x;
                if m < k {
                    assert(s[m] == x);
                } else {
                    assert(s[m + 1] == x);
                }
            }
        }
    }
}

/// Waking a task that sleeps in its queue (a timed sleeper in the queue of
/// deadlines, any other in the queue without one) makes it runnable and puts
/// it at the back of the runnable queue; it leaves both sleep queues, the
/// other sleepers and the stopped tasks stay where they were, and no other
/// task changes.
pub proof fn lemma_wake_sleeper_runs(o: Queues, q: Queues, t: usize)
    requires
        o.settled(),
        o.tasks@.contains_key(t),
        o.tasks@[t].state == TaskState::AwaitingIo,
        (o.tasks@[t].sleep_until > 0 && o.deadline_awaiting@.contains(t)) || (o.tasks@[t].sleep_until == 0
            && o.awaiting@.contains(t)),
        wake_step(o, q, t),
    ensures
        q.tasks@.contains_key(t),
        q.tasks@[t].state == TaskState::Runnable,
        q.runnable@ == o.runnable@.push(t),
        !q.deadline_awaiting@.contains(t) && !q.awaiting@.contains(t),
        forall|x: usize| x != t ==> (q.deadline_awaiting@.contains(x) <==> o.deadline_awaiting@.contains(x)),
        forall|x: usize| x != t ==> (q.awaiting@.contains(x) <==> o.awaiting@.contains(x)),
        q.stopped@ == o.stopped@,
        forall|k: usize| k != t ==> q.tasks@.contains_key(k) == o.tasks@.contains_key(k) && q.tasks@[k] == o.tasks@[k],
{
    lemma_without_drops(o.deadline_awaiting@, t);
    lemma_without_drops(o.awaiting@, t);
    if o.tasks@[t].sleep_until > 0 {
        assert(!o.awaiting@.contains(t)) by {
            let j = choose|j: int| 0 <= j < o.deadline_awaiting@.len() && o.deadline_awaiting@[j] == t;
            if o.awaiting@.contains(t) {
                let l = choose|l: int| 0 <= l < o.awaiting@.len() && o.awaiting@[l] == t;
                assert(o.deadline_awaiting@[j] != o.awaiting@[l]);
            }
        }
    } else {
        assert(!o.deadline_awaiting@.contains(t)) by {
            let l = choose|l: int| 0 <= l < o.awaiting@.len() && o.awaiting@[l] == t;
            if o.deadline_awaiting@.contains(t) {
                let j = choose|j: int| 0 <= j < o.deadline_awaiting@.len() && o.deadline_awaiting@[j] == t;
                assert(o.deadline_awaiting@[j] != o.awaiting@[l]);
            }
        }
    }
}

/// Waking a task that is not asleep leaves every queue as it was and keeps
/// the wake-up on the task, so that its next sleep ends at once.
pub proof fn lemma_wake_awake_keeps_wakeup(o: Queues, q: Queues, t: usize)
    requires
        o.settled(),
        o.tasks@.contains_key(t),
        o.tasks@[t].state != TaskState::AwaitingIo,
        wake_step(o, q, t),
    ensures
        q.tasks@.contains_key(t),
        q.tasks@[t].pending_io,
        q.tasks@[t].state == o.tasks@[t].state && q.tasks@[t].sleep_until == o.tasks@[t].sleep_until,
        q.runnable@ == o.runnable@ && q.deadline_awaiting@ == o.deadline_awaiting@
            && q.awaiting@ == o.awaiting@ && q.stopped@ == o.stopped@,
{
}

/// What a scheduling round gives: the task chosen to run is runnable, or
/// is the idle task, which runs only when nothing else could (the runnable
/// queue was empty, no timed sleep was over, and the task that ran could
/// not go on). Every timed sleeper whose time is over at `now` is made
/// runnable and is either chosen or queued to run; the timed sleepers that
/// remain all sleep past `now`.
pub proof fn lemma_schedule_runs_runnable(o: Queues, q: Queues, now: usize)
    requires
        o.wf(),
        schedule_step(o, q, now),
    ensures
        q.current == o.idle_task || (q.tasks@.contains_key(q.current) && q.tasks@[q.current].state
            == TaskState::Runnable),
        forall|t: usize| #[trigger] q.deadline_awaiting@.contains(t) ==> q.tasks@[t].sleep_until > now,
        forall|t: usize|
            #[trigger] o.deadline_awaiting@.contains(t) && o.tasks@[t].sleep_until <= now ==> q.tasks@[t].state
                == TaskState::Runnable && (q.runnable@.contains(t) || q.current == t),
        q.current == o.idle_task ==> o.runnable@.len() == 0 && (forall|t: usize|
            #[trigger] o.deadline_awaiting@.contains(t) ==> o.tasks@[t].sleep_until > now) && !(o.current
            != o.idle_task && o.tasks@[o.current].state == TaskState::Runnable),
{
    broadcast use vstd::seq_lib::group_filter_ensures;
    let t0 = o.tasks@;
    let d0 = o.deadline_awaiting@;
    let r0 = o.runnable@;
    let added = d0.filter(due(t0, now));
    let keep = d0.filter(not_due(t0, now));
    let r1 = r0 + added;
    let t1 = woken_tasks(t0, d0, now);
    assert forall|x: usize| added.contains(x) implies d0.contains(x) && t0[x].sleep_until <= now by {
        d0.lemma_filter_contains_rev(due(t0, now), x);
        let j = choose|j: int| 0 <= j < added.len() && added[j] == x;
        assert(due(t0, now)(added[j]));
    }
    assert forall|x: usize| keep.contains(x) implies d0.contains(x) && !(t0[x].sleep_until <= now) by {
        d0.lemma_filter_contains_rev(not_due(t0, now), x);
        let j = choose|j: int| 0 <= j < keep.len() && keep[j] == x;
        assert(not_due(t0, now)(keep[j]));
    }
    assert forall|x: usize| d0.contains(x) && t0[x].sleep_until <= now implies added.contains(x) by {
        let j = choose|j: int| 0 <= j < d0.len() && d0[j] == x;
        assert(due(t0, now)(d0[j]));
        d0.lemma_filter_contains(due(t0, now), j);
    }
    assert forall|x: usize| r0.contains(x) implies !d0.contains(x) && t0.contains_key(x) && t0[x].state
        == TaskState::Runnable by {
        let k = choose|k: int| 0 <= k < r0.len() && r0[k] == x;
        if d0.contains(x) {
            let j = choose|j: int| 0 <= j < d0.len() && d0[j] == x;
            assert(r0[k] != d0[j]);
        }
    }
    assert forall|x: usize| d0.contains(x) implies t0.contains_key(x) && x != o.idle_task by {
        let j = choose|j: int| 0 <= j < d0.len() && d0[j] == x;
        assert(t0.contains_key(d0[j]));
    }
    if r1.len() > 0 {
        let h = r1[0];
        if r0.len() > 0 {
            assert(r0.contains(r0[0]));
            assert(h == r0[0]);
        } else {
            assert(added.contains(added[0]));
            assert(h == added[0]);
        }
        assert(q.current == h);
        assert forall|x: usize| #[trigger] r1.contains(x) && x != h implies r1.drop_first().contains(x) by {
            let j = choose|j: int| 0 <= j < r1.len() && r1[j] == x;
            assert(r1.drop_first()[j - 1] == x);
        }
        assert forall|x: usize| added.contains(x) implies r1.contains(x) by {
            let j = choose|j: int| 0 <= j < added.len() && added[j] == x;
            assert(r1[r0.len() + j] == x);
        }
        assert forall|x: usize| r1.drop_first().contains(x) implies q.runnable@.contains(x) by {
            let j = choose|j: int| 0 <= j < r1.drop_first().len() && r1.drop_first()[j] == x;
            if q.runnable@ != r1.drop_first() {
                assert(q.runnable@ == r1.drop_first().push(o.current));
                assert(q.runnable@[j] == x);
            }
        }
    }
}

/// A task that went to sleep (timed or not) and is then woken before
/// anything else happens becomes runnable, at the back of the runnable
/// queue, whichever sleep queue it went to.
pub proof fn lemma_sleep_then_wake_runs(o: Queues, m: Queues, q: Queues, time_ns: Option<usize>, now: usize)
    requires
        o.settled(),
        time_ns matches Some(t) ==> 0 < now + t <= usize::MAX,
        asleep(o, m, time_ns, now),
        wake_step(m, q, o.current),
    ensures
        q.tasks@.contains_key(o.current),
        q.tasks@[o.current].state == TaskState::Runnable,
        q.runnable@ == o.runnable@.push(o.current),
        q.stopped@ == o.stopped@,
{
    let cur = o.current;
    match time_ns {
        Some(t) => {
            assert(m.deadline_awaiting@.last() == cur);
            assert(m.deadline_awaiting@.contains(cur));
        },
        None => {
            assert(m.awaiting@.last() == cur);
            assert(m.awaiting@.contains(cur));
        },
    }
}

} // verus!
