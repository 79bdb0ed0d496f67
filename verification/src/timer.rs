//! The kernel's timers: each started timer waits in a list kept in deadline
//! order; a periodic check fires the timers whose deadline has come, in
//! that order.
use vstd::prelude::*;

verus! {

/// A started timer: its id (its owner maps it to the callback) and its
/// deadline in nanoseconds.
#[derive(Debug, Copy, Clone, PartialEq, Eq, Structural)]
pub struct TimerEntry {
    pub id: usize,
    pub deadline: u64,
}

/// The started timers, earliest deadline first.
pub struct Timers {
    pub list: Vec<TimerEntry>,
}

/// The deadlines never decrease along `s`.
pub open spec fn sorted(s: Seq<TimerEntry>) -> bool {
    forall|i: int, j: int| 0 <= i < j < s.len() ==> s[i].deadline <= s[j].deadline
}

/// No timer is in `s` twice.
pub open spec fn ids_unique(s: Seq<TimerEntry>) -> bool {
    forall|i: int, j: int| 0 <= i < j < s.len() ==> s[i].id != s[j].id
}

/// Whether the timer `id` is in `s`.
pub open spec fn linked(s: Seq<TimerEntry>, id: usize) -> bool {
    exists|i: int| 0 <= i < s.len() && s[i].id == id
}

/// `s` without the timer `id`.
pub open spec fn remove_id(s: Seq<TimerEntry>, id: usize) -> Seq<TimerEntry>
    decreases s.len(),
{
    if s.len() == 0 {
        s
    } else if s[0].id == id {
        s.drop_first()
    } else {
        seq![s[0]] + remove_id(s.drop_first(), id)
    }
}

/// `s` with `e` put before the first timer with a later deadline (after
/// those with the same one), or at the end.
pub open spec fn insert_sorted(s: Seq<TimerEntry>, e: TimerEntry) -> Seq<TimerEntry>
    decreases s.len(),
{
    if s.len() == 0 {
        seq![e]
    } else if s[0].deadline > e.deadline {
        seq![e] + s
    } else {
        seq![s[0]] + insert_sorted(s.drop_first(), e)
    }
}

/// How many timers at the head of `s` are due at `now`.
pub open spec fn due_count(s: Seq<TimerEntry>, now: u64) -> nat
    decreases s.len(),
{
    if s.len() == 0 || s[0].deadline > now {
        0
    } else {
        1 + due_count(s.drop_first(), now)
    }
}

/// Removing the first occurrence, at `i`, of a timer is removing the entry at `i`.
proof fn lemma_remove_id_at(s: Seq<TimerEntry>, id: usize, i: int)
    requires
        0 <= i < s.len(),
        s[i].id == id,
        forall|j: int| 0 <= j < i ==> s[j].id != id,
    ensures
        remove_id(s, id) == s.remove(i),
    decreases i,
{
    if i > 0 {
        lemma_remove_id_at(s.drop_first(), id, i - 1);
        assert(s.remove(i) =~= seq![s[0]] + s.drop_first().remove(i - 1));
    } else {
        assert(s.remove(0) =~= s.drop_first());
    }
}

/// Removing a timer that is not there changes nothing.
proof fn lemma_remove_id_absent(s: Seq<TimerEntry>, id: usize)
    requires
        forall|j: int| 0 <= j < s.len() ==> s[j].id != id,
    ensures
        remove_id(s, id) == s,
    decreases s.len(),
{
    if s.len() > 0 {
        lemma_remove_id_absent(s.drop_first(), id);
        assert(s =~= seq![s[0]] + s.drop_first());
    }
}

/// Putting `e` at `p`, the first place with a later deadline, is `insert_sorted`.
proof fn lemma_insert_sorted_at(s: Seq<TimerEntry>, e: TimerEntry, p: int)
    requires
        0 <= p <= s.len(),
        forall|j: int| 0 <= j < p ==> s[j].deadline <= e.deadline,
        p < s.len() ==> s[p].deadline > e.deadline,
    ensures
        insert_sorted(s, e) == s.insert(p, e),
    decreases p,
{
    if p > 0 {
        lemma_insert_sorted_at(s.drop_first(), e, p - 1);
        assert(s.insert(p, e) =~= seq![s[0]] + s.drop_first().insert(p - 1, e));
    } else if s.len() == 0 {
        assert(s.insert(0, e) =~= seq![e]);
    } else {
        assert(s.insert(0, e) =~= seq![e] + s);
    }
}

/// The due timers of a sorted list are a prefix: those before `k` are due
/// and the one at `k`, if any, is not.
proof fn lemma_due_prefix(s: Seq<TimerEntry>, now: u64, k: int)
    requires
        0 <= k <= s.len(),
        forall|j: int| 0 <= j < k ==> s[j].deadline <= now,
        k < s.len() ==> s[k].deadline > now,
    ensures
        due_count(s, now) == k,
    decreases k,
{
    if k > 0 {
        lemma_due_prefix(s.drop_first(), now, k - 1);
    }
}

/// A started timer fires at the first check at or after its deadline: in
/// a list in deadline order, a timer put in place by `insert_sorted` whose
/// deadline has come at `now` is among the due timers at the head.
pub proof fn lemma_started_timer_fires(s: Seq<TimerEntry>, e: TimerEntry, now: u64)
    requires
        sorted(s),
        e.deadline <= now,
    ensures
        exists|i: int| 0 <= i < due_count(insert_sorted(s, e), now) && #[trigger] insert_sorted(s, e)[i] == e,
    decreases s.len(),
{
    let t = insert_sorted(s, e);
    if s.len() == 0 {
        assert(t[0] == e);
    } else if s[0].deadline > e.deadline {
        assert(t[0] == e);
    } else {
        let r = s.drop_first();
        assert(sorted(r)) by {
            assert forall|i: int, j: int| 0 <= i < j < r.len() implies r[i].deadline <= r[j].deadline by {
                assert(r[i] == s[i + 1] && r[j] == s[j + 1]);
            }
        }
        lemma_started_timer_fires(r, e, now);
        let i0 = choose|i: int| 0 <= i < due_count(insert_sorted(r, e), now) && #[trigger] insert_sorted(r, e)[i] == e;
        assert(t == seq![s[0]] + insert_sorted(r, e));
        assert(t.drop_first() =~= insert_sorted(r, e));
        lemma_due_count_le(insert_sorted(r, e), now);
        assert(t[i0 + 1] == e);
        assert(due_count(t, now) == 1 + due_count(insert_sorted(r, e), now));
    }
}

/// At most every timer is due.
proof fn lemma_due_count_le(s: Seq<TimerEntry>, now: u64)
    ensures
        due_count(s, now) <= s.len(),
    decreases s.len(),
{
    if s.len() > 0 {
        lemma_due_count_le(s.drop_first(), now);
    }
}

impl Timers {
    /// The list is in deadline order and holds each timer once.
    pub open spec fn wf(&self) -> bool {
        sorted(self.list@) && ids_unique(self.list@)
    }

    /// No timer started.
    pub fn new() -> (t: Timers)
        ensures
            t.wf(),
            t.list@.len() == 0,
    {
        Timers { list: Vec::new() }
    }

    /// Where the timer `id` is in the list, if it is there.
    fn position(&self, id: usize) -> (r: Option<usize>)
        ensures
            r matches Some(i) ==> i < self.list@.len() && self.list@[i as int].id == id && forall|j: int|
                0 <= j < i ==> self.list@[j].id != id,
            r is None ==> forall|j: int| 0 <= j < self.list@.len() ==> self.list@[j].id != id,
    {
        let mut i: usize = 0;
        while i < self.list.len()
            invariant
                i <= self.list@.len(),
                forall|j: int| 0 <= j < i ==> self.list@[j].id != id,
            decreases self.list@.len() - i,
        {
            if self.list[i].id == id {
                return Some(i);
            }
            i = i + 1;
        }
        None
    }

    /// Whether the timer `id` is started.
    pub fn enabled(&self, id: usize) -> (r: bool)
        ensures
            r == linked(self.list@, id),
    {
        self.position(id).is_some()
    }

    /// Stops the timer `id` (nothing happens when it is not started).
    pub fn disable(&mut self, id: usize)
        requires
            old(self).wf(),
        ensures
            final(self).wf(),
            final(self).list@ == remove_id(old(self).list@, id),
            !linked(final(self).list@, id),
    {
        match self.position(id) {
            Some(i) => {
                let ghost s = self.list@;
                self.list.remove(i);
                proof {
                    lemma_remove_id_at(s, id, i as int);
                    assert forall|a: int, b: int| 0 <= a < b < self.list@.len() implies self.list@[a].deadline
                        <= self.list@[b].deadline && self.list@[a].id != self.list@[b].id by {
                        let a0 = if a < i { a } else { a + 1 };
                        let b0 = if b < i { b } else { b + 1 };
                        assert(self.list@[a] == s[a0] && self.list@[b] == s[b0]);
                    }
                    assert forall|j: int| 0 <= j < self.list@.len() implies self.list@[j].id != id by {
                        let j0 = if j < i { j } else { j + 1 };
                        assert(self.list@[j] == s[j0]);
                    }
                }
            },
            None => {
                proof {
                    lemma_remove_id_absent(self.list@, id);
                }
            },
        }
    }

    /// (Re)starts the timer `id` to fire `timeout_ms` milliseconds after
    /// `now` (in nanoseconds): it leaves its place, if it had one, and goes
    /// before the first timer with a later deadline.
    pub fn start_with_timeout(&mut self, id: usize, now: u64, timeout_ms: u64)
        requires
            old(self).wf(),
            now + timeout_ms * 1_000_000 <= u64::MAX,
        ensures
            final(self).wf(),
            final(self).list@ == insert_sorted(
                remove_id(old(self).list@, id),
                TimerEntry { id, deadline: (now + timeout_ms * 1_000_000) as u64 },
            ),
    {
        self.disable(id);
        assert forall|j: int| 0 <= j < self.list@.len() implies self.list@[j].id != id by {
            if self.list@[j].id == id {
                assert(linked(self.list@, id));
            }
        }
        let deadline = now + timeout_ms * 1_000_000;
        let e = TimerEntry { id, deadline };
        let mut p: usize = 0;
        while p < self.list.len()
            invariant
                p <= self.list@.len(),
                self.wf(),
                forall|j: int| 0 <= j < self.list@.len() ==> self.list@[j].id != id,
                forall|j: int| 0 <= j < p ==> self.list@[j].deadline <= deadline,
            ensures
                p <= self.list@.len(),
                forall|j: int| 0 <= j < p ==> self.list@[j].deadline <= deadline,
                p < self.list@.len() ==> self.list@[p as int].deadline > deadline,
            decreases self.list@.len() - p,
        {
            if self.list[p].deadline > deadline {
                break;
            }
            p = p + 1;
        }
        let ghost s = self.list@;
        self.list.insert(p, e);
        proof {
            lemma_insert_sorted_at(s, e, p as int);
            assert forall|a: int, b: int| 0 <= a < b < self.list@.len() implies self.list@[a].deadline
                <= self.list@[b].deadline && self.list@[a].id != self.list@[b].id by {
                if a < p && b < p {
                    assert(self.list@[a] == s[a] && self.list@[b] == s[b]);
                } else if a < p && b == p {
                    assert(self.list@[a] == s[a]);
                } else if a < p {
                    assert(self.list@[a] == s[a] && self.list@[b] == s[b - 1]);
                } else if a == p {
                    assert(self.list@[b] == s[b - 1]);
                    assert(s[p as int].deadline <= s[b - 1].deadline);
                } else {
                    assert(self.list@[a] == s[a - 1] && self.list@[b] == s[b - 1]);
                }
            }
        }
    }

    /// Takes out the timers whose deadline has come at `now`, earliest
    /// first, and returns their ids (the caller runs their callbacks).
    pub fn check_timers(&mut self, now: u64) -> (fired: Vec<usize>)
        requires
            old(self).wf(),
        ensures
            final(self).wf(),
            ({
                let k = due_count(old(self).list@, now) as int;
                &&& fired@.len() == k
                &&& forall|i: int| 0 <= i < k ==> #[trigger] fired@[i] == old(self).list@[i].id
                    && old(self).list@[i].deadline <= now
                &&& final(self).list@ == old(self).list@.skip(k)
                &&& forall|i: int| 0 <= i < final(self).list@.len() ==> #[trigger] final(self).list@[i].deadline > now
            }),
    {
        let ghost s0 = self.list@;
        let mut fired: Vec<usize> = Vec::new();
        while self.list.len() > 0 && self.list[0].deadline <= now
            invariant
                fired@.len() <= s0.len(),
                self.list@ == s0.skip(fired@.len() as int),
                forall|i: int| 0 <= i < fired@.len() ==> #[trigger] fired@[i] == s0[i].id && s0[i].deadline <= now,
                sorted(s0) && ids_unique(s0),
            decreases self.list@.len(),
        {
            let e = self.list.remove(0);
            fired.push(e.id);
            proof {
                assert(self.list@ =~= s0.skip(fired@.len() as int));
            }
        }
        proof {
            let k = fired@.len() as int;
            assert forall|j: int| 0 <= j < k implies s0[j].deadline <= now by {
                assert(fired@[j] == s0[j].id && s0[j].deadline <= now);
            }
            if k < s0.len() {
                assert(self.list@[0] == s0[k]);
            }
            lemma_due_prefix(s0, now, k);
            assert forall|i: int| 0 <= i < self.list@.len() implies #[trigger] self.list@[i].deadline > now by {
                assert(self.list@[i] == s0[k + i]);
                assert(s0[k].deadline <= s0[k + i].deadline);
            }
        }
        fired
    }
}

} // verus!
