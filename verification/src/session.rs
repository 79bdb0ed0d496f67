//! Sessions and process groups. A session holds groups by id; a group holds
//! the processes that belong to it by process id. A task records the group
//! and the session it belongs to; the functions here keep both in step.
use vstd::prelude::*;
use crate::net::unix::SyscallError;

verus! {

/// The ids of a task that sessions and groups deal with: its thread id, the
/// id of its process, its group and its session.
#[derive(Debug, Copy, Clone, PartialEq, Eq, Structural)]
pub struct TaskIds {
    pub tid: usize,
    pub pid: usize,
    pub gid: usize,
    pub sid: usize,
}

impl TaskIds {
    /// The task leads its process.
    pub fn is_process_leader(&self) -> (r: bool)
        ensures
            r == (self.tid == self.pid),
    {
        self.tid == self.pid
    }

    /// The task's process leads its group.
    pub fn is_group_leader(&self) -> (r: bool)
        ensures
            r == (self.gid == self.pid),
    {
        self.gid == self.pid
    }

    /// The task's process leads its session.
    pub fn is_session_leader(&self) -> (r: bool)
        ensures
            r == (self.pid == self.sid),
    {
        self.pid == self.sid
    }
}

/// The processes of a group: each process id with the id of the task that
/// stands for it.
#[verifier::external_body]
pub struct ProcessMap {
    procs: hashbrown::HashMap<usize, usize>,
}

/// What a process map holds.
pub uninterp spec fn process_entries(m: ProcessMap) -> Map<usize, usize>;

impl ProcessMap {
    /// hashbrown's `HashMap::new`: the map starts empty.
    #[verifier::external_body]
    fn new() -> (fresh: ProcessMap)
        ensures
            process_entries(fresh).dom() == Set::<usize>::empty(),
    {
        ProcessMap { procs: hashbrown::HashMap::new() }
    }

    /// hashbrown's `HashMap::insert`: `task` is held under `pid`; what was
    /// held there is returned.
    #[verifier::external_body]
    fn insert(&mut self, pid: usize, task: usize) -> (prev: Option<usize>)
        ensures
            process_entries(*final(self)) == process_entries(*old(self)).insert(pid, task),
            prev == process_entries(*old(self)).get(pid),
    {
        self.procs.insert(pid, task)
    }

    /// hashbrown's `HashMap::remove`: `pid` is no longer held; what was held
    /// there is returned.
    #[verifier::external_body]
    fn remove(&mut self, pid: usize) -> (prev: Option<usize>)
        ensures
            process_entries(*final(self)) == process_entries(*old(self)).remove(pid),
            prev == process_entries(*old(self)).get(pid),
    {
        self.procs.remove(&pid)
    }

    /// hashbrown's `HashMap::len`: the number of processes held.
    #[verifier::external_body]
    fn len(&self) -> (n: usize)
        ensures
            n == process_entries(*self).len(),
    {
        self.procs.len()
    }

    /// hashbrown's `HashMap::contains_key`.
    #[verifier::external_body]
    fn contains_key(&self, pid: usize) -> (r: bool)
        ensures
            r == process_entries(*self).contains_key(pid),
    {
        self.procs.contains_key(&pid)
    }

    /// hashbrown's `HashMap::values`, collected: the task ids held, each
    /// entry once, in the map's order.
    #[verifier::external_body]
    fn values(&self) -> (r: Vec<usize>)
        ensures
            r@.len() == process_entries(*self).len(),
            forall|i: int| 0 <= i < r@.len() ==> process_entries(*self).values().contains(#[trigger] r@[i]),
            forall|t: usize| process_entries(*self).values().contains(t) ==> r@.contains(t),
    {
        self.procs.values().copied().collect()
    }
}

/// A process group: its id (that of the process that leads it) and its
/// processes.
pub struct Group {
    id: usize,
    processes: ProcessMap,
}

impl Group {
    /// The group's id.
    pub closed spec fn spec_id(&self) -> usize {
        self.id
    }

    /// The group's processes, by process id.
    pub closed spec fn members(&self) -> Map<usize, usize> {
        process_entries(self.processes)
    }

    /// A group led by `leader`, which is its only process; the leader now
    /// records the group.
    pub fn new(leader: &mut TaskIds) -> (g: Group)
        ensures
            g.spec_id() == old(leader).pid,
            g.members() == map![old(leader).pid => old(leader).pid],
            *final(leader) == (TaskIds { gid: old(leader).pid, ..*old(leader) }),
    {
        let mut processes = ProcessMap::new();
        leader.gid = leader.pid;
        let _ = processes.insert(leader.pid, leader.pid);
        proof {
            assert(process_entries(processes) =~= map![old(leader).pid => old(leader).pid]);
        }
        Group { id: leader.pid, processes }
    }

    /// Takes process `pid` out of the group and says how many processes are
    /// left; `ESRCH` if it is not in the group.
    pub fn remove_process(&mut self, pid: usize) -> (r: Result<usize, SyscallError>)
        ensures
            final(self).spec_id() == old(self).spec_id(),
            final(self).members() == old(self).members().remove(pid),
            old(self).members().contains_key(pid) ==> (r matches Ok(n) && n == final(self).members().len()),
            !old(self).members().contains_key(pid) ==> r == Err::<usize, SyscallError>(SyscallError::ESRCH),
    {
        match self.processes.remove(pid) {
            Some(_) => Ok(self.processes.len()),
            None => Err(SyscallError::ESRCH),
        }
    }

    /// Adds `process` to the group, which it now records; `EPERM`, with the
    /// process left where it was, if the group holds it already.
    pub fn add_process(&mut self, process: &mut TaskIds) -> (r: Result<usize, SyscallError>)
        ensures
            final(self).spec_id() == old(self).spec_id(),
            final(self).members() == old(self).members().insert(old(process).pid, old(process).pid),
            !old(self).members().contains_key(old(process).pid) ==> r == Ok::<usize, SyscallError>(0)
                && *final(process) == (TaskIds { gid: old(self).spec_id(), ..*old(process) }),
            old(self).members().contains_key(old(process).pid) ==> r == Err::<usize, SyscallError>(SyscallError::EPERM)
                && *final(process) == *old(process),
    {
        if self.processes.insert(process.pid, process.pid).is_none() {
            process.gid = self.id;
            Ok(0)
        } else {
            Err(SyscallError::EPERM)
        }
    }

    /// Records `process` in the group, replacing what was held under its id.
    pub fn register_process(&mut self, process: &TaskIds)
        ensures
            final(self).spec_id() == old(self).spec_id(),
            final(self).members() == old(self).members().insert(process.pid, process.pid),
    {
        let _ = self.processes.insert(process.pid, process.pid);
    }

    /// The group's id.
    pub fn id(&self) -> (r: usize)
        ensures
            r == self.spec_id(),
    {
        self.id
    }

    /// The group holds process `pid`.
    pub fn has_process(&self, pid: usize) -> (r: bool)
        ensures
            r == self.members().contains_key(pid),
    {
        self.processes.contains_key(pid)
    }

    /// The tasks that stand for the group's processes, one per process:
    /// those a closure over the group is applied to, and a signal to the
    /// group is sent to.
    pub fn for_each(&self) -> (r: Vec<usize>)
        ensures
            r@.len() == self.members().len(),
            forall|i: int| 0 <= i < r@.len() ==> self.members().values().contains(#[trigger] r@[i]),
            forall|t: usize| self.members().values().contains(t) ==> r@.contains(t),
    {
        self.processes.values()
    }
}

impl View for Group {
    /// The group's id and its processes.
    type V = (usize, Map<usize, usize>);

    closed spec fn view(&self) -> (usize, Map<usize, usize>) {
        (self.id, process_entries(self.processes))
    }
}

/// The groups of a session, by group id.
#[verifier::external_body]
pub struct GroupMap {
    groups: hashbrown::HashMap<usize, Group>,
}

/// What a group map holds.
pub uninterp spec fn group_entries(m: GroupMap) -> Map<usize, Group>;

impl GroupMap {
    /// hashbrown's `HashMap::new`: the map starts empty.
    #[verifier::external_body]
    fn new() -> (fresh: GroupMap)
        ensures
            group_entries(fresh).dom() == Set::<usize>::empty(),
    {
        GroupMap { groups: hashbrown::HashMap::new() }
    }

    /// hashbrown's `HashMap::get`: the group held under `gid`, if any.
    #[verifier::external_body]
    fn get(&self, gid: usize) -> (r: Option<&Group>)
        ensures
            r is Some <==> group_entries(*self).contains_key(gid),
            r matches Some(g) ==> *g == group_entries(*self)[gid],
    {
        self.groups.get(&gid)
    }

    /// hashbrown's `HashMap::insert`: `group` is held under `gid`; what was
    /// held there is returned.
    #[verifier::external_body]
    fn insert(&mut self, gid: usize, group: Group) -> (prev: Option<Group>)
        ensures
            group_entries(*final(self)) == group_entries(*old(self)).insert(gid, group),
            prev == group_entries(*old(self)).get(gid),
    {
        self.groups.insert(gid, group)
    }

    /// hashbrown's `HashMap::remove`: `gid` is no longer held; what was held
    /// there is returned.
    #[verifier::external_body]
    fn remove(&mut self, gid: usize) -> (prev: Option<Group>)
        ensures
            group_entries(*final(self)) == group_entries(*old(self)).remove(gid),
            prev == group_entries(*old(self)).get(gid),
    {
        self.groups.remove(&gid)
    }

    /// hashbrown's `HashMap::len`: the number of groups held.
    #[verifier::external_body]
    fn len(&self) -> (n: usize)
        ensures
            n == group_entries(*self).len(),
    {
        self.groups.len()
    }

    /// hashbrown's `HashMap::contains_key`.
    #[verifier::external_body]
    fn contains_key(&self, gid: usize) -> (r: bool)
        ensures
            r == group_entries(*self).contains_key(gid),
    {
        self.groups.contains_key(&gid)
    }

    /// hashbrown's `HashMap::keys`, collected: the group ids held, each once,
    /// in the map's order.
    #[verifier::external_body]
    fn keys(&self) -> (r: Vec<usize>)
        ensures
            r@.no_duplicates(),
            r@.to_set() == group_entries(*self).dom(),
    {
        self.groups.keys().copied().collect()
    }
}

/// The view of each group of `m`.
pub open spec fn groups_view(m: Map<usize, Group>) -> Map<usize, (usize, Map<usize, usize>)> {
    m.map_values(|g: Group| g@)
}

/// Viewing each group keeps the group ids held.
proof fn lemma_groups_view_dom(m: Map<usize, Group>)
    ensures
        groups_view(m).dom() == m.dom(),
{
    assert(groups_view(m).dom() =~= m.dom());
}

/// Process `p` belongs to the group it records, among groups `gs`.
pub open spec fn in_groups(gs: Map<usize, (usize, Map<usize, usize>)>, p: TaskIds) -> bool {
    gs.contains_key(p.gid) && gs[p.gid].1.contains_key(p.pid)
}

/// The groups `gs` with process `p` taken out of the group it records; a
/// group left empty is dropped.
pub open spec fn removed_from_groups(gs: Map<usize, (usize, Map<usize, usize>)>, p: TaskIds) -> Map<usize, (usize, Map<usize, usize>)> {
    let rest = gs[p.gid].1.remove(p.pid);
    if rest.len() == 0 {
        gs.remove(p.gid)
    } else {
        gs.insert(p.gid, (gs[p.gid].0, rest))
    }
}

/// The groups `gs` with process `p` recorded in the group it names, or in a
/// new group that it leads where there is none.
pub open spec fn registered_in_groups(gs: Map<usize, (usize, Map<usize, usize>)>, p: TaskIds) -> Map<usize, (usize, Map<usize, usize>)> {
    if gs.contains_key(p.gid) {
        gs.insert(p.gid, (gs[p.gid].0, gs[p.gid].1.insert(p.pid, p.pid)))
    } else {
        gs.insert(p.gid, (p.pid, map![p.pid => p.pid]))
    }
}

/// What moving process `p` to group `group` does to the groups `gs` of its
/// session: the result, the groups after and the process's ids after.
/// `group` 0, or the process's own id where no such group is, makes the
/// process lead a new group of its own.
pub open spec fn move_in_session(gs: Map<usize, (usize, Map<usize, usize>)>, p: TaskIds, group: usize)
    -> (Result<usize, SyscallError>, Map<usize, (usize, Map<usize, usize>)>, TaskIds)
{
    let from = p.gid;
    let pid = p.pid;
    if !gs.contains_key(from) {
        (Err(SyscallError::EPERM), gs, p)
    } else {
        let to_exists = group != 0 && gs.contains_key(group);
        let left = gs.insert(from, (gs[from].0, gs[from].1.remove(pid)));
        if group == 0 || (!to_exists && group == pid) {
            if !gs[from].1.contains_key(pid) {
                (Err(SyscallError::ESRCH), gs, p)
            } else {
                (
                    if left.contains_key(pid) { Err(SyscallError::EPERM) } else { Ok(0) },
                    left.insert(pid, (pid, map![pid => pid])),
                    TaskIds { gid: pid, ..p },
                )
            }
        } else if to_exists {
            if !gs[from].1.contains_key(pid) {
                (Err(SyscallError::ESRCH), gs, p)
            } else {
                let to = left[group];
                let joined = left.insert(group, (to.0, to.1.insert(pid, pid)));
                if to.1.contains_key(pid) {
                    (Err(SyscallError::EPERM), joined, p)
                } else {
                    (Ok(0), joined, TaskIds { gid: to.0, ..p })
                }
            }
        } else {
            (Err(SyscallError::EPERM), gs, p)
        }
    }
}

/// A session: its id (that of the process that leads it) and its groups.
pub struct Session {
    id: usize,
    groups: GroupMap,
}

impl View for Session {
    /// The session's id and the view of each of its groups.
    type V = (usize, Map<usize, (usize, Map<usize, usize>)>);

    closed spec fn view(&self) -> (usize, Map<usize, (usize, Map<usize, usize>)>) {
        (self.id, groups_view(group_entries(self.groups)))
    }
}

impl Session {
    /// A session led by `leader`, with one group, led by it too; the leader
    /// now records both.
    pub fn new(leader: &mut TaskIds) -> (s: Session)
        ensures
            s@ == (old(leader).pid, map![old(leader).pid => (old(leader).pid, map![old(leader).pid => old(leader).pid])]),
            *final(leader) == (TaskIds { gid: old(leader).pid, sid: old(leader).pid, ..*old(leader) }),
    {
        let id = leader.pid;
        leader.sid = id;
        let mut groups = GroupMap::new();
        let g = Group::new(leader);
        let _ = groups.insert(id, g);
        let s = Session { id, groups };
        proof {
            assert(groups_view(group_entries(s.groups)) =~= map![id => (id, map![id => id])]);
        }
        s
    }

    /// The session's id.
    pub fn id(&self) -> (r: usize)
        ensures
            r == self@.0,
    {
        self.id
    }

    /// Moves `process` to group `group` of this session (see
    /// `move_in_session`).
    pub fn move_to_group(&mut self, process: &mut TaskIds, group: usize) -> (r: Result<usize, SyscallError>)
        ensures
            final(self)@.0 == old(self)@.0,
            (r, final(self)@.1, *final(process)) == move_in_session(old(self)@.1, *old(process), group),
    {
        let ghost e0 = group_entries(self.groups);
        let ghost gs = groups_view(e0);
        let from = process.gid;
        let pid = process.pid;
        if !self.groups.contains_key(from) {
            return Err(SyscallError::EPERM);
        }
        let to_exists = group != 0 && self.groups.contains_key(group);
        if group == 0 || (!to_exists && group == pid) {
            let mut from_group = self.groups.remove(from).unwrap();
            let res = from_group.remove_process(pid);
            let _ = self.groups.insert(from, from_group);
            if res.is_err() {
                proof {
                    assert(e0[from]@.1.remove(pid) =~= e0[from]@.1);
                    assert(groups_view(group_entries(self.groups)) =~= gs);
                }
                return Err(SyscallError::ESRCH);
            }
            let ghost left = group_entries(self.groups);
            proof {
                assert(groups_view(left) =~= gs.insert(from, (gs[from].0, gs[from].1.remove(pid))));
                lemma_groups_view_dom(left);
            }
            let g = Group::new(process);
            let prev = self.groups.insert(pid, g);
            proof {
                assert(groups_view(group_entries(self.groups)) =~= groups_view(left).insert(pid, (pid, map![pid => pid])));
            }
            if prev.is_some() {
                Err(SyscallError::EPERM)
            } else {
                Ok(0)
            }
        } else if to_exists {
            let mut from_group = self.groups.remove(from).unwrap();
            let res = from_group.remove_process(pid);
            let _ = self.groups.insert(from, from_group);
            if res.is_err() {
                proof {
                    assert(e0[from]@.1.remove(pid) =~= e0[from]@.1);
                    assert(groups_view(group_entries(self.groups)) =~= gs);
                }
                return Err(SyscallError::ESRCH);
            }
            let ghost left = group_entries(self.groups);
            proof {
                assert(groups_view(left) =~= gs.insert(from, (gs[from].0, gs[from].1.remove(pid))));
            }
            let mut to_group = self.groups.remove(group).unwrap();
            let r = to_group.add_process(process);
            let _ = self.groups.insert(group, to_group);
            proof {
                assert(groups_view(group_entries(self.groups)) =~= groups_view(left).insert(
                    group,
                    (left[group]@.0, left[group]@.1.insert(pid, pid)),
                ));
            }
            r
        } else {
            Err(SyscallError::EPERM)
        }
    }

    /// Records `process` in the group it names: in that group if the session
    /// holds it, else in a new group that it leads.
    pub fn register_task(&mut self, process: &TaskIds)
        requires
            old(self)@.1.contains_key(process.gid) ==> process.gid != process.pid,
            !old(self)@.1.contains_key(process.gid) ==> process.gid == process.pid,
        ensures
            final(self)@.0 == old(self)@.0,
            final(self)@.1 == registered_in_groups(old(self)@.1, *process),
    {
        let ghost e0 = group_entries(self.groups);
        let g = process.gid;
        match self.groups.remove(g) {
            Some(mut group) => {
                group.register_process(process);
                let _ = self.groups.insert(g, group);
                proof {
                    assert(groups_view(group_entries(self.groups)) =~= groups_view(e0).insert(
                        g,
                        (e0[g]@.0, e0[g]@.1.insert(process.pid, process.pid)),
                    ));
                }
            },
            None => {
                let mut leader = *process;
                let group = Group::new(&mut leader);
                let _ = self.groups.insert(g, group);
                proof {
                    assert(groups_view(group_entries(self.groups)) =~= groups_view(e0).insert(
                        g,
                        (process.pid, map![process.pid => process.pid]),
                    ));
                }
            },
        }
    }

    /// The group `gid` of this session, if it has one.
    pub fn get_group(&self, gid: usize) -> (r: Option<&Group>)
        ensures
            r is Some <==> self@.1.contains_key(gid),
            r matches Some(g) ==> g@ == self@.1[gid],
    {
        self.groups.get(gid)
    }

    /// The tasks that stand for the processes of all groups of the session:
    /// those a closure over the session is applied to.
    pub fn for_each(&self) -> (r: Vec<usize>)
        ensures
            forall|t: usize| r@.contains(t) <==> exists|g: usize|
                #![trigger self@.1[g]]
                self@.1.contains_key(g) && self@.1[g].1.values().contains(t),
    {
        let ghost gs = self@.1;
        let keys = self.groups.keys();
        let mut out: Vec<usize> = Vec::new();
        let mut i: usize = 0;
        while i < keys.len()
            invariant
                i <= keys@.len(),
                gs == self@.1,
                keys@.to_set() == group_entries(self.groups).dom(),
                forall|t: usize| out@.contains(t) <==> exists|j: int|
                    #![trigger keys@[j]]
                    0 <= j < i && gs[keys@[j]].1.values().contains(t),
            decreases keys@.len() - i,
        {
            let k = keys[i];
            proof {
                assert(keys@.contains(k));
                assert(keys@.to_set().contains(k));
            }
            let g = self.groups.get(k).unwrap();
            let mut ps = g.for_each();
            let ghost before = out@;
            let ghost added = ps@;
            out.append(&mut ps);
            proof {
                assert(gs[k] == group_entries(self.groups)[k]@);
                assert forall|t: usize| out@.contains(t) <==> exists|j: int|
                    #![trigger keys@[j]]
                    0 <= j < i + 1 && gs[keys@[j]].1.values().contains(t) by {
                    assert(out@ == before + added);
                    if out@.contains(t) {
                        let x = choose|x: int| 0 <= x < out@.len() && out@[x] == t;
                        if x < before.len() {
                            assert(before[x] == t);
                            assert(before.contains(t));
                        } else {
                            assert(added[x - before.len()] == t);
                            assert(gs[keys@[i as int]].1.values().contains(t));
                        }
                    }
                    if exists|j: int| #![trigger keys@[j]] 0 <= j < i + 1 && gs[keys@[j]].1.values().contains(t) {
                        let j = choose|j: int| #![trigger keys@[j]] 0 <= j < i + 1 && gs[keys@[j]].1.values().contains(t);
                        if j < i {
                            assert(before.contains(t));
                            let x = choose|x: int| 0 <= x < before.len() && before[x] == t;
                            assert(out@[x] == t);
                        } else {
                            assert(added.contains(t));
                            let x = choose|x: int| 0 <= x < added.len() && added[x] == t;
                            assert(out@[before.len() + x] == t);
                        }
                    }
                }
            }
            i = i + 1;
        }
        proof {
            assert forall|t: usize| out@.contains(t) <==> exists|g: usize|
                #![trigger gs[g]]
                gs.contains_key(g) && gs[g].1.values().contains(t) by {
                lemma_groups_view_dom(group_entries(self.groups));
                if out@.contains(t) {
                    let j = choose|j: int| #![trigger keys@[j]] 0 <= j < i && gs[keys@[j]].1.values().contains(t);
                    assert(keys@.contains(keys@[j]));
                    assert(keys@.to_set().contains(keys@[j]));
                    assert(gs.contains_key(keys@[j]));
                }
                if exists|g: usize| #![trigger gs[g]] gs.contains_key(g) && gs[g].1.values().contains(t) {
                    let g = choose|g: usize| #![trigger gs[g]] gs.contains_key(g) && gs[g].1.values().contains(t);
                    assert(keys@.to_set().contains(g));
                    assert(keys@.contains(g));
                    let j = choose|j: int| 0 <= j < keys@.len() && keys@[j] == g;
                    assert(gs[keys@[j]].1.values().contains(t));
                }
            }
        }
        out
    }

    /// Takes `process` out of the group it records and says how many groups
    /// are left; a group left empty is dropped. `ESRCH` if the group does
    /// not hold it.
    pub fn remove_process(&mut self, process: &TaskIds) -> (r: Result<usize, SyscallError>)
        ensures
            in_groups(old(self)@.1, *process) ==> final(self)@.1 == removed_from_groups(old(self)@.1, *process)
                && (r matches Ok(n) && n == final(self)@.1.len()),
            !in_groups(old(self)@.1, *process) ==> final(self)@.1 == old(self)@.1
                && r == Err::<usize, SyscallError>(SyscallError::ESRCH),
            final(self)@.0 == old(self)@.0,
    {
        let ghost e0 = group_entries(self.groups);
        let g = process.gid;
        match self.groups.remove(g) {
            None => {
                proof {
                    assert(group_entries(self.groups) =~= e0);
                }
                Err(SyscallError::ESRCH)
            },
            Some(mut group) => {
                let ghost before = group@;
                match group.remove_process(process.pid) {
                    Ok(num) => {
                        if num != 0 {
                            let _ = self.groups.insert(g, group);
                            proof {
                                assert(groups_view(group_entries(self.groups)) =~= groups_view(e0).insert(g, (before.0, before.1.remove(process.pid))));
                            }
                        } else {
                            proof {
                                assert(groups_view(group_entries(self.groups)) =~= groups_view(e0).remove(g));
                            }
                        }
                        proof {
                            lemma_groups_view_dom(group_entries(self.groups));
                        }
                        Ok(self.groups.len())
                    },
                    Err(e) => {
                        let _ = self.groups.insert(g, group);
                        proof {
                            assert(before.1.remove(process.pid) =~= before.1);
                            assert(groups_view(group_entries(self.groups)) =~= groups_view(e0));
                        }
                        Err(e)
                    },
                }
            },
        }
    }
}

/// The sessions of the system, by session id.
#[verifier::external_body]
pub struct SessionMap {
    sessions: hashbrown::HashMap<usize, Session>,
}

/// What a session map holds.
pub uninterp spec fn session_entries(m: SessionMap) -> Map<usize, Session>;

impl SessionMap {
    /// hashbrown's `HashMap::new`: the map starts empty.
    #[verifier::external_body]
    fn new() -> (fresh: SessionMap)
        ensures
            session_entries(fresh).dom() == Set::<usize>::empty(),
    {
        SessionMap { sessions: hashbrown::HashMap::new() }
    }

    /// hashbrown's `HashMap::get`: the session held under `sid`, if any.
    #[verifier::external_body]
    fn get(&self, sid: usize) -> (r: Option<&Session>)
        ensures
            r is Some <==> session_entries(*self).contains_key(sid),
            r matches Some(s) ==> *s == session_entries(*self)[sid],
    {
        self.sessions.get(&sid)
    }

    /// hashbrown's `HashMap::insert`: `session` is held under `sid`; what
    /// was held there is returned.
    #[verifier::external_body]
    fn insert(&mut self, sid: usize, session: Session) -> (prev: Option<Session>)
        ensures
            session_entries(*final(self)) == session_entries(*old(self)).insert(sid, session),
            prev == session_entries(*old(self)).get(sid),
    {
        self.sessions.insert(sid, session)
    }

    /// hashbrown's `HashMap::remove`: `sid` is no longer held; what was held
    /// there is returned.
    #[verifier::external_body]
    fn remove(&mut self, sid: usize) -> (prev: Option<Session>)
        ensures
            session_entries(*final(self)) == session_entries(*old(self)).remove(sid),
            prev == session_entries(*old(self)).get(sid),
    {
        self.sessions.remove(&sid)
    }

    /// hashbrown's `HashMap::len`: the number of sessions held.
    #[verifier::external_body]
    fn len(&self) -> (n: usize)
        ensures
            n == session_entries(*self).len(),
    {
        self.sessions.len()
    }
}

/// The view of each session of `m`.
pub open spec fn sessions_view(m: Map<usize, Session>) -> Map<usize, (usize, Map<usize, (usize, Map<usize, usize>)>)> {
    m.map_values(|s: Session| s@)
}

/// Viewing each session keeps the session ids held.
proof fn lemma_sessions_view_dom(m: Map<usize, Session>)
    ensures
        sessions_view(m).dom() == m.dom(),
{
    assert(sessions_view(m).dom() =~= m.dom());
}

/// Process `p` belongs to the group it records in the session it records.
pub open spec fn in_sessions(ss: Map<usize, (usize, Map<usize, (usize, Map<usize, usize>)>)>, p: TaskIds) -> bool {
    ss.contains_key(p.sid) && in_groups(ss[p.sid].1, p)
}

/// The sessions `ss` with process `p` taken out of its group; a group left
/// empty is dropped, and so is a session left without groups.
pub open spec fn removed_from_sessions(ss: Map<usize, (usize, Map<usize, (usize, Map<usize, usize>)>)>, p: TaskIds)
    -> Map<usize, (usize, Map<usize, (usize, Map<usize, usize>)>)>
{
    let gs = removed_from_groups(ss[p.sid].1, p);
    if gs.len() == 0 {
        ss.remove(p.sid)
    } else {
        ss.insert(p.sid, (ss[p.sid].0, gs))
    }
}

/// The view of a session that process `pid` leads, with the one group that
/// it leads too.
pub open spec fn new_session_view(pid: usize) -> (usize, Map<usize, (usize, Map<usize, usize>)>) {
    (pid, map![pid => (pid, map![pid => pid])])
}

/// What moving process `p` to group `group` does to the sessions `ss`: the
/// result, the sessions after and the process's ids after. Nothing is done
/// where the process is in that group already, or leads its group and asks
/// for a group of its own.
pub open spec fn move_in_sessions(ss: Map<usize, (usize, Map<usize, (usize, Map<usize, usize>)>)>, p: TaskIds, group: usize)
    -> (Result<usize, SyscallError>, Map<usize, (usize, Map<usize, (usize, Map<usize, usize>)>)>, TaskIds)
{
    if group == p.gid || (group == 0 && p.gid == p.pid) {
        (Ok(0), ss, p)
    } else if !ss.contains_key(p.sid) {
        (Err(SyscallError::ESRCH), ss, p)
    } else {
        let m = move_in_session(ss[p.sid].1, p, group);
        (m.0, ss.insert(p.sid, (ss[p.sid].0, m.1)), m.2)
    }
}

/// Each session is held under its own id, and each group under its own id.
pub open spec fn sessions_wf(ss: Map<usize, (usize, Map<usize, (usize, Map<usize, usize>)>)>) -> bool {
    forall|sid: usize| #[trigger] ss.contains_key(sid) ==> {
        &&& ss[sid].0 == sid
        &&& forall|gid: usize| #[trigger] ss[sid].1.contains_key(gid) ==> ss[sid].1[gid].0 == gid
    }
}

/// Moving a process between groups keeps each session and each group under
/// its own id.
pub proof fn lemma_move_keeps_wf(ss: Map<usize, (usize, Map<usize, (usize, Map<usize, usize>)>)>, p: TaskIds, group: usize)
    requires
        sessions_wf(ss),
    ensures
        sessions_wf(move_in_sessions(ss, p, group).1),
{
    let m = move_in_sessions(ss, p, group);
    assert forall|sid: usize| #[trigger] m.1.contains_key(sid) implies {
        &&& m.1[sid].0 == sid
        &&& forall|gid: usize| #[trigger] m.1[sid].1.contains_key(gid) ==> m.1[sid].1[gid].0 == gid
    } by {
        if sid == p.sid && ss.contains_key(p.sid) {
            assert(ss[sid].0 == sid);
            assert forall|gid: usize| #[trigger] m.1[sid].1.contains_key(gid) implies m.1[sid].1[gid].0 == gid by {
                let gs = ss[sid].1;
                if gs.contains_key(gid) {
                    assert(gs[gid].0 == gid);
                }
            }
        } else {
            assert(ss.contains_key(sid));
        }
    }
}

/// After a move that succeeds, the process belongs to the group it then
/// records, and no longer to the group it left.
pub proof fn lemma_moved_process_joins(ss: Map<usize, (usize, Map<usize, (usize, Map<usize, usize>)>)>, p: TaskIds, group: usize)
    requires
        sessions_wf(ss),
        in_sessions(ss, p),
        move_in_sessions(ss, p, group).0 is Ok,
    ensures
        in_sessions(move_in_sessions(ss, p, group).1, move_in_sessions(ss, p, group).2),
        move_in_sessions(ss, p, group).2.gid != p.gid ==> !in_sessions(move_in_sessions(ss, p, group).1, p),
{
    let gs = ss[p.sid].1;
    if gs.contains_key(group) {
        assert(gs[group].0 == group);
    }
}

/// A process taken out of its group no longer belongs to it; sessions and
/// groups stay under their own ids.
pub proof fn lemma_removed_process_leaves(ss: Map<usize, (usize, Map<usize, (usize, Map<usize, usize>)>)>, p: TaskIds)
    requires
        in_sessions(ss, p),
    ensures
        !in_sessions(removed_from_sessions(ss, p), p),
        sessions_wf(ss) ==> sessions_wf(removed_from_sessions(ss, p)),
{
    let r = removed_from_sessions(ss, p);
    let gs = removed_from_groups(ss[p.sid].1, p);
    if sessions_wf(ss) {
        assert forall|sid: usize| #[trigger] r.contains_key(sid) implies {
            &&& r[sid].0 == sid
            &&& forall|gid: usize| #[trigger] r[sid].1.contains_key(gid) ==> r[sid].1[gid].0 == gid
        } by {
            assert(ss.contains_key(sid));
            if sid == p.sid {
                assert forall|gid: usize| #[trigger] r[sid].1.contains_key(gid) implies r[sid].1[gid].0 == gid by {
                    assert(ss[sid].1.contains_key(gid));
                }
            }
        }
    }
}

/// A process registered belongs to the group it records; sessions and
/// groups stay under their own ids.
pub proof fn lemma_registered_process_joins(ss: Map<usize, (usize, Map<usize, (usize, Map<usize, usize>)>)>, p: TaskIds)
    requires
        sessions_wf(ss),
        ss.contains_key(p.sid) ==> (!ss[p.sid].1.contains_key(p.gid) ==> p.gid == p.pid),
        !ss.contains_key(p.sid) ==> p.pid == p.sid,
    ensures
        ss.contains_key(p.sid) ==> {
            let after = ss.insert(p.sid, (ss[p.sid].0, registered_in_groups(ss[p.sid].1, p)));
            in_sessions(after, p) && sessions_wf(after)
        },
        !ss.contains_key(p.sid) ==> {
            let after = ss.insert(p.pid, new_session_view(p.pid));
            let q = TaskIds { gid: p.pid, ..p };
            in_sessions(after, q) && sessions_wf(after)
        },
{
    if ss.contains_key(p.sid) {
        let after = ss.insert(p.sid, (ss[p.sid].0, registered_in_groups(ss[p.sid].1, p)));
        assert forall|sid: usize| #[trigger] after.contains_key(sid) implies {
            &&& after[sid].0 == sid
            &&& forall|gid: usize| #[trigger] after[sid].1.contains_key(gid) ==> after[sid].1[gid].0 == gid
        } by {
            assert(ss.contains_key(sid));
            if sid == p.sid {
                assert forall|gid: usize| #[trigger] after[sid].1.contains_key(gid) implies after[sid].1[gid].0 == gid by {
                    if ss[sid].1.contains_key(gid) {
                        assert(ss[sid].1[gid].0 == gid);
                    }
                }
            }
        }
    } else {
        let after = ss.insert(p.pid, new_session_view(p.pid));
        assert forall|sid: usize| #[trigger] after.contains_key(sid) implies {
            &&& after[sid].0 == sid
            &&& forall|gid: usize| #[trigger] after[sid].1.contains_key(gid) ==> after[sid].1[gid].0 == gid
        } by {
            if sid != p.pid {
                assert(ss.contains_key(sid));
            }
        }
    }
}

/// What is known of the task that a process id names: its ids and the
/// thread id of its parent, if it has one.
#[derive(Debug, Copy, Clone, PartialEq, Eq, Structural)]
pub struct TaskLookup {
    pub ids: TaskIds,
    pub parent_tid: Option<usize>,
}

/// The process that `set_pgid(pid, ..)` called by `caller` moves: the caller
/// itself for `pid` 0 or its own id, else the task found under `pid`, which
/// must lead its process and be a child of the caller.
pub open spec fn pgid_process(pid: usize, caller: TaskIds, target: Option<TaskLookup>) -> Result<TaskIds, SyscallError> {
    if pid == 0 || pid == caller.pid {
        Ok(caller)
    } else {
        match target {
            None => Err(SyscallError::ESRCH),
            Some(t) => if t.ids.tid != t.ids.pid {
                Err(SyscallError::EPERM)
            } else {
                match t.parent_tid {
                    None => Err(SyscallError::EPERM),
                    Some(pt) => if pt != caller.tid {
                        Err(SyscallError::ESRCH)
                    } else {
                        Ok(t.ids)
                    },
                }
            },
        }
    }
}

/// All sessions.
pub struct Sessions {
    sessions: SessionMap,
}

impl View for Sessions {
    /// The view of each session, by session id.
    type V = Map<usize, (usize, Map<usize, (usize, Map<usize, usize>)>)>;

    closed spec fn view(&self) -> Map<usize, (usize, Map<usize, (usize, Map<usize, usize>)>)> {
        sessions_view(session_entries(self.sessions))
    }
}

impl Sessions {
    /// No sessions.
    pub fn new() -> (s: Sessions)
        ensures
            s@ == Map::<usize, (usize, Map<usize, (usize, Map<usize, usize>)>)>::empty(),
    {
        let s = Sessions { sessions: SessionMap::new() };
        proof {
            assert(s@ =~= Map::<usize, (usize, Map<usize, (usize, Map<usize, usize>)>)>::empty());
        }
        s
    }

    /// Takes `process` out of its group and says how many sessions are left
    /// (see `removed_from_sessions`); `ESRCH` if its group does not hold it.
    pub fn remove_process(&mut self, process: &TaskIds) -> (r: Result<usize, SyscallError>)
        ensures
            in_sessions(old(self)@, *process) ==> final(self)@ == removed_from_sessions(old(self)@, *process)
                && (r matches Ok(n) && n == final(self)@.len()),
            !in_sessions(old(self)@, *process) ==> final(self)@ == old(self)@
                && r == Err::<usize, SyscallError>(SyscallError::ESRCH),
    {
        let ghost e0 = session_entries(self.sessions);
        let sid = process.sid;
        match self.sessions.remove(sid) {
            None => {
                proof {
                    assert(session_entries(self.sessions) =~= e0);
                }
                Err(SyscallError::ESRCH)
            },
            Some(mut session) => {
                let ghost before = session@;
                match session.remove_process(process) {
                    Ok(num) => {
                        if num != 0 {
                            let _ = self.sessions.insert(sid, session);
                            proof {
                                assert(sessions_view(session_entries(self.sessions)) =~= sessions_view(e0).insert(
                                    sid,
                                    (before.0, removed_from_groups(before.1, *process)),
                                ));
                            }
                        } else {
                            proof {
                                assert(sessions_view(session_entries(self.sessions)) =~= sessions_view(e0).remove(sid));
                            }
                        }
                        proof {
                            lemma_sessions_view_dom(session_entries(self.sessions));
                        }
                        Ok(self.sessions.len())
                    },
                    Err(e) => {
                        let _ = self.sessions.insert(sid, session);
                        proof {
                            assert(sessions_view(session_entries(self.sessions)) =~= sessions_view(e0));
                        }
                        Err(e)
                    },
                }
            },
        }
    }

    /// A new session led by `process`, holding one group that it leads too
    /// (a session held under its id is replaced); the process now records
    /// both.
    pub fn create_session(&mut self, process: &mut TaskIds)
        ensures
            final(self)@ == old(self)@.insert(old(process).pid, new_session_view(old(process).pid)),
            *final(process) == (TaskIds { gid: old(process).pid, sid: old(process).pid, ..*old(process) }),
    {
        let ghost e0 = session_entries(self.sessions);
        let pid = process.pid;
        let session = Session::new(process);
        let _ = self.sessions.insert(pid, session);
        proof {
            assert(sessions_view(session_entries(self.sessions)) =~= sessions_view(e0).insert(pid, new_session_view(pid)));
        }
    }

    /// Moves `process` to group `group` of its session (see
    /// `move_in_sessions`).
    pub fn move_to_group(&mut self, process: &mut TaskIds, group: usize) -> (r: Result<usize, SyscallError>)
        ensures
            (r, final(self)@, *final(process)) == move_in_sessions(old(self)@, *old(process), group),
    {
        let ghost e0 = session_entries(self.sessions);
        if group == process.gid || (group == 0 && process.is_group_leader()) {
            return Ok(0);
        }
        let sid = process.sid;
        match self.sessions.remove(sid) {
            None => {
                proof {
                    assert(session_entries(self.sessions) =~= e0);
                }
                Err(SyscallError::ESRCH)
            },
            Some(mut session) => {
                let ghost before = session@;
                let r = session.move_to_group(process, group);
                let ghost after = session@;
                let _ = self.sessions.insert(sid, session);
                proof {
                    assert(sessions_view(session_entries(self.sessions)) =~= sessions_view(e0).insert(sid, (before.0, after.1)));
                }
                r
            },
        }
    }

    /// Records `process`, if it leads its process: in its session if there
    /// is one, else in a new session that it leads.
    pub fn register_process(&mut self, process: &mut TaskIds)
        requires
            old(process).tid == old(process).pid && old(self)@.contains_key(old(process).sid) ==> {
                let gs = old(self)@[old(process).sid].1;
                &&& old(process).pid != old(process).sid
                &&& gs.contains_key(old(process).gid) ==> old(process).gid != old(process).pid
                &&& !gs.contains_key(old(process).gid) ==> old(process).gid == old(process).pid
            },
            old(process).tid == old(process).pid && !old(self)@.contains_key(old(process).sid) ==> old(process).pid == old(process).sid,
        ensures
            old(process).tid != old(process).pid ==> final(self)@ == old(self)@ && *final(process) == *old(process),
            old(process).tid == old(process).pid && old(self)@.contains_key(old(process).sid) ==> {
                let ss = old(self)@;
                let sid = old(process).sid;
                &&& final(self)@ == ss.insert(sid, (ss[sid].0, registered_in_groups(ss[sid].1, *old(process))))
                &&& *final(process) == *old(process)
            },
            old(process).tid == old(process).pid && !old(self)@.contains_key(old(process).sid) ==> {
                &&& final(self)@ == old(self)@.insert(old(process).pid, new_session_view(old(process).pid))
                &&& *final(process) == (TaskIds { gid: old(process).pid, ..*old(process) })
            },
    {
        if !process.is_process_leader() {
            return;
        }
        let ghost e0 = session_entries(self.sessions);
        let sid = process.sid;
        match self.sessions.remove(sid) {
            Some(mut session) => {
                let ghost before = session@;
                session.register_task(process);
                let ghost after = session@;
                let _ = self.sessions.insert(sid, session);
                proof {
                    assert(sessions_view(session_entries(self.sessions)) =~= sessions_view(e0).insert(sid, (before.0, after.1)));
                }
            },
            None => {
                proof {
                    assert(session_entries(self.sessions) =~= e0);
                }
                self.create_session(process);
            },
        }
    }

    /// Group `gid` of session `sid`, if there is one.
    pub fn get_group(&self, sid: usize, gid: usize) -> (r: Option<&Group>)
        ensures
            r is Some <==> self@.contains_key(sid) && self@[sid].1.contains_key(gid),
            r matches Some(g) ==> g@ == self@[sid].1[gid],
    {
        match self.sessions.get(sid) {
            Some(s) => s.get_group(gid),
            None => None,
        }
    }

    /// Session `sid`, if there is one.
    pub fn get_session(&self, sid: usize) -> (r: Option<&Session>)
        ensures
            r is Some <==> self@.contains_key(sid),
            r matches Some(s) ==> s@ == self@[sid],
    {
        self.sessions.get(sid)
    }

    /// Makes `process`, the process that `task` belongs to, leave its group
    /// and lead a new session. `EPERM` if `task`'s process leads its group;
    /// `ESRCH` if its group does not hold the process.
    pub fn set_sid(&mut self, task: &TaskIds, process: &mut TaskIds) -> (r: Result<usize, SyscallError>)
        ensures
            task.gid == task.pid ==> r == Err::<usize, SyscallError>(SyscallError::EPERM)
                && final(self)@ == old(self)@ && *final(process) == *old(process),
            task.gid != task.pid && !in_sessions(old(self)@, *old(process)) ==> r == Err::<usize, SyscallError>(SyscallError::ESRCH)
                && final(self)@ == old(self)@ && *final(process) == *old(process),
            task.gid != task.pid && in_sessions(old(self)@, *old(process)) ==> r == Ok::<usize, SyscallError>(0)
                && final(self)@ == removed_from_sessions(old(self)@, *old(process)).insert(old(process).pid, new_session_view(old(process).pid))
                && *final(process) == (TaskIds { gid: old(process).pid, sid: old(process).pid, ..*old(process) }),
    {
        if task.is_group_leader() {
            return Err(SyscallError::EPERM);
        }
        match self.remove_process(process) {
            Err(e) => Err(e),
            Ok(_) => {
                self.create_session(process);
                Ok(0)
            },
        }
    }

    /// Moves process `pid` (0 for the caller) to group `gid` (0 for a group
    /// of its own): `caller` is the process that asks, `target` what was
    /// found under `pid`. The process moved must not lead its session and
    /// must share the caller's (see `pgid_process` and `move_in_sessions`).
    pub fn set_pgid(&mut self, pid: usize, gid: usize, caller: &mut TaskIds, target: &mut Option<TaskLookup>) -> (r: Result<usize, SyscallError>)
        ensures
            ({
                let unchanged = final(self)@ == old(self)@ && *final(caller) == *old(caller) && *final(target) == *old(target);
                match pgid_process(pid, *old(caller), *old(target)) {
                    Err(e) => r == Err::<usize, SyscallError>(e) && unchanged,
                    Ok(p) => if p.pid == p.sid || old(caller).sid != p.sid {
                        r == Err::<usize, SyscallError>(SyscallError::EPERM) && unchanged
                    } else {
                        let m = move_in_sessions(old(self)@, p, gid);
                        &&& r == m.0
                        &&& final(self)@ == m.1
                        &&& (pid == 0 || pid == old(caller).pid) ==> *final(caller) == m.2 && *final(target) == *old(target)
                        &&& !(pid == 0 || pid == old(caller).pid) ==> *final(caller) == *old(caller)
                            && *final(target) == Some(TaskLookup { ids: m.2, ..old(target).unwrap() })
                    },
                }
            }),
    {
        if pid == 0 || pid == caller.pid {
            if caller.is_session_leader() {
                return Err(SyscallError::EPERM);
            }
            return self.move_to_group(caller, gid);
        }
        match *target {
            None => Err(SyscallError::ESRCH),
            Some(t) => {
                if !t.ids.is_process_leader() {
                    return Err(SyscallError::EPERM);
                }
                match t.parent_tid {
                    None => {
                        return Err(SyscallError::EPERM);
                    },
                    Some(pt) => {
                        if pt != caller.tid {
                            return Err(SyscallError::ESRCH);
                        }
                    },
                }
                if t.ids.is_session_leader() || caller.sid != t.ids.sid {
                    return Err(SyscallError::EPERM);
                }
                let mut ids = t.ids;
                let r = self.move_to_group(&mut ids, gid);
                *target = Some(TaskLookup { ids, parent_tid: t.parent_tid });
                r
            },
        }
    }
}

} // verus!
