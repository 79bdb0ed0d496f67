//! All tasks of the system, by id, in a hash map.
use vstd::prelude::*;
use crate::sched::round_robin::SchedTask;

verus! {

/// The tasks of the system, by id.
#[verifier::external_body]
pub struct TaskContainer {
    tasks: hashbrown::HashMap<usize, SchedTask>,
}

/// What the container holds: each task id with what is known of the task.
pub uninterp spec fn container_tasks(c: TaskContainer) -> Map<usize, SchedTask>;

impl TaskContainer {
    /// hashbrown's `HashMap::new`: the container starts empty.
    #[verifier::external_body]
    pub fn new() -> (fresh: TaskContainer)
        ensures
            container_tasks(fresh).dom() == Set::<usize>::empty(),
    {
        TaskContainer { tasks: hashbrown::HashMap::new() }
    }

    /// hashbrown's `HashMap::get`: a copy of the task `id`, if it is held.
    #[verifier::external_body]
    pub fn get(&self, id: usize) -> (r: Option<SchedTask>)
        ensures
            r is Some <==> container_tasks(*self).contains_key(id),
            r matches Some(t) ==> t == container_tasks(*self)[id],
    {
        self.tasks.get(&id).copied()
    }

    /// hashbrown's `HashMap::insert`: `task` is held under `id`, replacing
    /// the task held there, which is returned.
    #[verifier::external_body]
    fn insert(&mut self, id: usize, task: SchedTask) -> (prev: Option<SchedTask>)
        ensures
            container_tasks(*final(self)) == container_tasks(*old(self)).insert(id, task),
            prev is Some <==> container_tasks(*old(self)).contains_key(id),
            prev matches Some(t) ==> t == container_tasks(*old(self))[id],
    {
        self.tasks.insert(id, task)
    }

    /// hashbrown's `HashMap::remove`: the task `id` is no longer held; it is
    /// returned if it was.
    #[verifier::external_body]
    fn remove(&mut self, id: usize) -> (prev: Option<SchedTask>)
        ensures
            container_tasks(*final(self)) == container_tasks(*old(self)).remove(id),
            prev is Some <==> container_tasks(*old(self)).contains_key(id),
            prev matches Some(t) ==> t == container_tasks(*old(self))[id],
    {
        self.tasks.remove(&id)
    }

    /// Takes the task `id` out of the container.
    pub fn remove_task(&mut self, id: usize)
        ensures
            container_tasks(*final(self)) == container_tasks(*old(self)).remove(id),
    {
        let _ = self.remove(id);
    }

    /// Holds `task` under its id `id` (a task registered again replaces
    /// what was held).
    pub fn register_task(&mut self, id: usize, task: SchedTask)
        ensures
            container_tasks(*final(self)) == container_tasks(*old(self)).insert(id, task),
    {
        let _ = self.insert(id, task);
    }
}

} // verus!
