//! The queue engine on an in-memory image of the store: defining tasks, claiming jobs in
//! priority order, and logging start and finish events.
//!
//! Every decision the queue makes is taken here. The persistent layer reads the stored rows
//! into a `Store`, asks it, and writes back what it returns.

use crate::error::Error;
use crate::records::{Assignment, Command, Finish, Job, JobId, JobStatus, Start, Task, TaskId, Time};
use vstd::prelude::*;

verus! {

/// How many jobs among `jobs` were drawn from task `t`.
pub open spec fn assigned(jobs: Seq<Assignment>, t: TaskId) -> nat
    decreases jobs.len(),
{
    if jobs.len() == 0 {
        0
    } else {
        assigned(jobs.drop_last(), t) + if jobs.last().task == t {
            1nat
        } else {
            0nat
        }
    }
}

/// The repetitions of `task` still to be handed out: the desired count less those assigned,
/// and never below zero.
pub open spec fn remaining(task: Task, jobs: Seq<Assignment>) -> nat {
    if task.count >= assigned(jobs, task.id) {
        (task.count - assigned(jobs, task.id)) as nat
    } else {
        0
    }
}

/// Whether `task` still has a repetition to hand out.
pub open spec fn pending(task: Task, jobs: Seq<Assignment>) -> bool {
    assigned(jobs, task.id) < task.count
}

/// The priority a task is scheduled by: an unset priority counts as 0.
pub open spec fn effective_priority(task: Task) -> i32 {
    match task.priority {
        Some(p) => p,
        None => 0,
    }
}

/// Whether `a` is scheduled before `b`: lower priority first, and among equal priorities the
/// older task (lower id) first.
pub open spec fn goes_before(a: Task, b: Task) -> bool {
    effective_priority(a) < effective_priority(b) || (effective_priority(a) == effective_priority(
        b,
    ) && a.id < b.id)
}

/// Whether any task has a repetition to hand out.
pub open spec fn has_work(tasks: Seq<Task>, jobs: Seq<Assignment>) -> bool {
    exists|i: int| 0 <= i < tasks.len() && #[trigger] pending(tasks[i], jobs)
}

/// Whether `tasks[i]` is the task that the next claim draws from: it is pending and goes
/// before every other pending task.
pub open spec fn is_next(tasks: Seq<Task>, jobs: Seq<Assignment>, i: int) -> bool {
    &&& 0 <= i < tasks.len()
    &&& pending(tasks[i], jobs)
    &&& forall|j: int|
        0 <= j < tasks.len() && j != i && #[trigger] pending(tasks[j], jobs) ==> goes_before(
            tasks[i],
            tasks[j],
        )
}

/// The ids, in order, of the tasks among `tasks` that are pending.
pub open spec fn pending_ids(tasks: Seq<Task>, jobs: Seq<Assignment>) -> Seq<TaskId>
    decreases tasks.len(),
{
    if tasks.len() == 0 {
        Seq::empty()
    } else if pending(tasks.last(), jobs) {
        pending_ids(tasks.drop_last(), jobs).push(tasks.last().id)
    } else {
        pending_ids(tasks.drop_last(), jobs)
    }
}

/// Whether `ids` is strictly increasing.
pub open spec fn increasing(ids: Seq<u32>) -> bool {
    forall|i: int, j: int| 0 <= i < j < ids.len() ==> #[trigger] ids[i] < #[trigger] ids[j]
}

/// The id the next record appended after records with ids `ids` receives: one past the last,
/// or 1 for the first.
pub open spec fn next_id(ids: Seq<u32>) -> int {
    if ids.len() == 0 {
        1
    } else {
        ids.last() + 1
    }
}

/// Whether a further id can be assigned after records with ids `ids`.
pub open spec fn id_available(ids: Seq<u32>) -> bool {
    next_id(ids) <= u32::MAX
}

/// The ids of `tasks`, in order.
pub open spec fn task_ids(tasks: Seq<Task>) -> Seq<TaskId> {
    tasks.map_values(|t: Task| t.id)
}

/// The ids of `jobs`, in order.
pub open spec fn job_ids(jobs: Seq<Assignment>) -> Seq<JobId> {
    jobs.map_values(|a: Assignment| a.id)
}

/// Whether some task has `id`.
pub open spec fn task_exists(tasks: Seq<Task>, id: TaskId) -> bool {
    exists|i: int| 0 <= i < tasks.len() && #[trigger] tasks[i].id == id
}

/// Whether some job has `id`.
pub open spec fn job_exists(jobs: Seq<Assignment>, id: JobId) -> bool {
    exists|i: int| 0 <= i < jobs.len() && #[trigger] jobs[i].id == id
}

/// Whether every job among `jobs` was drawn from a task among `tasks`.
pub open spec fn jobs_refer_to_tasks(jobs: Seq<Assignment>, tasks: Seq<Task>) -> bool {
    forall|i: int| 0 <= i < jobs.len() ==> task_exists(tasks, #[trigger] jobs[i].task)
}

/// Whether no two events among `events` belong to the same job.
pub open spec fn distinct_keys<E>(events: Seq<(JobId, E)>) -> bool {
    forall|i: int, j: int| 0 <= i < j < events.len() ==> #[trigger] events[i].0 != #[trigger] events[j].0
}

/// The in-memory image of a queue.
pub struct Store {
    /// The tasks, in increasing id order.
    pub tasks: Vec<Task>,
    /// The jobs, in increasing id order.
    pub jobs: Vec<Assignment>,
    /// The start events, each with the job it belongs to.
    pub starts: Vec<(JobId, Start)>,
    /// The finish events, each with the job it belongs to.
    pub finishes: Vec<(JobId, Finish)>,
}

impl Store {
    /// Ids increase along tasks and along jobs, every job was drawn from a task that exists,
    /// no two tasks share data, and no job has two start events or two finish events.
    pub open spec fn wf(&self) -> bool {
        &&& increasing(task_ids(self.tasks@))
        &&& increasing(job_ids(self.jobs@))
        &&& jobs_refer_to_tasks(self.jobs@, self.tasks@)
        &&& forall|i: int, j: int|
            0 <= i < j < self.tasks@.len() ==> #[trigger] self.tasks@[i].data@
                != #[trigger] self.tasks@[j].data@
        &&& distinct_keys(self.starts@)
        &&& distinct_keys(self.finishes@)
    }

    /// An empty queue.
    pub fn new() -> (r: Store)
        ensures
            r.wf(),
            r.tasks@.len() == 0,
            r.jobs@.len() == 0,
            r.starts@.len() == 0,
            r.finishes@.len() == 0,
    {
        Store { tasks: Vec::new(), jobs: Vec::new(), starts: Vec::new(), finishes: Vec::new() }
    }

    /// The position of the task with `id`, if there is one.
    fn find_task(&self, id: TaskId) -> (r: Option<usize>)
        ensures
            r matches Some(i) ==> i < self.tasks@.len() && self.tasks@[i as int].id == id,
            r is None <==> !task_exists(self.tasks@, id),
    {
        let mut i: usize = 0;
        while i < self.tasks.len()
            invariant
                i <= self.tasks@.len(),
                forall|k: int| 0 <= k < i ==> self.tasks@[k].id != id,
            decreases self.tasks@.len() - i,
        {
            if self.tasks[i].id == id {
                return Some(i);
            }
            i += 1;
        }
        None
    }

    /// How many jobs were drawn from task `id`.
    fn assigned_count(&self, id: TaskId) -> (r: u64)
        ensures
            r == assigned(self.jobs@, id),
    {
        let mut n: u64 = 0;
        let mut i: usize = 0;
        while i < self.jobs.len()
            invariant
                i <= self.jobs@.len(),
                n == assigned(self.jobs@.subrange(0, i as int), id),
                n <= i,
            decreases self.jobs@.len() - i,
        {
            assert(self.jobs@.subrange(0, i + 1).drop_last() =~= self.jobs@.subrange(0, i as int));
            if self.jobs[i].task == id {
                n += 1;
            }
            i += 1;
        }
        assert(self.jobs@.subrange(0, self.jobs@.len() as int) =~= self.jobs@);
        n
    }

    /// The repetitions of task `id` still to be handed out, or `None` where no task has
    /// that id.
    pub fn get_count(&self, id: TaskId) -> (r: Option<u64>)
        requires
            self.wf(),
        ensures
            r is Some <==> task_exists(self.tasks@, id),
            r matches Some(n) ==> forall|i: int|
                0 <= i < self.tasks@.len() && #[trigger] self.tasks@[i].id == id ==> n
                    == remaining(self.tasks@[i], self.jobs@),
    {
        match self.find_task(id) {
            None => None,
            Some(i) => {
                let w = self.assigned_count(id);
                let c = self.tasks[i].count;
                proof {
                    lemma_unique_task_position(self, i as int);
                }
                Some(if w > c { 0 } else { c - w })
            },
        }
    }

    /// The desired count of task `id`, or `None` where no task has that id.
    pub fn desired_count(&self, id: TaskId) -> (r: Option<u64>)
        requires
            self.wf(),
        ensures
            r is Some <==> task_exists(self.tasks@, id),
            r matches Some(c) ==> forall|i: int|
                0 <= i < self.tasks@.len() && #[trigger] self.tasks@[i].id == id ==> c
                    == self.tasks@[i].count,
    {
        match self.find_task(id) {
            None => None,
            Some(i) => {
                proof {
                    lemma_unique_task_position(self, i as int);
                }
                Some(self.tasks[i].count)
            },
        }
    }

    /// The payload of task `id`, or `None` where no task has that id.
    pub fn get_data(&self, id: TaskId) -> (r: Option<Vec<u8>>)
        requires
            self.wf(),
        ensures
            r is Some <==> task_exists(self.tasks@, id),
            r matches Some(d) ==> forall|i: int|
                0 <= i < self.tasks@.len() && #[trigger] self.tasks@[i].id == id ==> d@
                    == self.tasks@[i].data@,
    {
        match self.find_task(id) {
            None => None,
            Some(i) => {
                proof {
                    lemma_unique_task_position(self, i as int);
                }
                Some(copy_bytes(self.tasks[i].data.as_slice()))
            },
        }
    }

    /// The priority task `id` is scheduled by (0 where none was set), or `None` where no
    /// task has that id.
    pub fn get_priority(&self, id: TaskId) -> (r: Option<i32>)
        requires
            self.wf(),
        ensures
            r is Some <==> task_exists(self.tasks@, id),
            r matches Some(p) ==> forall|i: int|
                0 <= i < self.tasks@.len() && #[trigger] self.tasks@[i].id == id ==> p
                    == effective_priority(self.tasks@[i]),
    {
        match self.find_task(id) {
            None => None,
            Some(i) => {
                proof {
                    lemma_unique_task_position(self, i as int);
                }
                Some(
                    match self.tasks[i].priority {
                        Some(p) => p,
                        None => 0,
                    },
                )
            },
        }
    }

    /// The ids of the tasks with repetitions left to hand out, in increasing order.
    pub fn job_ids_vec(&self) -> (r: Vec<TaskId>)
        ensures
            r@ == pending_ids(self.tasks@, self.jobs@),
    {
        let mut r: Vec<TaskId> = Vec::new();
        let mut i: usize = 0;
        while i < self.tasks.len()
            invariant
                i <= self.tasks@.len(),
                r@ == pending_ids(self.tasks@.subrange(0, i as int), self.jobs@),
            decreases self.tasks@.len() - i,
        {
            assert(self.tasks@.subrange(0, i + 1).drop_last() =~= self.tasks@.subrange(0, i as int));
            let w = self.assigned_count(self.tasks[i].id);
            if w < self.tasks[i].count {
                r.push(self.tasks[i].id);
            }
            i += 1;
        }
        assert(self.tasks@.subrange(0, self.tasks@.len() as int) =~= self.tasks@);
        r
    }

    /// Whether task `tasks[a]` is scheduled before task `tasks[b]`.
    fn schedules_before(&self, a: usize, b: usize) -> (r: bool)
        requires
            a < self.tasks@.len(),
            b < self.tasks@.len(),
        ensures
            r == goes_before(self.tasks@[a as int], self.tasks@[b as int]),
    {
        let pa = match self.tasks[a].priority {
            Some(p) => p,
            None => 0,
        };
        let pb = match self.tasks[b].priority {
            Some(p) => p,
            None => 0,
        };
        pa < pb || (pa == pb && self.tasks[a].id < self.tasks[b].id)
    }

    /// The position of the task the next claim draws from, or `None` where no task has a
    /// repetition left.
    fn next_task(&self) -> (r: Option<usize>)
        requires
            self.wf(),
        ensures
            r is None <==> !has_work(self.tasks@, self.jobs@),
            r matches Some(b) ==> is_next(self.tasks@, self.jobs@, b as int),
    {
        let mut best: Option<usize> = None;
        let mut i: usize = 0;
        while i < self.tasks.len()
            invariant
                self.wf(),
                i <= self.tasks@.len(),
                best matches Some(b) ==> {
                    &&& b < i
                    &&& pending(self.tasks@[b as int], self.jobs@)
                    &&& forall|j: int|
                        0 <= j < i && j != b && #[trigger] pending(self.tasks@[j], self.jobs@)
                            ==> goes_before(self.tasks@[b as int], self.tasks@[j])
                },
                best is None ==> forall|j: int|
                    0 <= j < i ==> !#[trigger] pending(self.tasks@[j], self.jobs@),
            decreases self.tasks@.len() - i,
        {
            let w = self.assigned_count(self.tasks[i].id);
            if w < self.tasks[i].count {
                match best {
                    None => {
                        best = Some(i);
                    },
                    Some(b) => {
                        assert(task_ids(self.tasks@)[b as int] < task_ids(self.tasks@)[i as int]);
                        if self.schedules_before(i, b) {
                            best = Some(i);
                        }
                    },
                }
            }
            i += 1;
        }
        best
    }

    /// The id the next job receives, or `None` where job ids are exhausted.
    fn next_job_id(&self) -> (r: Option<JobId>)
        ensures
            r is Some <==> id_available(job_ids(self.jobs@)),
            r matches Some(id) ==> id == next_id(job_ids(self.jobs@)),
    {
        let n = self.jobs.len();
        if n == 0 {
            Some(1)
        } else {
            assert(job_ids(self.jobs@).last() == self.jobs@[n - 1].id);
            let last = self.jobs[n - 1].id;
            if last == u32::MAX {
                None
            } else {
                Some(last + 1)
            }
        }
    }

    /// Claims one repetition for `worker` at `time`: draws from the pending task with the
    /// lowest priority, the oldest among equal priorities, records a new job for it, and
    /// returns that job's id with the task's payload.
    /// Where no task has a repetition left, nothing changes and the answer is `Ok(None)`.
    pub fn take(&mut self, worker: &str, time: Time) -> (r: Result<Option<Job>, Error>)
        requires
            old(self).wf(),
        ensures
            final(self).wf(),
            final(self).tasks@ == old(self).tasks@,
            final(self).starts@ == old(self).starts@,
            final(self).finishes@ == old(self).finishes@,
            !has_work(old(self).tasks@, old(self).jobs@) ==> r matches Ok(None),
            match r {
                Ok(None) => {
                    &&& !has_work(old(self).tasks@, old(self).jobs@)
                    &&& final(self).jobs@ == old(self).jobs@
                },
                Ok(Some(job)) => exists|i: int|
                    {
                        &&& is_next(old(self).tasks@, old(self).jobs@, i)
                        &&& job.id == next_id(job_ids(old(self).jobs@))
                        &&& job.data@ == old(self).tasks@[i].data@
                        &&& appended_job(
                            old(self).jobs@,
                            final(self).jobs@,
                            old(self).tasks@[i].id,
                            worker@,
                            time,
                        )
                    },
                Err(e) => {
                    &&& e is IdsExhausted
                    &&& has_work(old(self).tasks@, old(self).jobs@)
                    &&& !id_available(job_ids(old(self).jobs@))
                    &&& final(self).jobs@ == old(self).jobs@
                },
            },
    {
        let b = match self.next_task() {
            None => return Ok(None),
            Some(b) => b,
        };
        let id = match self.next_job_id() {
            None => return Err(Error::IdsExhausted),
            Some(id) => id,
        };
        let task = self.tasks[b].id;
        let job = Job { id, data: copy_bytes(self.tasks[b].data.as_slice()) };
        proof {
            lemma_push_increasing(job_ids(self.jobs@), id);
        }
        let ghost before = self.jobs@;
        self.jobs.push(Assignment { id, task, worker: worker.to_owned(), time: Some(time) });
        assert(job_ids(self.jobs@) =~= job_ids(before).push(id));
        assert(self.jobs@.drop_last() =~= before);
        assert(task_exists(self.tasks@, task));
        assert forall|k: int| 0 <= k < self.jobs@.len() implies task_exists(
            self.tasks@,
            #[trigger] self.jobs@[k].task,
        ) by {
            if k < before.len() {
                assert(self.jobs@[k] == before[k]);
            }
        }
        assert(appended_job(before, self.jobs@, task, worker@, time));
        assert(is_next(self.tasks@, before, b as int));
        Ok(Some(job))
    }

    /// Whether some task has data `data`.
    fn has_data(&self, data: &[u8]) -> (r: bool)
        ensures
            r == data_taken(self.tasks@, data@),
    {
        let mut i: usize = 0;
        while i < self.tasks.len()
            invariant
                i <= self.tasks@.len(),
                forall|k: int| 0 <= k < i ==> self.tasks@[k].data@ != data@,
            decreases self.tasks@.len() - i,
        {
            if same_bytes(self.tasks[i].data.as_slice(), data) {
                return true;
            }
            i += 1;
        }
        false
    }

    /// The id the next task receives, or `None` where task ids are exhausted.
    fn next_task_id(&self) -> (r: Option<TaskId>)
        ensures
            r is Some <==> id_available(task_ids(self.tasks@)),
            r matches Some(id) ==> id == next_id(task_ids(self.tasks@)),
    {
        let n = self.tasks.len();
        if n == 0 {
            Some(1)
        } else {
            assert(task_ids(self.tasks@).last() == self.tasks@[n - 1].id);
            let last = self.tasks[n - 1].id;
            if last == u32::MAX {
                None
            } else {
                Some(last + 1)
            }
        }
    }

    /// Defines a task with payload `data`, `count` repetitions and `priority`, returning its
    /// id. Fails with `DuplicateData` where a task already has this payload, whatever its
    /// count and priority.
    pub fn new_job(&mut self, data: &[u8], count: u64, priority: Option<i32>) -> (r: Result<
        TaskId,
        Error,
    >)
        requires
            old(self).wf(),
        ensures
            final(self).wf(),
            final(self).jobs@ == old(self).jobs@,
            final(self).starts@ == old(self).starts@,
            final(self).finishes@ == old(self).finishes@,
            r matches Err(Error::DuplicateData) <==> data_taken(old(self).tasks@, data@),
            r matches Err(Error::IdsExhausted) <==> !data_taken(old(self).tasks@, data@)
                && !id_available(task_ids(old(self).tasks@)),
            r is Ok || r matches Err(Error::DuplicateData) || r matches Err(Error::IdsExhausted),
            r is Err ==> final(self).tasks@ == old(self).tasks@,
            r matches Ok(id) ==> {
                &&& id == next_id(task_ids(old(self).tasks@))
                &&& final(self).tasks@.len() == old(self).tasks@.len() + 1
                &&& final(self).tasks@.drop_last() == old(self).tasks@
                &&& final(self).tasks@.last().id == id
                &&& final(self).tasks@.last().count == count
                &&& final(self).tasks@.last().data@ == data@
                &&& final(self).tasks@.last().priority == priority
            },
    {
        if self.has_data(data) {
            return Err(Error::DuplicateData);
        }
        let id = match self.next_task_id() {
            None => return Err(Error::IdsExhausted),
            Some(id) => id,
        };
        proof {
            lemma_push_increasing(task_ids(self.tasks@), id);
        }
        let ghost before = self.tasks@;
        self.tasks.push(Task { id, count, data: copy_bytes(data), priority });
        proof {
            lemma_jobs_still_refer(self.jobs@, before, self.tasks@);
        }
        assert(task_ids(self.tasks@) =~= task_ids(before).push(id));
        assert(self.tasks@.drop_last() =~= before);
        assert forall|i: int, j: int|
            0 <= i < j < self.tasks@.len() implies #[trigger] self.tasks@[i].data@
                != #[trigger] self.tasks@[j].data@ by {
            if j < before.len() {
                assert(before[i].data@ != before[j].data@);
            } else {
                assert(before[i].data@ != data@);
            }
        }
        Ok(id)
    }

    /// Adds `delta` (which may be negative) to the desired count of task `id`. Fails with
    /// `NoSuchTask` where no task has that id, and with `CountOutOfRange` where the new count
    /// would be negative or too large; the count may drop below the repetitions already
    /// handed out.
    pub fn add_count(&mut self, id: TaskId, delta: i64) -> (r: Result<(), Error>)
        requires
            old(self).wf(),
        ensures
            final(self).wf(),
            final(self).jobs@ == old(self).jobs@,
            final(self).starts@ == old(self).starts@,
            final(self).finishes@ == old(self).finishes@,
            r matches Err(Error::NoSuchTask) <==> !task_exists(old(self).tasks@, id),
            r matches Err(Error::CountOutOfRange) <==> exists|i: int|
                0 <= i < old(self).tasks@.len() && #[trigger] old(self).tasks@[i].id == id
                    && !count_in_range(old(self).tasks@[i].count + delta),
            r is Ok || r matches Err(Error::NoSuchTask) || r matches Err(Error::CountOutOfRange),
            r is Err ==> final(self).tasks@ == old(self).tasks@,
            r is Ok ==> final(self).tasks@ == with_count_added(old(self).tasks@, id, delta),
    {
        let i = match self.find_task(id) {
            None => return Err(Error::NoSuchTask),
            Some(i) => i,
        };
        proof {
            lemma_unique_task_position(self, i as int);
        }
        let c = self.tasks[i].count;
        let new_count: u64 = if delta < 0 {
            let d = (-(delta as i128)) as u64;
            if d > c {
                return Err(Error::CountOutOfRange);
            }
            c - d
        } else {
            let d = delta as u64;
            if d > u64::MAX - c {
                return Err(Error::CountOutOfRange);
            }
            c + d
        };
        let ghost before = self.tasks@;
        self.tasks[i].count = new_count;
        proof {
            lemma_jobs_still_refer(self.jobs@, before, self.tasks@);
        }
        assert(self.tasks@ =~= with_count_added(before, id, delta));
        assert(task_ids(self.tasks@) =~= task_ids(before));
        Ok(())
    }

    /// Sets the priority of task `id`. Fails with `NoSuchTask` where no task has that id.
    pub fn set_priority(&mut self, id: TaskId, priority: i32) -> (r: Result<(), Error>)
        requires
            old(self).wf(),
        ensures
            final(self).wf(),
            final(self).jobs@ == old(self).jobs@,
            final(self).starts@ == old(self).starts@,
            final(self).finishes@ == old(self).finishes@,
            r is Err <==> !task_exists(old(self).tasks@, id),
            r matches Err(e) ==> e is NoSuchTask && final(self).tasks@ == old(self).tasks@,
            r is Ok ==> final(self).tasks@ == with_priority(old(self).tasks@, id, priority),
    {
        let i = match self.find_task(id) {
            None => return Err(Error::NoSuchTask),
            Some(i) => i,
        };
        proof {
            lemma_unique_task_position(self, i as int);
        }
        let ghost before = self.tasks@;
        self.tasks[i].priority = Some(priority);
        proof {
            lemma_jobs_still_refer(self.jobs@, before, self.tasks@);
        }
        assert(self.tasks@ =~= with_priority(before, id, priority));
        assert(task_ids(self.tasks@) =~= task_ids(before));
        Ok(())
    }

    /// Whether a start event may be logged for `job`: the job exists and has none yet.
    pub open spec fn start_allowed(&self, job: JobId) -> bool {
        job_exists(self.jobs@, job) && !has_event(self.starts@, job)
    }

    /// Whether a finish event may be logged for `job`: the job exists and has none yet.
    /// Whether it has a start event does not matter.
    pub open spec fn finish_allowed(&self, job: JobId) -> bool {
        job_exists(self.jobs@, job) && !has_event(self.finishes@, job)
    }

    /// The position of the job with `id`, if there is one.
    fn find_job(&self, id: JobId) -> (r: Option<usize>)
        ensures
            r matches Some(i) ==> i < self.jobs@.len() && self.jobs@[i as int].id == id,
            r is None <==> !job_exists(self.jobs@, id),
    {
        let mut i: usize = 0;
        while i < self.jobs.len()
            invariant
                i <= self.jobs@.len(),
                forall|k: int| 0 <= k < i ==> self.jobs@[k].id != id,
            decreases self.jobs@.len() - i,
        {
            if self.jobs[i].id == id {
                return Some(i);
            }
            i += 1;
        }
        None
    }

    /// The most recent job claimed by `worker`, whatever its events; `None` where the worker
    /// never claimed one.
    pub fn current_job(&self, worker: &str) -> (r: Option<JobId>)
        ensures
            r is None <==> !has_claimed(self.jobs@, worker@),
            r matches Some(id) ==> exists|i: int|
                is_latest_of(self.jobs@, worker@, i) && #[trigger] self.jobs@[i].id == id,
    {
        let w = worker.to_owned();
        let mut i: usize = self.jobs.len();
        while i > 0
            invariant
                i <= self.jobs@.len(),
                w@ == worker@,
                forall|k: int| i <= k < self.jobs@.len() ==> #[trigger] self.jobs@[k].worker@ != worker@,
            decreases i,
        {
            i -= 1;
            if self.jobs[i].worker == w {
                assert(is_latest_of(self.jobs@, worker@, i as int));
                return Some(self.jobs[i].id);
            }
        }
        None
    }

    /// The most recent job claimed by `worker`; the same as `current_job`.
    pub fn get_worker_latest_job(&self, worker: &str) -> (r: Option<JobId>)
        ensures
            r is None <==> !has_claimed(self.jobs@, worker@),
            r matches Some(id) ==> exists|i: int|
                is_latest_of(self.jobs@, worker@, i) && #[trigger] self.jobs@[i].id == id,
    {
        self.current_job(worker)
    }

    /// Logs the start of `job` at `time`, running command `cmd`. Fails with `NoSuchJob`
    /// where no job has that id, and with `DuplicateStart` where the job already has a start
    /// event.
    pub fn log_start(&mut self, job: JobId, cmd: Vec<Vec<u8>>, time: Time) -> (r: Result<(), Error>)
        requires
            old(self).wf(),
        ensures
            final(self).wf(),
            final(self).tasks@ == old(self).tasks@,
            final(self).jobs@ == old(self).jobs@,
            final(self).finishes@ == old(self).finishes@,
            r is Ok <==> old(self).start_allowed(job),
            r matches Err(Error::NoSuchJob) <==> !job_exists(old(self).jobs@, job),
            r matches Err(Error::DuplicateStart) <==> job_exists(old(self).jobs@, job) && has_event(
                old(self).starts@,
                job,
            ),
            r is Ok ==> final(self).starts@ == old(self).starts@.push((job, Start { time, cmd: Command(cmd) })),
            r is Err ==> final(self).starts@ == old(self).starts@,
    {
        if self.find_job(job).is_none() {
            return Err(Error::NoSuchJob);
        }
        if find_event(&self.starts, job).is_some() {
            return Err(Error::DuplicateStart);
        }
        let ghost before = self.starts@;
        self.starts.push((job, Start { time, cmd: Command(cmd) }));
        assert forall|i: int, j: int|
            0 <= i < j < self.starts@.len() implies #[trigger] self.starts@[i].0
                != #[trigger] self.starts@[j].0 by {
            if j < before.len() {
                assert(before[i].0 != before[j].0);
            } else {
                assert(before[i].0 != job);
            }
        }
        Ok(())
    }

    /// Logs the finish of `job` at `time` with outcome code `result`. Fails with `NoSuchJob`
    /// where no job has that id, and with `DuplicateFinish` where the job already has a
    /// finish event. A start event is not needed.
    pub fn log_finish(&mut self, job: JobId, result: i32, time: Time) -> (r: Result<(), Error>)
        requires
            old(self).wf(),
        ensures
            final(self).wf(),
            final(self).tasks@ == old(self).tasks@,
            final(self).jobs@ == old(self).jobs@,
            final(self).starts@ == old(self).starts@,
            r is Ok <==> old(self).finish_allowed(job),
            r matches Err(Error::NoSuchJob) <==> !job_exists(old(self).jobs@, job),
            r matches Err(Error::DuplicateFinish) <==> job_exists(old(self).jobs@, job) && has_event(
                old(self).finishes@,
                job,
            ),
            r is Ok ==> final(self).finishes@ == old(self).finishes@.push(
                (job, Finish { result, time, data: None }),
            ),
            r is Err ==> final(self).finishes@ == old(self).finishes@,
    {
        if self.find_job(job).is_none() {
            return Err(Error::NoSuchJob);
        }
        if find_event(&self.finishes, job).is_some() {
            return Err(Error::DuplicateFinish);
        }
        let ghost before = self.finishes@;
        self.finishes.push((job, Finish { result, time, data: None }));
        assert forall|i: int, j: int|
            0 <= i < j < self.finishes@.len() implies #[trigger] self.finishes@[i].0
                != #[trigger] self.finishes@[j].0 by {
            if j < before.len() {
                assert(before[i].0 != before[j].0);
            } else {
                assert(before[i].0 != job);
            }
        }
        Ok(())
    }

    /// Logs the start of the current job of `worker` and returns that job. Fails with
    /// `NoCurrentJob` where the worker never claimed one, and otherwise as `log_start` does.
    pub fn start_current(&mut self, worker: &str, cmd: Vec<Vec<u8>>, time: Time) -> (r: Result<JobId, Error>)
        requires
            old(self).wf(),
        ensures
            final(self).wf(),
            final(self).tasks@ == old(self).tasks@,
            final(self).jobs@ == old(self).jobs@,
            final(self).finishes@ == old(self).finishes@,
            r matches Err(Error::NoCurrentJob) <==> !has_claimed(old(self).jobs@, worker@),
            has_claimed(old(self).jobs@, worker@) ==> exists|i: int|
                #![trigger old(self).jobs@[i]]
                is_latest_of(old(self).jobs@, worker@, i) && {
                    let job = old(self).jobs@[i].id;
                    &&& r is Ok <==> !has_event(old(self).starts@, job)
                    &&& r is Ok ==> r == Ok::<JobId, Error>(job) && final(self).starts@ == old(self).starts@.push(
                        (job, Start { time, cmd: Command(cmd) }),
                    )
                    &&& r is Err ==> (r matches Err(Error::DuplicateStart)) && final(self).starts@
                        == old(self).starts@
                },
            !has_claimed(old(self).jobs@, worker@) ==> final(self).starts@ == old(self).starts@,
    {
        let job = match self.current_job(worker) {
            None => return Err(Error::NoCurrentJob),
            Some(job) => job,
        };
        match self.log_start(job, cmd, time) {
            Ok(()) => Ok(job),
            Err(e) => Err(e),
        }
    }

    /// Logs the finish of the current job of `worker` and returns that job. Fails with
    /// `NoCurrentJob` where the worker never claimed one, and otherwise as `log_finish` does.
    pub fn finish_current(&mut self, worker: &str, result: i32, time: Time) -> (r: Result<JobId, Error>)
        requires
            old(self).wf(),
        ensures
            final(self).wf(),
            final(self).tasks@ == old(self).tasks@,
            final(self).jobs@ == old(self).jobs@,
            final(self).starts@ == old(self).starts@,
            r matches Err(Error::NoCurrentJob) <==> !has_claimed(old(self).jobs@, worker@),
            has_claimed(old(self).jobs@, worker@) ==> exists|i: int|
                #![trigger old(self).jobs@[i]]
                is_latest_of(old(self).jobs@, worker@, i) && {
                    let job = old(self).jobs@[i].id;
                    &&& r is Ok <==> !has_event(old(self).finishes@, job)
                    &&& r is Ok ==> r == Ok::<JobId, Error>(job) && final(self).finishes@ == old(self).finishes@.push(
                        (job, Finish { result, time, data: None }),
                    )
                    &&& r is Err ==> (r matches Err(Error::DuplicateFinish)) && final(self).finishes@
                        == old(self).finishes@
                },
            !has_claimed(old(self).jobs@, worker@) ==> final(self).finishes@ == old(self).finishes@,
    {
        let job = match self.current_job(worker) {
            None => return Err(Error::NoCurrentJob),
            Some(job) => job,
        };
        match self.log_finish(job, result, time) {
            Ok(()) => Ok(job),
            Err(e) => Err(e),
        }
    }

    /// The ids of all jobs, in increasing order.
    pub fn get_jobs(&self) -> (r: Vec<JobId>)
        ensures
            r@ == job_ids(self.jobs@),
    {
        let mut r: Vec<JobId> = Vec::new();
        let mut i: usize = 0;
        while i < self.jobs.len()
            invariant
                i <= self.jobs@.len(),
                r@ == job_ids(self.jobs@.subrange(0, i as int)),
            decreases self.jobs@.len() - i,
        {
            r.push(self.jobs[i].id);
            i += 1;
            assert(job_ids(self.jobs@.subrange(0, i as int)) =~= job_ids(
                self.jobs@.subrange(0, i - 1),
            ).push(self.jobs@[i - 1].id));
        }
        assert(self.jobs@.subrange(0, self.jobs@.len() as int) =~= self.jobs@);
        r
    }

    /// The ids, in increasing order, of the jobs that have a start event and no finish
    /// event.
    pub fn get_started_jobs(&self) -> (r: Vec<JobId>)
        ensures
            r@ == running_ids(self.jobs@, self.starts@, self.finishes@),
    {
        let mut r: Vec<JobId> = Vec::new();
        let mut i: usize = 0;
        while i < self.jobs.len()
            invariant
                i <= self.jobs@.len(),
                r@ == running_ids(self.jobs@.subrange(0, i as int), self.starts@, self.finishes@),
            decreases self.jobs@.len() - i,
        {
            assert(self.jobs@.subrange(0, i + 1).drop_last() =~= self.jobs@.subrange(0, i as int));
            let id = self.jobs[i].id;
            if find_event(&self.starts, id).is_some() && find_event(&self.finishes, id).is_none() {
                r.push(id);
            }
            i += 1;
        }
        assert(self.jobs@.subrange(0, self.jobs@.len() as int) =~= self.jobs@);
        r
    }

    /// The worker holding `job`, or `None` where no job has that id.
    pub fn get_job_worker(&self, job: JobId) -> (r: Option<String>)
        requires
            self.wf(),
        ensures
            r is Some <==> job_exists(self.jobs@, job),
            r matches Some(w) ==> forall|i: int|
                0 <= i < self.jobs@.len() && #[trigger] self.jobs@[i].id == job ==> w@
                    == self.jobs@[i].worker@,
    {
        match self.find_job(job) {
            None => None,
            Some(i) => {
                proof {
                    lemma_unique_job_position(self, i as int);
                }
                Some(self.jobs[i].worker.clone())
            },
        }
    }

    /// The start event of `job`, if it has one.
    pub fn get_job_start(&self, job: JobId) -> (r: Option<Start>)
        requires
            self.wf(),
        ensures
            r is Some <==> has_event(self.starts@, job),
            r matches Some(st) ==> forall|k: int|
                0 <= k < self.starts@.len() && #[trigger] self.starts@[k].0 == job ==> same_start(
                    st,
                    self.starts@[k].1,
                ),
    {
        match find_event(&self.starts, job) {
            None => None,
            Some(k) => {
                let st = &self.starts[k].1;
                Some(Start { time: st.time, cmd: Command(copy_args(&st.cmd.0)) })
            },
        }
    }

    /// The finish event of `job`, if it has one.
    pub fn get_job_finish(&self, job: JobId) -> (r: Option<Finish>)
        requires
            self.wf(),
        ensures
            r is Some <==> has_event(self.finishes@, job),
            r matches Some(f) ==> forall|k: int|
                0 <= k < self.finishes@.len() && #[trigger] self.finishes@[k].0 == job
                    ==> same_finish(f, self.finishes@[k].1),
    {
        match find_event(&self.finishes, job) {
            None => None,
            Some(k) => {
                let f = &self.finishes[k].1;
                let data = match &f.data {
                    Some(d) => Some(copy_bytes(d.as_slice())),
                    None => None,
                };
                Some(Finish { result: f.result, time: f.time, data })
            },
        }
    }

    /// What is known of `job`: its worker, whether it is that worker's most recent claim,
    /// and its events; `None` where no job has that id.
    pub fn job_status(&self, job: JobId) -> (r: Option<JobStatus>)
        requires
            self.wf(),
        ensures
            r is Some <==> job_exists(self.jobs@, job),
            r matches Some(st) ==> exists|i: int|
                0 <= i < self.jobs@.len() && #[trigger] self.jobs@[i].id == job && {
                    let w = self.jobs@[i].worker@;
                    &&& st.task == self.jobs@[i].task
                    &&& st.worker@ == w
                    &&& st.is_latest == is_latest_of(self.jobs@, w, i)
                    &&& (st.start is Some <==> has_event(self.starts@, job))
                    &&& (st.start matches Some(s) ==> forall|k: int|
                        0 <= k < self.starts@.len() && #[trigger] self.starts@[k].0 == job
                            ==> same_start(s, self.starts@[k].1))
                    &&& (st.finish is Some <==> has_event(self.finishes@, job))
                    &&& (st.finish matches Some(f) ==> forall|k: int|
                        0 <= k < self.finishes@.len() && #[trigger] self.finishes@[k].0 == job
                            ==> same_finish(f, self.finishes@[k].1))
                },
    {
        let i = match self.find_job(job) {
            None => return None,
            Some(i) => i,
        };
        proof {
            lemma_unique_job_position(self, i as int);
        }
        let worker = self.jobs[i].worker.clone();
        let latest = self.current_job(worker.as_str());
        let is_latest = match latest {
            Some(l) => l == job,
            None => false,
        };
        proof {
            if is_latest {
                let l = choose|m: int|
                    is_latest_of(self.jobs@, worker@, m) && #[trigger] self.jobs@[m].id == job;
                lemma_unique_job_position(self, l);
            } else {
                if is_latest_of(self.jobs@, worker@, i as int) {
                    let l = choose|m: int|
                        is_latest_of(self.jobs@, worker@, m) && #[trigger] self.jobs@[m].id == latest->0;
                    assert(l == i);
                }
            }
        }
        Some(
            JobStatus {
                task: self.jobs[i].task,
                worker,
                is_latest,
                start: self.get_job_start(job),
                finish: self.get_job_finish(job),
            },
        )
    }

    /// Whether this image is well formed; rows read back from storage are checked with it
    /// before the queue works on them.
    pub fn is_wf(&self) -> (r: bool)
        ensures
            r == self.wf(),
    {
        let mut i: usize = 1;
        while i < self.tasks.len()
            invariant
                1 <= i,
                forall|a: int, b: int|
                    0 <= a < b < i && b < self.tasks@.len() ==> #[trigger] task_ids(self.tasks@)[a]
                        < #[trigger] task_ids(self.tasks@)[b],
            decreases self.tasks@.len() - i,
        {
            if self.tasks[i - 1].id >= self.tasks[i].id {
                assert(task_ids(self.tasks@)[i - 1] >= task_ids(self.tasks@)[i as int]);
                return false;
            }
            assert forall|a: int, b: int|
                0 <= a < b < i + 1 && b < self.tasks@.len() implies #[trigger] task_ids(self.tasks@)[a]
                    < #[trigger] task_ids(self.tasks@)[b] by {
                if b == i && a < i - 1 {
                    assert(task_ids(self.tasks@)[a] < task_ids(self.tasks@)[i - 1]);
                }
            }
            i += 1;
        }
        let mut i: usize = 1;
        while i < self.jobs.len()
            invariant
                1 <= i,
                forall|a: int, b: int|
                    0 <= a < b < i && b < self.jobs@.len() ==> #[trigger] job_ids(self.jobs@)[a]
                        < #[trigger] job_ids(self.jobs@)[b],
            decreases self.jobs@.len() - i,
        {
            if self.jobs[i - 1].id >= self.jobs[i].id {
                assert(job_ids(self.jobs@)[i - 1] >= job_ids(self.jobs@)[i as int]);
                return false;
            }
            assert forall|a: int, b: int|
                0 <= a < b < i + 1 && b < self.jobs@.len() implies #[trigger] job_ids(self.jobs@)[a]
                    < #[trigger] job_ids(self.jobs@)[b] by {
                if b == i && a < i - 1 {
                    assert(job_ids(self.jobs@)[a] < job_ids(self.jobs@)[i - 1]);
                }
            }
            i += 1;
        }
        let mut i: usize = 0;
        while i < self.jobs.len()
            invariant
                i <= self.jobs@.len(),
                forall|k: int| 0 <= k < i ==> task_exists(self.tasks@, #[trigger] self.jobs@[k].task),
            decreases self.jobs@.len() - i,
        {
            if self.find_task(self.jobs[i].task).is_none() {
                return false;
            }
            i += 1;
        }
        let mut i: usize = 0;
        while i < self.tasks.len()
            invariant
                i <= self.tasks@.len(),
                forall|a: int, b: int|
                    0 <= a < b < self.tasks@.len() && a < i ==> #[trigger] self.tasks@[a].data@
                        != #[trigger] self.tasks@[b].data@,
            decreases self.tasks@.len() - i,
        {
            let mut j: usize = i + 1;
            while j < self.tasks.len()
                invariant
                    i < self.tasks@.len(),
                    i < j,
                    forall|a: int, b: int|
                        0 <= a < b < self.tasks@.len() && a < i ==> #[trigger] self.tasks@[a].data@
                            != #[trigger] self.tasks@[b].data@,
                    forall|b: int| i < b < j && b < self.tasks@.len() ==> self.tasks@[i as int].data@
                        != #[trigger] self.tasks@[b].data@,
                decreases self.tasks@.len() - j,
            {
                if same_bytes(self.tasks[i].data.as_slice(), self.tasks[j].data.as_slice()) {
                    return false;
                }
                j += 1;
            }
            i += 1;
        }
        keys_distinct(&self.starts) && keys_distinct(&self.finishes)
    }
}

/// `after` is `before` with one job appended: the next id, drawn from `task` by `worker` at
/// `time`.
pub open spec fn appended_job(
    before: Seq<Assignment>,
    after: Seq<Assignment>,
    task: TaskId,
    worker: Seq<char>,
    time: Time,
) -> bool {
    &&& after.len() == before.len() + 1
    &&& after.drop_last() == before
    &&& after.last().id == next_id(job_ids(before))
    &&& after.last().task == task
    &&& after.last().worker@ == worker
    &&& after.last().time == Some(time)
}

/// Whether some task among `tasks` has payload `data`.
pub open spec fn data_taken(tasks: Seq<Task>, data: Seq<u8>) -> bool {
    exists|i: int| 0 <= i < tasks.len() && #[trigger] tasks[i].data@ == data
}

/// Whether `c` is a valid repetition count.
pub open spec fn count_in_range(c: int) -> bool {
    0 <= c <= u64::MAX
}

/// `tasks` with `delta` added to the count of task `id`.
pub open spec fn with_count_added(tasks: Seq<Task>, id: TaskId, delta: i64) -> Seq<Task> {
    tasks.map_values(
        |t: Task|
            if t.id == id {
                Task { count: (t.count + delta) as u64, ..t }
            } else {
                t
            },
    )
}

/// `tasks` with the priority of task `id` set to `priority`.
pub open spec fn with_priority(tasks: Seq<Task>, id: TaskId, priority: i32) -> Seq<Task> {
    tasks.map_values(
        |t: Task|
            if t.id == id {
                Task { priority: Some(priority), ..t }
            } else {
                t
            },
    )
}

/// Whether some job among `jobs` was claimed by `worker`.
pub open spec fn has_claimed(jobs: Seq<Assignment>, worker: Seq<char>) -> bool {
    exists|i: int| 0 <= i < jobs.len() && #[trigger] jobs[i].worker@ == worker
}

/// Whether `jobs[i]` is the most recent job claimed by `worker`.
pub open spec fn is_latest_of(jobs: Seq<Assignment>, worker: Seq<char>, i: int) -> bool {
    &&& 0 <= i < jobs.len()
    &&& jobs[i].worker@ == worker
    &&& forall|k: int| i < k < jobs.len() ==> #[trigger] jobs[k].worker@ != worker
}

/// Whether some event among `events` belongs to `job`.
pub open spec fn has_event<E>(events: Seq<(JobId, E)>, job: JobId) -> bool {
    exists|k: int| 0 <= k < events.len() && #[trigger] events[k].0 == job
}

/// The position of the event of `job` among `events`, if there is one.
fn find_event<E>(events: &Vec<(JobId, E)>, job: JobId) -> (r: Option<usize>)
    ensures
        r matches Some(k) ==> k < events@.len() && events@[k as int].0 == job,
        r is None <==> !has_event(events@, job),
{
    let mut k: usize = 0;
    while k < events.len()
        invariant
            k <= events@.len(),
            forall|m: int| 0 <= m < k ==> events@[m].0 != job,
        decreases events@.len() - k,
    {
        if events[k].0 == job {
            return Some(k);
        }
        k += 1;
    }
    None
}

/// The ids, in order, of the jobs among `jobs` that have a start event and no finish event.
pub open spec fn running_ids(
    jobs: Seq<Assignment>,
    starts: Seq<(JobId, Start)>,
    finishes: Seq<(JobId, Finish)>,
) -> Seq<JobId>
    decreases jobs.len(),
{
    if jobs.len() == 0 {
        Seq::empty()
    } else if has_event(starts, jobs.last().id) && !has_event(finishes, jobs.last().id) {
        running_ids(jobs.drop_last(), starts, finishes).push(jobs.last().id)
    } else {
        running_ids(jobs.drop_last(), starts, finishes)
    }
}

/// The byte strings of an argument vector.
pub open spec fn args_view(args: Seq<Vec<u8>>) -> Seq<Seq<u8>> {
    args.map_values(|a: Vec<u8>| a@)
}

/// Whether two start events hold the same time and command.
pub open spec fn same_start(a: Start, b: Start) -> bool {
    a.time == b.time && args_view(a.cmd.0@) == args_view(b.cmd.0@)
}

/// Whether two finish events hold the same outcome, time and output.
pub open spec fn same_finish(a: Finish, b: Finish) -> bool {
    &&& a.result == b.result
    &&& a.time == b.time
    &&& match (a.data, b.data) {
        (Some(x), Some(y)) => x@ == y@,
        (None, None) => true,
        _ => false,
    }
}

/// A copy of the argument vector `src`.
pub fn copy_args(src: &Vec<Vec<u8>>) -> (r: Vec<Vec<u8>>)
    ensures
        args_view(r@) == args_view(src@),
{
    let mut r: Vec<Vec<u8>> = Vec::new();
    let mut i: usize = 0;
    while i < src.len()
        invariant
            i <= src@.len(),
            args_view(r@) == args_view(src@.subrange(0, i as int)),
        decreases src@.len() - i,
    {
        let a = copy_bytes(src[i].as_slice());
        let ghost before = r@;
        r.push(a);
        assert(args_view(r@) =~= args_view(before).push(src@[i as int]@));
        assert(args_view(src@.subrange(0, i + 1)) =~= args_view(src@.subrange(0, i as int)).push(
            src@[i as int]@,
        ));
        i += 1;
    }
    assert(src@.subrange(0, src@.len() as int) =~= src@);
    r
}

/// Whether no two events among `events` belong to the same job.
fn keys_distinct<E>(events: &Vec<(JobId, E)>) -> (r: bool)
    ensures
        r == distinct_keys(events@),
{
    let mut i: usize = 0;
    while i < events.len()
        invariant
            i <= events@.len(),
            forall|a: int, b: int|
                0 <= a < b < events@.len() && a < i ==> #[trigger] events@[a].0 != #[trigger] events@[b].0,
        decreases events@.len() - i,
    {
        let mut j: usize = i + 1;
        while j < events.len()
            invariant
                i < events@.len(),
                i < j,
                forall|a: int, b: int|
                    0 <= a < b < events@.len() && a < i ==> #[trigger] events@[a].0
                        != #[trigger] events@[b].0,
                forall|b: int| i < b < j && b < events@.len() ==> events@[i as int].0 != #[trigger] events@[b].0,
            decreases events@.len() - j,
        {
            if events[i].0 == events[j].0 {
                return false;
            }
            j += 1;
        }
        i += 1;
    }
    true
}

/// Whether `a` and `b` hold the same bytes.
pub fn same_bytes(a: &[u8], b: &[u8]) -> (r: bool)
    ensures
        r == (a@ == b@),
{
    if a.len() != b.len() {
        return false;
    }
    let mut i: usize = 0;
    while i < a.len()
        invariant
            a@.len() == b@.len(),
            i <= a@.len(),
            forall|k: int| 0 <= k < i ==> a@[k] == b@[k],
        decreases a@.len() - i,
    {
        if a[i] != b[i] {
            return false;
        }
        i += 1;
    }
    assert(a@ =~= b@);
    true
}

/// A copy of `src`.
pub fn copy_bytes(src: &[u8]) -> (r: Vec<u8>)
    ensures
        r@ == src@,
{
    let mut r: Vec<u8> = Vec::new();
    let mut i: usize = 0;
    while i < src.len()
        invariant
            i <= src@.len(),
            r@ == src@.subrange(0, i as int),
        decreases src@.len() - i,
    {
        r.push(src[i]);
        i += 1;
    }
    assert(r@ =~= src@);
    r
}

/// Appending the next id keeps ids increasing.
proof fn lemma_push_increasing(ids: Seq<u32>, x: u32)
    requires
        increasing(ids),
        x == next_id(ids),
    ensures
        increasing(ids.push(x)),
{
    let s = ids.push(x);
    assert forall|i: int, j: int| 0 <= i < j < s.len() implies #[trigger] s[i] < #[trigger] s[j] by {
        if j == ids.len() {
            if i < ids.len() - 1 {
                assert(ids[i] < ids[ids.len() - 1]);
            }
        } else {
            assert(ids[i] < ids[j]);
        }
    }
}

/// Where task ids increase, a task id has one position.
proof fn lemma_unique_task_position(s: &Store, i: int)
    requires
        increasing(task_ids(s.tasks@)),
        0 <= i < s.tasks@.len(),
    ensures
        forall|j: int| 0 <= j < s.tasks@.len() && #[trigger] s.tasks@[j].id == s.tasks@[i].id ==> j == i,
{
    assert forall|j: int| 0 <= j < s.tasks@.len() && #[trigger] s.tasks@[j].id == s.tasks@[i].id implies j == i by {
        if j < i {
            assert(task_ids(s.tasks@)[j] < task_ids(s.tasks@)[i]);
        } else if i < j {
            assert(task_ids(s.tasks@)[i] < task_ids(s.tasks@)[j]);
        }
    }
}

/// Where job ids increase, a job id has one position.
proof fn lemma_unique_job_position(s: &Store, i: int)
    requires
        increasing(job_ids(s.jobs@)),
        0 <= i < s.jobs@.len(),
    ensures
        forall|j: int| 0 <= j < s.jobs@.len() && #[trigger] s.jobs@[j].id == s.jobs@[i].id ==> j == i,
{
    assert forall|j: int| 0 <= j < s.jobs@.len() && #[trigger] s.jobs@[j].id == s.jobs@[i].id implies j == i by {
        if j < i {
            assert(job_ids(s.jobs@)[j] < job_ids(s.jobs@)[i]);
        } else if i < j {
            assert(job_ids(s.jobs@)[i] < job_ids(s.jobs@)[j]);
        }
    }
}

/// Tasks that keep their ids, in their positions, keep every job's task in existence.
proof fn lemma_jobs_still_refer(jobs: Seq<Assignment>, before: Seq<Task>, after: Seq<Task>)
    requires
        jobs_refer_to_tasks(jobs, before),
        before.len() <= after.len(),
        forall|j: int| 0 <= j < before.len() ==> #[trigger] after[j].id == before[j].id,
    ensures
        jobs_refer_to_tasks(jobs, after),
{
    assert forall|i: int| 0 <= i < jobs.len() implies task_exists(after, #[trigger] jobs[i].task) by {
        let j = choose|j: int| 0 <= j < before.len() && #[trigger] before[j].id == jobs[i].task;
        assert(after[j].id == before[j].id);
    }
}

} // verus!
