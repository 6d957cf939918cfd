//! Properties of the queue that relate several of its operations.

use crate::records::{Assignment, Start, Task, TaskId, Time};
use crate::store::{
    appended_job, assigned, data_taken, goes_before, has_event, has_work, increasing, is_next, job_exists,
    next_id, pending, remaining, task_exists, task_ids, Store,
};
use vstd::prelude::*;

verus! {

/// Where task ids are distinct, one task at most is the next to be claimed from, so a
/// claim's answer is determined by the queue.
pub proof fn lemma_next_unique(tasks: Seq<Task>, jobs: Seq<Assignment>, i: int, j: int)
    requires
        increasing(task_ids(tasks)),
        is_next(tasks, jobs, i),
        is_next(tasks, jobs, j),
    ensures
        i == j,
{
    if i != j {
        assert(goes_before(tasks[i], tasks[j]));
        assert(goes_before(tasks[j], tasks[i]));
    }
}

/// Whether no task among `tasks` has more jobs among `jobs` than its desired count.
pub open spec fn within_counts(tasks: Seq<Task>, jobs: Seq<Assignment>) -> bool {
    forall|k: int| 0 <= k < tasks.len() ==> assigned(jobs, #[trigger] tasks[k].id) <= tasks[k].count
}

/// Counting the jobs of a task over two runs of jobs adds the counts of each.
pub proof fn lemma_assigned_concat(a: Seq<Assignment>, b: Seq<Assignment>, t: TaskId)
    ensures
        assigned(a + b, t) == assigned(a, t) + assigned(b, t),
    decreases b.len(),
{
    if b.len() == 0 {
        assert(a + b =~= a);
    } else {
        assert((a + b).drop_last() =~= a + b.drop_last());
        lemma_assigned_concat(a, b.drop_last(), t);
    }
}

/// Jobs that all refer to existing tasks count none for an id beyond every task id.
proof fn lemma_fresh_id_unassigned(s: Store, t: TaskId)
    requires
        s.wf(),
        t == next_id(task_ids(s.tasks@)),
    ensures
        assigned(s.jobs@, t) == 0,
{
    let ids = task_ids(s.tasks@);
    assert forall|k: int| 0 <= k < s.tasks@.len() implies #[trigger] s.tasks@[k].id < t by {
        if k < s.tasks@.len() - 1 {
            assert(ids[k] < ids[s.tasks@.len() - 1]);
        }
        assert(ids[k] == s.tasks@[k].id);
    }
    lemma_unassigned_prefix(s.jobs@, s.tasks@, t, s.jobs@.len() as int);
    assert(s.jobs@.subrange(0, s.jobs@.len() as int) =~= s.jobs@);
}

proof fn lemma_unassigned_prefix(jobs: Seq<Assignment>, tasks: Seq<Task>, t: TaskId, n: int)
    requires
        0 <= n <= jobs.len(),
        forall|i: int| 0 <= i < jobs.len() ==> task_exists(tasks, #[trigger] jobs[i].task),
        forall|k: int| 0 <= k < tasks.len() ==> #[trigger] tasks[k].id < t,
    ensures
        assigned(jobs.subrange(0, n), t) == 0,
    decreases n,
{
    if n > 0 {
        assert(jobs.subrange(0, n).drop_last() =~= jobs.subrange(0, n - 1));
        lemma_unassigned_prefix(jobs, tasks, t, n - 1);
        assert(task_exists(tasks, jobs[n - 1].task));
    }
}

/// A task defined in a well-formed queue starts with no jobs: after any further `claims`,
/// `n` of them drawn from it, it has `max(0, count - n)` repetitions left.
pub proof fn lemma_remaining_after_claims(s: Store, task: Task, claims: Seq<Assignment>)
    requires
        s.wf(),
        task.id == next_id(task_ids(s.tasks@)),
    ensures
        remaining(task, s.jobs@ + claims) == if task.count >= assigned(claims, task.id) {
            task.count - assigned(claims, task.id)
        } else {
            0
        },
{
    lemma_fresh_id_unassigned(s, task.id);
    lemma_assigned_concat(s.jobs@, claims, task.id);
}

/// Once a task with payload `data` has been defined, the queue holds a task with that
/// payload, so defining another with it fails whatever its count and priority.
pub proof fn lemma_duplicate_data_rejected(before: Seq<Task>, after: Seq<Task>, data: Seq<u8>)
    requires
        after.len() == before.len() + 1,
        after.drop_last() == before,
        after.last().data@ == data,
    ensures
        data_taken(after, data),
{
    assert(after[after.len() - 1].data@ == data);
}

/// A claim never takes a task past its desired count: where no task had more jobs than
/// its count before the claim, none has after it.
pub proof fn lemma_claim_within_counts(
    tasks: Seq<Task>,
    before: Seq<Assignment>,
    after: Seq<Assignment>,
    i: int,
    worker: Seq<char>,
    time: Time,
)
    requires
        increasing(task_ids(tasks)),
        within_counts(tasks, before),
        is_next(tasks, before, i),
        appended_job(before, after, tasks[i].id, worker, time),
    ensures
        within_counts(tasks, after),
{
    assert forall|k: int| 0 <= k < tasks.len() implies assigned(after, #[trigger] tasks[k].id)
        <= tasks[k].count by {
        if k != i {
            if k < i {
                assert(task_ids(tasks)[k] < task_ids(tasks)[i]);
            } else {
                assert(task_ids(tasks)[i] < task_ids(tasks)[k]);
            }
        }
    }
}

/// Where no task has a repetition left (there may be no task at all), claiming finds no
/// work, and the queue is left as it was, so every further claim finds none either.
pub proof fn lemma_no_work_when_exhausted(tasks: Seq<Task>, jobs: Seq<Assignment>)
    requires
        forall|k: int| 0 <= k < tasks.len() ==> !#[trigger] pending(tasks[k], jobs),
    ensures
        !has_work(tasks, jobs),
{
}

/// After a start event is logged for a job, logging another start for it fails with
/// `DuplicateStart`; logging its finish needs no start event at all.
pub proof fn lemma_start_once(before: Store, after: Store, job: u32, st: Start)
    requires
        job_exists(before.jobs@, job),
        after.jobs@ == before.jobs@,
        after.starts@ == before.starts@.push((job, st)),
        after.finishes@ == before.finishes@,
    ensures
        job_exists(after.jobs@, job) && has_event(after.starts@, job),
        !after.start_allowed(job),
        after.finish_allowed(job) == !has_event(before.finishes@, job),
        before.finish_allowed(job) == !has_event(before.finishes@, job),
{
    assert(after.starts@[after.starts@.len() - 1].0 == job);
}

} // verus!
