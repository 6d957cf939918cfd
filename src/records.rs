//! The records the queue keeps: tasks, the jobs claimed from them, and the start and
//! finish events logged for jobs.

use vstd::prelude::*;

verus! {

/// Identifies a task; assigned by the store, strictly increasing.
pub type TaskId = u32;

/// Identifies a claimed job; assigned by the store, strictly increasing.
pub type JobId = u32;

/// A point in time, in seconds since the Unix epoch.
#[derive(Clone, Copy, Debug, PartialEq, Eq, Structural)]
pub struct Time(pub i64);

/// The argument vector of a command, each argument an arbitrary byte string.
#[derive(Clone, Debug, PartialEq, Eq)]
pub struct Command(pub Vec<Vec<u8>>);

/// What a successful claim hands to the worker: the id of the new job, and the payload of
/// the task it was drawn from.
#[derive(Clone, Debug, PartialEq, Eq)]
pub struct Job {
    pub id: JobId,
    pub data: Vec<u8>,
}

/// A repeatable unit of work.
#[derive(Clone, Debug)]
pub struct Task {
    pub id: TaskId,
    /// How many repetitions are to be handed out in all.
    pub count: u64,
    /// The work description; no two tasks share it.
    pub data: Vec<u8>,
    /// Lower is scheduled sooner; an unset priority counts as 0.
    pub priority: Option<i32>,
}

/// One claimed repetition of a task, held by one worker.
#[derive(Clone, Debug)]
pub struct Assignment {
    pub id: JobId,
    pub task: TaskId,
    pub worker: String,
    pub time: Option<Time>,
}

/// The start event of a job.
#[derive(Clone, Debug)]
pub struct Start {
    pub time: Time,
    pub cmd: Command,
}

/// The finish event of a job.
#[derive(Clone, Debug)]
pub struct Finish {
    /// The outcome code, as `Outcome::log_code` encodes it.
    pub result: i32,
    pub time: Time,
    /// Output captured from the job, if any.
    pub data: Option<Vec<u8>>,
}

/// What is known of one job: who holds it, whether it is that worker's most recent
/// claim, and its events.
#[derive(Clone, Debug)]
pub struct JobStatus {
    /// The task the job was drawn from.
    pub task: TaskId,
    pub worker: String,
    pub is_latest: bool,
    pub start: Option<Start>,
    pub finish: Option<Finish>,
}

} // verus!
