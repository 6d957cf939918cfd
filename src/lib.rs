//! A persistent multi-worker task queue: tasks with a desired repetition count and a
//! priority, jobs claimed one repetition at a time, and start/finish events per job.

pub mod codec;
pub mod db;
pub mod error;
pub mod laws;
pub mod outcome;
pub mod records;
pub mod rows;
pub mod schema;
pub mod sqlite;
pub mod store;

pub use db::Db;
pub use error::Error;
pub use outcome::Outcome;
pub use records::{Assignment, Command, Finish, Job, JobId, JobStatus, Start, Task, TaskId, Time};
pub use store::Store;
