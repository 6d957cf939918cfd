//! The queue kept in an SQLite database.
//!
//! Every operation runs in one transaction: it reads the stored rows into a `Store`, checks
//! that they form a well-formed queue, lets the `Store` decide, and writes back the row that
//! the decision adds or changes. Nothing is kept in memory between operations, so any number
//! of processes may share the database file.

use crate::error::Error;
use crate::records::{Finish, Job, JobId, JobStatus, Start, TaskId, Time};
use crate::rows::{
    finish_params, job_params, start_params, store_of_rows, task_params, task_update_params,
    version_params,
};
use crate::schema::{upgrade_step, Step, DB_VERSION};
use crate::sqlite::{execute, open_connection, query, Cell, Param};
use crate::store::{
    data_taken, effective_priority, has_claimed, has_event, has_work, is_latest_of, is_next,
    job_exists, job_ids, next_id, pending_ids, remaining, running_ids, same_finish, same_start,
    task_exists, task_ids, Store,
};
use rusqlite::Connection;
use vstd::prelude::*;

verus! {

/// Whether `e` is a failure of the storage rather than a decision of the queue.
pub open spec fn storage_failure(e: Error) -> bool {
    e is Storage || e is Corrupt || e is Encoding
}

/// Relies on `time::OffsetDateTime::now_utc` and `OffsetDateTime::unix_timestamp`: the
/// current time, in seconds since the Unix epoch.
#[verifier::external_body]
fn now() -> (r: Time) {
    Time(time::OffsetDateTime::now_utc().unix_timestamp())
}

/// Runs one statement with parameters.
fn run_with(conn: &Connection, sql: &str, params: &Vec<Param>) -> (r: Result<(), Error>) 
    ensures
        r matches Err(e) ==> storage_failure(e),
{
    match execute(conn, sql, params) {
        Ok(_) => Ok(()),
        Err(e) => Err(Error::Storage(e)),
    }
}

/// Runs one statement without parameters.
fn run(conn: &Connection, sql: &str) -> (r: Result<(), Error>) 
    ensures
        r matches Err(e) ==> storage_failure(e),
{
    run_with(conn, sql, &Vec::new())
}

/// Runs a query without parameters.
fn rows(conn: &Connection, sql: &str) -> (r: Result<Vec<Vec<Cell>>, Error>) 
    ensures
        r matches Err(e) ==> storage_failure(e),
{
    match query(conn, sql) {
        Ok(v) => Ok(v),
        Err(e) => Err(Error::Storage(e)),
    }
}

/// Ends the transaction that produced `r`: commits where `r` is a success and rolls back
/// where it is a failure. A failure keeps its error; a success whose commit fails becomes
/// that storage error.
fn end<T>(conn: &Connection, r: Result<T, Error>) -> (out: Result<T, Error>)
    ensures
        r is Ok ==> (out matches Err(e) ==> storage_failure(e)),
        r is Err ==> out == r,
        out is Ok ==> out == r,
{
    match r {
        Ok(v) => match run(conn, "COMMIT") {
            Ok(()) => Ok(v),
            Err(e) => {
                let _ = run(conn, "ROLLBACK");
                Err(e)
            },
        },
        Err(e) => {
            let _ = run(conn, "ROLLBACK");
            Err(e)
        },
    }
}

/// Reads the whole queue; fails with `Corrupt` where the rows do not form a well-formed
/// queue.
fn load(conn: &Connection) -> (r: Result<Store, Error>)
    ensures
        r matches Err(e) ==> storage_failure(e),
        r matches Ok(s) ==> s.wf(),
{
    let task_rows = rows(conn, "SELECT id, count, data, priority FROM task ORDER BY id")?;
    let job_rows = rows(conn, "SELECT id, task, time, worker FROM job ORDER BY id")?;
    let start_rows = rows(
        conn,
        "SELECT job, CASE WHEN typeof(time) = 'integer' THEN time ELSE CAST(strftime('%s', time) AS INTEGER) END, cmd FROM job_start ORDER BY job",
    )?;
    let finish_rows = rows(
        conn,
        "SELECT job, result, CASE WHEN typeof(time) = 'integer' THEN time ELSE CAST(strftime('%s', time) AS INTEGER) END, data FROM job_finish ORDER BY job",
    )?;
    store_of_rows(&task_rows, &job_rows, &start_rows, &finish_rows)
}

/// Starts a transaction that will write.
fn begin_write(conn: &Connection) -> (r: Result<(), Error>)
    ensures
        r matches Err(e) ==> storage_failure(e),
{
    run(conn, "BEGIN IMMEDIATE")
}

/// Reads the whole queue in a transaction of its own.
fn snapshot(conn: &Connection) -> (r: Result<Store, Error>)
    ensures
        r matches Err(e) ==> storage_failure(e),
        r matches Ok(s) ==> s.wf(),
{
    run(conn, "BEGIN")?;
    let r = load(conn);
    end(conn, r)
}

/// The layout version held by the rows of the `meta` table: its single row's single
/// integer cell.
pub fn version_of_rows(rows: &Vec<Vec<Cell>>) -> (r: Option<i64>)
    ensures
        r matches Some(v) ==> rows@.len() == 1 && rows@[0]@ == seq![Cell::Integer(v)],
        r is None ==> forall|v: i64| !(rows@.len() == 1 && rows@[0]@ == seq![Cell::Integer(v)]),
{
    if rows.len() != 1 || rows[0].len() != 1 {
        return None;
    }
    match &rows[0][0] {
        Cell::Integer(v) => {
            assert(rows@[0]@ =~= seq![Cell::Integer(*v)]);
            Some(*v)
        },
        _ => None,
    }
}

/// The stored layout version.
fn read_version(conn: &Connection) -> (r: Result<i64, Error>)
    ensures
        r matches Err(e) ==> storage_failure(e),
{
    let v = rows(conn, "SELECT version FROM meta")?;
    match version_of_rows(&v) {
        Some(n) => Ok(n),
        None => Err(Error::Corrupt),
    }
}

/// Upgrades the layout by one version, from version `from`, and returns the version it
/// writes into `meta`: `from + 1`.
fn migrate(conn: &Connection, from: i64) -> (r: Result<i64, Error>)
    requires
        1 <= from < DB_VERSION,
    ensures
        r matches Ok(v) ==> v == from + 1,
        r matches Err(e) ==> storage_failure(e),
{
    run(conn, "ALTER TABLE job RENAME TO task")?;
    run(conn, "ALTER TABLE task ADD priority INTEGER")?;
    run(conn, "CREATE TABLE job (id INTEGER PRIMARY KEY, task REFERENCES task, time INTEGER, worker TEXT NOT NULL)")?;
    run(conn, "INSERT INTO job (id, task, worker) SELECT id, job, CAST(data AS TEXT) FROM worker")?;
    run(conn, "DROP TABLE worker")?;
    run(conn, "CREATE TABLE job_start (job PRIMARY KEY REFERENCES job, time INTEGER, cmd BLOB)")?;
    run(conn, "CREATE TABLE job_finish (job PRIMARY KEY REFERENCES job, result INTEGER, time INTEGER, data BLOB)")?;
    let to = from + 1;
    run_with(conn, "UPDATE meta SET version = ?", &version_params(to))?;
    Ok(to)
}

/// What one round of upgrading did.
pub enum UpgradeRound {
    /// The stored layout was already current.
    Current,
    /// One migration, from layout `from` to layout `to`.
    Migrated { from: i64, to: i64 },
}

/// Takes one step towards the current layout inside the open transaction: nothing where the
/// stored layout is current, and otherwise one migration raising it by one, whose references
/// all check out.
fn upgrade_once(conn: &Connection) -> (r: Result<UpgradeRound, Error>)
    ensures
        r matches Ok(UpgradeRound::Migrated { from, to }) ==> 1 <= from < DB_VERSION && to == from + 1,
        r matches Err(Error::DbTooNew { db_version }) ==> db_version > DB_VERSION,
        r matches Err(Error::UnknownVersion { db_version }) ==> db_version < 1,
        r matches Err(e) ==> storage_failure(e) || e is DbTooNew || e is UnknownVersion,
{
    let version = read_version(conn)?;
    match upgrade_step(version)? {
        Step::Current => Ok(UpgradeRound::Current),
        Step::Migrate { from } => {
            let to = migrate(conn, from)?;
            let broken = rows(conn, "PRAGMA foreign_key_check")?;
            if broken.len() != 0 {
                return Err(Error::Corrupt);
            }
            Ok(UpgradeRound::Migrated { from, to })
        },
    }
}

/// Brings the layout up to the current version, one migration per committed transaction; a
/// failed migration is rolled back whole, leaving the version it started from. Returns the
/// versions written, in order, each one above the version its migration started from and
/// none above `DB_VERSION`; it succeeds only once the stored layout reads as current.
fn upgrade(conn: &Connection) -> (r: Result<Vec<i64>, Error>)
    ensures
        r matches Ok(written) ==> written@.len() <= DB_VERSION + 1 && forall|k: int|
            0 <= k < written@.len() ==> 1 < #[trigger] written@[k] <= DB_VERSION,
        r matches Err(Error::DbTooNew { db_version }) ==> db_version > DB_VERSION,
        r matches Err(Error::UnknownVersion { db_version }) ==> db_version < 1,
        r matches Err(e) ==> storage_failure(e) || e is DbTooNew || e is UnknownVersion,
{
    let mut written: Vec<i64> = Vec::new();
    let mut steps: i64 = 0;
    while steps <= DB_VERSION
        invariant
            0 <= steps <= DB_VERSION + 1,
            written@.len() == steps,
            forall|k: int| 0 <= k < written@.len() ==> 1 < #[trigger] written@[k] <= DB_VERSION,
        decreases DB_VERSION + 1 - steps,
    {
        begin_write(conn)?;
        let r = upgrade_once(conn);
        match end(conn, r)? {
            UpgradeRound::Current => return Ok(written),
            UpgradeRound::Migrated { from: _, to } => written.push(to),
        }
        steps += 1;
    }
    Err(Error::Corrupt)
}

/// Whether `job` is what a claim on the queue `s` hands out: the next job id, with the
/// payload of the task the claim draws from.
pub open spec fn claim_answer(s: Store, job: Job) -> bool {
    &&& job.id == next_id(job_ids(s.jobs@))
    &&& exists|i: int| #[trigger] is_next(s.tasks@, s.jobs@, i) && job.data@ == s.tasks@[i].data@
}

/// A task queue kept in an SQLite database.
pub struct Db {
    conn: Connection,
}

impl Db {
    /// Creates a queue in a new database file at `path`.
    pub fn create(path: &str) -> (r: Result<Self, Error>)
        ensures
            r matches Err(e) ==> storage_failure(e),
    {
        match open_connection(path) {
            Ok(conn) => Self::create_from_conn(conn),
            Err(e) => Err(Error::Storage(e)),
        }
    }

    /// Writes the tables of an empty queue at layout version `DB_VERSION` into `conn`, in
    /// one transaction. Fails where they already exist.
    pub fn create_from_conn(conn: Connection) -> (r: Result<Self, Error>)
        ensures
            r matches Err(e) ==> storage_failure(e),
    {
        run(&conn, "PRAGMA foreign_keys = 1")?;
        begin_write(&conn)?;
        let r = Self::create_tables(&conn);
        end(&conn, r)?;
        Ok(Db { conn })
    }

    fn create_tables(conn: &Connection) -> (r: Result<(), Error>)
        ensures
            r matches Err(e) ==> storage_failure(e),
    {
        run(conn, "CREATE TABLE meta (version INTEGER)")?;
        run(conn, "CREATE TABLE task (id INTEGER PRIMARY KEY, count INTEGER NOT NULL, data BLOB NOT NULL UNIQUE, priority INTEGER)")?;
        run(conn, "CREATE TABLE job (id INTEGER PRIMARY KEY, task REFERENCES task, time INTEGER, worker TEXT NOT NULL)")?;
        run(conn, "CREATE TABLE job_start (job PRIMARY KEY REFERENCES job, time INTEGER, cmd BLOB)")?;
        run(conn, "CREATE TABLE job_finish (job PRIMARY KEY REFERENCES job, result INTEGER, time INTEGER, data BLOB)")?;
        run_with(conn, "INSERT INTO meta VALUES (?)", &version_params(DB_VERSION))
    }

    /// Opens the queue in the database file at `path`, upgrading an older layout.
    pub fn open(path: &str) -> (r: Result<Self, Error>)
        ensures
            r matches Err(Error::DbTooNew { db_version }) ==> db_version > DB_VERSION,
            r matches Err(Error::UnknownVersion { db_version }) ==> db_version < 1,
            r matches Err(e) ==> storage_failure(e) || e is DbTooNew || e is UnknownVersion,
    {
        match open_connection(path) {
            Ok(conn) => Self::open_from_conn(conn),
            Err(e) => Err(Error::Storage(e)),
        }
    }

    /// Opens the queue held by `conn`, upgrading an older layout one version per
    /// transaction. Fails with `DbTooNew` where the layout is newer than this library, and
    /// with `UnknownVersion` where it is older than any known version, touching nothing.
    pub fn open_from_conn(conn: Connection) -> (r: Result<Self, Error>)
        ensures
            r matches Err(Error::DbTooNew { db_version }) ==> db_version > DB_VERSION,
            r matches Err(Error::UnknownVersion { db_version }) ==> db_version < 1,
            r matches Err(e) ==> storage_failure(e) || e is DbTooNew || e is UnknownVersion,
    {
        run(&conn, "PRAGMA foreign_keys = 0")?;
        upgrade(&conn)?;
        run(&conn, "PRAGMA foreign_keys = 1")?;
        Ok(Db { conn })
    }

    /// The connection to the database.
    pub fn connection(&self) -> &Connection {
        &self.conn
    }

    /// Gives up the queue, keeping the connection to its database.
    pub fn into_connection(self) -> Connection {
        self.conn
    }

    /// Claims one repetition for `worker`, as `Store::take` decides on the stored queue, and
    /// stores the new job. `Ok(None)` where no task has a repetition left.
    pub fn take(&mut self, worker: &str) -> (r: Result<Option<Job>, Error>)
        ensures
            r matches Ok(Some(job)) ==> exists|s: Store| s.wf() && claim_answer(s, job),
            r matches Ok(None) ==> exists|s: Store| s.wf() && !has_work(s.tasks@, s.jobs@),
            r matches Err(e) ==> storage_failure(e) || e is IdsExhausted,
    {
        begin_write(&self.conn)?;
        let r = self.take_in_transaction(worker);
        end(&self.conn, r)
    }

    fn take_in_transaction(&self, worker: &str) -> (r: Result<Option<Job>, Error>)
        ensures
            r matches Ok(Some(job)) ==> exists|s: Store| s.wf() && claim_answer(s, job),
            r matches Ok(None) ==> exists|s: Store| s.wf() && !has_work(s.tasks@, s.jobs@),
            r matches Err(e) ==> storage_failure(e) || e is IdsExhausted,
    {
        let mut store = load(&self.conn)?;
        let ghost before = store;
        let job = match store.take(worker, now())? {
            None => return Ok(None),
            Some(job) => job,
        };
        assert(claim_answer(before, job));
        let params = job_params(&store.jobs[store.jobs.len() - 1]);
        run_with(&self.conn, "INSERT INTO job (id, task, time, worker) VALUES (?, ?, ?, ?)", &params)?;
        Ok(Some(job))
    }

    /// Defines a task, as `Store::new_job` decides on the stored queue, and returns its id.
    /// Fails with `CountOutOfRange` exactly where the count is beyond what the database
    /// stores, and with `DuplicateData` where a task already has this payload.
    pub fn new_job(&mut self, data: &[u8], count: u64, priority: Option<i32>) -> (r: Result<u32, Error>)
        ensures
            r matches Err(Error::CountOutOfRange) <==> count > i64::MAX,
            r matches Err(Error::DuplicateData) ==> exists|s: Store| s.wf() && data_taken(s.tasks@, data@),
            r matches Ok(id) ==> exists|s: Store|
                s.wf() && !data_taken(s.tasks@, data@) && id == next_id(task_ids(s.tasks@)),
            r matches Err(e) ==> storage_failure(e) || e is CountOutOfRange || e is DuplicateData
                || e is IdsExhausted,
    {
        if count > i64::MAX as u64 {
            return Err(Error::CountOutOfRange);
        }
        begin_write(&self.conn)?;
        let r = self.new_job_in_transaction(data, count, priority);
        end(&self.conn, r)
    }

    fn new_job_in_transaction(&self, data: &[u8], count: u64, priority: Option<i32>) -> (r: Result<u32, Error>)
        requires
            count <= i64::MAX,
        ensures
            r matches Err(Error::DuplicateData) ==> exists|s: Store| s.wf() && data_taken(s.tasks@, data@),
            r matches Ok(id) ==> exists|s: Store|
                s.wf() && !data_taken(s.tasks@, data@) && id == next_id(task_ids(s.tasks@)),
            r matches Err(e) ==> storage_failure(e) || e is DuplicateData || e is IdsExhausted,
    {
        let mut store = load(&self.conn)?;
        let ghost before = store;
        let id = store.new_job(data, count, priority)?;
        let params = task_params(&store.tasks[store.tasks.len() - 1]);
        run_with(&self.conn, "INSERT INTO task (id, count, data, priority) VALUES (?, ?, ?, ?)", &params)?;
        assert(before.wf() && !data_taken(before.tasks@, data@) && id == next_id(task_ids(before.tasks@)));
        Ok(id)
    }

    /// Adds `delta` to the desired count of task `id`, as `Store::add_count` decides; the new
    /// count must also be one the database stores.
    pub fn add_count(&self, id: TaskId, delta: i64) -> (r: Result<(), Error>)
        ensures
            r matches Err(Error::NoSuchTask) ==> exists|s: Store| s.wf() && !task_exists(s.tasks@, id),
            r matches Err(Error::CountOutOfRange) ==> exists|s: Store, i: int|
                s.wf() && 0 <= i < s.tasks@.len() && #[trigger] s.tasks@[i].id == id
                    && !(0 <= s.tasks@[i].count + delta <= i64::MAX),
            r is Ok ==> exists|s: Store, i: int|
                s.wf() && 0 <= i < s.tasks@.len() && #[trigger] s.tasks@[i].id == id
                    && 0 <= s.tasks@[i].count + delta <= i64::MAX,
            r matches Err(e) ==> storage_failure(e) || e is NoSuchTask || e is CountOutOfRange,
    {
        begin_write(&self.conn)?;
        let r = self.add_count_in_transaction(id, delta);
        end(&self.conn, r)
    }

    fn add_count_in_transaction(&self, id: TaskId, delta: i64) -> (r: Result<(), Error>)
        ensures
            r matches Err(Error::NoSuchTask) ==> exists|s: Store| s.wf() && !task_exists(s.tasks@, id),
            r matches Err(Error::CountOutOfRange) ==> exists|s: Store, i: int|
                s.wf() && 0 <= i < s.tasks@.len() && #[trigger] s.tasks@[i].id == id
                    && !(0 <= s.tasks@[i].count + delta <= i64::MAX),
            r is Ok ==> exists|s: Store, i: int|
                s.wf() && 0 <= i < s.tasks@.len() && #[trigger] s.tasks@[i].id == id
                    && 0 <= s.tasks@[i].count + delta <= i64::MAX,
            r matches Err(e) ==> storage_failure(e) || e is NoSuchTask || e is CountOutOfRange,
    {
        let mut store = load(&self.conn)?;
        let ghost before = store;
        let old_count = match store.desired_count(id) {
            Some(c) => c,
            None => return Err(Error::NoSuchTask),
        };
        let ghost i = choose|i: int| 0 <= i < before.tasks@.len() && #[trigger] before.tasks@[i].id == id;
        assert(old_count == before.tasks@[i].count);
        let new_count: i128 = old_count as i128 + delta as i128;
        if new_count < 0 || new_count > i64::MAX as i128 {
            return Err(Error::CountOutOfRange);
        }
        store.add_count(id, delta)?;
        let count = new_count as i64;
        assert(before.wf() && 0 <= i < before.tasks@.len() && before.tasks@[i].id == id
            && 0 <= before.tasks@[i].count + delta <= i64::MAX);
        run_with(&self.conn, "UPDATE task SET count = ? WHERE id = ?", &task_update_params(count, id))
    }

    /// Sets the priority of task `id`, as `Store::set_priority` decides.
    pub fn set_priority(&self, id: TaskId, priority: i32) -> (r: Result<(), Error>)
        ensures
            r matches Err(Error::NoSuchTask) ==> exists|s: Store| s.wf() && !task_exists(s.tasks@, id),
            r is Ok ==> exists|s: Store| s.wf() && task_exists(s.tasks@, id),
            r matches Err(e) ==> storage_failure(e) || e is NoSuchTask,
    {
        begin_write(&self.conn)?;
        let r = self.set_priority_in_transaction(id, priority);
        end(&self.conn, r)
    }

    fn set_priority_in_transaction(&self, id: TaskId, priority: i32) -> (r: Result<(), Error>)
        ensures
            r matches Err(Error::NoSuchTask) ==> exists|s: Store| s.wf() && !task_exists(s.tasks@, id),
            r is Ok ==> exists|s: Store| s.wf() && task_exists(s.tasks@, id),
            r matches Err(e) ==> storage_failure(e) || e is NoSuchTask,
    {
        let mut store = load(&self.conn)?;
        let ghost before = store;
        store.set_priority(id, priority)?;
        run_with(
            &self.conn,
            "UPDATE task SET priority = ? WHERE id = ?",
            &task_update_params(priority as i64, id),
        )?;
        assert(before.wf() && task_exists(before.tasks@, id));
        Ok(())
    }

    /// The ids of the tasks with repetitions left, in increasing order.
    pub fn job_ids_vec(&self) -> (r: Result<Vec<TaskId>, Error>)
        ensures
            r matches Ok(ids) ==> exists|s: Store| s.wf() && ids@ == pending_ids(s.tasks@, s.jobs@),
    {
        let store = snapshot(&self.conn)?;
        Ok(store.job_ids_vec())
    }

    pub fn get_data(&self, id: TaskId) -> (r: Result<Vec<u8>, Error>)
        ensures
            r matches Ok(d) ==> exists|s: Store, i: int|
                s.wf() && 0 <= i < s.tasks@.len() && #[trigger] s.tasks@[i].id == id && d@
                    == s.tasks@[i].data@,
            r matches Err(Error::NoSuchTask) ==> exists|s: Store| s.wf() && !task_exists(s.tasks@, id),
    {
        let store = snapshot(&self.conn)?;
        match store.get_data(id) {
            Some(d) => {
                proof {
                    let i = choose|i: int| 0 <= i < store.tasks@.len() && #[trigger] store.tasks@[i].id == id;
                    assert(d@ == store.tasks@[i].data@);
                }
                Ok(d)
            },
            None => Err(Error::NoSuchTask),
        }
    }

    /// The repetitions of task `id` still to be handed out; `NoSuchTask` where no task has
    /// that id.
    pub fn get_count(&self, id: TaskId) -> (r: Result<u64, Error>)
        ensures
            r matches Ok(n) ==> exists|s: Store, i: int|
                s.wf() && 0 <= i < s.tasks@.len() && #[trigger] s.tasks@[i].id == id && n == remaining(
                    s.tasks@[i],
                    s.jobs@,
                ),
    {
        let store = snapshot(&self.conn)?;
        match store.get_count(id) {
            Some(n) => {
                proof {
                    let i = choose|i: int| 0 <= i < store.tasks@.len() && #[trigger] store.tasks@[i].id == id;
                    assert(n == remaining(store.tasks@[i], store.jobs@));
                }
                Ok(n)
            },
            None => Err(Error::NoSuchTask),
        }
    }

    /// The priority task `id` is scheduled by (0 where none was set); `NoSuchTask` where no
    /// task has that id.
    pub fn get_priority(&self, id: TaskId) -> (r: Result<i32, Error>)
        ensures
            r matches Ok(p) ==> exists|s: Store, i: int|
                s.wf() && 0 <= i < s.tasks@.len() && #[trigger] s.tasks@[i].id == id && p
                    == effective_priority(s.tasks@[i]),
            r matches Err(Error::NoSuchTask) ==> exists|s: Store| s.wf() && !task_exists(s.tasks@, id),
    {
        let store = snapshot(&self.conn)?;
        match store.get_priority(id) {
            Some(p) => {
                proof {
                    let i = choose|i: int| 0 <= i < store.tasks@.len() && #[trigger] store.tasks@[i].id == id;
                    assert(p == effective_priority(store.tasks@[i]));
                }
                Ok(p)
            },
            None => Err(Error::NoSuchTask),
        }
    }

    /// The most recent job claimed by `worker`; `None` where it never claimed one.
    pub fn current_job(&mut self, worker: &str) -> (r: Result<Option<JobId>, Error>)
        ensures
            r matches Ok(Some(id)) ==> exists|s: Store, i: int|
                s.wf() && is_latest_of(s.jobs@, worker@, i) && #[trigger] s.jobs@[i].id == id,
            r matches Ok(None) ==> exists|s: Store| s.wf() && !has_claimed(s.jobs@, worker@),
    {
        let store = snapshot(&self.conn)?;
        Ok(store.current_job(worker))
    }

    /// The most recent job claimed by `worker`; the same as `current_job`.
    /// The most recent job claimed by `worker`; the same as `current_job`.
    pub fn get_worker_latest_job(&self, worker: &str) -> (r: Result<Option<JobId>, Error>)
        ensures
            r matches Ok(Some(id)) ==> exists|s: Store, i: int|
                s.wf() && is_latest_of(s.jobs@, worker@, i) && #[trigger] s.jobs@[i].id == id,
            r matches Ok(None) ==> exists|s: Store| s.wf() && !has_claimed(s.jobs@, worker@),
    {
        let store = snapshot(&self.conn)?;
        Ok(store.get_worker_latest_job(worker))
    }

    /// Logs the start of `job`, now, running `cmd`. Fails with `NoSuchJob` or
    /// `DuplicateStart` as `Store::log_start` decides.
    pub fn log_start(&mut self, job: JobId, cmd: Vec<Vec<u8>>) -> (r: Result<(), Error>)
        ensures
            r is Ok ==> exists|s: Store| s.wf() && s.start_allowed(job),
            r matches Err(Error::NoSuchJob) ==> exists|s: Store| s.wf() && !job_exists(s.jobs@, job),
            r matches Err(Error::DuplicateStart) ==> exists|s: Store|
                s.wf() && job_exists(s.jobs@, job) && has_event(s.starts@, job),
            r matches Err(e) ==> storage_failure(e) || e is NoSuchJob || e is DuplicateStart,
    {
        begin_write(&self.conn)?;
        let r = self.log_start_in_transaction(job, cmd);
        end(&self.conn, r)
    }

    fn log_start_in_transaction(&self, job: JobId, cmd: Vec<Vec<u8>>) -> (r: Result<(), Error>)
        ensures
            r is Ok ==> exists|s: Store| s.wf() && s.start_allowed(job),
            r matches Err(Error::NoSuchJob) ==> exists|s: Store| s.wf() && !job_exists(s.jobs@, job),
            r matches Err(Error::DuplicateStart) ==> exists|s: Store|
                s.wf() && job_exists(s.jobs@, job) && has_event(s.starts@, job),
            r matches Err(e) ==> storage_failure(e) || e is NoSuchJob || e is DuplicateStart,
    {
        let mut store = load(&self.conn)?;
        let ghost before = store;
        store.log_start(job, cmd, now())?;
        self.insert_start(job, &store.starts[store.starts.len() - 1].1)?;
        assert(before.wf() && before.start_allowed(job));
        Ok(())
    }

    /// Stores the start event `st` of `job`.
    fn insert_start(&self, job: JobId, st: &Start) -> (r: Result<(), Error>)
        ensures
            r matches Err(e) ==> storage_failure(e),
    {
        let cmd = match st.cmd.encode() {
            Ok(b) => b,
            Err(e) => return Err(Error::Encoding(e)),
        };
        run_with(
            &self.conn,
            "INSERT INTO job_start (job, time, cmd) VALUES (?, ?, ?)",
            &start_params(job, st.time, cmd),
        )
    }

    /// Logs the finish of `job`, now, with outcome code `result`. Fails with `NoSuchJob` or
    /// `DuplicateFinish` as `Store::log_finish` decides; no start event is needed.
    pub fn log_finish(&mut self, job: JobId, result: i32) -> (r: Result<(), Error>)
        ensures
            r is Ok ==> exists|s: Store| s.wf() && s.finish_allowed(job),
            r matches Err(Error::NoSuchJob) ==> exists|s: Store| s.wf() && !job_exists(s.jobs@, job),
            r matches Err(Error::DuplicateFinish) ==> exists|s: Store|
                s.wf() && job_exists(s.jobs@, job) && has_event(s.finishes@, job),
            r matches Err(e) ==> storage_failure(e) || e is NoSuchJob || e is DuplicateFinish,
    {
        begin_write(&self.conn)?;
        let r = self.log_finish_in_transaction(job, result);
        end(&self.conn, r)
    }

    fn log_finish_in_transaction(&self, job: JobId, result: i32) -> (r: Result<(), Error>)
        ensures
            r is Ok ==> exists|s: Store| s.wf() && s.finish_allowed(job),
            r matches Err(Error::NoSuchJob) ==> exists|s: Store| s.wf() && !job_exists(s.jobs@, job),
            r matches Err(Error::DuplicateFinish) ==> exists|s: Store|
                s.wf() && job_exists(s.jobs@, job) && has_event(s.finishes@, job),
            r matches Err(e) ==> storage_failure(e) || e is NoSuchJob || e is DuplicateFinish,
    {
        let mut store = load(&self.conn)?;
        let ghost before = store;
        let time = now();
        store.log_finish(job, result, time)?;
        self.insert_finish(job, result, time)?;
        assert(before.wf() && before.finish_allowed(job));
        Ok(())
    }

    /// Stores a finish event of `job` without output.
    fn insert_finish(&self, job: JobId, result: i32, time: Time) -> (r: Result<(), Error>)
        ensures
            r matches Err(e) ==> storage_failure(e),
    {
        run_with(
            &self.conn,
            "INSERT INTO job_finish (job, result, time) VALUES (?, ?, ?)",
            &finish_params(job, result, time),
        )
    }

    /// Logs the start of the current job of `worker` and returns that job. Fails with
    /// `NoCurrentJob` where the worker never claimed one, and otherwise as `log_start` does.
    pub fn start_current(&mut self, worker: &str, cmd: Vec<Vec<u8>>) -> (r: Result<JobId, Error>)
        ensures
            r matches Err(Error::NoCurrentJob) ==> exists|s: Store| s.wf() && !has_claimed(s.jobs@, worker@),
            r matches Ok(job) ==> exists|s: Store, i: int|
                s.wf() && is_latest_of(s.jobs@, worker@, i) && #[trigger] s.jobs@[i].id == job
                    && !has_event(s.starts@, job),
            r matches Err(Error::DuplicateStart) ==> exists|s: Store, i: int|
                s.wf() && is_latest_of(s.jobs@, worker@, i) && has_event(s.starts@, #[trigger] s.jobs@[i].id),
            r matches Err(e) ==> storage_failure(e) || e is NoCurrentJob || e is DuplicateStart,
    {
        begin_write(&self.conn)?;
        let r = self.start_current_in_transaction(worker, cmd);
        end(&self.conn, r)
    }

    fn start_current_in_transaction(&self, worker: &str, cmd: Vec<Vec<u8>>) -> (r: Result<JobId, Error>)
        ensures
            r matches Err(Error::NoCurrentJob) ==> exists|s: Store| s.wf() && !has_claimed(s.jobs@, worker@),
            r matches Ok(job) ==> exists|s: Store, i: int|
                s.wf() && is_latest_of(s.jobs@, worker@, i) && #[trigger] s.jobs@[i].id == job
                    && !has_event(s.starts@, job),
            r matches Err(Error::DuplicateStart) ==> exists|s: Store, i: int|
                s.wf() && is_latest_of(s.jobs@, worker@, i) && has_event(s.starts@, #[trigger] s.jobs@[i].id),
            r matches Err(e) ==> storage_failure(e) || e is NoCurrentJob || e is DuplicateStart,
    {
        let mut store = load(&self.conn)?;
        let ghost before = store;
        let r = store.start_current(worker, cmd, now());
        proof {
            if has_claimed(before.jobs@, worker@) {
                let i = choose|i: int|
                    #![trigger before.jobs@[i]]
                    is_latest_of(before.jobs@, worker@, i) && {
                        let job = before.jobs@[i].id;
                        &&& r is Ok <==> !has_event(before.starts@, job)
                        &&& r is Ok ==> r == Ok::<JobId, Error>(job) && store.starts@ == before.starts@.push(
                            (job, Start { time: store.starts@.last().1.time, cmd: store.starts@.last().1.cmd }),
                        )
                        &&& r is Err ==> (r matches Err(Error::DuplicateStart)) && store.starts@
                            == before.starts@
                    };
                assert(is_latest_of(before.jobs@, worker@, i));
            }
        }
        let job = r?;
        self.insert_start(job, &store.starts[store.starts.len() - 1].1)?;
        Ok(job)
    }

    /// Logs the finish of the current job of `worker` and returns that job. Fails with
    /// `NoCurrentJob` where the worker never claimed one, and otherwise as `log_finish` does.
    pub fn finish_current(&mut self, worker: &str, result: i32) -> (r: Result<JobId, Error>)
        ensures
            r matches Err(Error::NoCurrentJob) ==> exists|s: Store| s.wf() && !has_claimed(s.jobs@, worker@),
            r matches Ok(job) ==> exists|s: Store, i: int|
                s.wf() && is_latest_of(s.jobs@, worker@, i) && #[trigger] s.jobs@[i].id == job
                    && !has_event(s.finishes@, job),
            r matches Err(Error::DuplicateFinish) ==> exists|s: Store, i: int|
                s.wf() && is_latest_of(s.jobs@, worker@, i) && has_event(s.finishes@, #[trigger] s.jobs@[i].id),
            r matches Err(e) ==> storage_failure(e) || e is NoCurrentJob || e is DuplicateFinish,
    {
        begin_write(&self.conn)?;
        let r = self.finish_current_in_transaction(worker, result);
        end(&self.conn, r)
    }

    fn finish_current_in_transaction(&self, worker: &str, result: i32) -> (r: Result<JobId, Error>)
        ensures
            r matches Err(Error::NoCurrentJob) ==> exists|s: Store| s.wf() && !has_claimed(s.jobs@, worker@),
            r matches Ok(job) ==> exists|s: Store, i: int|
                s.wf() && is_latest_of(s.jobs@, worker@, i) && #[trigger] s.jobs@[i].id == job
                    && !has_event(s.finishes@, job),
            r matches Err(Error::DuplicateFinish) ==> exists|s: Store, i: int|
                s.wf() && is_latest_of(s.jobs@, worker@, i) && has_event(s.finishes@, #[trigger] s.jobs@[i].id),
            r matches Err(e) ==> storage_failure(e) || e is NoCurrentJob || e is DuplicateFinish,
    {
        let mut store = load(&self.conn)?;
        let ghost before = store;
        let time = now();
        let r = store.finish_current(worker, result, time);
        let job = r?;
        self.insert_finish(job, result, time)?;
        Ok(job)
    }

    pub fn get_jobs(&mut self) -> (r: Result<Vec<JobId>, Error>)
        ensures
            r matches Ok(ids) ==> exists|s: Store| s.wf() && ids@ == job_ids(s.jobs@),
    {
        let store = snapshot(&self.conn)?;
        Ok(store.get_jobs())
    }

    /// The ids, in increasing order, of the jobs with a start event and no finish event.
    pub fn get_started_jobs(&mut self) -> (r: Result<Vec<JobId>, Error>)
        ensures
            r matches Ok(ids) ==> exists|s: Store|
                s.wf() && ids@ == running_ids(s.jobs@, s.starts@, s.finishes@),
    {
        let store = snapshot(&self.conn)?;
        Ok(store.get_started_jobs())
    }

    /// The worker holding `job`; `NoSuchJob` where no job has that id.
    pub fn get_job_worker(&self, job: JobId) -> (r: Result<String, Error>)
        ensures
            r matches Ok(w) ==> exists|s: Store, i: int|
                s.wf() && 0 <= i < s.jobs@.len() && #[trigger] s.jobs@[i].id == job && w@
                    == s.jobs@[i].worker@,
            r matches Err(Error::NoSuchJob) ==> exists|s: Store| s.wf() && !job_exists(s.jobs@, job),
    {
        let store = snapshot(&self.conn)?;
        match store.get_job_worker(job) {
            Some(w) => {
                proof {
                    let i = choose|i: int| 0 <= i < store.jobs@.len() && #[trigger] store.jobs@[i].id == job;
                    assert(w@ == store.jobs@[i].worker@);
                }
                Ok(w)
            },
            None => Err(Error::NoSuchJob),
        }
    }

    /// The start event of `job`, if it has one.
    pub fn get_job_start(&self, job: JobId) -> (r: Result<Option<Start>, Error>)
        ensures
            r matches Ok(Some(st)) ==> exists|s: Store, k: int|
                s.wf() && 0 <= k < s.starts@.len() && #[trigger] s.starts@[k].0 == job && same_start(
                    st,
                    s.starts@[k].1,
                ),
            r matches Ok(None) ==> exists|s: Store| s.wf() && !has_event(s.starts@, job),
    {
        let store = snapshot(&self.conn)?;
        let r = store.get_job_start(job);
        proof {
            if r is Some {
                let k = choose|k: int| 0 <= k < store.starts@.len() && #[trigger] store.starts@[k].0 == job;
                assert(same_start(r->0, store.starts@[k].1));
            }
        }
        Ok(r)
    }

    /// The finish event of `job`, if it has one.
    pub fn get_job_finish(&self, job: JobId) -> (r: Result<Option<Finish>, Error>)
        ensures
            r matches Ok(Some(f)) ==> exists|s: Store, k: int|
                s.wf() && 0 <= k < s.finishes@.len() && #[trigger] s.finishes@[k].0 == job
                    && same_finish(f, s.finishes@[k].1),
            r matches Ok(None) ==> exists|s: Store| s.wf() && !has_event(s.finishes@, job),
    {
        let store = snapshot(&self.conn)?;
        let r = store.get_job_finish(job);
        proof {
            if r is Some {
                let k = choose|k: int| 0 <= k < store.finishes@.len() && #[trigger] store.finishes@[k].0 == job;
                assert(same_finish(r->0, store.finishes@[k].1));
            }
        }
        Ok(r)
    }

    /// What is known of `job`; `NoSuchJob` where no job has that id.
    pub fn job_status(&self, job: JobId) -> (r: Result<JobStatus, Error>)
        ensures
            r matches Ok(st) ==> exists|s: Store, i: int|
                s.wf() && 0 <= i < s.jobs@.len() && #[trigger] s.jobs@[i].id == job && st.task
                    == s.jobs@[i].task && st.worker@ == s.jobs@[i].worker@ && st.is_latest
                    == is_latest_of(s.jobs@, s.jobs@[i].worker@, i),
            r matches Err(Error::NoSuchJob) ==> exists|s: Store| s.wf() && !job_exists(s.jobs@, job),
    {
        let store = snapshot(&self.conn)?;
        match store.job_status(job) {
            Some(st) => Ok(st),
            None => Err(Error::NoSuchJob),
        }
    }
}

} // verus!
