//! The rows of the database tables, as read back into a `Store` and as written from it.
//!
//! Each table row is a sequence of cells. The spec functions here say which row stands for
//! which record; reading checks every row against them, and writing builds the parameters of
//! each statement from the record cell by cell.

use crate::codec::command_bytes;
use crate::error::Error;
use crate::records::{Assignment, Finish, JobId, Start, Task, TaskId, Time};
use crate::sqlite::{Cell, Param};
use crate::store::{args_view, copy_bytes, Store};
use vstd::prelude::*;

verus! {

/// Whether `c` holds the optional time `t`: its seconds, or null.
pub open spec fn time_cell(c: Cell, t: Option<Time>) -> bool {
    match t {
        Some(t) => c == Cell::Integer(t.0),
        None => c == Cell::Null,
    }
}

/// Whether `c` is a blob holding `b`.
pub open spec fn blob_cell(c: Cell, b: Seq<u8>) -> bool {
    c matches Cell::Blob(x) && x@ == b
}

/// Whether `row` is the row `id, count, data, priority` of task `t`.
pub open spec fn task_row(t: Task, row: Seq<Cell>) -> bool {
    &&& row.len() == 4
    &&& t.count <= i64::MAX
    &&& row[0] == Cell::Integer(t.id as i64)
    &&& row[1] == Cell::Integer(t.count as i64)
    &&& blob_cell(row[2], t.data@)
    &&& match t.priority {
        Some(p) => row[3] == Cell::Integer(p as i64),
        None => row[3] == Cell::Null,
    }
}

/// Whether `row` is the row `id, task, time, worker` of job `a`.
pub open spec fn job_row(a: Assignment, row: Seq<Cell>) -> bool {
    &&& row.len() == 4
    &&& row[0] == Cell::Integer(a.id as i64)
    &&& row[1] == Cell::Integer(a.task as i64)
    &&& time_cell(row[2], a.time)
    &&& row[3] matches Cell::Text(w) && w@ == a.worker@
}

/// Whether `row` stands for some task.
pub open spec fn stands_for_task(row: Seq<Cell>) -> bool {
    exists|t: Task| task_row(t, row)
}

/// Whether `row` stands for some job.
pub open spec fn stands_for_job(row: Seq<Cell>) -> bool {
    exists|a: Assignment| job_row(a, row)
}

/// Whether `row` is the row `job, time, cmd` of the start event `st` of `job`: the command
/// cell begins with the stored form of the command.
pub open spec fn start_row(job: JobId, st: Start, row: Seq<Cell>) -> bool {
    &&& row.len() == 3
    &&& row[0] == Cell::Integer(job as i64)
    &&& row[1] == Cell::Integer(st.time.0)
    &&& row[2] matches Cell::Blob(b) && {
        let stored = command_bytes(args_view(st.cmd.0@));
        stored.len() <= b@.len() && b@.subrange(0, stored.len() as int) == stored
    }
}

/// Whether `row` is the row `job, result, time, data` of the finish event `f` of `job`.
pub open spec fn finish_row(job: JobId, f: Finish, row: Seq<Cell>) -> bool {
    &&& row.len() == 4
    &&& row[0] == Cell::Integer(job as i64)
    &&& row[1] == Cell::Integer(f.result as i64)
    &&& row[2] == Cell::Integer(f.time.0)
    &&& match f.data {
        Some(d) => blob_cell(row[3], d@),
        None => row[3] == Cell::Null,
    }
}

/// The id in `c`, if it holds an integer in the range of ids.
fn id_of(c: &Cell) -> (r: Option<u32>)
    ensures
        r matches Some(v) ==> *c == Cell::Integer(v as i64),
        r is None ==> !(*c matches Cell::Integer(x) && 0 <= x <= u32::MAX),
{
    match c {
        Cell::Integer(v) if 0 <= *v && *v <= u32::MAX as i64 => Some(*v as u32),
        _ => None,
    }
}

/// The task that `row` stands for, if any.
pub fn task_of_row(row: &Vec<Cell>) -> (r: Option<Task>)
    ensures
        r matches Some(t) ==> task_row(t, row@),
        r is None ==> !stands_for_task(row@),
{
    if row.len() != 4 {
        return None;
    }
    let id = id_of(&row[0])?;
    let count = match &row[1] {
        Cell::Integer(c) if *c >= 0 => *c as u64,
        _ => return None,
    };
    let data = match &row[2] {
        Cell::Blob(b) => copy_bytes(b.as_slice()),
        _ => return None,
    };
    let priority = match &row[3] {
        Cell::Null => None,
        Cell::Integer(p) if i32::MIN as i64 <= *p && *p <= i32::MAX as i64 => Some(*p as i32),
        _ => return None,
    };
    Some(Task { id, count, data, priority })
}

/// The job that `row` stands for, if any.
pub fn job_of_row(row: &Vec<Cell>) -> (r: Option<Assignment>)
    ensures
        r matches Some(a) ==> job_row(a, row@),
        r is None ==> !stands_for_job(row@),
{
    if row.len() != 4 {
        return None;
    }
    let id = id_of(&row[0])?;
    let task = id_of(&row[1])?;
    let time = match &row[2] {
        Cell::Null => None,
        Cell::Integer(t) => Some(Time(*t)),
        _ => return None,
    };
    let worker = match &row[3] {
        Cell::Text(w) => w.clone(),
        _ => return None,
    };
    Some(Assignment { id, task, worker, time })
}

/// The start event that `row` stands for. Fails with `Encoding` where the command cannot be
/// read back, and with `Corrupt` where the row has another shape.
pub fn start_of_row(row: &Vec<Cell>) -> (r: Result<(JobId, Start), Error>)
    ensures
        r matches Ok((job, st)) ==> start_row(job, st, row@),
        r matches Err(e) ==> e is Corrupt || e is Encoding,
{
    if row.len() != 3 {
        return Err(Error::Corrupt);
    }
    let job = match id_of(&row[0]) {
        Some(j) => j,
        None => return Err(Error::Corrupt),
    };
    let time = match &row[1] {
        Cell::Integer(t) => Time(*t),
        _ => return Err(Error::Corrupt),
    };
    let cmd = match &row[2] {
        Cell::Blob(b) => match crate::records::Command::decode(b.as_slice()) {
            Ok(c) => c,
            Err(e) => return Err(Error::Encoding(e)),
        },
        _ => return Err(Error::Corrupt),
    };
    Ok((job, Start { time, cmd }))
}

/// The finish event that `row` stands for, if any.
pub fn finish_of_row(row: &Vec<Cell>) -> (r: Option<(JobId, Finish)>)
    ensures
        r matches Some((job, f)) ==> finish_row(job, f, row@),
        r is None ==> forall|job: JobId, f: Finish| !finish_row(job, f, row@),
{
    if row.len() != 4 {
        return None;
    }
    let job = id_of(&row[0])?;
    let result = match &row[1] {
        Cell::Integer(v) if i32::MIN as i64 <= *v && *v <= i32::MAX as i64 => *v as i32,
        _ => return None,
    };
    let time = match &row[2] {
        Cell::Integer(t) => Time(*t),
        _ => return None,
    };
    let data = match &row[3] {
        Cell::Null => None,
        Cell::Blob(b) => Some(copy_bytes(b.as_slice())),
        _ => return None,
    };
    Some((job, Finish { result, time, data }))
}

/// The queue that the rows of the four tables stand for, record by record in row order.
/// Fails with `Corrupt` where a row stands for no record or the records do not form a
/// well-formed queue, and with `Encoding` where a stored command cannot be read back.
pub fn store_of_rows(
    task_rows: &Vec<Vec<Cell>>,
    job_rows: &Vec<Vec<Cell>>,
    start_rows: &Vec<Vec<Cell>>,
    finish_rows: &Vec<Vec<Cell>>,
) -> (r: Result<Store, Error>)
    ensures
        r matches Ok(s) ==> {
            &&& s.wf()
            &&& s.tasks@.len() == task_rows@.len()
            &&& forall|i: int| 0 <= i < task_rows@.len() ==> task_row(s.tasks@[i], #[trigger] task_rows@[i]@)
            &&& s.jobs@.len() == job_rows@.len()
            &&& forall|i: int| 0 <= i < job_rows@.len() ==> job_row(s.jobs@[i], #[trigger] job_rows@[i]@)
            &&& s.starts@.len() == start_rows@.len()
            &&& forall|i: int|
                0 <= i < start_rows@.len() ==> start_row(s.starts@[i].0, s.starts@[i].1, #[trigger] start_rows@[i]@)
            &&& s.finishes@.len() == finish_rows@.len()
            &&& forall|i: int|
                0 <= i < finish_rows@.len() ==> finish_row(s.finishes@[i].0, s.finishes@[i].1, #[trigger] finish_rows@[i]@)
        },
        r matches Err(e) ==> e is Corrupt || e is Encoding,
        (exists|k: int| 0 <= k < task_rows@.len() && !stands_for_task(#[trigger] task_rows@[k]@))
            ==> r is Err,
        (exists|k: int| 0 <= k < job_rows@.len() && !stands_for_job(#[trigger] job_rows@[k]@))
            ==> r is Err,
{
    let mut s = Store::new();
    let mut i: usize = 0;
    while i < task_rows.len()
        invariant
            i <= task_rows@.len(),
            s.tasks@.len() == i,
            forall|k: int| 0 <= k < i ==> task_row(s.tasks@[k], #[trigger] task_rows@[k]@),
            s.jobs@.len() == 0 && s.starts@.len() == 0 && s.finishes@.len() == 0,
        decreases task_rows@.len() - i,
    {
        match task_of_row(&task_rows[i]) {
            Some(t) => s.tasks.push(t),
            None => return Err(Error::Corrupt),
        }
        i += 1;
    }
    let mut i: usize = 0;
    while i < job_rows.len()
        invariant
            i <= job_rows@.len(),
            s.tasks@.len() == task_rows@.len(),
            forall|k: int| 0 <= k < task_rows@.len() ==> task_row(s.tasks@[k], #[trigger] task_rows@[k]@),
            s.jobs@.len() == i,
            forall|k: int| 0 <= k < i ==> job_row(s.jobs@[k], #[trigger] job_rows@[k]@),
            s.starts@.len() == 0 && s.finishes@.len() == 0,
        decreases job_rows@.len() - i,
    {
        match job_of_row(&job_rows[i]) {
            Some(a) => s.jobs.push(a),
            None => return Err(Error::Corrupt),
        }
        i += 1;
    }
    let mut i: usize = 0;
    while i < start_rows.len()
        invariant
            i <= start_rows@.len(),
            s.tasks@.len() == task_rows@.len(),
            forall|k: int| 0 <= k < task_rows@.len() ==> task_row(s.tasks@[k], #[trigger] task_rows@[k]@),
            s.jobs@.len() == job_rows@.len(),
            forall|k: int| 0 <= k < job_rows@.len() ==> job_row(s.jobs@[k], #[trigger] job_rows@[k]@),
            s.starts@.len() == i,
            forall|k: int| 0 <= k < i ==> start_row(s.starts@[k].0, s.starts@[k].1, #[trigger] start_rows@[k]@),
            s.finishes@.len() == 0,
        decreases start_rows@.len() - i,
    {
        let st = start_of_row(&start_rows[i])?;
        s.starts.push(st);
        i += 1;
    }
    let mut i: usize = 0;
    while i < finish_rows.len()
        invariant
            i <= finish_rows@.len(),
            s.tasks@.len() == task_rows@.len(),
            forall|k: int| 0 <= k < task_rows@.len() ==> task_row(s.tasks@[k], #[trigger] task_rows@[k]@),
            s.jobs@.len() == job_rows@.len(),
            forall|k: int| 0 <= k < job_rows@.len() ==> job_row(s.jobs@[k], #[trigger] job_rows@[k]@),
            s.starts@.len() == start_rows@.len(),
            forall|k: int|
                0 <= k < start_rows@.len() ==> start_row(s.starts@[k].0, s.starts@[k].1, #[trigger] start_rows@[k]@),
            s.finishes@.len() == i,
            forall|k: int| 0 <= k < i ==> finish_row(s.finishes@[k].0, s.finishes@[k].1, #[trigger] finish_rows@[k]@),
        decreases finish_rows@.len() - i,
    {
        match finish_of_row(&finish_rows[i]) {
            Some(f) => s.finishes.push(f),
            None => return Err(Error::Corrupt),
        }
        i += 1;
    }
    if s.is_wf() {
        assert forall|k: int| 0 <= k < task_rows@.len() implies stands_for_task(
            #[trigger] task_rows@[k]@,
        ) by {
            assert(task_row(s.tasks@[k], task_rows@[k]@));
        }
        assert forall|k: int| 0 <= k < job_rows@.len() implies stands_for_job(
            #[trigger] job_rows@[k]@,
        ) by {
            assert(job_row(s.jobs@[k], job_rows@[k]@));
        }
        Ok(s)
    } else {
        Err(Error::Corrupt)
    }
}

/// The parameters writing layout version `v`.
pub fn version_params(v: i64) -> (r: Vec<Param>)
    ensures
        r@ == seq![Param::Integer(v)],
{
    let mut r: Vec<Param> = Vec::new();
    r.push(Param::Integer(v));
    r
}

/// The parameters `id, count, data, priority` writing task `t`.
pub fn task_params(t: &Task) -> (r: Vec<Param>)
    requires
        t.count <= i64::MAX,
    ensures
        r@.len() == 4,
        r@[0] == Param::Integer(t.id as i64),
        r@[1] == Param::Integer(t.count as i64),
        r@[2] matches Param::Blob(b) && b@ == t.data@,
        r@[3] == match t.priority {
            Some(p) => Param::Integer(p as i64),
            None => Param::Null,
        },
{
    let mut r: Vec<Param> = Vec::new();
    r.push(Param::Integer(t.id as i64));
    r.push(Param::Integer(t.count as i64));
    r.push(Param::Blob(copy_bytes(t.data.as_slice())));
    r.push(
        match t.priority {
            Some(p) => Param::Integer(p as i64),
            None => Param::Null,
        },
    );
    r
}

/// The parameters `id, task, time, worker` writing job `a`.
pub fn job_params(a: &Assignment) -> (r: Vec<Param>)
    ensures
        r@.len() == 4,
        r@[0] == Param::Integer(a.id as i64),
        r@[1] == Param::Integer(a.task as i64),
        r@[2] == match a.time {
            Some(t) => Param::Integer(t.0),
            None => Param::Null,
        },
        r@[3] matches Param::Text(w) && w@ == a.worker@,
{
    let mut r: Vec<Param> = Vec::new();
    r.push(Param::Integer(a.id as i64));
    r.push(Param::Integer(a.task as i64));
    r.push(
        match a.time {
            Some(t) => Param::Integer(t.0),
            None => Param::Null,
        },
    );
    r.push(Param::Text(a.worker.clone()));
    r
}

/// The parameters `job, time, cmd` writing a start event whose command is stored as `cmd`.
pub fn start_params(job: JobId, time: Time, cmd: Vec<u8>) -> (r: Vec<Param>)
    ensures
        r@ == seq![Param::Integer(job as i64), Param::Integer(time.0), Param::Blob(cmd)],
{
    let mut r: Vec<Param> = Vec::new();
    r.push(Param::Integer(job as i64));
    r.push(Param::Integer(time.0));
    r.push(Param::Blob(cmd));
    r
}

/// The parameters `job, result, time` writing a finish event without output.
pub fn finish_params(job: JobId, result: i32, time: Time) -> (r: Vec<Param>)
    ensures
        r@ == seq![Param::Integer(job as i64), Param::Integer(result as i64), Param::Integer(time.0)],
{
    let mut r: Vec<Param> = Vec::new();
    r.push(Param::Integer(job as i64));
    r.push(Param::Integer(result as i64));
    r.push(Param::Integer(time.0));
    r
}

/// The parameters `value, id` updating one column of task `id`.
pub fn task_update_params(value: i64, id: TaskId) -> (r: Vec<Param>)
    ensures
        r@ == seq![Param::Integer(value), Param::Integer(id as i64)],
{
    let mut r: Vec<Param> = Vec::new();
    r.push(Param::Integer(value));
    r.push(Param::Integer(id as i64));
    r
}

} // verus!
