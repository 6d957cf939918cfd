use jerbs::db::Db;
use jerbs::Error;
use rusqlite::Connection;

fn fresh() -> Db {
    Db::create_from_conn(Connection::open_in_memory().unwrap()).unwrap()
}

#[test]
fn db_test_init_twice() -> Result<(), Error> {
    let conn = Connection::open_in_memory().unwrap();
    let db1 = Db::create_from_conn(conn)?;
    let result = Db::create_from_conn(db1.into_connection());
    assert!(result.is_err());
    Ok(())
}

#[test]
fn lib_test_init_twice() -> Result<(), Error> {
    let conn = Connection::open_in_memory().unwrap();
    let db1 = Db::create_from_conn(conn)?;
    let result = Db::create_from_conn(db1.into_connection());
    assert!(result.is_err());
    Ok(())
}

#[test]
fn db_test_db_too_new() -> Result<(), Error> {
    let conn = Connection::open_in_memory().unwrap();
    let db = Db::create_from_conn(conn)?;
    let conn = db.into_connection();
    conn.execute("UPDATE meta SET version = ?", [std::i32::MAX]).unwrap();
    let result = Db::open_from_conn(conn);
    assert!(result.is_err());
    Ok(())
}

#[test]
fn lib_test_db_too_new() -> Result<(), Error> {
    let conn = Connection::open_in_memory().unwrap();
    let db = Db::create_from_conn(conn)?;
    let conn = db.into_connection();
    conn.execute("UPDATE meta SET version = ?", [std::i32::MAX]).unwrap();
    let result = Db::open_from_conn(conn);
    assert!(matches!(result, Err(Error::DbTooNew { db_version }) if db_version == i32::MAX as i64));
    Ok(())
}

#[test]
fn db_test_job() -> Result<(), Error> {
    let mut db = fresh();

    // insert a job
    const BLOB: &[u8] = b"foo bar";
    const INITIAL_COUNT: u64 = 2;
    let id = db.new_job(BLOB, INITIAL_COUNT, None)?;

    // make sure it's inserted
    let ids = db.job_ids_vec()?;
    assert_eq!(ids.len(), 1);
    assert_eq!(ids[0], id);

    // make sure it's inserted correctly
    let blob = db.get_data(id)?;
    assert_eq!(&blob, BLOB);
    let count = db.get_count(id)?;
    assert_eq!(count, INITIAL_COUNT);

    // check that take() works
    let blob = db.take("some worker id")?.unwrap().data;
    assert_eq!(&blob, BLOB);
    assert_eq!(db.get_count(id)?, 1);
    let blob = db.take("some worker id")?.unwrap().data;
    assert_eq!(&blob, BLOB);
    assert_eq!(db.get_count(id)?, 0);
    let result = db.take("some worker id")?;
    assert_eq!(result, None);
    assert_eq!(db.get_count(id)?, 0);
    assert_eq!(db.job_ids_vec()?.len(), 0);
    Ok(())
}

#[test]
fn lib_test_job() -> Result<(), Error> {
    let mut db = fresh();

    // insert a job
    const BLOB: &[u8] = b"foo bar";
    const INITIAL_COUNT: u64 = 2;
    let id = db.new_job(BLOB, INITIAL_COUNT, None)?;

    // make sure it's inserted
    let ids = db.job_ids_vec()?;
    assert_eq!(ids.len(), 1);
    assert_eq!(ids[0], id);

    // make sure it's inserted correctly
    let blob = db.get_data(id)?;
    assert_eq!(&blob, BLOB);
    let count = db.get_count(id)?;
    assert_eq!(count, INITIAL_COUNT);

    // check that take() works
    let job = db.take("some worker id")?.unwrap();
    assert_eq!(job.id, 1);
    assert_eq!(&job.data, BLOB);
    assert_eq!(db.get_count(id)?, 1);
    let job = db.take("some worker id")?.unwrap();
    assert_eq!(job.id, 2);
    assert_eq!(&job.data, BLOB);
    assert_eq!(db.get_count(id)?, 0);
    let job = db.take("some worker id")?;
    assert_eq!(job, None);
    assert_eq!(db.get_count(id)?, 0);
    assert_eq!(db.job_ids_vec()?.len(), 0);
    Ok(())
}

#[test]
fn test_job_collision() -> Result<(), Error> {
    let mut db = fresh();

    // insert a job
    const BLOB: &[u8] = b"foo bar";
    db.new_job(BLOB, 3, None)?;

    // try to insert another job with the same blob
    let secondtime = db.new_job(BLOB, 0, None);
    assert!(secondtime.is_err());
    Ok(())
}

#[test]
fn test_logging() -> Result<(), Error> {
    let mut db = fresh();

    // insert a job
    const BLOB: &[u8] = b"foo bar";
    const INITIAL_COUNT: u64 = 12;
    db.new_job(BLOB, INITIAL_COUNT, None)?;

    assert_eq!(db.get_started_jobs()?.len(), 0);
    let job = db.take("worker id")?.unwrap();
    assert_eq!(db.get_started_jobs()?.len(), 0);
    db.log_start(job.id, vec![])?;
    assert_eq!(db.get_started_jobs()?.len(), 1);
    db.log_finish(job.id, 0)?;
    assert_eq!(db.get_started_jobs()?.len(), 0);
    Ok(())
}

#[test]
fn test_priority() -> Result<(), Error> {
    let mut db = fresh();

    // some job creation
    db.new_job(b"default group", 1, None)?;
    db.new_job(b"firstgroup 0", 2, Some(-10))?;
    db.new_job(b"firstgroup 1", 1, Some(-10))?;

    // should round-robin through the lowest-priority group
    let job = db.take("worker id")?.unwrap();
    assert_eq!((job.id, job.data), (1, b"firstgroup 0".to_vec()));
    let job = db.take("worker id")?.unwrap();
    assert_eq!((job.id, job.data), (2, b"firstgroup 0".to_vec()));
    let job = db.take("worker id")?.unwrap();
    assert_eq!((job.id, job.data), (3, b"firstgroup 1".to_vec()));

    // then do the mid-priority group
    let job = db.take("worker id")?.unwrap();
    assert_eq!((job.id, job.data), (4, b"default group".to_vec()));
    Ok(())
}

#[test]
fn test_order() -> Result<(), Error> {
    let mut db = fresh();

    db.new_job(b"firstgroup 0", 2, Some(-10))?;
    db.new_job(b"firstgroup 1", 1, Some(-10))?;

    let job = db.take("worker id")?.unwrap();
    assert_eq!((job.id, job.data), (1, b"firstgroup 0".to_vec()));
    let job = db.take("worker id")?.unwrap();
    assert_eq!((job.id, job.data), (2, b"firstgroup 0".to_vec()));
    let job = db.take("worker id")?.unwrap();
    assert_eq!((job.id, job.data), (3, b"firstgroup 1".to_vec()));
    Ok(())
}

#[test]
fn db_one_shot_task_end_to_end() -> Result<(), Error> {
    let mut db = fresh();
    let id = db.new_job(b"JOBDATA", 1, None)?;
    let job = db.take("w1")?.unwrap();
    assert_eq!(job.data, b"JOBDATA".to_vec());
    assert_eq!(db.current_job("w1")?, Some(job.id));
    assert_eq!(db.take("w1")?, None);
    assert_eq!(db.get_count(id)?, 0);
    Ok(())
}

#[test]
fn db_start_finish_end_to_end() -> Result<(), Error> {
    let mut db = fresh();
    db.new_job(b"JOBDATA", 12, None)?;
    let job = db.take("w1")?.unwrap();
    let current = db.current_job("w1")?.unwrap();
    assert_eq!(current, job.id);
    db.log_start(current, vec![])?;
    assert_eq!(db.get_started_jobs()?, vec![current]);
    db.log_finish(current, 0)?;
    assert_eq!(db.get_started_jobs()?, Vec::<u32>::new());
    assert_eq!(job.id, 1);
    Ok(())
}

#[test]
fn db_duplicate_start_and_finish() -> Result<(), Error> {
    let mut db = fresh();
    db.new_job(b"JOBDATA", 2, None)?;
    db.take("w1")?.unwrap();
    let job = db.current_job("w1")?.unwrap();
    db.log_finish(job, 0)?;
    assert!(matches!(db.log_finish(job, 1), Err(Error::DuplicateFinish)));
    db.log_start(job, vec![b"true".to_vec()])?;
    assert!(matches!(db.log_start(job, vec![]), Err(Error::DuplicateStart)));
    assert!(matches!(db.log_start(99, vec![]), Err(Error::NoSuchJob)));
    Ok(())
}

#[test]
fn db_worker_without_job_cannot_log() -> Result<(), Error> {
    let mut db = fresh();
    db.new_job(b"JOBDATA", 12, None)?;
    assert!(matches!(db.start_current("WORKERDATA1", vec![]), Err(Error::NoCurrentJob)));
    assert!(matches!(db.finish_current("WORKERDATA1", 0), Err(Error::NoCurrentJob)));
    db.take("WORKERDATA1")?.unwrap();
    let job = db.start_current("WORKERDATA1", vec![])?;
    assert_eq!(db.finish_current("WORKERDATA1", 0)?, job);
    assert!(matches!(db.start_current("WORKERDATA1", vec![]), Err(Error::DuplicateStart)));
    assert!(matches!(db.finish_current("WORKERDATA1", 0), Err(Error::DuplicateFinish)));
    db.take("WORKERDATA1")?.unwrap();
    assert_eq!(db.start_current("WORKERDATA1", vec![b"true".to_vec()])?, job + 1);
    Ok(())
}

#[test]
fn db_events_round_trip() -> Result<(), Error> {
    let mut db = fresh();
    db.new_job(b"JOBDATA", 3, None)?;
    db.take("w1")?.unwrap();
    db.take("w2")?.unwrap();
    db.log_start(1, vec![b"echo".to_vec(), vec![0xff, 0x00]])?;
    db.log_finish(1, 256 + 9)?;
    let start = db.get_job_start(1)?.unwrap();
    assert_eq!(start.cmd.0, vec![b"echo".to_vec(), vec![0xff, 0x00]]);
    let finish = db.get_job_finish(1)?.unwrap();
    assert_eq!(finish.result, 265);
    assert_eq!(finish.data, None);
    assert!(db.get_job_start(2)?.is_none());
    assert_eq!(db.get_job_worker(2)?, "w2");
    assert!(matches!(db.get_job_worker(3), Err(Error::NoSuchJob)));
    let status = db.job_status(1)?;
    assert_eq!(status.worker, "w1");
    assert!(status.is_latest);
    assert!(status.start.is_some() && status.finish.is_some());
    assert_eq!(db.get_jobs()?, vec![1, 2]);
    Ok(())
}

#[test]
fn db_modify_task() -> Result<(), Error> {
    let mut db = fresh();
    let a = db.new_job(b"a", 1, None)?;
    let b = db.new_job(b"b", 1, None)?;
    db.set_priority(b, -5)?;
    assert_eq!(db.get_priority(b)?, -5);
    assert_eq!(db.get_priority(a)?, 0);
    db.add_count(a, 4)?;
    assert_eq!(db.get_count(a)?, 5);
    assert!(matches!(db.add_count(a, -6), Err(Error::CountOutOfRange)));
    assert!(matches!(db.add_count(7, 1), Err(Error::NoSuchTask)));
    assert!(matches!(db.set_priority(7, 1), Err(Error::NoSuchTask)));
    assert_eq!(db.take("w")?.unwrap().data, b"b".to_vec());
    assert!(matches!(db.get_data(7), Err(Error::NoSuchTask)));
    assert!(matches!(db.get_count(7), Err(Error::NoSuchTask)));
    Ok(())
}

#[test]
fn db_duplicate_data_rejected_regardless_of_count_and_priority() -> Result<(), Error> {
    let mut db = fresh();
    db.new_job(b"same", 1, None)?;
    assert!(matches!(db.new_job(b"same", 5, Some(-3)), Err(Error::DuplicateData)));
    assert!(matches!(db.new_job(b"same", 0, Some(7)), Err(Error::DuplicateData)));
    assert!(matches!(db.new_job(b"other", u64::MAX, None), Err(Error::CountOutOfRange)));
    Ok(())
}

#[test]
fn db_upgrade_from_first_layout() -> Result<(), Error> {
    let conn = Connection::open_in_memory().unwrap();
    conn.execute("CREATE TABLE meta (version INTEGER)", []).unwrap();
    conn.execute("CREATE TABLE job (id INTEGER PRIMARY KEY, count INTEGER NOT NULL, data BLOB NOT NULL UNIQUE)", []).unwrap();
    conn.execute("CREATE TABLE worker (id INTEGER PRIMARY KEY, job REFERENCES job, data BLOB NOT NULL)", []).unwrap();
    conn.execute("INSERT INTO meta VALUES (1)", []).unwrap();
    conn.execute("INSERT INTO job (id, count, data) VALUES (1, 3, X'6162')", []).unwrap();
    conn.execute("INSERT INTO worker (id, job, data) VALUES (1, 1, X'7731')", []).unwrap();
    let mut db = Db::open_from_conn(conn)?;
    assert_eq!(db.get_count(1)?, 2);
    assert_eq!(db.get_data(1)?, b"ab".to_vec());
    assert_eq!(db.get_job_worker(1)?, "w1");
    let job = db.take("w2")?.unwrap();
    assert_eq!((job.id, job.data), (2, b"ab".to_vec()));
    assert_eq!(db.current_job("w2")?, Some(2));
    Ok(())
}

#[test]
fn db_unknown_old_version_rejected() -> Result<(), Error> {
    let db = fresh();
    let conn = db.into_connection();
    conn.execute("UPDATE meta SET version = 0", []).unwrap();
    assert!(matches!(Db::open_from_conn(conn), Err(Error::UnknownVersion { db_version: 0 })));
    Ok(())
}
