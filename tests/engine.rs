use jerbs::store::Store;
use jerbs::{Command, Error, Time};

const T: Time = Time(1_700_000_000);

#[test]
fn remaining_after_claims() {
    let mut s = Store::new();
    let id = s.new_job(b"task", 3, None).unwrap();
    let other = s.new_job(b"other", 10, Some(5)).unwrap();
    for n in 0..5u64 {
        assert_eq!(s.get_count(id), Some(3u64.saturating_sub(n)));
        s.take("w", T).unwrap();
    }
    assert_eq!(s.get_count(id), Some(0));
    assert_eq!(s.get_count(other), Some(8));
}

#[test]
fn duplicate_data_fails_whatever_count_and_priority() {
    let mut s = Store::new();
    s.new_job(b"payload", 1, None).unwrap();
    assert!(matches!(s.new_job(b"payload", 1, None), Err(Error::DuplicateData)));
    assert!(matches!(s.new_job(b"payload", 99, Some(-1)), Err(Error::DuplicateData)));
    assert_eq!(s.tasks.len(), 1);
}

#[test]
fn claims_never_exceed_desired_count() {
    let mut s = Store::new();
    let id = s.new_job(b"n", 4, None).unwrap();
    let mut handed = 0;
    for _ in 0..10 {
        if s.take("w", T).unwrap().is_some() {
            handed += 1;
        }
    }
    assert_eq!(handed, 4);
    assert_eq!(s.jobs.iter().filter(|j| j.task == id).count(), 4);
}

#[test]
fn empty_queue_has_no_work() {
    let mut s = Store::new();
    for _ in 0..3 {
        assert_eq!(s.take("w", T).unwrap(), None);
    }
    s.new_job(b"zero", 0, None).unwrap();
    s.new_job(b"one", 1, None).unwrap();
    assert_eq!(s.take("w", T).unwrap().unwrap().data, b"one".to_vec());
    for _ in 0..3 {
        assert_eq!(s.take("w", T).unwrap(), None);
    }
    assert_eq!(s.job_ids_vec(), Vec::<u32>::new());
}

#[test]
fn lower_priority_value_is_claimed_first() {
    let mut s = Store::new();
    s.new_job(b"A", 1, Some(-10)).unwrap();
    s.new_job(b"B", 1, None).unwrap();
    assert_eq!(s.take("w", T).unwrap().unwrap().data, b"A".to_vec());
    assert_eq!(s.take("w", T).unwrap().unwrap().data, b"B".to_vec());
}

#[test]
fn older_task_first_within_a_priority() {
    let mut s = Store::new();
    s.new_job(b"B", 1, None).unwrap();
    s.new_job(b"A", 1, Some(0)).unwrap();
    s.new_job(b"late", 1, Some(-1)).unwrap();
    let job = s.take("w", T).unwrap().unwrap();
    assert_eq!((job.id, job.data), (1, b"late".to_vec()));
    let job = s.take("w", T).unwrap().unwrap();
    assert_eq!((job.id, job.data), (2, b"B".to_vec()));
    let job = s.take("w", T).unwrap().unwrap();
    assert_eq!((job.id, job.data), (3, b"A".to_vec()));
}

#[test]
fn start_twice_fails_and_finish_needs_no_start() {
    let mut s = Store::new();
    s.new_job(b"x", 2, None).unwrap();
    s.take("w", T).unwrap();
    s.take("w", T).unwrap();
    s.log_start(1, vec![], T).unwrap();
    assert!(matches!(s.log_start(1, vec![], T), Err(Error::DuplicateStart)));
    s.log_finish(2, 0, T).unwrap();
    assert!(matches!(s.log_finish(2, 0, T), Err(Error::DuplicateFinish)));
    assert!(matches!(s.log_finish(3, 0, T), Err(Error::NoSuchJob)));
    assert_eq!(s.get_started_jobs(), vec![1]);
}

#[test]
fn one_shot_end_to_end() {
    let mut s = Store::new();
    let id = s.new_job(b"JOBDATA", 1, None).unwrap();
    let job = s.take("w1", T).unwrap().unwrap();
    assert_eq!(job.data, b"JOBDATA".to_vec());
    assert_eq!(s.take("w1", T).unwrap(), None);
    assert_eq!(s.get_count(id), Some(0));
}

#[test]
fn started_unfinished_end_to_end() {
    let mut s = Store::new();
    s.new_job(b"JOBDATA", 12, None).unwrap();
    s.take("w1", T).unwrap().unwrap();
    let job = s.current_job("w1").unwrap();
    s.log_start(job, vec![], T).unwrap();
    assert_eq!(s.get_started_jobs(), vec![job]);
    s.log_finish(job, 0, T).unwrap();
    assert!(s.get_started_jobs().is_empty());
}

#[test]
fn current_job_is_latest_claim() {
    let mut s = Store::new();
    s.new_job(b"x", 5, None).unwrap();
    assert_eq!(s.current_job("a"), None);
    s.take("a", T).unwrap();
    s.take("b", T).unwrap();
    s.take("a", T).unwrap();
    assert_eq!(s.current_job("a"), Some(3));
    assert_eq!(s.get_worker_latest_job("b"), Some(2));
    assert_eq!(s.get_jobs(), vec![1, 2, 3]);
    let st = s.job_status(1).unwrap();
    assert_eq!(st.worker, "a");
    assert!(!st.is_latest);
    assert!(s.job_status(3).unwrap().is_latest);
    assert!(s.job_status(4).is_none());
}

#[test]
fn current_worker_logging() {
    let mut s = Store::new();
    s.new_job(b"x", 5, None).unwrap();
    assert!(matches!(s.start_current("w", vec![], T), Err(Error::NoCurrentJob)));
    s.take("w", T).unwrap();
    assert_eq!(s.start_current("w", vec![b"ls".to_vec()], T).unwrap(), 1);
    assert!(matches!(s.start_current("w", vec![], T), Err(Error::DuplicateStart)));
    assert_eq!(s.finish_current("w", 3, Time(5)).unwrap(), 1);
    let f = s.get_job_finish(1).unwrap();
    assert_eq!((f.result, f.time), (3, Time(5)));
    assert_eq!(s.get_job_start(1).unwrap().cmd, Command(vec![b"ls".to_vec()]));
}

#[test]
fn adjusting_tasks() {
    let mut s = Store::new();
    let id = s.new_job(b"x", 2, None).unwrap();
    s.take("w", T).unwrap();
    s.add_count(id, -2).unwrap();
    assert_eq!(s.get_count(id), Some(0));
    assert_eq!(s.desired_count(id), Some(0));
    assert!(matches!(s.add_count(id, -1), Err(Error::CountOutOfRange)));
    s.add_count(id, 3).unwrap();
    assert_eq!(s.get_count(id), Some(2));
    s.set_priority(id, 4).unwrap();
    assert_eq!(s.get_priority(id), Some(4));
    assert!(matches!(s.set_priority(9, 4), Err(Error::NoSuchTask)));
    assert!(matches!(s.add_count(9, 4), Err(Error::NoSuchTask)));
    assert_eq!(s.get_data(id), Some(b"x".to_vec()));
    assert_eq!(s.get_data(9), None);
    let big = s.new_job(b"big", u64::MAX, None).unwrap();
    assert!(matches!(s.add_count(big, 1), Err(Error::CountOutOfRange)));
}

#[test]
fn ids_exhausted() {
    let mut s = Store::new();
    s.new_job(b"x", 2, None).unwrap();
    s.tasks[0].id = u32::MAX;
    assert!(matches!(s.new_job(b"y", 1, None), Err(Error::IdsExhausted)));
    s.take("w", T).unwrap();
    s.jobs[0].id = u32::MAX;
    assert!(matches!(s.take("w", T), Err(Error::IdsExhausted)));
    assert!(s.is_wf());
}

#[test]
fn well_formedness_check() {
    let mut s = Store::new();
    assert!(s.is_wf());
    s.new_job(b"x", 2, None).unwrap();
    s.new_job(b"y", 2, None).unwrap();
    assert!(s.is_wf());
    s.tasks[1].data = b"x".to_vec();
    assert!(!s.is_wf());
    s.tasks[1].data = b"y".to_vec();
    s.tasks[1].id = 1;
    assert!(!s.is_wf());
}
