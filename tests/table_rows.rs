use jerbs::db::version_of_rows;
use jerbs::rows::{
    finish_of_row, finish_params, job_of_row, start_of_row, start_params, store_of_rows,
    task_of_row, task_params, task_update_params, version_params,
};
use jerbs::sqlite::{Cell, Param};
use jerbs::{Command, Error, Task, Time};

fn integer(v: i64) -> Cell {
    Cell::Integer(v)
}

#[test]
fn task_rows_read_cell_by_cell() {
    let t = task_of_row(&vec![integer(3), integer(7), Cell::Blob(b"x".to_vec()), Cell::Null]).unwrap();
    assert_eq!((t.id, t.count, t.data, t.priority), (3, 7, b"x".to_vec(), None));
    let t = task_of_row(&vec![integer(3), integer(7), Cell::Blob(vec![]), integer(-4)]).unwrap();
    assert_eq!(t.priority, Some(-4));
    assert!(task_of_row(&vec![integer(3), integer(-1), Cell::Blob(vec![]), Cell::Null]).is_none());
    assert!(task_of_row(&vec![integer(3), integer(1), Cell::Text("x".to_string()), Cell::Null]).is_none());
    assert!(task_of_row(&vec![integer(3), integer(1), Cell::Blob(vec![])]).is_none());
}

#[test]
fn job_and_finish_rows() {
    let a = job_of_row(&vec![integer(2), integer(1), Cell::Null, Cell::Text("w".to_string())]).unwrap();
    assert_eq!((a.id, a.task, a.time, a.worker.as_str()), (2, 1, None, "w"));
    assert!(job_of_row(&vec![integer(2), integer(1), Cell::Null, Cell::Blob(vec![])]).is_none());
    let (job, f) = finish_of_row(&vec![integer(2), integer(265), integer(9), Cell::Null]).unwrap();
    assert_eq!((job, f.result, f.time, f.data), (2, 265, Time(9), None));
    assert!(finish_of_row(&vec![integer(2), integer(1i64 << 40), integer(9), Cell::Null]).is_none());
}

#[test]
fn start_rows_decode_the_command() {
    let stored = Command(vec![b"ls".to_vec()]).encode().unwrap();
    let (job, st) = start_of_row(&vec![integer(5), integer(11), Cell::Blob(stored)]).unwrap();
    assert_eq!((job, st.time, st.cmd), (5, Time(11), Command(vec![b"ls".to_vec()])));
    assert!(matches!(start_of_row(&vec![integer(5), integer(11), Cell::Blob(vec![1])]), Err(Error::Encoding(_))));
    assert!(matches!(start_of_row(&vec![integer(5), Cell::Null, Cell::Blob(vec![])]), Err(Error::Corrupt)));
}

#[test]
fn rows_form_a_store() {
    let tasks = vec![vec![integer(1), integer(2), Cell::Blob(b"a".to_vec()), Cell::Null]];
    let jobs = vec![vec![integer(1), integer(1), integer(4), Cell::Text("w".to_string())]];
    let s = store_of_rows(&tasks, &jobs, &vec![], &vec![]).unwrap();
    assert_eq!(s.get_count(1), Some(1));
    let dangling = vec![vec![integer(1), integer(9), integer(4), Cell::Text("w".to_string())]];
    assert!(matches!(store_of_rows(&tasks, &dangling, &vec![], &vec![]), Err(Error::Corrupt)));
    let twice = vec![tasks[0].clone(), vec![integer(2), integer(2), Cell::Blob(b"a".to_vec()), Cell::Null]];
    assert!(matches!(store_of_rows(&twice, &vec![], &vec![], &vec![]), Err(Error::Corrupt)));
}

#[test]
fn statement_parameters() {
    assert!(matches!(version_params(2).as_slice(), [Param::Integer(2)]));
    let t = Task { id: 4, count: 3, data: b"d".to_vec(), priority: Some(-2) };
    let p = task_params(&t);
    assert!(matches!(p.as_slice(), [Param::Integer(4), Param::Integer(3), Param::Blob(b), Param::Integer(-2)] if b == b"d"));
    assert!(matches!(finish_params(7, 512, Time(9)).as_slice(), [Param::Integer(7), Param::Integer(512), Param::Integer(9)]));
    assert!(matches!(start_params(7, Time(9), vec![1]).as_slice(), [Param::Integer(7), Param::Integer(9), Param::Blob(b)] if b == &vec![1u8]));
    assert!(matches!(task_update_params(-1, 3).as_slice(), [Param::Integer(-1), Param::Integer(3)]));
}

#[test]
fn version_rows() {
    assert_eq!(version_of_rows(&vec![vec![integer(2)]]), Some(2));
    assert_eq!(version_of_rows(&vec![vec![integer(2)], vec![integer(3)]]), None);
    assert_eq!(version_of_rows(&vec![vec![Cell::Null]]), None);
}
