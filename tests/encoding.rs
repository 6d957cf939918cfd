use jerbs::outcome::FAILED_TO_START;
use jerbs::{Command, Outcome};

#[test]
fn log_codes() {
    assert_eq!(Outcome::Exited(0).log_code(), 0);
    assert_eq!(Outcome::Exited(255).log_code(), 255);
    assert_eq!(Outcome::Signaled(9).log_code(), 265);
    assert_eq!(Outcome::FailedToStart.log_code(), 512);
    assert_eq!(FAILED_TO_START, 512);
}

#[test]
fn exit_statuses() {
    assert_eq!(Outcome::Exited(3).exit_status(), 3);
    assert_eq!(Outcome::Signaled(9).exit_status(), 137);
    assert_eq!(Outcome::FailedToStart.exit_status(), -1);
}

#[test]
fn log_codes_read_back() {
    assert_eq!(Outcome::from_log_code(1), Some(Outcome::Exited(1)));
    assert_eq!(Outcome::from_log_code(271), Some(Outcome::Signaled(15)));
    assert_eq!(Outcome::from_log_code(512), Some(Outcome::FailedToStart));
    assert_eq!(Outcome::from_log_code(256), None);
    assert_eq!(Outcome::from_log_code(-1), None);
}

#[test]
fn command_encoding() {
    let c = Command(vec![b"ab".to_vec(), vec![]]);
    let b = c.encode().unwrap();
    let mut expected = vec![2, 0, 0, 0, 0, 0, 0, 0];
    expected.extend_from_slice(&[2, 0, 0, 0, 0, 0, 0, 0, b'a', b'b']);
    expected.extend_from_slice(&[0; 8]);
    assert_eq!(b, expected);
    assert_eq!(Command::decode(&b).unwrap(), c);
    assert_eq!(Command(vec![]).encode().unwrap(), vec![0; 8]);
    assert!(Command::decode(&[1, 0]).is_err());
}
