use jj_vine::process::{keep_waiting, watch_step, CappedBuffer, ChildState, RawOutput, WatchStep};

#[test]
fn capped_buffer_keeps_the_first_bytes() {
    let mut b = CappedBuffer::new(5);
    assert!(!b.push(&b"abc".to_vec()));
    assert!(!b.push(&vec![]));
    assert!(b.push(&b"defg".to_vec()));
    assert!(b.push(&b"h".to_vec()));
    assert_eq!(b.into_bytes(), b"abcde".to_vec());
    let mut whole = CappedBuffer::new(5);
    assert!(whole.push(&b"abcdefgh".to_vec()));
    assert_eq!(whole.into_bytes(), b"abcde".to_vec());
    assert!(CappedBuffer::new(0).push(&vec![]));
}

#[test]
fn children_are_watched_until_the_deadline() {
    assert_eq!(watch_step(ChildState::Exited, 500, 200), WatchStep::Collect);
    assert_eq!(watch_step(ChildState::Running, 199, 200), WatchStep::Sleep);
    assert_eq!(watch_step(ChildState::Running, 200, 200), WatchStep::TimeOut);
    assert_eq!(watch_step(ChildState::Unknown, 0, 200), WatchStep::GiveUp);
    assert!(keep_waiting(false, 499, 500));
    assert!(!keep_waiting(false, 500, 500));
    assert!(!keep_waiting(true, 0, 500));
}

#[test]
fn success_is_code_zero() {
    let with = |code: Option<i32>| RawOutput {
        code,
        status: String::new(),
        stdout: vec![],
        stderr: vec![],
    };
    assert!(with(Some(0)).success());
    assert!(!with(Some(1)).success());
    assert!(!with(None).success());
}
