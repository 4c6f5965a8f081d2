use folkmoot::listen::{advance_cursor, after_poll, before_poll, listen_exit_code, ListenAfter, ListenStart};

#[test]
fn cursors_follow_the_last_message() {
    let ids: Vec<String> = vec!["m1".into(), "m2".into()];
    assert_eq!(advance_cursor("m0", &ids), "m2");
    assert_eq!(advance_cursor("m0", &vec![]), "m0");
    assert_eq!(advance_cursor("", &vec![]), "");
}

#[test]
fn polls_wait_within_the_deadline() {
    assert!(matches!(before_poll(true, 25, 0, 0), ListenStart::TimedOut));
    match before_poll(true, 25, 0, 500) {
        ListenStart::Poll { wait, timeout } => assert_eq!((wait, timeout), (1, 11)),
        _ => panic!("expected a poll"),
    }
    match before_poll(true, 25, 7, 0) {
        ListenStart::Poll { wait, timeout } => assert_eq!((wait, timeout), (7, 17)),
        _ => panic!("expected a poll"),
    }
    match before_poll(false, 25, 0, 0) {
        ListenStart::Poll { wait, timeout } => assert_eq!((wait, timeout), (25, 35)),
        _ => panic!("expected a poll"),
    }
}

#[test]
fn answers_decide_the_next_step() {
    assert!(matches!(after_poll(false, "m1", false, None), ListenAfter::Retry));
    let empty: Vec<String> = vec![];
    assert!(matches!(after_poll(true, "m1", true, Some(&empty)), ListenAfter::TimedOut));
    assert!(matches!(after_poll(true, "m1", false, Some(&empty)), ListenAfter::Again));
    assert!(matches!(after_poll(false, "", false, Some(&empty)), ListenAfter::FetchLatest));
    assert!(matches!(after_poll(false, "m1", true, Some(&empty)), ListenAfter::Again));
    let ids: Vec<String> = vec!["m2".into(), "m3".into()];
    match after_poll(true, "m1", false, Some(&ids)) {
        ListenAfter::Show { cursor, stop } => {
            assert_eq!(cursor, "m3");
            assert!(stop);
        }
        _ => panic!("expected messages"),
    }
    match after_poll(false, "", true, Some(&ids)) {
        ListenAfter::Show { cursor, stop } => {
            assert_eq!(cursor, "m3");
            assert!(!stop);
        }
        _ => panic!("expected messages"),
    }
}

#[test]
fn listen_exit_codes() {
    assert_eq!(listen_exit_code(true, false), 21);
    assert_eq!(listen_exit_code(true, true), 0);
    assert_eq!(listen_exit_code(false, false), 0);
}
