use lib::register::IpVersion;
use lib::register_task::expedite_position;
use lib::register_task::on_new_info;
use lib::register_task::parse_challenge;
use lib::register_task::Challenge;
use lib::register_task::RegisterData;
use lib::register_task::RegisterResult;
use lib::register_task::RegisterTaskData;
use lib::register_task::INTERVAL_HEARTBEAT;

#[test]
fn success_and_need_info() {
    let mut data = RegisterData::new(b"info".to_vec());
    assert_eq!(data.info_to_send(), Some(&b"info"[..]));
    data.on_success(0);
    // Nothing was accepted yet, so nothing is remembered.
    assert_eq!(data.last_successful_info_serial, None);
    data.last_successful_info_serial = Some(0);
    assert_eq!(data.info_to_send(), None);
    assert!(data.on_new_info(b"info2"));
    assert_eq!(data.info_serial, 1);
    assert!(!data.on_new_info(b"info2"));
    data.on_success(1);
    assert_eq!(data.last_successful_info_serial, Some(1));
    data.on_need_info(0);
    assert_eq!(data.last_successful_info_serial, Some(1));
    data.on_need_info(1);
    assert_eq!(data.last_successful_info_serial, None);
}

#[test]
fn next_register_only_moves_earlier() {
    let mut task = RegisterTaskData::new(100, Some(INTERVAL_HEARTBEAT));
    assert_eq!(task.next_register, Some(15100));
    assert!(!task.set_next_register(20000));
    assert!(task.set_next_register(500));
    assert_eq!(task.next_register, Some(500));
    let mut idle = RegisterTaskData::new(100, None);
    assert!(idle.on_heartbeat());
    assert_eq!(idle.next_register, Some(15100));
}

#[test]
fn token_and_result() {
    let mut data = RegisterData::new(b"i".to_vec());
    let mut task = RegisterTaskData::new(10, None);
    assert!(!task.on_result(&mut data, None, 0, RegisterResult::NeedChallenge));
    assert!(task.on_token(b"tok"));
    assert_eq!(task.next_register, Some(10));
    assert!(!task.on_token(b"tok"));
    assert!(task.on_result(&mut data, None, 0, RegisterResult::NeedChallenge));
    assert!(!task.on_result(&mut data, Some(b"tok".to_vec()), 0, RegisterResult::NeedChallenge));
    data.last_successful_info_serial = Some(0);
    assert!(!task.on_result(&mut data, None, 0, RegisterResult::NeedInfo));
    assert_eq!(data.last_successful_info_serial, None);
    assert_eq!(task.prev_result, Some(RegisterResult::NeedInfo));
}

#[test]
fn expedite_latest_planned() {
    assert_eq!(expedite_position(&[]), 0);
    assert_eq!(expedite_position(&[None, None]), 0);
    assert_eq!(expedite_position(&[Some(5), Some(9), Some(9), Some(1)]), 2);
    assert_eq!(expedite_position(&[None, Some(3)]), 1);
    let mut data = RegisterData::new(b"a".to_vec());
    let mut tasks = vec![
        RegisterTaskData::new(100, Some(15000)),
        RegisterTaskData::new(50, Some(16000)),
    ];
    assert_eq!(on_new_info(&mut data, &mut tasks, b"a"), None);
    assert_eq!(on_new_info(&mut data, &mut tasks, b"b"), Some(1));
    assert_eq!(tasks[1].next_register, Some(1050));
    assert_eq!(tasks[0].next_register, Some(15100));
}

#[test]
fn challenge_packets() {
    let prefix = b"chal:";
    match parse_challenge(prefix, b"chal:ipv6\0token\0") {
        Challenge::Token(IpVersion::V6, t) => assert_eq!(t, b"token"),
        _ => panic!("expected a token"),
    }
    assert!(matches!(parse_challenge(prefix, b"other"), Challenge::NotChallenge));
    assert!(matches!(parse_challenge(prefix, b"chal:ipv5\0t\0"), Challenge::Invalid));
    assert!(matches!(parse_challenge(prefix, b"chal:ipv4\0"), Challenge::Invalid));
}
