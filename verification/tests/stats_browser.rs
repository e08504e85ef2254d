use lib::stats_browser::compare_names;
use lib::stats_browser::diff_players;
use lib::stats_browser::expect_info_action;
use lib::stats_browser::list_complete;
use lib::stats_browser::ExpectInfoAction;
use lib::stats_browser::InfoOutcome;
use lib::stats_browser::Limit;
use lib::stats_browser::MasterId;
use lib::stats_browser::NameOrder;
use lib::stats_browser::PlayerDiff;
use lib::stats_browser::ServerEntry;
use lib::stats_browser::Time;
use lib::stats_browser::TimedWorkQueue;

#[test]
fn work_queue_order() {
    let mut q: TimedWorkQueue<u32> = TimedWorkQueue::new();
    q.add_duration(1000);
    q.add_duration(5000);
    q.add_duration(1000);
    q.push(Time(0), 5000, 50);
    q.push(Time(0), 1000, 10);
    q.push_now(1);
    q.push_now_front(0);
    // Work due now comes first.
    assert_eq!(q.pop(Time(0)), Some(0));
    assert_eq!(q.pop(Time(0)), Some(1));
    // Nothing else is due yet.
    assert_eq!(q.pop(Time(999)), None);
    assert_eq!(q.pop(Time(1000)), Some(10));
    assert_eq!(q.pop(Time(4000)), None);
    assert_eq!(q.pop(Time(6000)), Some(50));
    assert_eq!(q.pop(Time(100000)), None);
}

#[test]
fn limit_windows() {
    let mut l = Limit::new(2, 100, Time(0));
    assert_eq!(l.acquire_at(Time(0)), Ok(()));
    assert_eq!(l.acquire_at(Time(10)), Ok(()));
    assert_eq!(l.acquire_at(Time(50)), Err(()));
    // The window started at 0 ended at 100.
    assert_eq!(l.acquire_at(Time(100)), Ok(()));
    assert_eq!(l.acquire_at(Time(150)), Ok(()));
    assert_eq!(l.acquire_at(Time(199)), Err(()));
    assert_eq!(l.acquire_at(Time(200)), Ok(()));
}

#[test]
fn master_ids() {
    let mut id = MasterId::default();
    assert_eq!(id.get_and_inc(), MasterId(0));
    assert_eq!(id.get_and_inc(), MasterId(1));
    assert_eq!(id, MasterId(2));
}

#[test]
fn server_answers() {
    let mut e: ServerEntry<u32> = ServerEntry::new();
    // Unasked answer.
    assert_eq!(e.process_info(Some(7)), InfoOutcome::Extra(true));
    e.num_missing_resp = 1;
    assert_eq!(e.process_info(Some(7)), InfoOutcome::New);
    assert_eq!(e.num_missing_resp, 0);
    e.num_missing_resp = 2;
    assert_eq!(e.process_info(Some(8)), InfoOutcome::Changed);
    assert_eq!(e.resp, Some(8));
    assert_eq!(e.process_info(None), InfoOutcome::Malformed(true));
    e.num_malformed_resp = 10;
    assert_eq!(e.process_info(None), InfoOutcome::Malformed(false));
    assert_eq!(e.num_malformed_resp, 11);

    assert_eq!(expect_info_action(0), ExpectInfoAction::RepeatLater);
    assert_eq!(expect_info_action(3), ExpectInfoAction::RequestNow);
    assert_eq!(expect_info_action(10), ExpectInfoAction::Remove);

    assert!(list_complete(100, 95));
    assert!(list_complete(100, 105));
    assert!(!list_complete(100, 94));
    assert!(!list_complete(0, 6));
}

#[test]
fn player_changes() {
    assert_eq!(compare_names(b"abc", b"abd"), NameOrder::Less);
    assert_eq!(compare_names(b"ab", b"abc"), NameOrder::Less);
    assert_eq!(compare_names(b"b", b"abc"), NameOrder::Greater);
    assert_eq!(compare_names(b"", b""), NameOrder::Equal);
    let old = vec![b"alice".to_vec(), b"bob".to_vec(), b"carol".to_vec()];
    let new = vec![b"bob".to_vec(), b"dave".to_vec()];
    assert_eq!(diff_players(&old, &new), vec![
        PlayerDiff::Removed(0),
        PlayerDiff::Changed(1, 0),
        PlayerDiff::Removed(2),
        PlayerDiff::New(1),
    ]);
    assert_eq!(diff_players(&[], &new), vec![PlayerDiff::New(0), PlayerDiff::New(1)]);
    assert_eq!(diff_players(&old, &[]), vec![PlayerDiff::Removed(0), PlayerDiff::Removed(1), PlayerDiff::Removed(2)]);
}
