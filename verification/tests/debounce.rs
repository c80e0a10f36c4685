use aircode_client::debounce::{Debouncer, DEBOUNCE_WINDOW};
use aircode_client::event::{EventKind, Notification};

fn notification(kind: EventKind, file_name: &str) -> Notification {
    Notification {
        kind,
        path: format!("project/{}", file_name),
        file_name: Some(file_name.to_string()),
    }
}

#[test]
fn default_window_is_a_quarter_of_a_second() {
    assert_eq!(DEBOUNCE_WINDOW, 250);
    assert_eq!(Debouncer::new(DEBOUNCE_WINDOW).window(), 250);
}

#[test]
fn new_debouncer_is_idle() {
    let mut debouncer = Debouncer::new(250);
    assert!(debouncer.is_idle());
    assert_eq!(debouncer.next_deadline(), None);
    assert_eq!(debouncer.release(u64::MAX), Vec::new());
}

#[test]
fn five_writes_within_one_window_come_out_as_one() {
    let mut debouncer = Debouncer::new(250);
    for now in [1000, 1010, 1050, 1100, 1249] {
        let released = debouncer.observe(now, notification(EventKind::Write, "P.lua"));
        assert_eq!(released, Vec::new());
    }
    assert_eq!(debouncer.next_deadline(), Some(1250));
    assert_eq!(debouncer.release(1249), Vec::new());
    assert_eq!(debouncer.release(1250), vec![notification(EventKind::Write, "P.lua")]);
    assert!(debouncer.is_idle());
    assert_eq!(debouncer.release(2000), Vec::new());
}

#[test]
fn last_kind_of_a_burst_wins() {
    let mut debouncer = Debouncer::new(250);
    debouncer.observe(0, notification(EventKind::Create, "P.lua"));
    debouncer.observe(10, notification(EventKind::NoticeWrite, "P.lua"));
    debouncer.observe(20, notification(EventKind::Write, "P.lua"));
    debouncer.observe(30, notification(EventKind::Chmod, "P.lua"));
    assert_eq!(debouncer.release(250), vec![notification(EventKind::Chmod, "P.lua")]);
}

#[test]
fn window_runs_from_the_first_notification() {
    let mut debouncer = Debouncer::new(250);
    debouncer.observe(100, notification(EventKind::Write, "P.lua"));
    debouncer.observe(300, notification(EventKind::Write, "P.lua"));
    assert_eq!(debouncer.next_deadline(), Some(350));
    assert_eq!(debouncer.release(349), Vec::new());
    assert_eq!(debouncer.release(350), vec![notification(EventKind::Write, "P.lua")]);
}

#[test]
fn notification_after_the_window_opens_a_new_one() {
    let mut debouncer = Debouncer::new(250);
    debouncer.observe(0, notification(EventKind::Write, "P.lua"));
    let released = debouncer.observe(250, notification(EventKind::Chmod, "P.lua"));
    assert_eq!(released, vec![notification(EventKind::Write, "P.lua")]);
    assert_eq!(debouncer.next_deadline(), Some(500));
    assert_eq!(debouncer.release(500), vec![notification(EventKind::Chmod, "P.lua")]);
}

#[test]
fn different_paths_are_not_merged_and_keep_their_order() {
    let mut debouncer = Debouncer::new(250);
    debouncer.observe(0, notification(EventKind::Write, "B.lua"));
    debouncer.observe(1, notification(EventKind::Write, "A.lua"));
    debouncer.observe(2, notification(EventKind::Chmod, "restart"));
    debouncer.observe(3, notification(EventKind::NoticeRemove, "B.lua"));
    assert_eq!(debouncer.next_deadline(), Some(250));
    assert_eq!(
        debouncer.release(252),
        vec![
            notification(EventKind::NoticeRemove, "B.lua"),
            notification(EventKind::Write, "A.lua"),
            notification(EventKind::Chmod, "restart"),
        ]
    );
}

#[test]
fn release_hands_on_only_what_is_due() {
    let mut debouncer = Debouncer::new(100);
    debouncer.observe(0, notification(EventKind::Write, "A.lua"));
    debouncer.observe(50, notification(EventKind::Write, "B.lua"));
    debouncer.observe(60, notification(EventKind::Write, "C.lua"));
    assert_eq!(debouncer.release(99), Vec::new());
    assert_eq!(debouncer.release(100), vec![notification(EventKind::Write, "A.lua")]);
    assert_eq!(debouncer.next_deadline(), Some(150));
    assert_eq!(
        debouncer.release(160),
        vec![notification(EventKind::Write, "B.lua"), notification(EventKind::Write, "C.lua")]
    );
    assert!(debouncer.is_idle());
}

#[test]
fn same_file_name_under_different_paths_is_kept_apart() {
    let mut debouncer = Debouncer::new(250);
    let upper = Notification {
        kind: EventKind::Write,
        path: "project/Main.lua".to_string(),
        file_name: Some("Main.lua".to_string()),
    };
    let lower = Notification {
        kind: EventKind::Write,
        path: "project/sub/Main.lua".to_string(),
        file_name: Some("Main.lua".to_string()),
    };
    debouncer.observe(0, upper.clone());
    debouncer.observe(1, lower.clone());
    assert_eq!(debouncer.release(251), vec![upper, lower]);
}

#[test]
fn window_of_no_length_hands_on_at_once() {
    let mut debouncer = Debouncer::new(0);
    assert_eq!(debouncer.observe(5, notification(EventKind::Write, "A.lua")), Vec::new());
    assert_eq!(debouncer.next_deadline(), Some(5));
    assert_eq!(
        debouncer.observe(5, notification(EventKind::Chmod, "A.lua")),
        vec![notification(EventKind::Write, "A.lua")]
    );
    assert_eq!(debouncer.release(5), vec![notification(EventKind::Chmod, "A.lua")]);
}

#[test]
fn deadline_stops_at_the_end_of_time() {
    let mut debouncer = Debouncer::new(250);
    debouncer.observe(u64::MAX - 10, notification(EventKind::Write, "A.lua"));
    assert_eq!(debouncer.next_deadline(), Some(u64::MAX));
    assert_eq!(debouncer.release(u64::MAX - 1), Vec::new());
    assert_eq!(debouncer.release(u64::MAX), vec![notification(EventKind::Write, "A.lua")]);
}
