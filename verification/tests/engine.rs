use aircode_client::dispatch::Action;
use aircode_client::engine::Engine;
use aircode_client::event::{EventKind, Notification};
use aircode_client::remote::Remote;
use aircode_client::whitelist::Whitelist;

fn engine() -> Engine {
    let remote = Remote::new("http://host".to_string(), "Demo".to_string());
    let whitelist = Whitelist::from_listing(&vec!["A".to_string(), "B".to_string()]);
    Engine::new(remote, whitelist, 250)
}

fn notification(kind: EventKind, file_name: &str) -> Notification {
    Notification {
        kind,
        path: format!("project/{}", file_name),
        file_name: Some(file_name.to_string()),
    }
}

fn push_of(file_name: &str, basename: &str) -> Action {
    Action::Push {
        url: "http://host/projects/Demo/__update".to_string(),
        source: format!("project/{}", file_name),
        basename: basename.to_string(),
    }
}

fn restart() -> Action {
    Action::Restart { url: "http://host/projects/Demo/__restart".to_string() }
}

#[test]
fn new_engine_waits_for_nothing() {
    let mut engine = engine();
    assert_eq!(engine.next_deadline(), None);
    assert_eq!(engine.tick(1_000_000), Vec::new());
    assert!(engine.whitelist().contains("A.lua"));
}

#[test]
fn burst_of_writes_gives_one_push() {
    let mut engine = engine();
    for now in [0, 5, 10, 15, 20] {
        assert_eq!(engine.observe(now, notification(EventKind::Write, "A.lua")), Vec::new());
    }
    assert_eq!(engine.next_deadline(), Some(250));
    assert_eq!(engine.tick(249), Vec::new());
    assert_eq!(engine.tick(250), vec![push_of("A.lua", "A")]);
    assert_eq!(engine.next_deadline(), None);
}

#[test]
fn save_seen_as_notice_then_write_gives_one_push() {
    let mut engine = engine();
    engine.observe(0, notification(EventKind::NoticeWrite, "A.lua"));
    engine.observe(1, notification(EventKind::Write, "A.lua"));
    assert_eq!(engine.tick(250), vec![push_of("A.lua", "A")]);
}

#[test]
fn two_saves_in_two_windows_give_two_pushes() {
    let mut engine = engine();
    engine.observe(0, notification(EventKind::Write, "A.lua"));
    let first = engine.observe(300, notification(EventKind::Write, "A.lua"));
    assert_eq!(first, vec![push_of("A.lua", "A")]);
    assert_eq!(engine.tick(550), vec![push_of("A.lua", "A")]);
}

#[test]
fn touch_of_the_sentinel_gives_a_restart() {
    let mut engine = engine();
    engine.observe(0, notification(EventKind::Chmod, "restart"));
    assert_eq!(engine.tick(250), vec![restart()]);
}

#[test]
fn unlisted_file_gives_nothing_to_do() {
    let mut engine = engine();
    engine.observe(0, notification(EventKind::Write, "notes.txt"));
    engine.observe(1, notification(EventKind::Create, "A.lua"));
    assert_eq!(engine.tick(251), vec![Action::Nothing, Action::Nothing]);
}

#[test]
fn actions_come_in_the_order_in_which_the_paths_first_changed() {
    let mut engine = engine();
    engine.observe(0, notification(EventKind::Write, "B.lua"));
    engine.observe(10, notification(EventKind::Write, "restart"));
    engine.observe(20, notification(EventKind::Write, "A.lua"));
    engine.observe(30, notification(EventKind::NoticeRemove, "B.lua"));
    assert_eq!(engine.tick(240), Vec::new());
    assert_eq!(engine.tick(255), vec![push_of("B.lua", "B")]);
    assert_eq!(engine.next_deadline(), Some(260));
    assert_eq!(engine.tick(270), vec![restart(), push_of("A.lua", "A")]);
}
