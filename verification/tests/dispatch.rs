use aircode_client::dispatch::{dispatch, dispatch_all, Action};
use aircode_client::event::SyncEvent;
use aircode_client::remote::Remote;

fn remote() -> Remote {
    Remote::new("http://host".to_string(), "Demo".to_string())
}

fn push_of(file_name: &str, basename: &str) -> Action {
    Action::Push {
        url: "http://host/projects/Demo/__update".to_string(),
        source: format!("project/{}", file_name),
        basename: basename.to_string(),
    }
}

#[test]
fn update_is_dispatched_as_a_push() {
    let event = SyncEvent::Update("Main.lua".to_string());
    assert_eq!(dispatch(&event, &remote()), push_of("Main.lua", "Main"));
}

#[test]
fn restart_trigger_is_dispatched_as_a_restart() {
    assert_eq!(
        dispatch(&SyncEvent::RestartTrigger, &remote()),
        Action::Restart { url: "http://host/projects/Demo/__restart".to_string() }
    );
}

#[test]
fn ignored_is_dispatched_as_nothing() {
    assert_eq!(dispatch(&SyncEvent::Ignored, &remote()), Action::Nothing);
}

#[test]
fn push_reads_the_file_that_changed() {
    let event = SyncEvent::Update("a.lua.lua".to_string());
    assert_eq!(dispatch(&event, &remote()), push_of("a.lua.lua", "a"));
}

#[test]
fn two_updates_of_one_file_are_two_pushes_in_order() {
    let events =
        vec![SyncEvent::Update("A.lua".to_string()), SyncEvent::Update("A.lua".to_string())];
    let actions = dispatch_all(&events, &remote());
    assert_eq!(actions, vec![push_of("A.lua", "A"), push_of("A.lua", "A")]);
}

#[test]
fn dispatch_all_keeps_order_and_count() {
    let events = vec![
        SyncEvent::Update("B.lua".to_string()),
        SyncEvent::Ignored,
        SyncEvent::RestartTrigger,
        SyncEvent::Update("A.lua".to_string()),
        SyncEvent::Ignored,
    ];
    assert_eq!(
        dispatch_all(&events, &remote()),
        vec![
            push_of("B.lua", "B"),
            Action::Nothing,
            Action::Restart { url: "http://host/projects/Demo/__restart".to_string() },
            push_of("A.lua", "A"),
            Action::Nothing,
        ]
    );
    assert_eq!(dispatch_all(&Vec::new(), &remote()), Vec::new());
}

#[test]
fn cloned_action_is_the_same_action() {
    let restart = Action::Restart { url: "http://host/projects/Demo/__restart".to_string() };
    for action in [push_of("A.lua", "A"), restart, Action::Nothing] {
        assert_eq!(action.clone(), action);
    }
}
