//! From what a notification means to what is done at the remote service.

use vstd::prelude::*;
use crate::event::{SyncEvent, SyncEventView};
use crate::names::{mirror_path, path_in_mirror, strip_suffix, without_suffix};
use crate::remote::{restart_address, update_address, Remote, RemoteView};

verus! {

/// What is to be done at the remote service for one event.
#[derive(Debug, PartialEq, Eq)]
pub enum Action {
    /// Read the file at `source` and post its content to `url` as the new
    /// content of the remote file `basename`.
    Push { url: String, source: String, basename: String },
    /// Retrieve `url`, which restarts the running program.
    Restart { url: String },
    /// Do nothing.
    Nothing,
}

/// What an `Action` stands for.
pub enum ActionView {
    Push { url: Seq<char>, source: Seq<char>, basename: Seq<char> },
    Restart { url: Seq<char> },
    Nothing,
}

impl View for Action {
    type V = ActionView;

    open spec fn view(&self) -> ActionView {
        match self {
            Action::Push { url, source, basename } => ActionView::Push {
                url: url@,
                source: source@,
                basename: basename@,
            },
            Action::Restart { url } => ActionView::Restart { url: url@ },
            Action::Nothing => ActionView::Nothing,
        }
    }
}

impl Clone for Action {
    fn clone(&self) -> (copy: Action)
        ensures
            copy@ == self@,
    {
        match self {
            Action::Push { url, source, basename } => Action::Push {
                url: url.clone(),
                source: source.clone(),
                basename: basename.clone(),
            },
            Action::Restart { url } => Action::Restart { url: url.clone() },
            Action::Nothing => Action::Nothing,
        }
    }
}

/// The actions of a list, as what they stand for.
pub open spec fn action_views(actions: Seq<Action>) -> Seq<ActionView> {
    actions.map_values(|action: Action| action@)
}

/// The events of a list, as what they stand for.
pub open spec fn event_views(events: Seq<SyncEvent>) -> Seq<SyncEventView> {
    events.map_values(|event: SyncEvent| event@)
}

/// What an event asks of the remote service: an update pushes the file of
/// that name, as it then is in the mirror, to the remote file that the name
/// stands for; a restart trigger restarts the program; the rest asks nothing.
pub open spec fn dispatched(event: SyncEventView, remote: RemoteView) -> ActionView {
    match event {
        SyncEventView::Update(file_name) => ActionView::Push {
            url: update_address(remote),
            source: path_in_mirror(file_name),
            basename: without_suffix(file_name),
        },
        SyncEventView::RestartTrigger => ActionView::Restart { url: restart_address(remote) },
        SyncEventView::Ignored => ActionView::Nothing,
    }
}

/// What a run of events asks of the remote service: one action for each
/// event, in the order of the events, none merged with another.
pub open spec fn dispatched_all(events: Seq<SyncEventView>, remote: RemoteView) -> Seq<ActionView> {
    events.map_values(|event: SyncEventView| dispatched(event, remote))
}

/// What one event asks of the remote service.
pub fn dispatch(event: &SyncEvent, remote: &Remote) -> (action: Action)
    ensures
        action@ == dispatched(event@, remote@),
{
    match event {
        SyncEvent::Update(file_name) => Action::Push {
            url: remote.update_url(),
            source: mirror_path(file_name.as_str()),
            basename: String::from_str(strip_suffix(file_name.as_str())),
        },
        SyncEvent::RestartTrigger => Action::Restart { url: remote.restart_url() },
        SyncEvent::Ignored => Action::Nothing,
    }
}

/// What a run of events asks of the remote service, one action for each.
pub fn dispatch_all(events: &Vec<SyncEvent>, remote: &Remote) -> (actions: Vec<Action>)
    ensures
        action_views(actions@) == dispatched_all(event_views(events@), remote@),
{
    let mut actions: Vec<Action> = Vec::new();
    let mut i: usize = 0;
    while i < events.len()
        invariant
            i <= events.len(),
            action_views(actions@) == dispatched_all(event_views(events@.take(i as int)), remote@),
        decreases events.len() - i,
    {
        let action = dispatch(&events[i], remote);
        proof {
            let done = events@.take(i as int);
            assert(events@.take(i + 1) =~= done.push(events@[i as int]));
            assert(action_views(actions@.push(action)) =~= action_views(actions@).push(action@));
            assert(dispatched_all(event_views(done.push(events@[i as int])), remote@)
                =~= dispatched_all(event_views(done), remote@).push(
                dispatched(events@[i as int]@, remote@),
            ));
        }
        actions.push(action);
        i += 1;
    }
    assert(events@.take(i as int) =~= events@);
    actions
}

/// Every event of a run has its own action, at its own place: two events
/// that ask for the same push give two pushes.
pub proof fn lemma_dispatch_is_sequential(events: Seq<SyncEventView>, remote: RemoteView, i: int)
    requires
        0 <= i < events.len(),
    ensures
        dispatched_all(events, remote).len() == events.len(),
        dispatched_all(events, remote)[i] == dispatched(events[i], remote),
{
}

} // verus!
