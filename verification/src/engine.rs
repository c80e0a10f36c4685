//! The watch over the mirror: settled notifications in, actions out.

use vstd::prelude::*;
use crate::debounce::{distinct_paths, due, observed, waiting, Debouncer, PendingView};
use crate::dispatch::{action_views, dispatch, dispatched, Action, ActionView};
use crate::event::{classification, classify, notification_views, Notification, NotificationView};
use crate::remote::{Remote, RemoteView};
use crate::whitelist::Whitelist;

verus! {

/// The watch over the mirror of one project: it takes the notifications of
/// the file system as they come, lets each path settle for the length of a
/// window, and says for what comes out what is to be done at the remote
/// service. Remote and whitelist stay as they were given.
pub struct Engine {
    remote: Remote,
    whitelist: Whitelist,
    debouncer: Debouncer,
}

/// What an `Engine` stands for.
pub struct EngineView {
    pub remote: RemoteView,
    pub whitelist: Seq<Seq<char>>,
    pub window: int,
    pub pending: Seq<PendingView>,
}

impl View for Engine {
    type V = EngineView;

    closed spec fn view(&self) -> EngineView {
        EngineView {
            remote: self.remote@,
            whitelist: self.whitelist@,
            window: self.debouncer@.window,
            pending: self.debouncer@.pending,
        }
    }
}

/// What is to be done for each notification that has settled: one action
/// each, in their order.
pub open spec fn reactions(
    notifications: Seq<NotificationView>,
    whitelist: Seq<Seq<char>>,
    remote: RemoteView,
) -> Seq<ActionView> {
    notifications.map_values(
        |notification: NotificationView|
            dispatched(classification(notification, whitelist), remote),
    )
}

impl Engine {
    /// A watch for the project that `remote` names, whose files are those of
    /// `whitelist`, with windows of `window` milliseconds and none open.
    pub fn new(remote: Remote, whitelist: Whitelist, window: u64) -> (engine: Engine)
        ensures
            engine@ == (EngineView {
                remote: remote@,
                whitelist: whitelist@,
                window: window as int,
                pending: Seq::empty(),
            }),
    {
        Engine { remote, whitelist, debouncer: Debouncer::new(window) }
    }

    /// The files of the open project.
    pub fn whitelist(&self) -> (whitelist: &Whitelist)
        ensures
            whitelist@ == self@.whitelist,
    {
        &self.whitelist
    }

    /// What is to be done for each of the notifications, in their order.
    fn react(&self, notifications: &Vec<Notification>) -> (actions: Vec<Action>)
        ensures
            action_views(actions@) == reactions(
                notification_views(notifications@),
                self@.whitelist,
                self@.remote,
            ),
    {
        let mut actions: Vec<Action> = Vec::new();
        let mut i: usize = 0;
        while i < notifications.len()
            invariant
                i <= notifications.len(),
                action_views(actions@) == reactions(
                    notification_views(notifications@.take(i as int)),
                    self@.whitelist,
                    self@.remote,
                ),
            decreases notifications.len() - i,
        {
            let event = classify(&notifications[i], &self.whitelist);
            let action = dispatch(&event, &self.remote);
            proof {
                let done = notifications@.take(i as int);
                let next = notifications@[i as int];
                assert(notifications@.take(i + 1) =~= done.push(next));
                assert(action_views(actions@.push(action)) =~= action_views(actions@).push(
                    action@,
                ));
                assert(reactions(notification_views(done.push(next)), self@.whitelist, self@.remote)
                    =~= reactions(notification_views(done), self@.whitelist, self@.remote).push(
                    action@,
                ));
            }
            actions.push(action);
            i += 1;
        }
        assert(notifications@.take(i as int) =~= notifications@);
        actions
    }

    /// Takes in a notification that arrives at `now`, and says what is to be
    /// done for the notifications that have settled by then. The new one
    /// waits: it takes the place of the notification that waits for the same
    /// path, or opens a window of its own.
    pub fn observe(&mut self, now: u64, notification: Notification) -> (actions: Vec<Action>)
        ensures
            action_views(actions@) == reactions(
                due(old(self)@.pending, now as int),
                old(self)@.whitelist,
                old(self)@.remote,
            ),
            final(self)@ == (EngineView {
                pending: observed(
                    old(self)@.pending,
                    now as int,
                    old(self)@.window,
                    notification@,
                ),
                ..old(self)@
            }),
            distinct_paths(final(self)@.pending),
    {
        let released = self.debouncer.observe(now, notification);
        self.react(&released)
    }

    /// Says what is to be done for the notifications that have settled at
    /// `now`. The others wait on.
    pub fn tick(&mut self, now: u64) -> (actions: Vec<Action>)
        ensures
            action_views(actions@) == reactions(
                due(old(self)@.pending, now as int),
                old(self)@.whitelist,
                old(self)@.remote,
            ),
            final(self)@ == (EngineView {
                pending: waiting(old(self)@.pending, now as int),
                ..old(self)@
            }),
            distinct_paths(final(self)@.pending),
    {
        let released = self.debouncer.release(now);
        self.react(&released)
    }

    /// When `tick` is next due: the earliest time at which a window closes,
    /// if any is open.
    pub fn next_deadline(&self) -> (deadline: Option<u64>)
        ensures
            match deadline {
                Some(deadline) => {
                    &&& exists|i: int|
                        0 <= i < self@.pending.len() && (#[trigger] self@.pending[i]).deadline
                            == deadline
                    &&& forall|i: int|
                        0 <= i < self@.pending.len() ==> deadline <= (
                        #[trigger] self@.pending[i]).deadline
                },
                None => self@.pending.len() == 0,
            },
    {
        self.debouncer.next_deadline()
    }
}

} // verus!
