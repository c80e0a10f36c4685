//! The window in which the notifications for one path collapse into one.

use vstd::prelude::*;
use crate::event::{notification_views, Notification, NotificationView};
use crate::text::text_eq;

verus! {

/// The length of a window where none is asked for, in milliseconds.
pub const DEBOUNCE_WINDOW: u64 = 250;

/// A notification whose window is open: it is handed on when `deadline`
/// comes, unless a later one for the same path takes its place before.
struct Pending {
    notification: Notification,
    deadline: u64,
}

/// What a pending entry stands for.
pub struct PendingView {
    pub notification: NotificationView,
    pub deadline: int,
}

impl View for Pending {
    type V = PendingView;

    closed spec fn view(&self) -> PendingView {
        PendingView { notification: self.notification@, deadline: self.deadline as int }
    }
}

/// Collapses the notifications that arrive for one path within a window of
/// fixed length into the last of them.
///
/// Time is a count of milliseconds that the caller keeps.
pub struct Debouncer {
    window: u64,
    pending: Vec<Pending>,
}

/// What a `Debouncer` stands for: the length of its window, and the entries
/// whose windows are open, in the order in which the windows opened.
pub struct DebouncerView {
    pub window: int,
    pub pending: Seq<PendingView>,
}

impl View for Debouncer {
    type V = DebouncerView;

    closed spec fn view(&self) -> DebouncerView {
        DebouncerView {
            window: self.window as int,
            pending: self.pending@.map_values(|entry: Pending| entry@),
        }
    }
}

/// Some entry is for `path`.
pub open spec fn holds_path(entries: Seq<PendingView>, path: Seq<char>) -> bool {
    exists|i: int| 0 <= i < entries.len() && (#[trigger] entries[i]).notification.path == path
}

/// No two entries are for the same path.
pub open spec fn distinct_paths(entries: Seq<PendingView>) -> bool {
    forall|i: int, j: int|
        0 <= i < j < entries.len() ==> (#[trigger] entries[i]).notification.path != (
        #[trigger] entries[j]).notification.path
}

/// The window of the entry has closed at `now`.
pub open spec fn is_due(entry: PendingView, now: int) -> bool {
    entry.deadline <= now
}

/// The notifications that are handed on at `now`: those whose windows have
/// closed, in the order in which the windows opened.
pub open spec fn due(entries: Seq<PendingView>, now: int) -> Seq<NotificationView> {
    entries.filter(|entry: PendingView| is_due(entry, now)).map_values(
        |entry: PendingView| entry.notification,
    )
}

/// The entries that stay at `now`: those whose windows are still open.
pub open spec fn waiting(entries: Seq<PendingView>, now: int) -> Seq<PendingView> {
    entries.filter(|entry: PendingView| !is_due(entry, now))
}

/// When a window that opens at `now` closes. Time ends at `u64::MAX`.
pub open spec fn closes_at(now: int, window: int) -> int {
    if now + window <= u64::MAX {
        now + window
    } else {
        u64::MAX as int
    }
}

/// The entries after a notification is recorded: it takes the place of the
/// notification that waits for the same path, whose window goes on; where
/// none waits, it opens a window of its own, behind the others.
pub open spec fn recorded(
    entries: Seq<PendingView>,
    notification: NotificationView,
    deadline: int,
) -> Seq<PendingView> {
    if holds_path(entries, notification.path) {
        entries.map_values(
            |entry: PendingView|
                if entry.notification.path == notification.path {
                    PendingView { notification, deadline: entry.deadline }
                } else {
                    entry
                },
        )
    } else {
        entries.push(PendingView { notification, deadline })
    }
}

/// The entries after a notification arrives at `now`: what is due then has
/// left, and the notification is recorded with what stays.
pub open spec fn observed(
    entries: Seq<PendingView>,
    now: int,
    window: int,
    notification: NotificationView,
) -> Seq<PendingView> {
    recorded(waiting(entries, now), notification, closes_at(now, window))
}

/// The entry for `path`, where one waits for it.
pub open spec fn entry_for(entries: Seq<PendingView>, path: Seq<char>) -> PendingView {
    entries[choose|i: int|
        0 <= i < entries.len() && (#[trigger] entries[i]).notification.path == path]
}

/// The notifications among `notifications` that are for `path`.
pub open spec fn for_path(
    notifications: Seq<NotificationView>,
    path: Seq<char>,
) -> Seq<NotificationView> {
    notifications.filter(|notification: NotificationView| notification.path == path)
}

/// A notification and the time at which it arrives.
pub struct Arrival {
    pub at: int,
    pub notification: NotificationView,
}

/// The entries after a run of arrivals, each taken in as `observed` says.
pub open spec fn settled(
    entries: Seq<PendingView>,
    window: int,
    arrivals: Seq<Arrival>,
) -> Seq<PendingView>
    decreases arrivals.len(),
{
    if arrivals.len() == 0 {
        entries
    } else {
        settled(
            observed(entries, arrivals[0].at, window, arrivals[0].notification),
            window,
            arrivals.drop_first(),
        )
    }
}

/// The notifications that are handed on while a run of arrivals is taken
/// in: with each arrival, what is due when it comes.
pub open spec fn emitted(
    entries: Seq<PendingView>,
    window: int,
    arrivals: Seq<Arrival>,
) -> Seq<NotificationView>
    decreases arrivals.len(),
{
    if arrivals.len() == 0 {
        Seq::empty()
    } else {
        due(entries, arrivals[0].at) + emitted(
            observed(entries, arrivals[0].at, window, arrivals[0].notification),
            window,
            arrivals.drop_first(),
        )
    }
}

impl Debouncer {
    #[verifier::type_invariant]
    spec fn well_formed(&self) -> bool {
        distinct_paths(self@.pending)
    }

    /// A debouncer with no open window, whose windows last `window`
    /// milliseconds.
    pub fn new(window: u64) -> (debouncer: Debouncer)
        ensures
            debouncer@.window == window,
            debouncer@.pending == Seq::<PendingView>::empty(),
    {
        let debouncer = Debouncer { window, pending: Vec::new() };
        assert(debouncer@.pending =~= Seq::<PendingView>::empty());
        debouncer
    }

    /// How long a window lasts, in milliseconds.
    pub fn window(&self) -> (window: u64)
        ensures
            window == self@.window,
    {
        self.window
    }

    /// Hands on the notifications whose windows have closed at `now`, in the
    /// order in which the windows opened. The others stay.
    pub fn release(&mut self, now: u64) -> (released: Vec<Notification>)
        ensures
            notification_views(released@) == due(old(self)@.pending, now as int),
            final(self)@.pending == waiting(old(self)@.pending, now as int),
            final(self)@.window == old(self)@.window,
            distinct_paths(final(self)@.pending),
    {
        proof {
            use_type_invariant(&*self);
        }
        let ghost before = self@.pending;
        let mut entries: Vec<Pending> = Vec::new();
        core::mem::swap(&mut entries, &mut self.pending);
        let ghost all = entries@;
        let mut kept: Vec<Pending> = Vec::new();
        let mut released: Vec<Notification> = Vec::new();
        proof {
            assert(before.take(0) =~= Seq::<PendingView>::empty());
            before.take(0).lemma_filter_len(|entry: PendingView| is_due(entry, now as int));
            before.take(0).lemma_filter_len(|entry: PendingView| !is_due(entry, now as int));
            assert(notification_views(released@) =~= due(before.take(0), now as int));
            assert(kept@.map_values(|entry: Pending| entry@) =~= waiting(
                before.take(0),
                now as int,
            ));
        }
        for entry in it: entries
            invariant
                it.seq() == all,
                before == all.map_values(|entry: Pending| entry@),
                notification_views(released@) == due(before.take(it.index()), now as int),
                kept@.map_values(|entry: Pending| entry@) == waiting(
                    before.take(it.index()),
                    now as int,
                ),
        {
            proof {
                let done = before.take(it.index());
                assert(before.take(it.index() + 1) =~= done.push(entry@));
                lemma_split_push(done, entry@, now as int);
            }
            if entry.deadline <= now {
                proof {
                    assert(notification_views(released@.push(entry.notification))
                        =~= notification_views(released@).push(entry.notification@));
                }
                released.push(entry.notification);
            } else {
                proof {
                    assert(kept@.push(entry).map_values(|entry: Pending| entry@)
                        =~= kept@.map_values(|entry: Pending| entry@).push(entry@));
                }
                kept.push(entry);
            }
        }
        proof {
            assert(before.take(all.len() as int) =~= before);
            lemma_waiting_distinct(before, now as int);
        }
        self.pending = kept;
        released
    }

    /// Where the entry for `path` stands, if one waits for it.
    fn position(&self, path: &str) -> (found: Option<usize>)
        ensures
            match found {
                Some(at) => at < self@.pending.len() && self@.pending[at as int].notification.path
                    == path@,
                None => !holds_path(self@.pending, path@),
            },
    {
        let mut at: usize = 0;
        while at < self.pending.len()
            invariant
                at <= self.pending.len(),
                forall|i: int|
                    0 <= i < at ==> (#[trigger] self@.pending[i]).notification.path != path@,
            decreases self.pending.len() - at,
        {
            if text_eq(self.pending[at].notification.path.as_str(), path) {
                return Some(at);
            }
            at += 1;
        }
        None
    }

    /// Takes in a notification that arrives at `now`. First the
    /// notifications whose windows have closed by then are handed on, as
    /// `release` does. Then the new one takes the place of the notification
    /// that waits for the same path, or opens a window of its own.
    pub fn observe(&mut self, now: u64, notification: Notification) -> (released: Vec<
        Notification,
    >)
        ensures
            notification_views(released@) == due(old(self)@.pending, now as int),
            final(self)@.pending == observed(
                old(self)@.pending,
                now as int,
                old(self)@.window,
                notification@,
            ),
            final(self)@.window == old(self)@.window,
            distinct_paths(final(self)@.pending),
    {
        let released = self.release(now);
        let ghost stay = self@.pending;
        match self.position(notification.path.as_str()) {
            Some(at) => {
                proof {
                    let merged = PendingView {
                        notification: notification@,
                        deadline: stay[at as int].deadline,
                    };
                    let after = stay.update(at as int, merged);
                    assert(after =~= recorded(
                        stay,
                        notification@,
                        closes_at(now as int, self@.window),
                    ));
                    assert(distinct_paths(after)) by {
                        assert forall|i: int, j: int| 0 <= i < j < after.len() implies (
                        #[trigger] after[i]).notification.path != (
                        #[trigger] after[j]).notification.path by {
                            assert(stay[i].notification.path != stay[j].notification.path);
                        }
                    }
                }
                let mut entries: Vec<Pending> = Vec::new();
                core::mem::swap(&mut entries, &mut self.pending);
                entries[at].notification = notification;
                assert(entries@.map_values(|entry: Pending| entry@) =~= stay.update(
                    at as int,
                    PendingView {
                        notification: notification@,
                        deadline: stay[at as int].deadline,
                    },
                ));
                self.pending = entries;
            },
            None => {
                let deadline: u64 = if now <= u64::MAX - self.window {
                    now + self.window
                } else {
                    u64::MAX
                };
                let entry = Pending { notification, deadline };
                proof {
                    let after = stay.push(entry@);
                    assert(after == recorded(
                        stay,
                        notification@,
                        closes_at(now as int, self@.window),
                    ));
                    assert(distinct_paths(after)) by {
                        assert forall|i: int, j: int| 0 <= i < j < after.len() implies (
                        #[trigger] after[i]).notification.path != (
                        #[trigger] after[j]).notification.path by {
                            if j == stay.len() {
                                assert(stay[i].notification.path != notification@.path);
                            } else {
                                assert(stay[i].notification.path != stay[j].notification.path);
                            }
                        }
                    }
                    assert(self.pending@.push(entry).map_values(|entry: Pending| entry@) =~= after);
                }
                let mut entries: Vec<Pending> = Vec::new();
                core::mem::swap(&mut entries, &mut self.pending);
                entries.push(entry);
                self.pending = entries;
            },
        }
        released
    }

    /// Whether no window is open.
    pub fn is_idle(&self) -> (idle: bool)
        ensures
            idle == (self@.pending.len() == 0),
    {
        self.pending.len() == 0
    }

    /// When the next window closes: the earliest deadline among the open
    /// windows, if any is open.
    pub fn next_deadline(&self) -> (deadline: Option<u64>)
        ensures
            match deadline {
                Some(deadline) => {
                    &&& exists|i: int|
                        0 <= i < self@.pending.len() && (#[trigger] self@.pending[i]).deadline
                            == deadline
                    &&& forall|i: int|
                        0 <= i < self@.pending.len() ==> deadline <= (
                        #[trigger] self@.pending[i]).deadline
                },
                None => self@.pending.len() == 0,
            },
    {
        if self.pending.len() == 0 {
            return None;
        }
        let mut earliest: u64 = self.pending[0].deadline;
        let ghost mut witness: int = 0;
        let mut at: usize = 1;
        while at < self.pending.len()
            invariant
                1 <= at <= self.pending.len(),
                0 <= witness < at,
                self@.pending[witness].deadline == earliest,
                forall|i: int| 0 <= i < at ==> earliest <= (#[trigger] self@.pending[i]).deadline,
            decreases self.pending.len() - at,
        {
            if self.pending[at].deadline < earliest {
                earliest = self.pending[at].deadline;
                proof {
                    witness = at as int;
                }
            }
            at += 1;
        }
        Some(earliest)
    }
}

/// Taking one more entry into account adds it to what is due or to what
/// stays, behind the others.
proof fn lemma_split_push(entries: Seq<PendingView>, entry: PendingView, now: int)
    ensures
        due(entries.push(entry), now) == if is_due(entry, now) {
            due(entries, now).push(entry.notification)
        } else {
            due(entries, now)
        },
        waiting(entries.push(entry), now) == if is_due(entry, now) {
            waiting(entries, now)
        } else {
            waiting(entries, now).push(entry)
        },
{
    let leaves = |entry: PendingView| is_due(entry, now);
    let stays = |entry: PendingView| !is_due(entry, now);
    entries.lemma_filter_push(entry, leaves);
    entries.lemma_filter_push(entry, stays);
    if is_due(entry, now) {
        entries.filter(leaves).lemma_push_map_commute(
            |entry: PendingView| entry.notification,
            entry,
        );
    }
}

/// What stays was there before.
proof fn lemma_waiting_paths(entries: Seq<PendingView>, now: int, path: Seq<char>)
    requires
        holds_path(waiting(entries, now), path),
    ensures
        holds_path(entries, path),
    decreases entries.len(),
{
    if entries.len() == 0 {
        assert(entries.filter(|entry: PendingView| !is_due(entry, now)).len() <= entries.len())
            by {
            entries.lemma_filter_len(|entry: PendingView| !is_due(entry, now));
        }
    } else {
        let front = entries.drop_last();
        let last = entries.last();
        assert(entries =~= front.push(last));
        lemma_split_push(front, last, now);
        let stay = waiting(entries, now);
        let i = choose|i: int|
            0 <= i < stay.len() && (#[trigger] stay[i]).notification.path == path;
        if i < waiting(front, now).len() {
            assert(waiting(front, now)[i].notification.path == path);
            lemma_waiting_paths(front, now, path);
            let j = choose|j: int|
                0 <= j < front.len() && (#[trigger] front[j]).notification.path == path;
            assert(entries[j].notification.path == path);
        } else {
            assert(entries[entries.len() - 1].notification.path == path);
        }
    }
}

/// What stays of entries for distinct paths is for distinct paths.
pub proof fn lemma_waiting_distinct(entries: Seq<PendingView>, now: int)
    requires
        distinct_paths(entries),
    ensures
        distinct_paths(waiting(entries, now)),
    decreases entries.len(),
{
    if entries.len() == 0 {
        entries.lemma_filter_len(|entry: PendingView| !is_due(entry, now));
    } else {
        let front = entries.drop_last();
        let last = entries.last();
        assert(entries =~= front.push(last));
        lemma_split_push(front, last, now);
        assert(distinct_paths(front)) by {
            assert forall|i: int, j: int| 0 <= i < j < front.len() implies (
            #[trigger] front[i]).notification.path != (#[trigger] front[j]).notification.path by {
                assert(entries[i].notification.path != entries[j].notification.path);
            }
        }
        lemma_waiting_distinct(front, now);
        if !is_due(last, now) {
            let stay = waiting(front, now);
            if holds_path(stay, last.notification.path) {
                lemma_waiting_paths(front, now, last.notification.path);
                let j = choose|j: int|
                    0 <= j < front.len() && (#[trigger] front[j]).notification.path
                        == last.notification.path;
                assert(entries[j].notification.path != entries[entries.len()
                    - 1].notification.path);
            }
            assert forall|i: int, j: int| 0 <= i < j < stay.push(last).len() implies (
            #[trigger] stay.push(last)[i]).notification.path != (#[trigger] stay.push(
                last,
            )[j]).notification.path by {
                if j == stay.len() {
                    assert(stay[i].notification.path != last.notification.path);
                } else {
                    assert(stay[i].notification.path != stay[j].notification.path);
                }
            }
        }
    }
}

/// Among entries for distinct paths, the entry for a path is the one found
/// there.
proof fn lemma_entry_for(entries: Seq<PendingView>, at: int)
    requires
        distinct_paths(entries),
        0 <= at < entries.len(),
    ensures
        holds_path(entries, entries[at].notification.path),
        entry_for(entries, entries[at].notification.path) == entries[at],
{
    let path = entries[at].notification.path;
    let chosen = choose|i: int|
        0 <= i < entries.len() && (#[trigger] entries[i]).notification.path == path;
    if chosen < at {
        assert(entries[chosen].notification.path != entries[at].notification.path);
    } else if at < chosen {
        assert(entries[at].notification.path != entries[chosen].notification.path);
    }
}

/// Of entries for distinct paths, at most one notification for a path is
/// due at a time: that of its entry, where the window of that has closed.
pub proof fn lemma_due_for_path(entries: Seq<PendingView>, now: int, path: Seq<char>)
    requires
        distinct_paths(entries),
    ensures
        for_path(due(entries, now), path) == if holds_path(entries, path) && is_due(
            entry_for(entries, path),
            now,
        ) {
            seq![entry_for(entries, path).notification]
        } else {
            Seq::empty()
        },
    decreases entries.len(),
{
    let wanted = |notification: NotificationView| notification.path == path;
    if entries.len() == 0 {
        entries.lemma_filter_len(|entry: PendingView| is_due(entry, now));
        due(entries, now).lemma_filter_len(wanted);
        assert(for_path(due(entries, now), path) =~= Seq::empty());
    } else {
        let front = entries.drop_last();
        let last = entries.last();
        assert(entries =~= front.push(last));
        assert(distinct_paths(front)) by {
            assert forall|i: int, j: int| 0 <= i < j < front.len() implies (
            #[trigger] front[i]).notification.path != (#[trigger] front[j]).notification.path by {
                assert(entries[i].notification.path != entries[j].notification.path);
            }
        }
        lemma_split_push(front, last, now);
        lemma_due_for_path(front, now, path);
        if is_due(last, now) {
            due(front, now).lemma_filter_push(last.notification, wanted);
        }
        if last.notification.path == path {
            lemma_entry_for(entries, entries.len() - 1);
            if holds_path(front, path) {
                let i = choose|i: int|
                    0 <= i < front.len() && (#[trigger] front[i]).notification.path == path;
                assert(entries[i].notification.path != entries[entries.len()
                    - 1].notification.path);
            }
            assert(Seq::<NotificationView>::empty().push(last.notification) =~= seq![
                last.notification,
            ]);
        } else if holds_path(front, path) {
            let i = choose|i: int|
                0 <= i < front.len() && (#[trigger] front[i]).notification.path == path;
            lemma_entry_for(front, i);
            assert(entries[i] == front[i]);
            lemma_entry_for(entries, i);
        } else if holds_path(entries, path) {
            let i = choose|i: int|
                0 <= i < entries.len() && (#[trigger] entries[i]).notification.path == path;
            assert(front[i].notification.path == path);
        }
    }
}

/// An entry whose window is open stays.
proof fn lemma_waiting_keeps(entries: Seq<PendingView>, now: int, at: int)
    requires
        0 <= at < entries.len(),
        !is_due(entries[at], now),
    ensures
        waiting(entries, now).contains(entries[at]),
{
    entries.lemma_filter_contains(|entry: PendingView| !is_due(entry, now), at);
}

/// What is due at a time is handed on.
proof fn lemma_due_holds(entries: Seq<PendingView>, now: int, at: int) -> (to: int)
    requires
        0 <= at < entries.len(),
        is_due(entries[at], now),
    ensures
        0 <= to < due(entries, now).len(),
        due(entries, now)[to] == entries[at].notification,
        due(entries.take(at), now).len() == to,
    decreases entries.len(),
{
    let front = entries.drop_last();
    let last = entries.last();
    assert(entries =~= front.push(last));
    lemma_split_push(front, last, now);
    if at == entries.len() - 1 {
        assert(entries.take(at) =~= front);
        due(front, now).len() as int
    } else {
        let to = lemma_due_holds(front, now, at);
        assert(front.take(at) =~= entries.take(at));
        to
    }
}

/// What is due among the first entries is the head of what is due among
/// all.
proof fn lemma_due_of_head(entries: Seq<PendingView>, now: int, count: int)
    requires
        0 <= count <= entries.len(),
    ensures
        due(entries.take(count), now).len() <= due(entries, now).len(),
        due(entries.take(count), now) == due(entries, now).take(
            due(entries.take(count), now).len() as int,
        ),
    decreases entries.len() - count,
{
    if count == entries.len() {
        assert(entries.take(count) =~= entries);
        assert(due(entries, now).take(due(entries, now).len() as int) =~= due(entries, now));
    } else {
        lemma_due_of_head(entries, now, count + 1);
        let head = entries.take(count);
        assert(entries.take(count + 1) =~= head.push(entries[count]));
        lemma_split_push(head, entries[count], now);
        let longer = due(entries.take(count + 1), now);
        assert(due(head, now) =~= longer.take(due(head, now).len() as int));
        assert(due(head, now) =~= due(entries, now).take(due(head, now).len() as int));
    }
}

/// Notifications are handed on in the order in which their windows opened:
/// of two that are due at the same time, the one whose window opened first
/// comes first.
pub proof fn lemma_due_in_order(entries: Seq<PendingView>, now: int, first: int, second: int)
    requires
        0 <= first < second < entries.len(),
        is_due(entries[first], now),
        is_due(entries[second], now),
    ensures
        exists|i: int, j: int|
            0 <= i < j < due(entries, now).len() && due(entries, now)[i]
                == entries[first].notification && due(entries, now)[j]
                == entries[second].notification,
{
    let j = lemma_due_holds(entries, now, second);
    let upto = entries.take(second);
    let i = lemma_due_holds(upto, now, first);
    lemma_due_of_head(entries, now, second);
    assert(due(entries, now)[i] == due(upto, now)[i]);
}

/// A notification leaves alone what waits for other paths: their
/// notifications, their windows and their places stay as they are.
pub proof fn lemma_other_paths_wait_on(
    entries: Seq<PendingView>,
    now: int,
    window: int,
    notification: NotificationView,
    at: int,
)
    requires
        0 <= at < waiting(entries, now).len(),
        waiting(entries, now)[at].notification.path != notification.path,
    ensures
        at < observed(entries, now, window, notification).len(),
        observed(entries, now, window, notification)[at] == waiting(entries, now)[at],
{
}

/// A notification for a path for which nothing waits opens a window, and
/// nothing for that path is handed on when it comes.
pub proof fn lemma_first_opens(
    entries: Seq<PendingView>,
    now: int,
    window: int,
    notification: NotificationView,
)
    requires
        distinct_paths(entries),
        !holds_path(entries, notification.path),
    ensures
        for_path(due(entries, now), notification.path) == Seq::<NotificationView>::empty(),
        distinct_paths(observed(entries, now, window, notification)),
        holds_path(observed(entries, now, window, notification), notification.path),
        entry_for(observed(entries, now, window, notification), notification.path) == (
        PendingView { notification, deadline: closes_at(now, window) }),
{
    lemma_due_for_path(entries, now, notification.path);
    let stay = waiting(entries, now);
    lemma_waiting_distinct(entries, now);
    if holds_path(stay, notification.path) {
        lemma_waiting_paths(entries, now, notification.path);
    }
    let entry = PendingView { notification, deadline: closes_at(now, window) };
    let after = stay.push(entry);
    assert(after == observed(entries, now, window, notification));
    assert(distinct_paths(after)) by {
        assert forall|i: int, j: int| 0 <= i < j < after.len() implies (
        #[trigger] after[i]).notification.path != (#[trigger] after[j]).notification.path by {
            if j == stay.len() {
                assert(stay[i].notification.path != notification.path);
            } else {
                assert(stay[i].notification.path != stay[j].notification.path);
            }
        }
    }
    assert(after[after.len() - 1] == entry);
    lemma_entry_for(after, after.len() - 1);
}

/// A notification for a path whose window is open takes the place of the
/// one that waits, the window goes on as it was, and nothing for that path
/// is handed on when it comes.
pub proof fn lemma_later_merges(
    entries: Seq<PendingView>,
    now: int,
    window: int,
    notification: NotificationView,
)
    requires
        distinct_paths(entries),
        holds_path(entries, notification.path),
        !is_due(entry_for(entries, notification.path), now),
    ensures
        for_path(due(entries, now), notification.path) == Seq::<NotificationView>::empty(),
        distinct_paths(observed(entries, now, window, notification)),
        holds_path(observed(entries, now, window, notification), notification.path),
        entry_for(observed(entries, now, window, notification), notification.path) == (
        PendingView { notification, deadline: entry_for(entries, notification.path).deadline }),
        observed(entries, now, window, notification).len() == waiting(entries, now).len(),
{
    let path = notification.path;
    lemma_due_for_path(entries, now, path);
    let stay = waiting(entries, now);
    lemma_waiting_distinct(entries, now);
    let before = choose|i: int|
        0 <= i < entries.len() && (#[trigger] entries[i]).notification.path == path;
    lemma_waiting_keeps(entries, now, before);
    let at = choose|i: int| 0 <= i < stay.len() && stay[i] == entries[before];
    assert(stay[at].notification.path == path);
    let after = observed(entries, now, window, notification);
    assert(after.len() == stay.len());
    assert(after[at] == PendingView { notification, deadline: entries[before].deadline });
    assert(distinct_paths(after)) by {
        assert forall|i: int, j: int| 0 <= i < j < after.len() implies (
        #[trigger] after[i]).notification.path != (#[trigger] after[j]).notification.path by {
            assert(stay[i].notification.path != stay[j].notification.path);
        }
    }
    lemma_entry_for(after, at);
}

/// While the window of a path is open, whatever arrives for that path is
/// merged into its entry: nothing for the path is handed on, its window
/// stays as it was, and the last arrival is what waits in the end.
pub proof fn lemma_open_window_merges(
    entries: Seq<PendingView>,
    window: int,
    arrivals: Seq<Arrival>,
    path: Seq<char>,
)
    requires
        distinct_paths(entries),
        holds_path(entries, path),
        forall|i: int|
            0 <= i < arrivals.len() ==> (#[trigger] arrivals[i]).notification.path == path
                && arrivals[i].at < entry_for(entries, path).deadline,
    ensures
        for_path(emitted(entries, window, arrivals), path) == Seq::<NotificationView>::empty(),
        distinct_paths(settled(entries, window, arrivals)),
        holds_path(settled(entries, window, arrivals), path),
        entry_for(settled(entries, window, arrivals), path).deadline == entry_for(
            entries,
            path,
        ).deadline,
        entry_for(settled(entries, window, arrivals), path).notification == if arrivals.len()
            > 0 {
            arrivals.last().notification
        } else {
            entry_for(entries, path).notification
        },
    decreases arrivals.len(),
{
    let wanted = |notification: NotificationView| notification.path == path;
    if arrivals.len() == 0 {
        Seq::<NotificationView>::empty().lemma_filter_len(wanted);
        assert(for_path(emitted(entries, window, arrivals), path) =~= Seq::empty());
    } else {
        let first = arrivals[0];
        let rest = arrivals.drop_first();
        assert(first.notification.path == path);
        lemma_later_merges(entries, first.at, window, first.notification);
        let next = observed(entries, first.at, window, first.notification);
        assert forall|i: int| 0 <= i < rest.len() implies (#[trigger] rest[i]).notification.path
            == path && rest[i].at < entry_for(next, path).deadline by {
            assert(rest[i] == arrivals[i + 1]);
        }
        lemma_open_window_merges(next, window, rest, path);
        Seq::filter_distributes_over_add(
            due(entries, first.at),
            emitted(next, window, rest),
            wanted,
        );
        assert(for_path(emitted(entries, window, arrivals), path) =~= Seq::empty());
        if rest.len() > 0 {
            assert(rest.last() == arrivals.last());
        }
    }
}

/// Notifications for one path that arrive within one window come out as
/// one: while they arrive nothing is handed on for the path, and once the
/// window that the first of them opened has closed, exactly one
/// notification is due for the path, the last that arrived.
pub proof fn lemma_burst_coalesces(
    entries: Seq<PendingView>,
    window: int,
    burst: Seq<Arrival>,
    path: Seq<char>,
    now: int,
)
    requires
        distinct_paths(entries),
        !holds_path(entries, path),
        burst.len() > 0,
        forall|i: int| 0 <= i < burst.len() ==> (#[trigger] burst[i]).notification.path == path,
        forall|i: int|
            1 <= i < burst.len() ==> (#[trigger] burst[i]).at < closes_at(burst[0].at, window),
    ensures
        for_path(emitted(entries, window, burst), path) == Seq::<NotificationView>::empty(),
        for_path(due(settled(entries, window, burst), now), path) == if closes_at(
            burst[0].at,
            window,
        ) <= now {
            seq![burst.last().notification]
        } else {
            Seq::empty()
        },
{
    let wanted = |notification: NotificationView| notification.path == path;
    let first = burst[0];
    let rest = burst.drop_first();
    assert(first.notification.path == path);
    lemma_first_opens(entries, first.at, window, first.notification);
    let next = observed(entries, first.at, window, first.notification);
    assert forall|i: int| 0 <= i < rest.len() implies (#[trigger] rest[i]).notification.path
        == path && rest[i].at < entry_for(next, path).deadline by {
        assert(rest[i] == burst[i + 1]);
    }
    lemma_open_window_merges(next, window, rest, path);
    Seq::filter_distributes_over_add(due(entries, first.at), emitted(next, window, rest), wanted);
    assert(for_path(emitted(entries, window, burst), path) =~= Seq::empty());
    if rest.len() > 0 {
        assert(rest.last() == burst.last());
    }
    lemma_due_for_path(settled(entries, window, burst), now, path);
}

} // verus!
