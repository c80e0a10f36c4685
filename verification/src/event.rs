//! Notifications of the file system, and what they mean for the remote
//! project.

use vstd::prelude::*;
use crate::names::{is_sentinel, SENTINEL};
use crate::whitelist::Whitelist;

verus! {

/// What a notification of the file system says happened to a path.
#[derive(Clone, Copy, Debug, PartialEq, Eq)]
pub enum EventKind {
    /// The content of the file was written.
    Write,
    /// The path was created.
    Create,
    /// The permissions or other metadata of the path changed.
    Chmod,
    /// A write to the file is about to be reported.
    NoticeWrite,
    /// A removal of the path is about to be reported, as when an editor
    /// replaces a file by renaming another over it.
    NoticeRemove,
}

/// One notification of the file system about a path under the mirror.
#[derive(Debug, PartialEq, Eq)]
pub struct Notification {
    /// What happened to the path.
    pub kind: EventKind,
    /// The path, by which notifications are told apart.
    pub path: String,
    /// The last component of the path, where it has one that is text.
    pub file_name: Option<String>,
}

/// What a `Notification` stands for.
pub struct NotificationView {
    pub kind: EventKind,
    pub path: Seq<char>,
    pub file_name: Option<Seq<char>>,
}

impl View for Notification {
    type V = NotificationView;

    open spec fn view(&self) -> NotificationView {
        NotificationView {
            kind: self.kind,
            path: self.path@,
            file_name: match self.file_name {
                Some(name) => Some(name@),
                None => None,
            },
        }
    }
}

impl Clone for Notification {
    fn clone(&self) -> (copy: Notification)
        ensures
            copy@ == self@,
    {
        Notification {
            kind: self.kind,
            path: self.path.clone(),
            file_name: match &self.file_name {
                Some(name) => Some(name.clone()),
                None => None,
            },
        }
    }
}

/// The notifications of a list, as what they stand for.
pub open spec fn notification_views(notifications: Seq<Notification>) -> Seq<NotificationView> {
    notifications.map_values(|notification: Notification| notification@)
}

/// What a notification means for the remote project.
#[derive(Debug, PartialEq, Eq)]
pub enum SyncEvent {
    /// The file of this name changed and is to be pushed.
    Update(String),
    /// The running program is to be restarted.
    RestartTrigger,
    /// Nothing is to be done.
    Ignored,
}

/// What a `SyncEvent` stands for.
pub enum SyncEventView {
    Update(Seq<char>),
    RestartTrigger,
    Ignored,
}

impl View for SyncEvent {
    type V = SyncEventView;

    open spec fn view(&self) -> SyncEventView {
        match self {
            SyncEvent::Update(file_name) => SyncEventView::Update(file_name@),
            SyncEvent::RestartTrigger => SyncEventView::RestartTrigger,
            SyncEvent::Ignored => SyncEventView::Ignored,
        }
    }
}

impl Clone for SyncEvent {
    fn clone(&self) -> (copy: SyncEvent)
        ensures
            copy@ == self@,
    {
        match self {
            SyncEvent::Update(file_name) => SyncEvent::Update(file_name.clone()),
            SyncEvent::RestartTrigger => SyncEvent::RestartTrigger,
            SyncEvent::Ignored => SyncEvent::Ignored,
        }
    }
}

/// Whether a notification of this kind tells of new content.
pub open spec fn affects_content(kind: EventKind) -> bool {
    kind is Write || kind is NoticeRemove
}

/// What a notification that tells of no new content means: a restart where
/// it names the sentinel, and nothing otherwise.
pub open spec fn restart_meaning(file_name: Option<Seq<char>>) -> SyncEventView {
    if file_name == Some(SENTINEL@) {
        SyncEventView::RestartTrigger
    } else {
        SyncEventView::Ignored
    }
}

/// What a notification that tells of new content means: a restart where it
/// names the sentinel, an update where it names a file of the whitelist, and
/// nothing otherwise.
pub open spec fn update_meaning(
    file_name: Option<Seq<char>>,
    whitelist: Seq<Seq<char>>,
) -> SyncEventView {
    match file_name {
        Some(name) => {
            if name == SENTINEL@ {
                SyncEventView::RestartTrigger
            } else if whitelist.contains(name) {
                SyncEventView::Update(name)
            } else {
                SyncEventView::Ignored
            }
        },
        None => SyncEventView::Ignored,
    }
}

/// What a notification means, given the files of the open project: a restart
/// where it names the sentinel; else an update where it tells of new content
/// in a file of the whitelist; else nothing.
///
/// The sentinel is created when the mirror is reset, before any notification
/// is taken; from then on every notification that names it asks for a
/// restart, that of its creation included, and none is suppressed.
pub open spec fn classification(
    notification: NotificationView,
    whitelist: Seq<Seq<char>>,
) -> SyncEventView {
    match notification.file_name {
        Some(name) => {
            if name == SENTINEL@ {
                SyncEventView::RestartTrigger
            } else if affects_content(notification.kind) && whitelist.contains(name) {
                SyncEventView::Update(name)
            } else {
                SyncEventView::Ignored
            }
        },
        None => SyncEventView::Ignored,
    }
}

/// What a notification that tells of no new content means.
pub fn restart_helper(file_name: Option<&str>) -> (event: SyncEvent)
    ensures
        event@ == restart_meaning(
            match file_name {
                Some(name) => Some(name@),
                None => None,
            },
        ),
{
    match file_name {
        Some(name) => {
            if is_sentinel(name) {
                SyncEvent::RestartTrigger
            } else {
                SyncEvent::Ignored
            }
        },
        None => SyncEvent::Ignored,
    }
}

/// What a notification that tells of new content means.
pub fn update_helper(file_name: Option<&str>, whitelist: &Whitelist) -> (event: SyncEvent)
    ensures
        event@ == update_meaning(
            match file_name {
                Some(name) => Some(name@),
                None => None,
            },
            whitelist@,
        ),
{
    match file_name {
        Some(name) => {
            if is_sentinel(name) {
                SyncEvent::RestartTrigger
            } else if whitelist.contains(name) {
                SyncEvent::Update(String::from_str(name))
            } else {
                SyncEvent::Ignored
            }
        },
        None => SyncEvent::Ignored,
    }
}

/// What a notification means, given the files of the open project.
pub fn classify(notification: &Notification, whitelist: &Whitelist) -> (event: SyncEvent)
    ensures
        event@ == classification(notification@, whitelist@),
{
    let file_name: Option<&str> = match &notification.file_name {
        Some(name) => Some(name.as_str()),
        None => None,
    };
    match notification.kind {
        EventKind::Write | EventKind::NoticeRemove => update_helper(file_name, whitelist),
        EventKind::Create | EventKind::NoticeWrite | EventKind::Chmod => restart_helper(file_name),
    }
}

/// A notification that names the sentinel asks for a restart, whatever its
/// kind and whatever the whitelist holds, the sentinel's own name included.
pub proof fn lemma_sentinel_precedence(notification: NotificationView, whitelist: Seq<Seq<char>>)
    requires
        notification.file_name == Some(SENTINEL@),
    ensures
        classification(notification, whitelist) == SyncEventView::RestartTrigger,
{
}

/// A notification that names a file outside the whitelist never asks for an
/// update.
pub proof fn lemma_whitelist_filtering(notification: NotificationView, whitelist: Seq<Seq<char>>)
    requires
        notification.file_name is Some ==> !whitelist.contains(notification.file_name->0),
    ensures
        !(classification(notification, whitelist) is Update),
{
}

/// A notification that names a file outside the whitelist, and not the
/// sentinel, is ignored.
pub proof fn lemma_unlisted_is_ignored(notification: NotificationView, whitelist: Seq<Seq<char>>)
    requires
        notification.file_name is Some ==> !whitelist.contains(notification.file_name->0),
        notification.file_name != Some(SENTINEL@),
    ensures
        classification(notification, whitelist) == SyncEventView::Ignored,
{
}

} // verus!
