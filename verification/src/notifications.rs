//! Desktop notifications: the data a notification carries. Showing one
//! is platform I/O and happens above the core.

use vstd::prelude::*;

verus! {

/// One notification: a title and a message body.
#[derive(Debug, Clone)]
pub struct Notification {
    pub title: String,
    pub message: String,
}

/// Dispatches notifications to the desktop. The dispatch itself is
/// platform I/O and lives above the core; this type only anchors it.
pub struct NotificationManager;

} // verus!
