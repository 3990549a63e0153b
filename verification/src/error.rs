//! The error type shared by every engine and by the object cache.
//!
//! Each failure is tagged with the action that produced it, so the layer
//! above can log one diagnostic line and turn the error into a boolean
//! failure signal.

use vstd::prelude::*;

verus! {

/// The action during which an error occurred.
#[derive(Clone, Copy, Debug, PartialEq, Eq, Structural)]
pub enum Action {
    Init,
    Fini,
    Create,
    Delete,
    Open,
    Close,
    Status,
    Sync,
    Read,
    Write,
    Iter,
    CreateIterAll,
    CreateIterPrefix,
    Internal,
}

/// An error carrying a diagnostic message and the action it arose from.
#[derive(Debug)]
pub struct BackendError {
    pub msg: String,
    pub action: Action,
}

impl BackendError {
    /// A new error for the given action.
    pub fn new(msg: &str, action: Action) -> (e: BackendError)
        ensures
            e.action == action,
            e.msg@ == msg@,
    {
        BackendError { msg: msg.to_owned(), action }
    }

    /// Wraps a message from elsewhere, tagging it with the given action.
    pub fn map(msg: String, action: Action) -> (e: BackendError)
        ensures
            e.action == action,
            e.msg == msg,
    {
        BackendError { msg, action }
    }

    /// A new internal error: a lock or cache-consistency violation.
    pub fn new_internal(msg: &str) -> (e: BackendError)
        ensures
            e.action == Action::Internal,
            e.msg@ == msg@,
    {
        BackendError { msg: msg.to_owned(), action: Action::Internal }
    }

    /// Re-tags the error with the action of the operation that observed it.
    pub fn set_action(self, action: Action) -> (e: BackendError)
        ensures
            e.action == action,
            e.msg == self.msg,
    {
        BackendError { msg: self.msg, action }
    }
}

} // verus!
