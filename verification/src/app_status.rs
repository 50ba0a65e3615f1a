//! Process-wide application status, as the shutdown collaborator
//! reports it. The tracking itself (shared cell, signal handling) is
//! outside this library; only the status value and its wire labels
//! are defined here.

use vstd::prelude::*;

verus! {

/// Lifecycle status of the whole process.
#[derive(Debug, PartialEq)]
pub enum AppStatus {
    INIT,
    RUNNING,
    /// Exiting; carries the reason (the signal observed).
    EXITING(String),
    EXITED,
}

impl AppStatus {
    /// The status's lower-case label, as it is logged and sent.
    pub fn label(&self) -> (r: &'static str)
        ensures
            r@ == match self {
                AppStatus::INIT => "init"@,
                AppStatus::RUNNING => "running"@,
                AppStatus::EXITING(_) => "exiting"@,
                AppStatus::EXITED => "exited"@,
            },
    {
        match self {
            AppStatus::INIT => "init",
            AppStatus::RUNNING => "running",
            AppStatus::EXITING(_) => "exiting",
            AppStatus::EXITED => "exited",
        }
    }
}

impl Clone for AppStatus {
    /// A copy with the same value.
    fn clone(&self) -> (r: Self)
        ensures
            r == *self,
    {
        match self {
            AppStatus::INIT => AppStatus::INIT,
            AppStatus::RUNNING => AppStatus::RUNNING,
            AppStatus::EXITING(s) => AppStatus::EXITING(s.clone()),
            AppStatus::EXITED => AppStatus::EXITED,
        }
    }
}

impl Default for AppStatus {
    /// A process starts in `INIT`.
    fn default() -> (r: Self)
        ensures
            r == AppStatus::INIT,
    {
        AppStatus::INIT
    }
}

} // verus!
