//! Plain data types shared by the API resources.

use vstd::prelude::*;

verus! {

/// Log severity levels accepted by the logging API (the full RFC 5424 set).
#[derive(Debug, Clone, Copy, PartialEq, Eq, Structural)]
pub enum LogLevel {
    Debug,
    Info,
    Notice,
    Warning,
    Error,
    Critical,
    Alert,
    Emergency,
}

/// An action's lifecycle status.
#[derive(Debug, Clone, Copy, PartialEq, Eq, Structural)]
pub enum ActionStatus {
    Pending,
    Acknowledged,
    Completed,
    Failed,
    Expired,
}

} // verus!
