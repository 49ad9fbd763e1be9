use vstd::prelude::*;

use crate::records::{LogEntry, LogMessage};

verus! {

/// Why a log stream could not be set.
#[derive(Clone, Copy, PartialEq, Eq, Structural, Debug)]
pub enum LogStreamError {
    /// A log stream was set before; it can be set once only.
    AlreadyCreated,
}

impl LogStreamError {
    /// The text of the error.
    pub fn message(&self) -> (r: String)
        ensures
            r@ == "log stream already created"@,
    {
        "log stream already created".to_owned()
    }
}

/// What claiming the log stream does to a gate in state `created`:
/// the first claim opens the stream, every later one is refused.
pub open spec fn claim_outcome(created: bool) -> (bool, Result<(), LogStreamError>) {
    if created {
        (true, Err(LogStreamError::AlreadyCreated))
    } else {
        (true, Ok(()))
    }
}

/// Remembers whether the log stream has been set.
pub struct LogStreamGate {
    created: bool,
}

impl View for LogStreamGate {
    type V = bool;

    closed spec fn view(&self) -> bool {
        self.created
    }
}

impl LogStreamGate {
    /// A gate through which no log stream has been set yet.
    pub fn new() -> (r: Self)
        ensures
            !r@,
    {
        LogStreamGate { created: false }
    }

    /// Has a log stream been set?
    pub fn is_created(&self) -> (r: bool)
        ensures
            r == self@,
    {
        self.created
    }

    /// Claims the right to set the log stream: granted once, refused with
    /// `AlreadyCreated` ever after.
    pub fn claim(&mut self) -> (r: Result<(), LogStreamError>)
        ensures
            (final(self)@, r) == claim_outcome(old(self)@),
    {
        if self.created {
            Err(LogStreamError::AlreadyCreated)
        } else {
            self.created = true;
            Ok(())
        }
    }
}

/// Once a claim has been granted, the next one is refused: a log stream is set at most once.
pub proof fn law_log_stream_set_once(created: bool)
    ensures
        claim_outcome(claim_outcome(created).0).1 == Err::<(), LogStreamError>(LogStreamError::AlreadyCreated),
        claim_outcome(created).0,
{
}

/// A sink that writes what it receives to standard output.
pub struct NOOO;

impl NOOO {
    /// The line written for an entry of the log stream: the entry's own line.
    pub fn stream_line(&self, entry: &LogEntry) -> (r: String)
        ensures
            r@ == entry.line@,
    {
        entry.line.clone()
    }

    /// The line written for a message of a node's logger.
    pub fn node_line(&self, msg: &LogMessage) -> (r: String)
        ensures
            r@ == "NOOO, local_node_logger: "@ + msg.message@,
    {
        "NOOO, local_node_logger: ".to_owned().concat(msg.message.as_str())
    }
}

} // verus!
