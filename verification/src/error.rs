//! Why an exchange failed, and whether trying again may help.

use vstd::prelude::*;

verus! {

/// Why an exchange failed.
#[derive(Debug)]
pub struct TransportError {
    /// What happened, for a log.
    pub message: String,
    /// Whether the same exchange may succeed later.
    pub retryable: bool,
}

/// What a [`TransportError`] says.
pub struct Refusal {
    pub message: Seq<char>,
    pub retryable: bool,
}

impl View for TransportError {
    type V = Refusal;

    open spec fn view(&self) -> Refusal {
        Refusal { message: self.message@, retryable: self.retryable }
    }
}

/// A failure that the peer's bytes, or this party's own rules, settle for good.
pub open spec fn protocol(message: Seq<char>) -> Refusal {
    Refusal { message, retryable: false }
}

/// The error that says `message` and that trying again does not mend.
pub fn protocol_error(message: String) -> (e: TransportError)
    ensures
        e@ == protocol(message@),
{
    TransportError { message, retryable: false }
}

} // verus!
