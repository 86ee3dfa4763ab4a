//! What a profile asks of the messages it takes.

use vstd::prelude::*;

use crate::envelope::UserMessage;
use crate::error::TransportError;

#[allow(unused_imports)]
use crate::envelope::MessageView;
#[allow(unused_imports)]
use crate::error::Refusal;
#[allow(unused_imports)]
use crate::signer::verdict;

verus! {

/// What a message must satisfy beyond being addressed to this party (a
/// profile's own rules), checked before the Receipt is written.
pub trait Check: Send + Sync {
    /// Whether the profile takes `message`.
    ///
    /// # Errors
    /// Where it does not; the sender is told why.
    fn check(&self, message: &UserMessage) -> (r: Result<(), TransportError>);
}

/// `checked` is what `check` may answer when it is asked about `m`.
pub open spec fn may_check<C: Check>(
    check: C,
    m: MessageView,
    checked: Result<(), Refusal>,
) -> bool {
    exists|message: &UserMessage, r: Result<(), TransportError>|
        #![trigger call_ensures(C::check, (&check, message), r)]
        message@ == m && verdict(r) == checked && call_ensures(C::check, (&check, message), r)
}

/// No profile: every message addressed to this party is taken.
#[derive(Clone, Copy, Debug)]
pub struct Unchecked;

impl Check for Unchecked {
    fn check(&self, _message: &UserMessage) -> (r: Result<(), TransportError>)
        ensures
            r == Ok::<(), TransportError>(()),
    {
        Ok(())
    }
}

/// Where there is no profile, no message is refused for one.
pub proof fn no_profile_refuses_nothing(m: MessageView, checked: Result<(), Refusal>)
    ensures
        may_check(Unchecked, m, checked) ==> checked == Ok::<(), Refusal>(()),
{
}

} // verus!
