//! AS4 at both ends on this machine: two nodes on one wire, unsigned. The
//! far end is this party bound at an ephemeral port, receipting the one
//! message; the near end is this party again, posting to it. Signing needs a
//! certificate and a loopback has none, so the far end is an [`Unsigned`]
//! twin whatever the near end was given.

use std::time::Duration;

use vstd::prelude::*;

use crate::check::{Check, Unchecked};
use crate::envelope::{Stamp, UserMessage};
use crate::error::{protocol_error, TransportError};
use crate::signer::{Signer, Unsigned};
use crate::text::owned;
use crate::transport::As4Transport;
use crate::wire::{as_http, Arrived};

#[allow(unused_imports)]
use crate::envelope::{new_message, TEST_ACTION, TEST_SERVICE};
#[allow(unused_imports)]
use crate::error::protocol;
#[allow(unused_imports)]
use crate::transport::TransportView;
#[allow(unused_imports)]
use crate::wire::http_of;

verus! {

/// The party both ends of a loopback are.
pub const PARTY: &'static str = "Xmip";

impl As4Transport<Unsigned, Unchecked> {
    /// Both ends on this machine: an ephemeral local port, `timeout`, and
    /// one party, [`PARTY`], sending to itself under the ebMS test service
    /// until [`Self::under`].
    #[must_use]
    pub fn loopback(timeout: Duration, stamp: Stamp) -> (t: Self)
        ensures
            t@ == (TransportView {
                endpoint: "http://127.0.0.1:0/msh"@,
                template: new_message(PARTY@, PARTY@, TEST_SERVICE@, TEST_ACTION@, stamp),
                timeout: Some(timeout),
                seen: Seq::empty(),
            }),
            t.signs_with() == Unsigned,
            t.checks_with() == Unchecked,
    {
        proof {
            reveal_strlit("as4://127.0.0.1:0/msh");
            reveal_strlit("as4://");
            reveal_strlit("http://");
            reveal_strlit("http://127.0.0.1:0/msh");
            let url = "as4://127.0.0.1:0/msh"@;
            assert(url.subrange(0, 6) =~= "as4://"@);
            assert(http_of(url) =~= "http://127.0.0.1:0/msh"@);
        }
        As4Transport::new("as4://127.0.0.1:0/msh", PARTY, PARTY, stamp).timing_out_after(timeout)
    }
}

impl<S: Signer, C: Check> As4Transport<S, C> {
    /// The end that takes the one message, at this endpoint.
    #[must_use]
    pub fn far_end(&self) -> (t: As4Transport<Unsigned, Unchecked>)
        ensures
            t@ == (TransportView { seen: Seq::empty(), ..self@ }),
            t.signs_with() == Unsigned,
            t.checks_with() == Unchecked,
    {
        self.twin(owned(self.endpoint()))
    }

    /// The end that posts it, to `path` at the `address` the far end was
    /// bound at.
    #[must_use]
    pub fn near_end(&self, address: &str, path: &str) -> (t: As4Transport<Unsigned, Unchecked>)
        ensures
            t@ == (TransportView {
                endpoint: "http://"@ + address@ + path@,
                seen: Seq::empty(),
                ..self@
            }),
            t.signs_with() == Unsigned,
            t.checks_with() == Unchecked,
    {
        let mut url = owned("as4://");
        url.append(address);
        url.append(path);
        proof {
            reveal_strlit("as4://");
            assert(url@.subrange(0, 6) =~= "as4://"@);
            assert(http_of(url@) =~= "http://"@ + address@ + path@);
        }
        self.twin(as_http(url.as_str()))
    }
}

/// The one message a far end was to take.
///
/// # Errors
/// Where it was one seen before.
pub fn taken(r: Option<(UserMessage, Arrived)>) -> (arrived: Result<Arrived, TransportError>)
    ensures
        match r {
            Some((_, a)) => arrived == Ok::<Arrived, TransportError>(a),
            None => arrived matches Err(e) && e@ == protocol(
                "a message seen before: receipted, not delivered"@,
            ),
        },
{
    match r {
        Some((_, arrived)) => Ok(arrived),
        None => Err(protocol_error(owned("a message seen before: receipted, not delivered"))),
    }
}

} // verus!
