//! Who signs an AS4 message with WS-Security, and who does not.
//!
//! The AS4 profile signs the `eb:Messaging` header and every attachment
//! with an XML Signature inside a `wsse:Security` header, and the Receipt
//! carries the signed references back as non-repudiation. Both need a
//! certificate and a private key, which a [`Signer`] holds; a transport
//! applies it to every envelope. Without one, [`Unsigned`] leaves the
//! envelope as it is, which is the exchange two nodes on one wire agree on.

use vstd::prelude::*;

use crate::error::TransportError;

#[allow(unused_imports)]
use crate::error::Refusal;
#[allow(unused_imports)]
use crate::mime::attached;

verus! {

/// What signs an envelope on the way out and verifies it on the way in.
pub trait Signer: Send + Sync {
    /// `envelope` with its `wsse:Security` header, the `attachments` (each a
    /// content id and its bytes) referenced from the signature.
    ///
    /// # Errors
    /// Where the key or the certificate cannot sign.
    fn sign(&self, envelope: String, attachments: &[(String, Vec<u8>)]) -> (r: Result<
        String,
        TransportError,
    >);

    /// `envelope` verified against its header and the attachments, the
    /// header left in place.
    ///
    /// # Errors
    /// Where the signature does not verify, or a signature was required
    /// and is not there.
    fn verify(&self, envelope: &str, attachments: &[(String, Vec<u8>)]) -> (r: Result<
        (),
        TransportError,
    >);
}

/// What a verdict says.
pub open spec fn verdict(r: Result<(), TransportError>) -> Result<(), Refusal> {
    match r {
        Ok(()) => Ok(()),
        Err(e) => Err(e@),
    }
}

/// What a signed envelope says, or why there is none.
pub open spec fn signature(r: Result<String, TransportError>) -> Result<Seq<char>, Refusal> {
    match r {
        Ok(envelope) => Ok(envelope@),
        Err(e) => Err(e@),
    }
}

/// `signed` is what `signer` may answer when it is asked to sign `envelope`
/// with `attachments`.
pub open spec fn may_sign<S: Signer>(
    signer: S,
    envelope: Seq<char>,
    attachments: Seq<(Seq<char>, Seq<u8>)>,
    signed: Result<Seq<char>, Refusal>,
) -> bool {
    exists|e: String, a: &[(String, Vec<u8>)], r: Result<String, TransportError>|
        #![trigger call_ensures(S::sign, (&signer, e, a), r)]
        e@ == envelope && attached(a@) == attachments && signature(r) == signed && call_ensures(
            S::sign,
            (&signer, e, a),
            r,
        )
}

/// `verified` is what `signer` may answer when it is asked to verify
/// `envelope` with `attachments`.
pub open spec fn may_verify<S: Signer>(
    signer: S,
    envelope: Seq<char>,
    attachments: Seq<(Seq<char>, Seq<u8>)>,
    verified: Result<(), Refusal>,
) -> bool {
    exists|e: &str, a: &[(String, Vec<u8>)], r: Result<(), TransportError>|
        #![trigger call_ensures(S::verify, (&signer, e, a), r)]
        e@ == envelope && attached(a@) == attachments && verdict(r) == verified && call_ensures(
            S::verify,
            (&signer, e, a),
            r,
        )
}

/// No certificate: the envelope travels as it is.
#[derive(Clone, Copy, Debug)]
pub struct Unsigned;

impl Default for Unsigned {
    fn default() -> (u: Self)
        ensures
            u == Unsigned,
    {
        Unsigned
    }
}

impl Signer for Unsigned {
    fn sign(&self, envelope: String, _attachments: &[(String, Vec<u8>)]) -> (r: Result<
        String,
        TransportError,
    >)
        ensures
            r == Ok::<String, TransportError>(envelope),
    {
        Ok(envelope)
    }

    fn verify(&self, _envelope: &str, _attachments: &[(String, Vec<u8>)]) -> (r: Result<
        (),
        TransportError,
    >)
        ensures
            r == Ok::<(), TransportError>(()),
    {
        Ok(())
    }
}

/// The unsigned exchange leaves every envelope as it is, and verifies every
/// one.
pub proof fn the_unsigned_exchange_leaves_the_envelope_as_it_is(
    envelope: Seq<char>,
    attachments: Seq<(Seq<char>, Seq<u8>)>,
    signed: Result<Seq<char>, Refusal>,
    verified: Result<(), Refusal>,
)
    ensures
        may_sign(Unsigned, envelope, attachments, signed) ==> signed == Ok::<Seq<char>, Refusal>(
            envelope,
        ),
        may_verify(Unsigned, envelope, attachments, verified) ==> verified == Ok::<(), Refusal>(()),
{
}

} // verus!
