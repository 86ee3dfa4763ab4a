//! What the two ends of an exchange decide, each decision from plain values
//! to plain values: what a posted body delivers, whether this party takes
//! it, what the sender is answered, and what the answer means to the sender.
//!
//! What a [`Signer`](crate::signer::Signer) or a
//! [`Check`](crate::check::Check) said comes in as an argument here.

use vstd::prelude::*;
use vstd::slice::slice_to_vec;

use crate::envelope::{Stamp, UserMessage};
use crate::error::{protocol_error, TransportError};
use crate::mime::{pack, unpack, Attachments, Packed};
use crate::signal::{Signal, OTHER, POLICY_NONCOMPLIANCE, VALUE_NOT_RECOGNIZED};
use crate::text::{decimal_of, owned, same_text};
use crate::wire::{or_empty, soap, Answer, Request};

#[allow(unused_imports)]
use crate::envelope::{carried_in, said, MessageView};
#[allow(unused_imports)]
use crate::error::{protocol, Refusal};
#[allow(unused_imports)]
use crate::mime::{attached, packed, unpacked, PackedView};
#[allow(unused_imports)]
use crate::signal::{error_of, signal_in, SignalView};
#[allow(unused_imports)]
use crate::signer::{signature, verdict};
#[allow(unused_imports)]
use crate::text::decimal;
#[allow(unused_imports)]
use crate::wire::{or_nothing, soaped, AnswerView, RequestView};
#[allow(unused_imports)]
use crate::xml::PREFIX;

verus! {

/// The envelope and the attachments that were posted.
pub open spec fn posted_in(request: RequestView) -> Result<
    (Seq<char>, Seq<(Seq<char>, Seq<u8>)>),
    Refusal,
> {
    if request.method != "POST"@ {
        Err(protocol("an AS4 message is a POST, not a "@ + request.method))
    } else {
        unpacked(or_nothing(request.content_type), request.body)
    }
}

/// The envelope and the attachments that were posted.
///
/// # Errors
/// Where the request is no POST, or its body is not an envelope with its
/// attachments.
pub fn posted(request: &Request) -> (r: Result<(String, Attachments), TransportError>)
    ensures
        match posted_in(request@) {
            Ok((envelope, attachments)) => r matches Ok(carried) && carried.0@ == envelope
                && attached(carried.1@) == attachments,
            Err(refusal) => r matches Err(e) && e@ == refusal,
        },
{
    if !same_text(request.method.as_str(), "POST") {
        let mut why = owned("an AS4 message is a POST, not a ");
        why.append(request.method.as_str());
        return Err(protocol_error(why));
    }
    unpack(or_empty(&request.content_type).as_str(), &request.body)
}

/// Attachment `i` is the first that `cid` names.
pub open spec fn is_named(attachments: Seq<(Seq<char>, Seq<u8>)>, cid: Seq<char>, i: int) -> bool {
    &&& 0 <= i < attachments.len()
    &&& attachments[i].0 == cid
    &&& forall|j: int| 0 <= j < i ==> (#[trigger] attachments[j]).0 != cid
}

/// The bytes of the first attachment that `cid` names.
pub open spec fn payload_in(attachments: Seq<(Seq<char>, Seq<u8>)>, cid: Seq<char>) -> Option<
    Seq<u8>,
> {
    if exists|i: int| is_named(attachments, cid, i) {
        Some(attachments[choose|i: int| is_named(attachments, cid, i)].1)
    } else {
        None
    }
}

/// Only one attachment is the first that `cid` names.
pub proof fn lemma_payload(attachments: Seq<(Seq<char>, Seq<u8>)>, cid: Seq<char>, i: int)
    requires
        is_named(attachments, cid, i),
    ensures
        payload_in(attachments, cid) == Some(attachments[i].1),
{
    let k = choose|k: int| is_named(attachments, cid, k);
    assert(is_named(attachments, cid, k));
    if k < i {
        assert(attachments[k].0 != cid);
    }
    if i < k {
        assert(attachments[i].0 != cid);
    }
}

/// The bytes of the first attachment that `cid` names.
pub fn payload(attachments: &[(String, Vec<u8>)], cid: &str) -> (r: Option<Vec<u8>>)
    ensures
        match payload_in(attached(attachments@), cid@) {
            Some(bytes) => r matches Some(b) && b@ == bytes,
            None => r is None,
        },
{
    let ghost all = attached(attachments@);
    for i in 0..attachments.len()
        invariant
            all == attached(attachments@),
            forall|j: int| 0 <= j < i ==> (#[trigger] all[j]).0 != cid@,
    {
        proof {
            assert(all[i as int] == (attachments@[i as int].0@, attachments@[i as int].1@));
        }
        if same_text(attachments[i].0.as_str(), cid) {
            proof {
                lemma_payload(all, cid@, i as int);
            }
            return Some(slice_to_vec(attachments[i].1.as_slice()));
        }
    }
    None
}

/// What a delivery is.
pub open spec fn delivery(r: Result<(UserMessage, Vec<u8>), TransportError>) -> Result<
    (MessageView, Seq<u8>),
    Refusal,
> {
    match r {
        Ok((message, bytes)) => Ok((message@, bytes@)),
        Err(e) => Err(e@),
    }
}

/// The message `envelope` carries and the attachment it names as its payload,
/// where the signature was `verified`.
pub open spec fn delivered_in(
    envelope: Seq<char>,
    attachments: Seq<(Seq<char>, Seq<u8>)>,
    verified: Result<(), Refusal>,
) -> Result<(MessageView, Seq<u8>), Refusal> {
    match verified {
        Err(e) => Err(e),
        Ok(()) => match carried_in(envelope) {
            Err(e) => Err(e),
            Ok(m) => match payload_in(attachments, m.payload_cid) {
                Some(bytes) => Ok((m, bytes)),
                None => Err(
                    protocol(
                        "a message whose payload cid:"@ + m.payload_cid + " is not attached"@,
                    ),
                ),
            },
        },
    }
}

/// The message `envelope` carries and the attachment it names as its payload,
/// where the signature was `verified`.
///
/// # Errors
/// Where the signature was not, the envelope carries no message, or the
/// payload is not attached.
pub fn delivered(
    envelope: &str,
    attachments: &[(String, Vec<u8>)],
    verified: Result<(), TransportError>,
) -> (r: Result<(UserMessage, Vec<u8>), TransportError>)
    ensures
        delivery(r) == delivered_in(envelope@, attached(attachments@), verdict(verified)),
{
    if let Err(e) = verified {
        return Err(e);
    }
    let message = match UserMessage::from_envelope(envelope) {
        Ok(message) => message,
        Err(e) => return Err(e),
    };
    match payload(attachments, message.payload_cid.as_str()) {
        Some(bytes) => Ok((message, bytes)),
        None => {
            let mut why = owned("a message whose payload cid:");
            why.append(message.payload_cid.as_str());
            why.append(" is not attached");
            Err(protocol_error(why))
        },
    }
}

/// Whether party `me` takes `m`: addressed to it, and what the profile
/// `checked`.
pub open spec fn admission(m: MessageView, me: Seq<char>, checked: Result<(), Refusal>) -> Result<
    (),
    Refusal,
> {
    if m.to != me {
        Err(protocol("a message for "@ + m.to + ", and this party is "@ + me))
    } else {
        checked
    }
}

/// Why party `me` does not take a message for `to`, where it is another.
///
/// # Errors
/// Where `to` is not `me`.
pub fn addressed(to: &str, me: &str) -> (r: Result<(), TransportError>)
    ensures
        verdict(r) == (if to@ != me@ {
            Err(protocol("a message for "@ + to@ + ", and this party is "@ + me@))
        } else {
            Ok(())
        }),
{
    if same_text(to, me) {
        return Ok(());
    }
    let mut why = owned("a message for ");
    why.append(to);
    why.append(", and this party is ");
    why.append(me);
    Err(protocol_error(why))
}

/// What became of a request.
#[derive(Debug)]
pub enum Outcome {
    /// A message this party takes, and its payload.
    Taken { message: UserMessage, bytes: Vec<u8> },
    /// One it does not: the message it is about, where one could be read, the
    /// ebMS code, and why.
    Refused { ref_to: Option<String>, code: &'static str, error: TransportError },
}

/// What an [`Outcome`] is.
#[verifier::ext_equal]
pub enum OutcomeView {
    Taken { message: MessageView, bytes: Seq<u8> },
    Refused { ref_to: Option<Seq<char>>, code: Seq<char>, error: Refusal },
}

impl View for Outcome {
    type V = OutcomeView;

    open spec fn view(&self) -> OutcomeView {
        match self {
            Outcome::Taken { message, bytes } => OutcomeView::Taken {
                message: message@,
                bytes: bytes@,
            },
            Outcome::Refused { ref_to, code, error } => OutcomeView::Refused {
                ref_to: said(*ref_to),
                code: code@,
                error: error@,
            },
        }
    }
}

/// What becomes of a request by what it `delivered` and whether that was
/// `admitted`.
pub open spec fn outcome_of(
    delivered: Result<(MessageView, Seq<u8>), Refusal>,
    admitted: Result<(), Refusal>,
) -> OutcomeView {
    match delivered {
        Err(error) => OutcomeView::Refused {
            ref_to: None,
            code: VALUE_NOT_RECOGNIZED@,
            error,
        },
        Ok((message, bytes)) => match admitted {
            Ok(()) => OutcomeView::Taken { message, bytes },
            Err(error) => OutcomeView::Refused {
                ref_to: Some(message.message_id),
                code: POLICY_NONCOMPLIANCE@,
                error,
            },
        },
    }
}

/// What becomes of a request that delivered nothing.
pub fn unread(error: TransportError) -> (o: Outcome)
    ensures
        forall|admitted: Result<(), Refusal>|
            o@ == #[trigger] outcome_of(Err(error@), admitted),
        o == (Outcome::Refused { ref_to: None, code: VALUE_NOT_RECOGNIZED, error }),
{
    Outcome::Refused { ref_to: None, code: VALUE_NOT_RECOGNIZED, error }
}

/// What becomes of a request that delivered `message` and `bytes`, by whether
/// that was `admitted`.
pub fn weighed(message: UserMessage, bytes: Vec<u8>, admitted: Result<(), TransportError>) -> (o:
    Outcome)
    ensures
        o@ == outcome_of(Ok((message@, bytes@)), verdict(admitted)),
{
    match admitted {
        Ok(()) => Outcome::Taken { message, bytes },
        Err(error) => Outcome::Refused {
            ref_to: Some(owned(message.message_id.as_str())),
            code: POLICY_NONCOMPLIANCE,
            error,
        },
    }
}

/// What the sender of a refused message is answered.
pub open spec fn refusal_of(
    ref_to: Option<Seq<char>>,
    code: Seq<char>,
    error: Refusal,
    stamp: Stamp,
) -> AnswerView {
    if error.retryable {
        soaped(503, error_of(PREFIX@, ref_to, OTHER@, error.message, stamp))
    } else {
        soaped(400, error_of(PREFIX@, ref_to, code, error.message, stamp))
    }
}

/// What the sender of a refused message is answered: an Error with `code`,
/// or with [`OTHER`] where the sender may try again.
#[must_use]
pub fn refuse(ref_to: &Option<String>, code: &str, error: &TransportError, stamp: &Stamp) -> (a:
    Answer)
    ensures
        a@ == refusal_of(said(*ref_to), code@, error@, *stamp),
{
    let about = match ref_to {
        Some(id) => Some(id.as_str()),
        None => None,
    };
    if error.retryable {
        soap(503, Signal::error(about, OTHER, error.message.as_str(), stamp).as_str())
    } else {
        soap(400, Signal::error(about, code, error.message.as_str(), stamp).as_str())
    }
}

/// What an answer is, where there is one.
pub open spec fn answer_of(r: Result<Answer, TransportError>) -> Result<AnswerView, Refusal> {
    match r {
        Ok(answer) => Ok(answer@),
        Err(e) => Err(e@),
    }
}

/// What the sender of a message that was taken is answered, by its Receipt as
/// it was `signed`.
pub open spec fn receipted(signed: Result<Seq<char>, Refusal>) -> Result<AnswerView, Refusal> {
    match signed {
        Ok(receipt) => Ok(soaped(200, receipt)),
        Err(e) => Err(e),
    }
}

/// What the sender of a message that was taken is answered, by its Receipt as
/// it was `signed`.
///
/// # Errors
/// Where it could not be signed.
pub fn receipt(signed: Result<String, TransportError>) -> (r: Result<Answer, TransportError>)
    ensures
        answer_of(r) == receipted(signature(signed)),
{
    match signed {
        Ok(receipt) => Ok(soap(200, receipt.as_str())),
        Err(e) => Err(e),
    }
}

/// The one attachment of a message: its payload.
pub open spec fn enclosed(m: MessageView, bytes: Seq<u8>) -> Seq<(Seq<char>, Seq<u8>)> {
    seq![(m.payload_cid, bytes)]
}

/// The payload of `message` as its one attachment.
pub fn enclose(message: &UserMessage, bytes: &[u8]) -> (attachments: Attachments)
    ensures
        attached(attachments@) == enclosed(message@, bytes@),
{
    let mut attachments: Attachments = Vec::new();
    attachments.push((owned(message.payload_cid.as_str()), slice_to_vec(bytes)));
    proof {
        assert(attached(attachments@) =~= enclosed(message@, bytes@));
    }
    attachments
}

/// A message to post.
#[derive(Debug)]
pub struct Post {
    pub message: UserMessage,
    pub content_type: String,
    pub body: Packed,
}

/// What a [`Post`] is.
#[verifier::ext_equal]
pub struct PostView {
    pub message: MessageView,
    pub content_type: Seq<char>,
    pub body: PackedView,
}

impl View for Post {
    type V = PostView;

    open spec fn view(&self) -> PostView {
        PostView {
            message: self.message@,
            content_type: self.content_type@,
            body: self.body@,
        }
    }
}

/// What a post is, where there is one.
pub open spec fn post_of(r: Result<Post, TransportError>) -> Result<PostView, Refusal> {
    match r {
        Ok(post) => Ok(post@),
        Err(e) => Err(e@),
    }
}

/// `m` with its payload, ready to post, by its envelope as it was `signed`.
pub open spec fn enveloped(
    m: MessageView,
    bytes: Seq<u8>,
    boundary: Seq<char>,
    signed: Result<Seq<char>, Refusal>,
) -> Result<PostView, Refusal> {
    match signed {
        Ok(envelope) => {
            let (content_type, body) = packed(envelope, enclosed(m, bytes), boundary);
            Ok(PostView { message: m, content_type, body })
        },
        Err(e) => Err(e),
    }
}

/// `message` with its payload, ready to post, by its envelope as it was
/// `signed`.
///
/// # Errors
/// Where it could not be signed.
pub fn envelop(
    message: UserMessage,
    bytes: &[u8],
    boundary: &str,
    signed: Result<String, TransportError>,
) -> (r: Result<Post, TransportError>)
    ensures
        post_of(r) == enveloped(message@, bytes@, boundary@, signature(signed)),
{
    match signed {
        Ok(envelope) => {
            let attachments = enclose(&message, bytes);
            let (content_type, body) = pack(envelope.as_str(), attachments.as_slice(), boundary);
            Ok(Post { message, content_type, body })
        },
        Err(e) => Err(e),
    }
}

/// What a signal is, where one was read.
pub open spec fn signal_of(r: Result<Signal, TransportError>) -> Result<SignalView, Refusal> {
    match r {
        Ok(signal) => Ok(signal@),
        Err(e) => Err(e@),
    }
}

/// The signal `envelope` carries, where the signature was `verified`.
pub open spec fn signalled(envelope: Seq<char>, verified: Result<(), Refusal>) -> Result<
    SignalView,
    Refusal,
> {
    match verified {
        Ok(()) => signal_in(envelope),
        Err(e) => Err(e),
    }
}

/// The signal `envelope` carries, where the signature was `verified`.
///
/// # Errors
/// Where the signature was not, or the envelope carries no signal.
pub fn signal(envelope: &str, verified: Result<(), TransportError>) -> (r: Result<
    Signal,
    TransportError,
>)
    ensures
        signal_of(r) == signalled(envelope@, verdict(verified)),
{
    match verified {
        Ok(()) => Signal::from_envelope(envelope),
        Err(e) => Err(e),
    }
}

/// Why a partner that answered no success did not.
pub open spec fn reason_in(signal: Result<SignalView, Refusal>) -> Seq<char> {
    match signal {
        Ok(SignalView::Error { code, description, .. }) => code + ": "@ + description,
        _ => "no signal in the answer"@,
    }
}

/// What an answer with `status` and `signal` means to the sender of the
/// message `sent`: delivered, or why not. `retryable` says whether `status`
/// is one after which the same request may succeed.
pub open spec fn receipt_verdict(
    status: u16,
    retryable: bool,
    signal: Result<SignalView, Refusal>,
    sent: Seq<char>,
) -> Result<(), Refusal> {
    if !(200 <= status < 300) {
        Err(
            Refusal {
                message: "the partner answered "@ + decimal(status as nat) + " — "@ + reason_in(
                    signal,
                ),
                retryable,
            },
        )
    } else {
        match signal {
            Err(e) => Err(e),
            Ok(SignalView::Receipt { ref_to, .. }) => if ref_to == sent {
                Ok(())
            } else {
                Err(protocol("a receipt for "@ + ref_to + ", not for "@ + sent))
            },
            Ok(SignalView::Error { code, description, .. }) => Err(
                protocol("the partner refused the message: "@ + code + ": "@ + description),
            ),
        }
    }
}

/// What an answer with `status` and `signal` means to the sender of the
/// message `sent`.
///
/// # Errors
/// Where the answer is no success, holds no Receipt, or one for another
/// message.
pub fn held_against(
    status: u16,
    retryable: bool,
    signal: Result<Signal, TransportError>,
    sent: &str,
) -> (r: Result<(), TransportError>)
    ensures
        verdict(r) == receipt_verdict(status, retryable, signal_of(signal), sent@),
{
    if !(200 <= status && status < 300) {
        let why = match signal {
            Ok(Signal::Error { code, description, .. }) => {
                let mut why = code;
                why.append(": ");
                why.append(description.as_str());
                why
            },
            _ => owned("no signal in the answer"),
        };
        let mut message = owned("the partner answered ");
        message.append(decimal_of(status as u128).as_str());
        message.append(" — ");
        message.append(why.as_str());
        return Err(TransportError { message, retryable });
    }
    match signal {
        Err(e) => Err(e),
        Ok(Signal::Receipt { ref_to, .. }) => {
            if same_text(ref_to.as_str(), sent) {
                return Ok(());
            }
            let mut why = owned("a receipt for ");
            why.append(ref_to.as_str());
            why.append(", not for ");
            why.append(sent);
            Err(protocol_error(why))
        },
        Ok(Signal::Error { code, description, .. }) => {
            let mut why = owned("the partner refused the message: ");
            why.append(code.as_str());
            why.append(": ");
            why.append(description.as_str());
            Err(protocol_error(why))
        },
    }
}

/// A message counts as sent by its Receipt alone: where the answer is a
/// success and carries a Receipt that names it. A Receipt that is missing or
/// names another message, or an Error, refuses the send.
pub proof fn a_message_is_sent_by_its_receipt_alone(
    status: u16,
    retryable: bool,
    signal: Result<SignalView, Refusal>,
    sent: Seq<char>,
)
    ensures
        receipt_verdict(status, retryable, signal, sent) is Ok <==> 200 <= status < 300 && (
        signal matches Ok(SignalView::Receipt { ref_to, .. }) && ref_to == sent),
{
}

} // verus!
