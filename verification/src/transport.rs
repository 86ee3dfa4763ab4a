//! One end of AS4 exchanges: the party it speaks as, the partner it speaks
//! to, and what it does with a message that comes and one that goes.
//!
//! The connection is the caller's. A message that came is weighed, the
//! answer to it is written, and then it is settled; a message to send is
//! posted, and the response is held against it.

use std::time::Duration;

use vstd::prelude::*;

use crate::check::{Check, Unchecked};
use crate::envelope::{Stamp, UserMessage, TEST_ACTION, TEST_SERVICE};
use crate::error::TransportError;
use crate::exchange::{
    addressed, delivered, enclose, envelop, held_against, posted, receipt, refuse, signal, unread,
    weighed, Outcome, Post,
};
use crate::mime::unpack;
use crate::seen::Seen;
use crate::signal::Signal;
use crate::signer::{Signer, Unsigned};
use crate::text::owned;
use crate::wire::{as_http, or_empty, origin_of, Answer, Arrived, Request, Response};

#[allow(unused_imports)]
use crate::check::may_check;
#[allow(unused_imports)]
use crate::envelope::{new_message, renewed, user_message, wrapped, MessageView};
#[allow(unused_imports)]
use crate::error::Refusal;
#[allow(unused_imports)]
use crate::exchange::{
    admission, answer_of, delivered_in, delivery, enclosed, enveloped, outcome_of, post_of,
    posted_in, receipt_verdict, receipted, refusal_of, signal_of, signalled, OutcomeView, PostView,
};
#[allow(unused_imports)]
use crate::mime::{attached, unpacked};
#[allow(unused_imports)]
use crate::seen::{is_memory, remembering};
#[allow(unused_imports)]
use crate::signal::{receipt_of, SignalView};
#[allow(unused_imports)]
use crate::signer::{may_sign, may_verify, signature, verdict};
#[allow(unused_imports)]
use crate::wire::{http_of, or_nothing, origin, AnswerView, ArrivedView, RequestView, ResponseView};
#[allow(unused_imports)]
use crate::xml::PREFIX;

verus! {

/// One end of AS4 exchanges.
pub struct As4Transport<S: Signer, C: Check> {
    /// The partner's endpoint to send to, or the address to listen at.
    endpoint: String,
    /// The message every send is a fresh copy of; its `from` is this party.
    template: UserMessage,
    signer: S,
    check: C,
    timeout: Option<Duration>,
    seen: Seen,
}

/// What an [`As4Transport`] is, but for its signer and its check.
#[verifier::ext_equal]
pub struct TransportView {
    pub endpoint: Seq<char>,
    pub template: MessageView,
    pub timeout: Option<Duration>,
    pub seen: Seq<Seq<char>>,
}

impl<S: Signer, C: Check> View for As4Transport<S, C> {
    type V = TransportView;

    closed spec fn view(&self) -> TransportView {
        TransportView {
            endpoint: self.endpoint@,
            template: self.template@,
            timeout: self.timeout,
            seen: self.seen@,
        }
    }
}

/// `delivered` is what an end with `signer` may make of `request`.
pub open spec fn may_unpack<S: Signer>(
    signer: S,
    request: RequestView,
    delivered: Result<(MessageView, Seq<u8>), Refusal>,
) -> bool {
    match posted_in(request) {
        Err(e) => delivered == Err::<(MessageView, Seq<u8>), Refusal>(e),
        Ok((envelope, attachments)) => exists|verified: Result<(), Refusal>|
            may_verify(signer, envelope, attachments, verified) && delivered
                == #[trigger] delivered_in(envelope, attachments, verified),
    }
}

/// `admitted` is what party `me` with `check` may say to `m`.
pub open spec fn may_admit<C: Check>(
    check: C,
    me: Seq<char>,
    m: MessageView,
    admitted: Result<(), Refusal>,
) -> bool {
    exists|checked: Result<(), Refusal>|
        (m.to == me ==> may_check(check, m, checked)) && admitted == #[trigger] admission(
            m,
            me,
            checked,
        )
}

/// `outcome` is what may become of `request` at party `me` with `signer` and
/// `check`.
pub open spec fn may_weigh<S: Signer, C: Check>(
    signer: S,
    check: C,
    me: Seq<char>,
    request: RequestView,
    outcome: OutcomeView,
) -> bool {
    exists|delivered: Result<(MessageView, Seq<u8>), Refusal>, admitted: Result<(), Refusal>|
        may_unpack(signer, request, delivered) && (delivered matches Ok((m, _)) ==> may_admit(
            check,
            me,
            m,
            admitted,
        )) && outcome == #[trigger] outcome_of(delivered, admitted)
}

/// `answer` is what the sender may be answered where `outcome` became of its
/// request.
pub open spec fn may_answer<S: Signer>(
    signer: S,
    outcome: OutcomeView,
    stamp: Stamp,
    answer: Result<AnswerView, Refusal>,
) -> bool {
    match outcome {
        OutcomeView::Taken { message, .. } => exists|signed: Result<Seq<char>, Refusal>|
            may_sign(signer, receipt_of(PREFIX@, message, stamp), Seq::empty(), signed) && answer
                == #[trigger] receipted(signed),
        OutcomeView::Refused { ref_to, code, error } => answer == Ok::<AnswerView, Refusal>(
            refusal_of(ref_to, code, error, stamp),
        ),
    }
}

/// What is handed up.
pub open spec fn handed_up(r: Result<Option<(UserMessage, Arrived)>, TransportError>) -> Result<
    Option<(MessageView, ArrivedView)>,
    Refusal,
> {
    match r {
        Ok(Some((message, arrived))) => Ok(Some((message@, arrived@))),
        Ok(None) => Ok(None),
        Err(e) => Err(e@),
    }
}

/// What is handed up where `outcome` became of a request `peer` posted to
/// `path`: a message not `seen` before, nothing for one that was, the error
/// for one that was refused.
pub open spec fn settled(
    seen: Seq<Seq<char>>,
    peer: Seq<char>,
    path: Seq<char>,
    outcome: OutcomeView,
) -> Result<Option<(MessageView, ArrivedView)>, Refusal> {
    match outcome {
        OutcomeView::Refused { error, .. } => Err(error),
        OutcomeView::Taken { message, bytes } => if seen.contains(message.message_id) {
            Ok(None)
        } else {
            Ok(
                Some(
                    (
                        message,
                        ArrivedView {
                            origin_uri: origin(
                                peer,
                                path,
                                message.from,
                                message.message_id,
                                message.action,
                            ),
                            bytes,
                        },
                    ),
                ),
            )
        },
    }
}

/// The ids seen after `outcome`.
pub open spec fn seen_after(seen: Seq<Seq<char>>, outcome: OutcomeView) -> Seq<Seq<char>> {
    match outcome {
        OutcomeView::Taken { message, .. } => remembering(seen, message.message_id),
        OutcomeView::Refused { .. } => seen,
    }
}

/// `post` is what an end with `signer` may post of `m` and its payload.
pub open spec fn may_post<S: Signer>(
    signer: S,
    m: MessageView,
    bytes: Seq<u8>,
    boundary: Seq<char>,
    post: Result<PostView, Refusal>,
) -> bool {
    exists|signed: Result<Seq<char>, Refusal>|
        may_sign(
            signer,
            wrapped(PREFIX@, user_message(PREFIX@, m)),
            enclosed(m, bytes),
            signed,
        ) && post
            == #[trigger] enveloped(m, bytes, boundary, signed)
}

/// `heard` is the signal an end with `signer` may read in `response`.
pub open spec fn may_hear<S: Signer>(
    signer: S,
    response: ResponseView,
    heard: Result<SignalView, Refusal>,
) -> bool {
    match unpacked(or_nothing(response.content_type), response.body) {
        Err(e) => heard == Err::<SignalView, Refusal>(e),
        Ok((envelope, attachments)) => exists|verified: Result<(), Refusal>|
            may_verify(signer, envelope, attachments, verified) && heard == #[trigger] signalled(
                envelope,
                verified,
            ),
    }
}

/// `r` is what an end with `signer` may conclude from `response` about the
/// message `sent`.
pub open spec fn may_conclude<S: Signer>(
    signer: S,
    response: ResponseView,
    retryable: bool,
    sent: Seq<char>,
    r: Result<(), Refusal>,
) -> bool {
    exists|heard: Result<SignalView, Refusal>|
        may_hear(signer, response, heard) && r == #[trigger] receipt_verdict(
            response.status,
            retryable,
            heard,
            sent,
        )
}

impl As4Transport<Unsigned, Unchecked> {
    /// Speak as party `me` to `partner` at `endpoint`
    /// (`http://host:port/msh` or `as4://host:port/msh`) under the ebMS
    /// test service until [`Self::under`], unsigned until
    /// [`Self::signing_with`].
    #[must_use]
    pub fn new(endpoint: &str, me: &str, partner: &str, stamp: Stamp) -> (t: Self)
        ensures
            t@ == (TransportView {
                endpoint: http_of(endpoint@),
                template: new_message(me@, partner@, TEST_SERVICE@, TEST_ACTION@, stamp),
                timeout: None,
                seen: Seq::empty(),
            }),
            t.signs_with() == Unsigned,
            t.checks_with() == Unchecked,
    {
        As4Transport {
            endpoint: as_http(endpoint),
            template: UserMessage::new(me, partner, TEST_SERVICE, TEST_ACTION, stamp),
            signer: Unsigned,
            check: Unchecked,
            timeout: None,
            seen: Seen::new(),
        }
    }
}

impl<S: Signer, C: Check> As4Transport<S, C> {
    /// What signs and verifies here.
    pub closed spec fn signs_with(&self) -> S {
        self.signer
    }

    /// What checks the messages that come here.
    pub closed spec fn checks_with(&self) -> C {
        self.check
    }

    /// Send under `service` and `action`.
    #[must_use]
    pub fn under(self, service: &str, action: &str) -> (t: Self)
        ensures
            t@ == (TransportView {
                template: (MessageView {
                    service: service@,
                    action: action@,
                    ..self@.template
                }),
                ..self@
            }),
            t.signs_with() == self.signs_with(),
            t.checks_with() == self.checks_with(),
    {
        let mut template = self.template;
        template.service = owned(service);
        template.action = owned(action);
        As4Transport {
            endpoint: self.endpoint,
            template,
            signer: self.signer,
            check: self.check,
            timeout: self.timeout,
            seen: self.seen,
        }
    }

    /// Send every message as a fresh copy of `template`: a profile's
    /// party types, agreement and properties.
    #[must_use]
    pub fn shaped(self, template: UserMessage) -> (t: Self)
        ensures
            t@ == (TransportView { template: template@, ..self@ }),
            t.signs_with() == self.signs_with(),
            t.checks_with() == self.checks_with(),
    {
        As4Transport {
            endpoint: self.endpoint,
            template,
            signer: self.signer,
            check: self.check,
            timeout: self.timeout,
            seen: self.seen,
        }
    }

    /// Refuse, with an Error signal, any message `check` refuses.
    #[must_use]
    pub fn checking<D: Check>(self, check: D) -> (t: As4Transport<S, D>)
        ensures
            t@ == self@,
            t.signs_with() == self.signs_with(),
            t.checks_with() == check,
    {
        As4Transport {
            endpoint: self.endpoint,
            template: self.template,
            signer: self.signer,
            check,
            timeout: self.timeout,
            seen: self.seen,
        }
    }

    /// Sign with this, and verify with it.
    #[must_use]
    pub fn signing_with<T: Signer>(self, signer: T) -> (t: As4Transport<T, C>)
        ensures
            t@ == self@,
            t.signs_with() == signer,
            t.checks_with() == self.checks_with(),
    {
        As4Transport {
            endpoint: self.endpoint,
            template: self.template,
            signer,
            check: self.check,
            timeout: self.timeout,
            seen: self.seen,
        }
    }

    /// Give up on a partner that stops mid-message.
    #[must_use]
    pub fn timing_out_after(self, timeout: Duration) -> (t: Self)
        ensures
            t@ == (TransportView { timeout: Some(timeout), ..self@ }),
            t.signs_with() == self.signs_with(),
            t.checks_with() == self.checks_with(),
    {
        As4Transport {
            endpoint: self.endpoint,
            template: self.template,
            signer: self.signer,
            check: self.check,
            timeout: Some(timeout),
            seen: self.seen,
        }
    }

    /// This party at `endpoint`, unsigned, unchecked and with nothing seen:
    /// what each end of a loopback is.
    #[must_use]
    pub fn twin(&self, endpoint: String) -> (t: As4Transport<Unsigned, Unchecked>)
        ensures
            t@ == (TransportView { endpoint: endpoint@, seen: Seq::empty(), ..self@ }),
            t.signs_with() == Unsigned,
            t.checks_with() == Unchecked,
    {
        As4Transport {
            endpoint,
            template: self.template.clone(),
            signer: Unsigned,
            check: Unchecked,
            timeout: self.timeout,
            seen: Seen::new(),
        }
    }

    /// The message every send is a copy of.
    #[must_use]
    pub fn template(&self) -> (m: &UserMessage)
        ensures
            m@ == self@.template,
    {
        &self.template
    }

    /// The partner's endpoint, or the address to listen at.
    #[must_use]
    pub fn endpoint(&self) -> (s: &str)
        ensures
            s@ == self@.endpoint,
    {
        self.endpoint.as_str()
    }

    /// When to give up on a partner that stops mid-message.
    #[must_use]
    pub fn timeout(&self) -> (t: Option<Duration>)
        ensures
            t == self@.timeout,
    {
        self.timeout
    }

    /// What becomes of a request: the message it carries is taken where it
    /// can be read and this party takes it.
    pub fn weigh(&self, request: &Request) -> (o: Outcome)
        ensures
            may_weigh(
                self.signs_with(),
                self.checks_with(),
                self@.template.from,
                request@,
                o@,
            ),
    {
        match self.unpack(request) {
            Err(error) => {
                let ghost undecided = Ok::<(), Refusal>(());
                let ghost e = error@;
                let o = unread(error);
                proof {
                    assert(o@ == outcome_of(Err(e), undecided));
                }
                o
            },
            Ok((message, bytes)) => {
                let admitted = self.admits(&message);
                weighed(message, bytes, admitted)
            },
        }
    }

    /// What the sender is answered where `outcome` became of its request.
    ///
    /// # Errors
    /// Where the Receipt cannot be signed; nothing is answered then.
    pub fn answer(&self, outcome: &Outcome, stamp: &Stamp) -> (r: Result<Answer, TransportError>)
        ensures
            may_answer(self.signs_with(), outcome@, *stamp, answer_of(r)),
    {
        match outcome {
            Outcome::Taken { message, .. } => {
                let nothing: Vec<(String, Vec<u8>)> = Vec::new();
                proof {
                    assert(attached(nothing@) =~= Seq::empty());
                }
                let signed = self.signer.sign(Signal::receipt(message, stamp), nothing.as_slice());
                receipt(signed)
            },
            Outcome::Refused { ref_to, code, error } => Ok(refuse(ref_to, code, error, stamp)),
        }
    }

    /// Hands a message that was answered up, where it was not seen before;
    /// `None` where it was, receipted again and not delivered again.
    ///
    /// # Errors
    /// Where the request was refused, the error it was refused for.
    pub fn settle(&mut self, peer: &str, path: &str, outcome: Outcome) -> (r: Result<
        Option<(UserMessage, Arrived)>,
        TransportError,
    >)
        ensures
            handed_up(r) == settled(old(self)@.seen, peer@, path@, outcome@),
            final(self)@ == (TransportView {
                seen: seen_after(old(self)@.seen, outcome@),
                ..old(self)@
            }),
            final(self).signs_with() == old(self).signs_with(),
            final(self).checks_with() == old(self).checks_with(),
    {
        match outcome {
            Outcome::Taken { message, bytes } => {
                if self.remember(message.message_id.as_str()) {
                    return Ok(None);
                }
                let origin_uri = origin_of(
                    peer,
                    path,
                    message.from.as_str(),
                    message.message_id.as_str(),
                    message.action.as_str(),
                );
                Ok(Some((message, Arrived { origin_uri, bytes })))
            },
            Outcome::Refused { error, .. } => Err(error),
        }
    }

    /// The User Message a request carries and its payload, the signature
    /// verified.
    ///
    /// # Errors
    /// Where the request is no POST, its body is not AS4, the signature does
    /// not verify, or the payload is not attached.
    pub fn unpack(&self, request: &Request) -> (r: Result<
        (UserMessage, Vec<u8>),
        TransportError,
    >)
        ensures
            may_unpack(self.signs_with(), request@, delivery(r)),
    {
        let (envelope, attachments) = match posted(request) {
            Ok(carried) => carried,
            Err(e) => return Err(e),
        };
        let verified = self.signer.verify(envelope.as_str(), attachments.as_slice());
        let ghost said = verdict(verified);
        proof {
            assert(may_verify(self.signer, envelope@, attached(attachments@), said));
        }
        delivered(envelope.as_str(), attachments.as_slice(), verified)
    }

    /// Whether this party takes `message`: addressed to it, and what the
    /// profile checks.
    ///
    /// # Errors
    /// Where it does not.
    pub fn admits(&self, message: &UserMessage) -> (r: Result<(), TransportError>)
        ensures
            may_admit(self.checks_with(), self@.template.from, message@, verdict(r)),
    {
        let ghost me = self.template.from@;
        match addressed(message.to.as_str(), self.template.from.as_str()) {
            Err(e) => {
                proof {
                    let undecided = Ok::<(), Refusal>(());
                    assert(admission(message@, me, undecided) == Err::<(), Refusal>(e@));
                }
                Err(e)
            },
            Ok(()) => {
                let r = self.check.check(message);
                proof {
                    assert(may_check(self.check, message@, verdict(r)));
                    assert(admission(message@, me, verdict(r)) == verdict(r));
                }
                r
            },
        }
    }

    /// Whether `message_id` was seen before; remembered either way.
    pub fn remember(&mut self, message_id: &str) -> (before: bool)
        ensures
            is_memory(old(self)@.seen),
            before == old(self)@.seen.contains(message_id@),
            final(self)@ == (TransportView {
                seen: remembering(old(self)@.seen, message_id@),
                ..old(self)@
            }),
            final(self).signs_with() == old(self).signs_with(),
            final(self).checks_with() == old(self).checks_with(),
    {
        self.seen.remember(message_id)
    }

    /// Where a target names the partner's endpoint itself, or is empty and
    /// means the one configured.
    pub fn resolve(&self, target: &str) -> (url: String)
        ensures
            url@ == (if target@.len() == 0 {
                self@.endpoint
            } else {
                http_of(target@)
            }),
    {
        if target.is_empty() {
            owned(self.endpoint.as_str())
        } else {
            as_http(target)
        }
    }

    /// A fresh copy of the template with `bytes` as its payload, signed and
    /// ready to post. `boundary` is one that neither holds.
    ///
    /// # Errors
    /// Where the envelope cannot be signed.
    pub fn post(&self, bytes: &[u8], boundary: &str, stamp: Stamp) -> (r: Result<
        Post,
        TransportError,
    >)
        ensures
            may_post(
                self.signs_with(),
                renewed(self@.template, stamp),
                bytes@,
                boundary@,
                post_of(r),
            ),
    {
        let message = self.template.fresh(stamp);
        let attachments = enclose(&message, bytes);
        let signed = self.signer.sign(message.envelope(), attachments.as_slice());
        let ghost said = signature(signed);
        proof {
            assert(may_sign(
                self.signer,
                wrapped(PREFIX@, user_message(PREFIX@, message@)),
                enclosed(message@, bytes@),
                said,
            ));
        }
        envelop(message, bytes, boundary, signed)
    }

    /// The Signal the partner answered, held against what was sent.
    /// `retryable` says whether the status of the response is one after which
    /// the same request may succeed.
    ///
    /// # Errors
    /// Where the partner refused the message, or answered no Receipt for it.
    pub fn verify_receipt(&self, response: &Response, retryable: bool, sent: &UserMessage) -> (r:
        Result<(), TransportError>)
        ensures
            may_conclude(
                self.signs_with(),
                response@,
                retryable,
                sent@.message_id,
                verdict(r),
            ),
    {
        let heard = self.hear(response);
        let ghost said = signal_of(heard);
        proof {
            assert(may_hear(self.signer, response@, said));
        }
        held_against(response.status, retryable, heard, sent.message_id.as_str())
    }

    /// The Signal the partner answered, the signature verified.
    fn hear(&self, response: &Response) -> (r: Result<Signal, TransportError>)
        ensures
            may_hear(self.signs_with(), response@, signal_of(r)),
    {
        let carried = unpack(or_empty(&response.content_type).as_str(), &response.body);
        let (envelope, attachments) = match carried {
            Ok(carried) => carried,
            Err(e) => return Err(e),
        };
        let verified = self.signer.verify(envelope.as_str(), attachments.as_slice());
        let ghost said = verdict(verified);
        proof {
            assert(may_verify(self.signer, envelope@, attached(attachments@), said));
        }
        signal(envelope.as_str(), verified)
    }
}

/// What arrived with one message: nothing where it was one seen before.
pub fn arrivals(r: Option<(UserMessage, Arrived)>) -> (all: Vec<Arrived>)
    ensures
        all@ == (match r {
            Some((_, a)) => seq![a],
            None => Seq::empty(),
        }),
{
    let mut all: Vec<Arrived> = Vec::new();
    if let Some((_, arrived)) = r {
        all.push(arrived);
    }
    all
}

} // verus!
