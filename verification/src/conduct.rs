//! How an end of an exchange conducts itself, told by what comes in and what
//! goes out: which messages it takes, what it answers, what it hands up, and
//! what a sender concludes.

use vstd::prelude::*;

#[allow(unused_imports)]
use crate::check::{may_check, Check};
#[allow(unused_imports)]
use crate::envelope::{
    carried_in, new_message, renewed, said, user_message, wrapped, MessageView, Stamp, UserMessage,
};
#[allow(unused_imports)]
use crate::error::{Refusal, TransportError};
#[allow(unused_imports)]
use crate::exchange::{
    admission, answer_of, delivered_in, delivery, enclosed, enveloped, is_named, lemma_payload,
    outcome_of, payload_in, post_of, receipt_verdict, receipted, signal_of, signalled, OutcomeView,
    Outcome, Post, PostView,
};
#[allow(unused_imports)]
use crate::mime::{attached, packed, unpacked, PackedView};
#[allow(unused_imports)]
use crate::seen::{is_memory, remembering, remembering_all};
#[allow(unused_imports)]
use crate::signal::{error_of, receipt_of, signal_in, Signal, SignalView};
#[allow(unused_imports)]
use crate::signer::{may_sign, may_verify, signature, verdict, Signer};
#[allow(unused_imports)]
use crate::text::{decimal, starts_with};
#[allow(unused_imports)]
use crate::transport::{
    handed_up, may_admit, may_answer, may_conclude, may_hear, may_post, may_unpack, may_weigh,
    seen_after, settled,
};
#[allow(unused_imports)]
use crate::wire::{
    http_of, or_nothing, Answer, AnswerView, Arrived, ArrivedView, RequestView, ResponseView,
};
#[allow(unused_imports)]
use crate::xml::PREFIX;
#[allow(unused_imports)]
use vstd::utf8::encode_utf8;

verus! {

/// A fresh copy of a message is a new one in its id, its conversation and its
/// timestamp, and in every other field what it was.
pub proof fn a_fresh_copy_is_new_in_three_fields_only(m: MessageView, stamp: Stamp)
    ensures
        renewed(m, stamp).message_id == stamp.message_id@,
        renewed(m, stamp).conversation_id == stamp.message_id@,
        renewed(m, stamp).timestamp == stamp.timestamp@,
        renewed(m, stamp).from == m.from,
        renewed(m, stamp).to == m.to,
        renewed(m, stamp).service == m.service,
        renewed(m, stamp).action == m.action,
        renewed(m, stamp).payload_cid == m.payload_cid,
        renewed(m, stamp).party_type == m.party_type,
        renewed(m, stamp).service_type == m.service_type,
        renewed(m, stamp).agreement == m.agreement,
        renewed(m, stamp).properties == m.properties,
        renewed(m, stamp).payload_properties == m.payload_properties,
{
}

/// A copy of a copy is a copy: only the last stamp counts.
pub proof fn only_the_last_stamp_counts(m: MessageView, first: Stamp, last: Stamp)
    ensures
        renewed(renewed(m, first), last) == renewed(m, last),
{
}

/// A new message says what it was given, and nothing it was not.
pub proof fn a_new_message_says_what_it_was_given(
    from: Seq<char>,
    to: Seq<char>,
    service: Seq<char>,
    action: Seq<char>,
    stamp: Stamp,
)
    ensures
        ({
            let m = new_message(from, to, service, action, stamp);
            &&& m.from == from
            &&& m.to == to
            &&& m.service == service
            &&& m.action == action
            &&& m.message_id == stamp.message_id@
            &&& m.conversation_id == stamp.message_id@
            &&& m.timestamp == stamp.timestamp@
            &&& m.payload_cid == "payload@xmip"@
            &&& m.party_type is None
            &&& m.service_type is None
            &&& m.agreement is None
            &&& m.properties.len() == 0
            &&& m.payload_properties.len() == 1
            &&& m.payload_properties[0] == ("MimeType"@, "application/octet-stream"@)
        }),
{
}

/// What a message says is what its fields say.
pub proof fn a_message_says_what_its_fields_say(message: UserMessage)
    ensures
        message@.message_id == message.message_id@,
        message@.timestamp == message.timestamp@,
        message@.from == message.from@,
        message@.to == message.to@,
        message@.service == message.service@,
        message@.action == message.action@,
        message@.conversation_id == message.conversation_id@,
        message@.payload_cid == message.payload_cid@,
        message.party_type matches Some(t) ==> message@.party_type == Some(t@),
        message.party_type is None ==> message@.party_type is None,
        message.service_type matches Some(t) ==> message@.service_type == Some(t@),
        message.service_type is None ==> message@.service_type is None,
        message.agreement matches Some(t) ==> message@.agreement == Some(t@),
        message.agreement is None ==> message@.agreement is None,
        message@.properties.len() == message.properties@.len(),
        forall|i: int|
            0 <= i < message.properties@.len() ==> #[trigger] message@.properties[i] == (
                message.properties@[i].0@,
                message.properties@[i].1@,
            ),
        message@.payload_properties.len() == message.payload_properties@.len(),
        forall|i: int|
            0 <= i < message.payload_properties@.len() ==> #[trigger] message@.payload_properties[i]
                == (message.payload_properties@[i].0@, message.payload_properties@[i].1@),
{
}

/// What a signal says is what its fields say.
pub proof fn a_signal_says_what_its_fields_say(signal: Signal)
    ensures
        match signal {
            Signal::Receipt { ref_to, message_id } => signal@ == (SignalView::Receipt {
                ref_to: ref_to@,
                message_id: message_id@,
            }),
            Signal::Error { ref_to: Some(id), code, description } => signal@
                == (SignalView::Error {
                ref_to: Some(id@),
                code: code@,
                description: description@,
            }),
            Signal::Error { ref_to: None, code, description } => signal@ == (SignalView::Error {
                ref_to: None,
                code: code@,
                description: description@,
            }),
        },
{
}

/// What became of a request is told by what it holds.
pub proof fn an_outcome_says_what_it_holds(outcome: Outcome)
    ensures
        match outcome {
            Outcome::Taken { message, bytes } => outcome@ == (OutcomeView::Taken {
                message: message@,
                bytes: bytes@,
            }),
            Outcome::Refused { ref_to, code, error } => outcome@ matches OutcomeView::Refused {
                ref_to: r,
                code: c,
                error: e,
            } && c == code@ && e.message == error.message@ && e.retryable == error.retryable && (
            ref_to matches Some(id) ==> r == Some(id@)) && (ref_to is None ==> r is None),
        },
{
}

/// A result is told as it is: what was given back as given back, and an error
/// with its message and whether to try again.
pub proof fn results_are_told_as_they_are(
    verdict_given: Result<(), TransportError>,
    envelope_given: Result<String, TransportError>,
    signal_given: Result<Signal, TransportError>,
    answer_given: Result<Answer, TransportError>,
    post_given: Result<Post, TransportError>,
    delivery_given: Result<(UserMessage, Vec<u8>), TransportError>,
    handed: Result<Option<(UserMessage, Arrived)>, TransportError>,
)
    ensures
        match verdict_given {
            Ok(()) => verdict(verdict_given) is Ok,
            Err(e) => verdict(verdict_given) matches Err(f) && f.message == e.message@
                && f.retryable == e.retryable,
        },
        match envelope_given {
            Ok(s) => signature(envelope_given) == Ok::<Seq<char>, Refusal>(s@),
            Err(e) => signature(envelope_given) matches Err(f) && f.message == e.message@
                && f.retryable == e.retryable,
        },
        match signal_given {
            Ok(s) => signal_of(signal_given) == Ok::<SignalView, Refusal>(s@),
            Err(e) => signal_of(signal_given) matches Err(f) && f.message == e.message@
                && f.retryable == e.retryable,
        },
        match answer_given {
            Ok(a) => answer_of(answer_given) matches Ok(v) && v.status == a.status
                && v.content_type == a.content_type@ && v.body == a.body@,
            Err(e) => answer_of(answer_given) matches Err(f) && f.message == e.message@
                && f.retryable == e.retryable,
        },
        match post_given {
            Ok(p) => post_of(post_given) matches Ok(v) && v.message == p.message@
                && v.content_type == p.content_type@ && v.body == p.body@,
            Err(e) => post_of(post_given) matches Err(f) && f.message == e.message@
                && f.retryable == e.retryable,
        },
        match delivery_given {
            Ok((m, b)) => delivery(delivery_given) == Ok::<(MessageView, Seq<u8>), Refusal>(
                (m@, b@),
            ),
            Err(e) => delivery(delivery_given) matches Err(f) && f.message == e.message@
                && f.retryable == e.retryable,
        },
        match handed {
            Ok(Some((m, a))) => handed_up(handed) matches Ok(Some((n, b))) && n == m@
                && b.origin_uri == a.origin_uri@ && b.bytes == a.bytes@,
            Ok(None) => handed_up(handed) == Ok::<Option<(MessageView, ArrivedView)>, Refusal>(
                None,
            ),
            Err(e) => handed_up(handed) matches Err(f) && f.message == e.message@ && f.retryable
                == e.retryable,
        },
{
}

/// A signer that turns an envelope down is one that may not pass it, and one
/// that can only pass it is one that may not turn it down.
pub proof fn a_signer_says_what_it_answers<S: Signer>(
    signer: S,
    envelope: Seq<char>,
    attachments: Seq<(Seq<char>, Seq<u8>)>,
    verified: Result<(), Refusal>,
    signed: Result<Seq<char>, Refusal>,
)
    ensures
        may_verify(signer, envelope, attachments, verified) ==> exists|
            e: &str,
            a: &[(String, Vec<u8>)],
            r: Result<(), TransportError>,
        |
            #![trigger call_ensures(S::verify, (&signer, e, a), r)]
            call_ensures(S::verify, (&signer, e, a), r) && e@ == envelope && a@.len()
                == attachments.len() && (forall|i: int|
                0 <= i < a@.len() ==> (#[trigger] attachments[i]) == (a@[i].0@, a@[i].1@)) && (
            r is Ok <==> verified is Ok) && (r matches Err(f) ==> verified matches Err(g)
                && g.message == f.message@ && g.retryable == f.retryable),
        may_sign(signer, envelope, attachments, signed) ==> exists|
            e: String,
            a: &[(String, Vec<u8>)],
            r: Result<String, TransportError>,
        |
            #![trigger call_ensures(S::sign, (&signer, e, a), r)]
            call_ensures(S::sign, (&signer, e, a), r) && e@ == envelope && a@.len()
                == attachments.len() && (forall|i: int|
                0 <= i < a@.len() ==> (#[trigger] attachments[i]) == (a@[i].0@, a@[i].1@)) && (
            r matches Ok(s) ==> signed == Ok::<Seq<char>, Refusal>(s@)) && (r matches Err(f)
                ==> signed matches Err(g) && g.message == f.message@ && g.retryable == f.retryable),
{
}

/// A check says what it answers about that very message.
pub proof fn a_check_says_what_it_answers<C: Check>(
    check: C,
    m: MessageView,
    checked: Result<(), Refusal>,
)
    ensures
        may_check(check, m, checked) ==> exists|
            message: &UserMessage,
            r: Result<(), TransportError>,
        |
            #![trigger call_ensures(C::check, (&check, message), r)]
            call_ensures(C::check, (&check, message), r) && message@ == m && (r is Ok <==> checked
                is Ok) && (r matches Err(f) ==> checked matches Err(g) && g.message == f.message@
                && g.retryable == f.retryable),
{
}

/// A message addressed to this party is admitted only where the check passed
/// it, and refused with what the check refused it for; one for another party
/// is refused whatever the check would have said.
pub proof fn the_check_decides<C: Check>(
    check: C,
    me: Seq<char>,
    m: MessageView,
    admitted: Result<(), Refusal>,
)
    requires
        may_admit(check, me, m, admitted),
    ensures
        m.to == me ==> may_check(check, m, admitted),
        m.to != me ==> (admitted matches Err(e) && !e.retryable && e.message == "a message for "@
            + m.to + ", and this party is "@ + me),
{
}

/// What the check said of a message that is addressed to this party is what
/// is said of it, word for word; one that is addressed to another is refused
/// whatever the check said.
pub proof fn an_admission_is_what_the_check_said(
    m: MessageView,
    me: Seq<char>,
    checked: Result<(), Refusal>,
    other: Result<(), Refusal>,
)
    ensures
        m.to == me ==> admission(m, me, checked) == checked,
        m.to != me ==> admission(m, me, checked) is Err && admission(m, me, checked) == admission(
            m,
            me,
            other,
        ),
        admission(m, me, checked) is Ok <==> m.to == me && checked is Ok,
{
}

/// Where the check can only refuse a message, it is not admitted; where it
/// can only pass it and the message is for this party, it is.
pub proof fn what_the_check_always_says_holds<C: Check>(
    check: C,
    me: Seq<char>,
    m: MessageView,
    admitted: Result<(), Refusal>,
)
    requires
        may_admit(check, me, m, admitted),
    ensures
        (forall|c: Result<(), Refusal>| #[trigger] may_check(check, m, c) ==> c is Err)
            ==> admitted is Err,
        m.to == me && (forall|c: Result<(), Refusal>| #[trigger]
            may_check(check, m, c) ==> c is Ok) ==> admitted is Ok,
{
    the_check_decides(check, me, m, admitted);
}

/// The payload of a message is the first attachment its content id names.
pub proof fn the_payload_is_the_first_that_is_named(
    attachments: Seq<(Seq<char>, Seq<u8>)>,
    cid: Seq<char>,
    i: int,
)
    ensures
        (0 <= i < attachments.len() && attachments[i].0 == cid && forall|j: int|
            0 <= j < i ==> (#[trigger] attachments[j]).0 != cid) ==> payload_in(attachments, cid)
            == Some(attachments[i].1),
        (forall|j: int| 0 <= j < attachments.len() ==> (#[trigger] attachments[j]).0 != cid)
            ==> payload_in(attachments, cid) is None,
        payload_in(attachments, cid) matches Some(bytes) ==> attachments.contains((cid, bytes)),
{
    if 0 <= i < attachments.len() && attachments[i].0 == cid && (forall|j: int|
        0 <= j < i ==> (#[trigger] attachments[j]).0 != cid) {
        assert(is_named(attachments, cid, i));
        lemma_payload(attachments, cid, i);
    }
    if let Some(bytes) = payload_in(attachments, cid) {
        let k = choose|k: int| is_named(attachments, cid, k);
        assert(attachments[k] == (cid, bytes));
    }
}

/// What a POST delivers: the message in its envelope and the attachment that
/// message names, where the signature was passed, and nothing else. Where it
/// delivers nothing, the first that went wrong says why.
pub proof fn a_post_delivers_the_message_and_its_payload<S: Signer>(
    signer: S,
    request: RequestView,
    delivered: Result<(MessageView, Seq<u8>), Refusal>,
)
    requires
        may_unpack(signer, request, delivered),
    ensures
        request.method != "POST"@ ==> (delivered matches Err(e) && !e.retryable && e.message
            == "an AS4 message is a POST, not a "@ + request.method),
        request.method == "POST"@ ==> match unpacked(
            match request.content_type {
                Some(content_type) => content_type,
                None => Seq::empty(),
            },
            request.body,
        ) {
            Err(e) => delivered == Err::<(MessageView, Seq<u8>), Refusal>(e),
            Ok((envelope, attachments)) => match delivered {
                Ok((m, bytes)) => {
                    &&& may_verify(signer, envelope, attachments, Ok(()))
                    &&& carried_in(envelope) == Ok::<MessageView, Refusal>(m)
                    &&& payload_in(attachments, m.payload_cid) == Some(bytes)
                },
                Err(e) => {
                    ||| may_verify(signer, envelope, attachments, Err(e))
                    ||| {
                        &&& may_verify(signer, envelope, attachments, Ok(()))
                        &&& match carried_in(envelope) {
                            Err(f) => e == f,
                            Ok(m) => {
                                &&& payload_in(attachments, m.payload_cid) is None
                                &&& !e.retryable
                                &&& e.message == "a message whose payload cid:"@ + m.payload_cid
                                    + " is not attached"@
                            },
                        }
                    }
                },
            },
        },
{
    if request.method == "POST"@ {
        if let Ok((envelope, attachments)) = unpacked(
            or_nothing(request.content_type),
            request.body,
        ) {
            let verified = choose|verified: Result<(), Refusal>|
                may_verify(signer, envelope, attachments, verified) && delivered
                    == #[trigger] delivered_in(envelope, attachments, verified);
            if let Ok(u) = verified {
                assert(verified == Ok::<(), Refusal>(()));
            }
        }
    }
}

/// A message is taken only where it was delivered, is addressed to this
/// party, and was passed by the check.
pub proof fn what_is_taken_was_delivered_addressed_and_checked<S: Signer, C: Check>(
    signer: S,
    check: C,
    me: Seq<char>,
    request: RequestView,
    m: MessageView,
    bytes: Seq<u8>,
)
    requires
        may_weigh(signer, check, me, request, OutcomeView::Taken { message: m, bytes }),
    ensures
        may_unpack(signer, request, Ok((m, bytes))),
        m.to == me,
        may_check(check, m, Ok(())),
{
    let (delivered, admitted) = choose|
        delivered: Result<(MessageView, Seq<u8>), Refusal>,
        admitted: Result<(), Refusal>,
    |
        may_unpack(signer, request, delivered) && (delivered matches Ok((m, _)) ==> may_admit(
            check,
            me,
            m,
            admitted,
        )) && (OutcomeView::Taken { message: m, bytes }) == #[trigger] outcome_of(
            delivered,
            admitted,
        );
    assert(delivered == Ok::<(MessageView, Seq<u8>), Refusal>((m, bytes)));
    if let Ok(u) = admitted {
        assert(admitted == Ok::<(), Refusal>(()));
    }
    the_check_decides(check, me, m, admitted);
}

/// A request is refused only for a reason: it delivered nothing, and is
/// refused under `EBMS:0001` and about no message, or what it delivered was
/// not admitted, and is refused under `EBMS:0103` and about that message.
/// The error is the one it failed with.
pub proof fn what_is_refused_is_refused_for_a_reason<S: Signer, C: Check>(
    signer: S,
    check: C,
    me: Seq<char>,
    request: RequestView,
    ref_to: Option<Seq<char>>,
    code: Seq<char>,
    error: Refusal,
)
    requires
        may_weigh(signer, check, me, request, OutcomeView::Refused { ref_to, code, error }),
    ensures
        match ref_to {
            None => code == "EBMS:0001"@ && may_unpack(signer, request, Err(error)),
            Some(id) => code == "EBMS:0103"@ && exists|m: MessageView, bytes: Seq<u8>|
                m.message_id == id && #[trigger] may_unpack(signer, request, Ok((m, bytes)))
                    && may_admit(check, me, m, Err(error)),
        },
{
    let (delivered, admitted) = choose|
        delivered: Result<(MessageView, Seq<u8>), Refusal>,
        admitted: Result<(), Refusal>,
    |
        may_unpack(signer, request, delivered) && (delivered matches Ok((m, _)) ==> may_admit(
            check,
            me,
            m,
            admitted,
        )) && (OutcomeView::Refused { ref_to, code, error }) == #[trigger] outcome_of(
            delivered,
            admitted,
        );
    match delivered {
        Err(e) => {
            assert(ref_to is None && error == e);
        },
        Ok((m, bytes)) => {
            assert(admitted == Err::<(), Refusal>(error));
            assert(may_unpack(signer, request, Ok((m, bytes))));
        },
    }
}

/// A request is always weighed one way: where it can deliver only one message
/// and its payload, and that can only be admitted, it is taken.
pub proof fn what_can_only_be_admitted_is_taken<S: Signer, C: Check>(
    signer: S,
    check: C,
    me: Seq<char>,
    request: RequestView,
    m: MessageView,
    bytes: Seq<u8>,
    outcome: OutcomeView,
)
    requires
        may_weigh(signer, check, me, request, outcome),
        forall|d: Result<(MessageView, Seq<u8>), Refusal>| #[trigger]
            may_unpack(signer, request, d) ==> d == Ok::<(MessageView, Seq<u8>), Refusal>(
                (m, bytes),
            ),
        m.to == me,
        forall|c: Result<(), Refusal>| #[trigger] may_check(check, m, c) ==> c is Ok,
    ensures
        outcome == (OutcomeView::Taken { message: m, bytes }),
{
    match outcome {
        OutcomeView::Taken { message, bytes: b } => {
            what_is_taken_was_delivered_addressed_and_checked(
                signer,
                check,
                me,
                request,
                message,
                b,
            );
        },
        OutcomeView::Refused { ref_to, code, error } => {
            what_is_refused_is_refused_for_a_reason(
                signer,
                check,
                me,
                request,
                ref_to,
                code,
                error,
            );
            if let Some(id) = ref_to {
                let (n, b) = choose|n: MessageView, b: Seq<u8>|
                    n.message_id == id && #[trigger] may_unpack(signer, request, Ok((n, b)))
                        && may_admit(check, me, n, Err(error));
                what_the_check_always_says_holds(check, me, n, Err(error));
            }
        },
    }
}

/// A taken message is answered 200 with its Receipt as the signer signed it,
/// alone in the body; where the signer could not, nothing is answered and
/// that is why.
pub proof fn a_taken_message_is_answered_with_its_signed_receipt<S: Signer>(
    signer: S,
    m: MessageView,
    bytes: Seq<u8>,
    stamp: Stamp,
    answer: Result<AnswerView, Refusal>,
)
    requires
        may_answer(signer, OutcomeView::Taken { message: m, bytes }, stamp, answer),
    ensures
        match answer {
            Ok(a) => {
                &&& a.status == 200
                &&& a.content_type == "application/soap+xml"@ + "; charset=utf-8"@
                &&& exists|signed: Seq<char>|
                    may_sign(signer, receipt_of(PREFIX@, m, stamp), Seq::empty(), Ok(signed))
                        && a.body == PackedView::Alone(#[trigger] encode_utf8(signed))
            },
            Err(e) => may_sign(signer, receipt_of(PREFIX@, m, stamp), Seq::empty(), Err(e)),
        },
{
    let signed = choose|signed: Result<Seq<char>, Refusal>|
        may_sign(signer, receipt_of(PREFIX@, m, stamp), Seq::empty(), signed) && answer
            == #[trigger] receipted(signed);
    if let Ok(s) = signed {
        assert(encode_utf8(s) == encode_utf8(s));
    }
}

/// A refused request is always answered, unsigned: 503 with `EBMS:0004` where
/// it may be tried again, else 400 with the code it was refused under, about
/// the message it was refused for and with the reason.
pub proof fn a_refused_request_is_answered_with_the_reason<S: Signer>(
    signer: S,
    ref_to: Option<Seq<char>>,
    code: Seq<char>,
    error: Refusal,
    stamp: Stamp,
    answer: Result<AnswerView, Refusal>,
)
    requires
        may_answer(signer, OutcomeView::Refused { ref_to, code, error }, stamp, answer),
    ensures
        answer matches Ok(a) && a.content_type == "application/soap+xml"@ + "; charset=utf-8"@ && (
        if error.retryable {
            a.status == 503 && a.body == PackedView::Alone(
                encode_utf8(error_of(PREFIX@, ref_to, "EBMS:0004"@, error.message, stamp)),
            )
        } else {
            a.status == 400 && a.body == PackedView::Alone(
                encode_utf8(error_of(PREFIX@, ref_to, code, error.message, stamp)),
            )
        }),
{
}

/// A message that was taken is handed up exactly where its id was not seen
/// before: that message, those bytes, and where it came from. A refused
/// request hands nothing up, and is the error it was refused for.
pub proof fn a_message_is_handed_up_where_it_is_new(
    seen: Seq<Seq<char>>,
    peer: Seq<char>,
    path: Seq<char>,
    m: MessageView,
    bytes: Seq<u8>,
    ref_to: Option<Seq<char>>,
    code: Seq<char>,
    error: Refusal,
)
    ensures
        settled(seen, peer, path, OutcomeView::Taken { message: m, bytes }) is Ok,
        settled(seen, peer, path, OutcomeView::Taken { message: m, bytes })->Ok_0 is None
            <==> seen.contains(m.message_id),
        settled(seen, peer, path, OutcomeView::Taken { message: m, bytes }) matches Ok(
            Some((handed, arrived)),
        ) ==> handed == m && arrived.bytes == bytes && arrived.origin_uri == "as4://"@ + peer + path
            + "?from="@ + m.from + "&message-id="@ + m.message_id + "&action="@ + m.action,
        settled(seen, peer, path, OutcomeView::Refused { ref_to, code, error }) == Err::<
            Option<(MessageView, ArrivedView)>,
            Refusal,
        >(error),
        seen_after(seen, OutcomeView::Refused { ref_to, code, error }) == seen,
        seen_after(seen, OutcomeView::Taken { message: m, bytes }).contains(m.message_id),
{
    crate::seen::what_came_is_seen(seen, m.message_id);
}

/// What was seen before stays seen, in order, and the id that came is added
/// at the end where it is new. Only where 1024 are remembered does the oldest
/// go.
pub proof fn the_memory_grows_by_what_is_new(
    seen: Seq<Seq<char>>,
    id: Seq<char>,
    ids: Seq<Seq<char>>,
    last: Seq<char>,
)
    ensures
        seen.contains(id) ==> remembering(seen, id) == seen,
        !seen.contains(id) && seen.len() < 1024 ==> remembering(seen, id) == seen.push(id),
        !seen.contains(id) && seen.len() == 1024 ==> remembering(seen, id) == seen.skip(1).push(id),
        remembering_all(seen, Seq::empty()) == seen,
        remembering_all(seen, ids.push(last)) == remembering(remembering_all(seen, ids), last),
        is_memory(seen) <==> seen.len() <= 1024 && forall|i: int, j: int|
            0 <= i < j < seen.len() ==> seen[i] != seen[j],
{
    assert(ids.push(last).drop_last() =~= ids);
    if seen.len() > 0 {
        assert(seen.skip(1) =~= seen.drop_first());
    }
}

/// A post carries the message and its payload, signed: its body packs the
/// envelope as the signer signed it with the payload as its one attachment.
/// Where the signer could not, nothing is posted and that is why.
pub proof fn a_post_packs_the_signed_message_with_its_payload<S: Signer>(
    signer: S,
    m: MessageView,
    bytes: Seq<u8>,
    boundary: Seq<char>,
    post: Result<PostView, Refusal>,
)
    requires
        may_post(signer, m, bytes, boundary, post),
    ensures
        match post {
            Ok(p) => {
                &&& p.message == m
                &&& exists|signed: Seq<char>|
                    may_sign(
                        signer,
                        wrapped(PREFIX@, user_message(PREFIX@, m)),
                        seq![(m.payload_cid, bytes)],
                        Ok(signed),
                    ) && (p.content_type, p.body) == #[trigger] packed(
                        signed,
                        seq![(m.payload_cid, bytes)],
                        boundary,
                    )
            },
            Err(e) => may_sign(
                signer,
                wrapped(PREFIX@, user_message(PREFIX@, m)),
                seq![(m.payload_cid, bytes)],
                Err(e),
            ),
        },
{
    let signed = choose|signed: Result<Seq<char>, Refusal>|
        may_sign(
            signer,
            wrapped(PREFIX@, user_message(PREFIX@, m)),
            enclosed(m, bytes),
            signed,
        ) && post == #[trigger] enveloped(m, bytes, boundary, signed);
    if let Ok(s) = signed {
        let p = packed(s, seq![(m.payload_cid, bytes)], boundary);
        assert(post->Ok_0.content_type == p.0 && post->Ok_0.body == p.1);
    }
}

/// The signal that is heard in a response is the one its envelope carries,
/// where the signature was passed; else why none is.
pub proof fn what_is_heard_was_verified<S: Signer>(
    signer: S,
    response: ResponseView,
    heard: Result<SignalView, Refusal>,
)
    requires
        may_hear(signer, response, heard),
    ensures
        match unpacked(
            match response.content_type {
                Some(content_type) => content_type,
                None => Seq::empty(),
            },
            response.body,
        ) {
            Err(e) => heard == Err::<SignalView, Refusal>(e),
            Ok((envelope, attachments)) => {
                ||| may_verify(signer, envelope, attachments, Ok(())) && heard == signal_in(
                    envelope,
                )
                ||| (heard matches Err(e) && may_verify(signer, envelope, attachments, Err(e)))
            },
        },
{
    if let Ok((envelope, attachments)) = unpacked(
        or_nothing(response.content_type),
        response.body,
    ) {
        let verified = choose|verified: Result<(), Refusal>|
            may_verify(signer, envelope, attachments, verified) && heard == #[trigger] signalled(
                envelope,
                verified,
            );
        if let Ok(u) = verified {
            assert(verified == Ok::<(), Refusal>(()));
        }
    }
}

/// What a sender concludes from a response, by the signal that is heard in it
/// and no other: sent where the answer is a success and a Receipt names the
/// message; else why not, and whether to try again.
pub proof fn a_sender_concludes_by_what_it_hears<S: Signer>(
    signer: S,
    response: ResponseView,
    retryable: bool,
    sent: Seq<char>,
    r: Result<(), Refusal>,
)
    requires
        may_conclude(signer, response, retryable, sent, r),
    ensures
        exists|heard: Result<SignalView, Refusal>| #[trigger]
            may_hear(signer, response, heard) && {
                &&& r is Ok <==> 200 <= response.status < 300 && (heard matches Ok(
                    SignalView::Receipt { ref_to, .. },
                ) && ref_to == sent)
                &&& !(200 <= response.status < 300) ==> (r matches Err(e) && e.retryable
                    == retryable && e.message == "the partner answered "@ + decimal(
                    response.status as nat,
                ) + " — "@ + (match heard {
                    Ok(SignalView::Error { code, description, .. }) => code + ": "@ + description,
                    _ => "no signal in the answer"@,
                }))
                &&& 200 <= response.status < 300 ==> match heard {
                    Err(e) => r == Err::<(), Refusal>(e),
                    Ok(SignalView::Error { code, description, .. }) => r matches Err(e)
                        && !e.retryable && e.message == "the partner refused the message: "@ + code
                        + ": "@ + description,
                    Ok(SignalView::Receipt { ref_to, .. }) => ref_to != sent ==> (r matches Err(e)
                        && !e.retryable && e.message == "a receipt for "@ + ref_to + ", not for "@
                        + sent),
                }
            },
{
    let heard = choose|heard: Result<SignalView, Refusal>|
        may_hear(signer, response, heard) && r == #[trigger] receipt_verdict(
            response.status,
            retryable,
            heard,
            sent,
        );
    assert(may_hear(signer, response, heard));
}

/// A URL in either AS4 scheme is the same in the scheme of the wire, and any
/// other is left alone.
pub proof fn a_scheme_is_exchanged_and_nothing_else(rest: Seq<char>, url: Seq<char>)
    ensures
        http_of("as4://"@ + rest) == "http://"@ + rest,
        http_of("as4s://"@ + rest) == "https://"@ + rest,
        !starts_with(url, "as4://"@) && !starts_with(url, "as4s://"@) ==> http_of(url) == url,
{
    reveal_strlit("as4://");
    reveal_strlit("as4s://");
    let (a, b) = ("as4://"@ + rest, "as4s://"@ + rest);
    assert(a.subrange(0, 6) =~= "as4://"@);
    assert(a.skip(6) =~= rest);
    assert(b.subrange(0, 7) =~= "as4s://"@);
    assert(b.skip(7) =~= rest);
    if starts_with(b, "as4://"@) {
        assert(b.subrange(0, 6)[3] == b[3]);
    }
}

} // verus!
