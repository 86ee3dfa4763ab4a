//! What holds of an exchange as a whole, between a sender and a receiver
//! that are both unsigned: what is posted is delivered, what is delivered is
//! receipted and the receipt accepted, and what is refused is refused to the
//! sender, with the reason.

use vstd::prelude::*;

#[allow(unused_imports)]
use crate::check::{may_check, no_profile_refuses_nothing, Check, Unchecked};
#[allow(unused_imports)]
use crate::envelope::{id_of, new_message, user_message, wrapped, MessageView, Stamp};
#[allow(unused_imports)]
use crate::error::{protocol, Refusal};
#[allow(unused_imports)]
use crate::exchange::{
    admission, delivered_in, enclosed, enveloped, is_named, lemma_payload, outcome_of, posted_in,
    receipt_verdict, receipted, refusal_of, signalled, OutcomeView, PostView,
};
#[allow(unused_imports)]
use crate::mime::{
    a_signal_comes_back_alone, all_read_back, an_envelope_and_its_attachments_come_back, packed,
    parts_of, BodyView, PackedView, SOAP_TYPE,
};
#[allow(unused_imports)]
use crate::round_trip::{a_message_reads_back_off_its_envelope, readable};
#[allow(unused_imports)]
use crate::seen::{
    a_new_id_is_remembered, fresh_among, is_memory, remembering, remembering_all, REMEMBERED,
};
#[allow(unused_imports)]
use crate::signal::{error_of, receipt_of, signal_in, SignalView, OTHER};
#[allow(unused_imports)]
use crate::signal_round_trip::{a_receipt_names_the_message_it_answers, an_error_reads_back};
#[allow(unused_imports)]
use crate::signer::{
    may_sign, may_verify, the_unsigned_exchange_leaves_the_envelope_as_it_is, Unsigned,
};
#[allow(unused_imports)]
use crate::text::decimal;
#[allow(unused_imports)]
use crate::transport::{
    may_admit, may_answer, may_conclude, may_hear, may_post, may_unpack, may_weigh, seen_after,
    settled,
};
#[allow(unused_imports)]
use crate::wire::{or_nothing, origin, soaped, AnswerView, ArrivedView, RequestView, ResponseView};
#[allow(unused_imports)]
use crate::xml::{lemma_prefix, PREFIX};

verus! {

/// `request` is `post` as the far end reads it: a POST whose parts are read
/// as they were written.
pub open spec fn arrives(post: PostView, request: RequestView) -> bool {
    &&& request.method == "POST"@
    &&& post.body matches PackedView::Parts { parts, .. }
    &&& request.body matches BodyView::Multipart(read)
    &&& all_read_back(parts, read)
}

/// `response` is `answer` as the sender reads it: its status, and its
/// envelope alone.
pub open spec fn comes_back(answer: AnswerView, response: ResponseView) -> bool {
    &&& response.status == answer.status
    &&& answer.body matches PackedView::Alone(envelope)
    &&& response.body == BodyView::Single { media_type: SOAP_TYPE@, bytes: envelope }
}

/// Where there is nothing to sign with, nothing fails to be signed: every
/// message is posted, and every request answered, with a Receipt for the
/// message where it was taken.
pub proof fn an_unsigned_end_always_posts_and_answers(
    m: MessageView,
    bytes: Seq<u8>,
    boundary: Seq<char>,
    post: Result<PostView, Refusal>,
    outcome: OutcomeView,
    stamp: Stamp,
    answer: Result<AnswerView, Refusal>,
)
    requires
        may_post(Unsigned, m, bytes, boundary, post),
        may_answer(Unsigned, outcome, stamp, answer),
    ensures
        post matches Ok(p) && p.message == m && (p.content_type, p.body) == packed(
            wrapped(PREFIX@, user_message(PREFIX@, m)),
            enclosed(m, bytes),
            boundary,
        ),
        answer == Ok::<AnswerView, Refusal>(
            match outcome {
                OutcomeView::Taken { message, .. } => soaped(
                    200,
                    receipt_of(PREFIX@, message, stamp),
                ),
                OutcomeView::Refused { ref_to, code, error } => refusal_of(
                    ref_to,
                    code,
                    error,
                    stamp,
                ),
            },
        ),
{
    let envelope = wrapped(PREFIX@, user_message(PREFIX@, m));
    let signed = choose|signed: Result<Seq<char>, Refusal>|
        may_sign(Unsigned, envelope, enclosed(m, bytes), signed) && post == #[trigger] enveloped(
            m,
            bytes,
            boundary,
            signed,
        );
    the_unsigned_exchange_leaves_the_envelope_as_it_is(
        envelope,
        enclosed(m, bytes),
        signed,
        Ok(()),
    );
    if let OutcomeView::Taken { message, .. } = outcome {
        let receipt = receipt_of(PREFIX@, message, stamp);
        let nothing = Seq::<(Seq<char>, Seq<u8>)>::empty();
        let signed = choose|signed: Result<Seq<char>, Refusal>|
            may_sign(Unsigned, receipt, nothing, signed) && answer == #[trigger] receipted(signed);
        the_unsigned_exchange_leaves_the_envelope_as_it_is(receipt, nothing, signed, Ok(()));
    }
}

/// What is posted is delivered: where the message is one that reads back, the
/// far end reads that message and its payload whole, and whether it takes it
/// is up to the party and the profile alone.
#[verifier::rlimit(30)]
pub proof fn what_is_posted_is_delivered<C: Check>(
    m: MessageView,
    bytes: Seq<u8>,
    boundary: Seq<char>,
    post: PostView,
    check: C,
    me: Seq<char>,
    request: RequestView,
    outcome: OutcomeView,
)
    requires
        readable(m),
        may_post(Unsigned, m, bytes, boundary, Ok(post)),
        arrives(post, request),
        may_weigh(Unsigned, check, me, request, outcome),
    ensures
        exists|admitted: Result<(), Refusal>|
            may_admit(check, me, m, admitted) && outcome == #[trigger] outcome_of(
                Ok((m, bytes)),
                admitted,
            ),
{
    let envelope = wrapped(PREFIX@, user_message(PREFIX@, m));
    let attachments = enclosed(m, bytes);
    let signed = choose|signed: Result<Seq<char>, Refusal>|
        may_sign(Unsigned, envelope, attachments, signed) && Ok::<PostView, Refusal>(post)
            == #[trigger] enveloped(m, bytes, boundary, signed);
    the_unsigned_exchange_leaves_the_envelope_as_it_is(envelope, attachments, signed, Ok(()));
    assert(attachments.len() == 1);
    assert(post.body == PackedView::Parts { boundary, parts: parts_of(envelope, attachments) });
    let read = match request.body {
        BodyView::Multipart(read) => read,
        _ => Seq::empty(),
    };
    an_envelope_and_its_attachments_come_back(
        envelope,
        attachments,
        or_nothing(request.content_type),
        read,
    );
    assert(posted_in(request) == Ok::<(Seq<char>, Seq<(Seq<char>, Seq<u8>)>), Refusal>(
        (envelope, attachments),
    ));
    let (delivered, admitted) = choose|
        delivered: Result<(MessageView, Seq<u8>), Refusal>,
        admitted: Result<(), Refusal>,
    |
        may_unpack(Unsigned, request, delivered) && (delivered matches Ok((m, _)) ==> may_admit(
            check,
            me,
            m,
            admitted,
        )) && outcome == #[trigger] outcome_of(delivered, admitted);
    let verified = choose|verified: Result<(), Refusal>|
        may_verify(Unsigned, envelope, attachments, verified) && delivered
            == #[trigger] delivered_in(envelope, attachments, verified);
    the_unsigned_exchange_leaves_the_envelope_as_it_is(
        envelope,
        attachments,
        Ok(envelope),
        verified,
    );
    lemma_prefix();
    a_message_reads_back_off_its_envelope(PREFIX@, m);
    assert(is_named(attachments, m.payload_cid, 0));
    lemma_payload(attachments, m.payload_cid, 0);
    assert(delivered == Ok::<(MessageView, Seq<u8>), Refusal>((m, bytes)));
}

/// A message for this party is taken where there is no profile, and one for
/// another is refused under its id.
pub proof fn a_message_for_this_party_is_taken(
    m: MessageView,
    bytes: Seq<u8>,
    boundary: Seq<char>,
    post: PostView,
    me: Seq<char>,
    request: RequestView,
    outcome: OutcomeView,
)
    requires
        readable(m),
        may_post(Unsigned, m, bytes, boundary, Ok(post)),
        arrives(post, request),
        may_weigh(Unsigned, Unchecked, me, request, outcome),
    ensures
        m.to == me ==> outcome == (OutcomeView::Taken { message: m, bytes }),
        m.to != me ==> outcome == (OutcomeView::Refused {
            ref_to: Some(m.message_id),
            code: crate::signal::POLICY_NONCOMPLIANCE@,
            error: protocol("a message for "@ + m.to + ", and this party is "@ + me),
        }),
{
    what_is_posted_is_delivered(m, bytes, boundary, post, Unchecked, me, request, outcome);
    let admitted = choose|admitted: Result<(), Refusal>|
        may_admit(Unchecked, me, m, admitted) && outcome == #[trigger] outcome_of(
            Ok((m, bytes)),
            admitted,
        );
    let checked = choose|checked: Result<(), Refusal>|
        (m.to == me ==> may_check(Unchecked, m, checked)) && admitted == #[trigger] admission(
            m,
            me,
            checked,
        );
    no_profile_refuses_nothing(m, checked);
}

/// What the sender hears is the envelope it was answered.
proof fn lemma_hear(
    status: u16,
    envelope: Seq<char>,
    response: ResponseView,
    heard: Result<SignalView, Refusal>,
)
    requires
        comes_back(soaped(status, envelope), response),
        may_hear(Unsigned, response, heard),
    ensures
        heard == signal_in(envelope),
{
    let content_type = or_nothing(response.content_type);
    a_signal_comes_back_alone(envelope, Seq::empty(), content_type);
    let nothing = Seq::<(Seq<char>, Seq<u8>)>::empty();
    let verified = choose|verified: Result<(), Refusal>|
        may_verify(Unsigned, envelope, nothing, verified) && heard == #[trigger] signalled(
            envelope,
            verified,
        );
    the_unsigned_exchange_leaves_the_envelope_as_it_is(envelope, nothing, Ok(envelope), verified);
}

/// A message that was taken is delivered to its sender too: the answer is a
/// Receipt that the sender accepts, and that the sender of any other message
/// does not.
pub proof fn the_receipt_is_accepted_by_its_sender(
    m: MessageView,
    bytes: Seq<u8>,
    stamp: Stamp,
    answer: AnswerView,
    response: ResponseView,
    retryable: bool,
    sent: Seq<char>,
    r: Result<(), Refusal>,
)
    requires
        may_answer(Unsigned, OutcomeView::Taken { message: m, bytes }, stamp, Ok(answer)),
        comes_back(answer, response),
        may_conclude(Unsigned, response, retryable, sent, r),
    ensures
        sent == m.message_id ==> r == Ok::<(), Refusal>(()),
        sent != m.message_id ==> r == Err::<(), Refusal>(
            protocol("a receipt for "@ + m.message_id + ", not for "@ + sent),
        ),
{
    let receipt = receipt_of(PREFIX@, m, stamp);
    let nothing = Seq::<(Seq<char>, Seq<u8>)>::empty();
    let signed = choose|signed: Result<Seq<char>, Refusal>|
        may_sign(Unsigned, receipt, nothing, signed) && Ok::<AnswerView, Refusal>(answer)
            == #[trigger] receipted(signed);
    the_unsigned_exchange_leaves_the_envelope_as_it_is(receipt, nothing, signed, Ok(()));
    let heard = choose|heard: Result<SignalView, Refusal>|
        may_hear(Unsigned, response, heard) && r == #[trigger] receipt_verdict(
            response.status,
            retryable,
            heard,
            sent,
        );
    lemma_hear(200, receipt, response, heard);
    lemma_prefix();
    a_receipt_names_the_message_it_answers(PREFIX@, m, stamp);
}

/// A message that was refused is refused to its sender: with the code it was
/// refused under and the reason, or as one to try again where the receiver
/// failed for now. `retryable` is what the sender holds of the status.
#[verifier::rlimit(30)]
pub proof fn a_refusal_reaches_the_sender(
    ref_to: Option<Seq<char>>,
    code: Seq<char>,
    error: Refusal,
    stamp: Stamp,
    answer: AnswerView,
    response: ResponseView,
    retryable: bool,
    sent: Seq<char>,
    r: Result<(), Refusal>,
)
    requires
        may_answer(Unsigned, OutcomeView::Refused { ref_to, code, error }, stamp, Ok(answer)),
        comes_back(answer, response),
        may_conclude(Unsigned, response, retryable, sent, r),
    ensures
        answer.status == (if error.retryable {
            503
        } else {
            400int
        }),
        r == Err::<(), Refusal>(
            Refusal {
                message: "the partner answered "@ + decimal(answer.status as nat) + " — "@ + ((
                if error.retryable {
                    OTHER@
                } else {
                    code
                }) + ": "@ + error.message),
                retryable,
            },
        ),
{
    let said = if error.retryable {
        OTHER@
    } else {
        code
    };
    let fault = error_of(PREFIX@, ref_to, said, error.message, stamp);
    let heard = choose|heard: Result<SignalView, Refusal>|
        may_hear(Unsigned, response, heard) && r == #[trigger] receipt_verdict(
            response.status,
            retryable,
            heard,
            sent,
        );
    lemma_hear(answer.status, fault, response, heard);
    lemma_prefix();
    an_error_reads_back(PREFIX@, ref_to, said, error.message, stamp);
}

/// The ids seen after all of `outcomes`, in order.
pub open spec fn seen_after_all(seen: Seq<Seq<char>>, outcomes: Seq<OutcomeView>) -> Seq<Seq<char>>
    decreases outcomes.len(),
{
    if outcomes.len() == 0 {
        seen
    } else {
        seen_after(seen_after_all(seen, outcomes.drop_last()), outcomes.last())
    }
}

/// How many of `outcomes` were a message taken whose id the memory did not
/// hold when it came.
pub open spec fn fresh_ids(seen: Seq<Seq<char>>, outcomes: Seq<OutcomeView>) -> nat
    decreases outcomes.len(),
{
    if outcomes.len() == 0 {
        0
    } else {
        let before = seen_after_all(seen, outcomes.drop_last());
        fresh_ids(seen, outcomes.drop_last()) + (match outcomes.last() {
            OutcomeView::Taken { message, .. } => if before.contains(message.message_id) {
                0nat
            } else {
                1nat
            },
            OutcomeView::Refused { .. } => 0nat,
        })
    }
}

/// The ids of the messages among `outcomes` that were taken.
spec fn taken_ids(outcomes: Seq<OutcomeView>) -> Seq<Seq<char>>
    decreases outcomes.len(),
{
    if outcomes.len() == 0 {
        Seq::empty()
    } else {
        match outcomes.last() {
            OutcomeView::Taken { message, .. } => taken_ids(outcomes.drop_last()).push(
                message.message_id,
            ),
            OutcomeView::Refused { .. } => taken_ids(outcomes.drop_last()),
        }
    }
}

proof fn lemma_taken_ids(seen: Seq<Seq<char>>, outcomes: Seq<OutcomeView>)
    ensures
        seen_after_all(seen, outcomes) == remembering_all(seen, taken_ids(outcomes)),
        fresh_ids(seen, outcomes) == fresh_among(seen, taken_ids(outcomes)),
    decreases outcomes.len(),
{
    if outcomes.len() > 0 {
        lemma_taken_ids(seen, outcomes.drop_last());
        if let OutcomeView::Taken { message, .. } = outcomes.last() {
            let before = taken_ids(outcomes.drop_last());
            assert(before.push(message.message_id).drop_last() =~= before);
        }
    }
}

/// No message is delivered twice: one that was handed up is not handed up
/// again while fewer than [`REMEMBERED`] new ones are taken after it, however
/// many requests are refused or come again, and whatever comes with the
/// message the second time.
pub proof fn a_message_is_delivered_once(
    seen: Seq<Seq<char>>,
    m: MessageView,
    bytes: Seq<u8>,
    between: Seq<OutcomeView>,
    peer: Seq<char>,
    path: Seq<char>,
    again: MessageView,
    other: Seq<u8>,
)
    requires
        is_memory(seen),
        settled(seen, peer, path, OutcomeView::Taken { message: m, bytes }) matches Ok(Some(_)),
        fresh_ids(
            seen_after(seen, OutcomeView::Taken { message: m, bytes }),
            between,
        ) < REMEMBERED,
        again.message_id == m.message_id,
    ensures
        settled(
            seen_after_all(
                seen_after(seen, OutcomeView::Taken { message: m, bytes }),
                between,
            ),
            peer,
            path,
            OutcomeView::Taken { message: again, bytes: other },
        ) == Ok::<Option<(MessageView, ArrivedView)>, Refusal>(None),
{
    let first = remembering(seen, m.message_id);
    lemma_taken_ids(first, between);
    a_new_id_is_remembered(seen, m.message_id, taken_ids(between));
}

/// A new message reads back off its envelope wherever it has an id, a service
/// and an action.
pub proof fn a_new_message_is_readable(
    from: Seq<char>,
    to: Seq<char>,
    service: Seq<char>,
    action: Seq<char>,
    stamp: Stamp,
)
    ensures
        readable(new_message(from, to, service, action, stamp)) <==> stamp.message_id@.len() > 0
            && service.len() > 0 && action.len() > 0,
{
}

/// An id that was drawn is never empty.
pub proof fn a_drawn_id_says_something(nanos: nat, count: nat)
    ensures
        id_of(nanos, count).len() > 0,
{
    reveal_strlit(".");
}

/// A payload goes round whole: where a party posts to itself, unsigned and
/// with no profile, the far end hands up the bytes that were posted under an
/// origin that names the party, the message and the action, and the near end
/// accepts its Receipt.
pub proof fn a_round_returns_the_payload_whole(
    m: MessageView,
    bytes: Seq<u8>,
    boundary: Seq<char>,
    post: PostView,
    request: RequestView,
    outcome: OutcomeView,
    peer: Seq<char>,
    stamp: Stamp,
    answer: AnswerView,
    response: ResponseView,
    retryable: bool,
    r: Result<(), Refusal>,
)
    requires
        readable(m),
        m.to == m.from,
        may_post(Unsigned, m, bytes, boundary, Ok(post)),
        arrives(post, request),
        may_weigh(Unsigned, Unchecked, m.from, request, outcome),
        may_answer(Unsigned, outcome, stamp, Ok(answer)),
        comes_back(answer, response),
        may_conclude(Unsigned, response, retryable, m.message_id, r),
    ensures
        settled(Seq::empty(), peer, request.path, outcome) == Ok::<
            Option<(MessageView, ArrivedView)>,
            Refusal,
        >(
            Some(
                (
                    m,
                    ArrivedView {
                        origin_uri: origin(peer, request.path, m.from, m.message_id, m.action),
                        bytes,
                    },
                ),
            ),
        ),
        r == Ok::<(), Refusal>(()),
{
    a_message_for_this_party_is_taken(m, bytes, boundary, post, m.from, request, outcome);
    the_receipt_is_accepted_by_its_sender(
        m,
        bytes,
        stamp,
        answer,
        response,
        retryable,
        m.message_id,
        r,
    );
}

} // verus!
