//! What the operations of this library give back, told by what they are
//! called with: each law here speaks of a call and its result, whatever
//! message, end or partner the call is made on.

use std::time::Duration;
use vstd::prelude::*;

#[allow(unused_imports)]
use crate::check::{may_check, Check, Unchecked};
#[allow(unused_imports)]
use crate::conduct::{
    a_check_says_what_it_answers, a_post_packs_the_signed_message_with_its_payload,
    a_sender_concludes_by_what_it_hears, the_check_decides,
    what_is_taken_was_delivered_addressed_and_checked,
};
#[allow(unused_imports)]
use crate::envelope::{Stamp, UserMessage};
#[allow(unused_imports)]
use crate::error::{Refusal, TransportError};
#[allow(unused_imports)]
use crate::exchange::{answer_of, delivery, Outcome, Post};
#[allow(unused_imports)]
use crate::mime::PackedView;
#[allow(unused_imports)]
use crate::packing::{parameter, the_content_type_gives_the_boundary};
#[allow(unused_imports)]
use crate::scan::pairs;
#[allow(unused_imports)]
use crate::seen::Seen;
#[allow(unused_imports)]
use crate::signal::SignalView;
#[allow(unused_imports)]
use crate::signer::{may_sign, Signer, Unsigned};
#[allow(unused_imports)]
use crate::text::decimal;
#[allow(unused_imports)]
use crate::transport::{may_answer, may_hear, may_unpack, may_weigh, As4Transport};
#[allow(unused_imports)]
use crate::wire::{http_of, Answer, Arrived, Request, Response};

verus! {

/// `a` and `b` say the same, or both nothing.
pub open spec fn alike(a: Option<String>, b: Option<String>) -> bool {
    match (a, b) {
        (Some(a), Some(b)) => a@ == b@,
        (None, None) => true,
        _ => false,
    }
}

/// `a` and `b` are the same names and values, in the same order.
pub open spec fn same_pairs(a: Seq<(String, String)>, b: Seq<(String, String)>) -> bool {
    a.len() == b.len() && forall|i: int|
        0 <= i < a.len() ==> (#[trigger] a[i]).0@ == b[i].0@ && a[i].1@ == b[i].1@
}

/// `a` and `b` agree in all that two copies of a message have in common:
/// everything but the id, the conversation and the timestamp.
pub open spec fn same_but_new(a: UserMessage, b: UserMessage) -> bool {
    &&& a.from@ == b.from@
    &&& a.to@ == b.to@
    &&& a.service@ == b.service@
    &&& a.action@ == b.action@
    &&& a.payload_cid@ == b.payload_cid@
    &&& alike(a.party_type, b.party_type)
    &&& alike(a.service_type, b.service_type)
    &&& alike(a.agreement, b.agreement)
    &&& same_pairs(a.properties@, b.properties@)
    &&& same_pairs(a.payload_properties@, b.payload_properties@)
}

/// Messages that say the same, say the same in each field.
proof fn lemma_same(a: UserMessage, b: UserMessage)
    requires
        a@.from == b@.from,
        a@.to == b@.to,
        a@.service == b@.service,
        a@.action == b@.action,
        a@.payload_cid == b@.payload_cid,
        a@.party_type == b@.party_type,
        a@.service_type == b@.service_type,
        a@.agreement == b@.agreement,
        a@.properties == b@.properties,
        a@.payload_properties == b@.payload_properties,
    ensures
        same_but_new(a, b),
{
    lemma_pairs(a.properties@, b.properties@);
    lemma_pairs(a.payload_properties@, b.payload_properties@);
}

proof fn lemma_pairs(a: Seq<(String, String)>, b: Seq<(String, String)>)
    requires
        pairs(a) == pairs(b),
    ensures
        same_pairs(a, b),
{
    assert(pairs(a).len() == a.len());
    assert(pairs(b).len() == b.len());
    assert forall|i: int| 0 <= i < a.len() implies (#[trigger] a[i]).0@ == b[i].0@ && a[i].1@
        == b[i].1@ by {
        assert(pairs(a)[i] == (a[i].0@, a[i].1@));
        assert(pairs(b)[i] == (b[i].0@, b[i].1@));
    }
}

/// A fresh copy has the stamp's id, as its conversation too, and the stamp's
/// timestamp; in every other field it is the message it is a copy of.
pub proof fn a_fresh_copy_keeps_every_other_field(m: UserMessage, stamp: Stamp, copy: UserMessage)
    requires
        call_ensures(UserMessage::fresh, (&m, stamp), copy),
    ensures
        copy.message_id@ == stamp.message_id@,
        copy.conversation_id@ == stamp.message_id@,
        copy.timestamp@ == stamp.timestamp@,
        same_but_new(copy, m),
{
    assert(copy@.message_id == stamp.message_id@);
    assert(copy@.conversation_id == stamp.message_id@);
    assert(copy@.timestamp == stamp.timestamp@);
    lemma_same(copy, m);
}

/// A copy says what the message says, in every field.
pub proof fn a_copy_says_the_same(m: UserMessage, copy: UserMessage)
    requires
        call_ensures(UserMessage::clone, (&m,), copy),
    ensures
        copy.message_id@ == m.message_id@,
        copy.conversation_id@ == m.conversation_id@,
        copy.timestamp@ == m.timestamp@,
        same_but_new(copy, m),
{
    assert(copy@.message_id == m@.message_id);
    assert(copy@.conversation_id == m@.conversation_id);
    assert(copy@.timestamp == m@.timestamp);
    lemma_same(copy, m);
}

/// A new message is from one party to the other, under the service and the
/// action, new by its stamp, and says no more than that its payload is bytes.
pub proof fn a_new_message_is_what_it_is_made_of(
    from: &str,
    to: &str,
    service: &str,
    action: &str,
    stamp: Stamp,
    m: UserMessage,
)
    requires
        call_ensures(UserMessage::new, (from, to, service, action, stamp), m),
    ensures
        m.from@ == from@,
        m.to@ == to@,
        m.service@ == service@,
        m.action@ == action@,
        m.message_id@ == stamp.message_id@,
        m.conversation_id@ == stamp.message_id@,
        m.timestamp@ == stamp.timestamp@,
        m.payload_cid@ == "payload@xmip"@,
        m.party_type is None,
        m.service_type is None,
        m.agreement is None,
        m.properties@.len() == 0,
        m.payload_properties@.len() == 1,
        m.payload_properties@[0].0@ == "MimeType"@,
        m.payload_properties@[0].1@ == "application/octet-stream"@,
{
    assert(m@.from == from@ && m@.to == to@ && m@.service == service@ && m@.action == action@);
    assert(m@.message_id == stamp.message_id@ && m@.timestamp == stamp.timestamp@);
    assert(m@.conversation_id == stamp.message_id@ && m@.payload_cid == "payload@xmip"@);
    assert(m@.properties.len() == 0);
    assert(m@.payload_properties.len() == 1);
    assert(m@.payload_properties[0] == ("MimeType"@, "application/octet-stream"@));
}

/// An id is what the clock says, which message of its process it is of, and
/// where it is from; a clock before its time says nothing.
pub proof fn an_id_is_the_clock_and_the_count(since_epoch: Option<u128>, count: u64, id: String)
    requires
        call_ensures(crate::envelope::next_id, (since_epoch, count), id),
    ensures
        since_epoch matches Some(nanos) ==> id@ == decimal(nanos as nat) + "."@ + decimal(
            count as nat,
        ) + "@xmip"@,
        since_epoch is None ==> id@ == decimal(0) + "."@ + decimal(count as nat) + "@xmip"@,
{
}

/// A new end speaks as the first party to the second, to the endpoint on the
/// wire and under the test service, unsigned, unchecked, without a timeout
/// and with nothing seen.
pub proof fn a_new_end_is_what_it_is_made_of(
    endpoint: &str,
    me: &str,
    partner: &str,
    stamp: Stamp,
    t: As4Transport<Unsigned, Unchecked>,
)
    requires
        call_ensures(As4Transport::<Unsigned, Unchecked>::new, (endpoint, me, partner, stamp), t),
    ensures
        t@.endpoint == http_of(endpoint@),
        t@.template.from == me@,
        t@.template.to == partner@,
        t@.template.service
            == "http://docs.oasis-open.org/ebxml-msg/ebms/v3.0/ns/core/200704/service"@,
        t@.template.action
            == "http://docs.oasis-open.org/ebxml-msg/ebms/v3.0/ns/core/200704/test"@,
        t@.template.message_id == stamp.message_id@,
        t@.timeout is None,
        t@.seen.len() == 0,
        t.signs_with() == Unsigned,
        t.checks_with() == Unchecked,
{
}

/// To put an end under another service and action changes what it sends
/// under, and nothing else.
pub proof fn another_service_changes_nothing_else<S: Signer, C: Check>(
    t: As4Transport<S, C>,
    service: &str,
    action: &str,
    u: As4Transport<S, C>,
)
    requires
        call_ensures(As4Transport::<S, C>::under, (t, service, action), u),
    ensures
        u@.template.service == service@,
        u@.template.action == action@,
        u@.template.from == t@.template.from,
        u@.template.to == t@.template.to,
        u@.template.message_id == t@.template.message_id,
        u@.template.timestamp == t@.template.timestamp,
        u@.template.conversation_id == t@.template.conversation_id,
        u@.template.payload_cid == t@.template.payload_cid,
        u@.template.party_type == t@.template.party_type,
        u@.template.service_type == t@.template.service_type,
        u@.template.agreement == t@.template.agreement,
        u@.template.properties == t@.template.properties,
        u@.template.payload_properties == t@.template.payload_properties,
        u@.endpoint == t@.endpoint,
        u@.timeout == t@.timeout,
        u@.seen == t@.seen,
        u.signs_with() == t.signs_with(),
        u.checks_with() == t.checks_with(),
{
}

/// To shape an end changes the message it sends copies of, and nothing else.
pub proof fn a_shape_changes_the_template_alone<S: Signer, C: Check>(
    t: As4Transport<S, C>,
    template: UserMessage,
    u: As4Transport<S, C>,
)
    requires
        call_ensures(As4Transport::<S, C>::shaped, (t, template), u),
    ensures
        u@.template == template@,
        u@.endpoint == t@.endpoint,
        u@.timeout == t@.timeout,
        u@.seen == t@.seen,
        u.signs_with() == t.signs_with(),
        u.checks_with() == t.checks_with(),
{
}

/// Another check is the one that checks from then on; another signer the one
/// that signs; another timeout the one after which an end gives up. Nothing
/// else changes.
pub proof fn a_part_is_exchanged_alone<S: Signer, C: Check, T: Signer, D: Check>(
    t: As4Transport<S, C>,
    signer: T,
    check: D,
    timeout: Duration,
    signing: As4Transport<T, C>,
    checking: As4Transport<S, D>,
    timing: As4Transport<S, C>,
)
    requires
        call_ensures(As4Transport::<S, C>::signing_with::<T>, (t, signer), signing),
        call_ensures(As4Transport::<S, C>::checking::<D>, (t, check), checking),
        call_ensures(As4Transport::<S, C>::timing_out_after, (t, timeout), timing),
    ensures
        signing@ == t@,
        signing.signs_with() == signer,
        signing.checks_with() == t.checks_with(),
        checking@ == t@,
        checking.signs_with() == t.signs_with(),
        checking.checks_with() == check,
        timing@.timeout == Some(timeout),
        timing@.endpoint == t@.endpoint,
        timing@.template == t@.template,
        timing@.seen == t@.seen,
        timing.signs_with() == t.signs_with(),
        timing.checks_with() == t.checks_with(),
{
}

/// An end is read as it is.
pub proof fn an_end_is_read_as_it_is<S: Signer, C: Check>(
    t: As4Transport<S, C>,
    template: &UserMessage,
    endpoint: &str,
    timeout: Option<Duration>,
)
    requires
        call_ensures(As4Transport::<S, C>::template, (&t,), template),
        call_ensures(As4Transport::<S, C>::endpoint, (&t,), endpoint),
        call_ensures(As4Transport::<S, C>::timeout, (&t,), timeout),
    ensures
        template@ == t@.template,
        endpoint@ == t@.endpoint,
        timeout == t@.timeout,
{
}

/// A loopback is one party that sends to itself on this machine. Either end
/// of it is that party again, unsigned, unchecked and with nothing seen: the
/// far one where it is, the near one where it is told.
pub proof fn both_ends_of_a_loopback_are_one_party<S: Signer, C: Check>(
    timeout: Duration,
    stamp: Stamp,
    loopback: As4Transport<Unsigned, Unchecked>,
    t: As4Transport<S, C>,
    far: As4Transport<Unsigned, Unchecked>,
    address: &str,
    path: &str,
    near: As4Transport<Unsigned, Unchecked>,
)
    requires
        call_ensures(As4Transport::<Unsigned, Unchecked>::loopback, (timeout, stamp), loopback),
        call_ensures(As4Transport::<S, C>::far_end, (&t,), far),
        call_ensures(As4Transport::<S, C>::near_end, (&t, address, path), near),
    ensures
        loopback@.endpoint == "http://127.0.0.1:0/msh"@,
        loopback@.template.from == "Xmip"@,
        loopback@.template.to == "Xmip"@,
        loopback@.template.message_id == stamp.message_id@,
        loopback@.timeout == Some(timeout),
        loopback@.seen.len() == 0,
        far@.endpoint == t@.endpoint,
        far@.template == t@.template,
        far@.timeout == t@.timeout,
        far@.seen.len() == 0,
        near@.endpoint == "http://"@ + address@ + path@,
        near@.template == t@.template,
        near@.timeout == t@.timeout,
        near@.seen.len() == 0,
{
}

/// A target is the endpoint on the wire; no target is the one configured.
pub proof fn a_target_is_the_endpoint_on_the_wire<S: Signer, C: Check>(
    t: As4Transport<S, C>,
    target: &str,
    url: String,
)
    requires
        call_ensures(As4Transport::<S, C>::resolve, (&t, target), url),
    ensures
        target@.len() == 0 ==> url@ == t@.endpoint,
        target@.len() > 0 ==> url@ == http_of(target@),
{
}

/// A message is admitted only where it is addressed to this party and the
/// check itself answered that it passes. What the check refused is refused
/// with that same error, and what is for another party with theirs.
pub proof fn the_check_has_the_last_word<S: Signer, C: Check>(
    t: As4Transport<S, C>,
    m: UserMessage,
    r: Result<(), TransportError>,
)
    requires
        call_ensures(As4Transport::<S, C>::admits, (&t, &m), r),
    ensures
        r is Ok ==> m.to@ == t@.template.from,
        m.to@ == t@.template.from ==> exists|
            message: &UserMessage,
            checked: Result<(), TransportError>,
        |
            #![trigger call_ensures(C::check, (&t.checks_with(), message), checked)]
            call_ensures(C::check, (&t.checks_with(), message), checked) && message@ == m@ && (
            checked is Ok <==> r is Ok) && (checked matches Err(e) ==> (r matches Err(f)
                && f.message@ == e.message@ && f.retryable == e.retryable)),
        m.to@ != t@.template.from ==> (r matches Err(e) && !e.retryable && e.message@
            == "a message for "@ + m.to@ + ", and this party is "@ + t@.template.from),
{
    let said = crate::signer::verdict(r);
    the_check_decides(t.checks_with(), t@.template.from, m@, said);
    a_check_says_what_it_answers(t.checks_with(), m@, said);
    assert(m@.to == m.to@);
}

/// A request that is taken was a message to this party that was delivered,
/// and that the check passed.
pub proof fn what_an_end_takes_is_for_it<S: Signer, C: Check>(
    t: As4Transport<S, C>,
    request: Request,
    message: UserMessage,
    bytes: Vec<u8>,
)
    requires
        call_ensures(
            As4Transport::<S, C>::weigh,
            (&t, &request),
            Outcome::Taken { message, bytes },
        ),
    ensures
        message.to@ == t@.template.from,
        may_check(t.checks_with(), message@, Ok(())),
        may_unpack(t.signs_with(), request@, Ok((message@, bytes@))),
{
    let outcome = Outcome::Taken { message, bytes };
    assert(may_weigh(
        t.signs_with(),
        t.checks_with(),
        t@.template.from,
        request@,
        outcome@,
    ));
    what_is_taken_was_delivered_addressed_and_checked(
        t.signs_with(),
        t.checks_with(),
        t@.template.from,
        request@,
        message@,
        bytes@,
    );
    assert(message@.to == message.to@);
}

/// What an end delivers and what it answers, it does with its own signer.
pub proof fn an_end_works_with_its_own_signer<S: Signer, C: Check>(
    t: As4Transport<S, C>,
    request: Request,
    delivered: Result<(UserMessage, Vec<u8>), TransportError>,
    outcome: Outcome,
    stamp: Stamp,
    answer: Result<Answer, TransportError>,
)
    requires
        call_ensures(As4Transport::<S, C>::unpack, (&t, &request), delivered),
        call_ensures(As4Transport::<S, C>::answer, (&t, &outcome, &stamp), answer),
    ensures
        may_unpack(t.signs_with(), request@, delivery(delivered)),
        may_answer(t.signs_with(), outcome@, stamp, answer_of(answer)),
{
}

/// What is posted is a fresh copy of the template, new by the stamp, and its
/// `Content-Type` gives the boundary its parts stand between.
pub proof fn what_is_posted_is_a_fresh_copy<S: Signer, C: Check>(
    t: As4Transport<S, C>,
    bytes: &[u8],
    boundary: &str,
    stamp: Stamp,
    post: Post,
)
    requires
        call_ensures(As4Transport::<S, C>::post, (&t, bytes, boundary, stamp), Ok(post)),
        forall|i: int| 0 <= i < boundary@.len() ==> #[trigger] boundary@[i] != '"',
    ensures
        post.message.message_id@ == stamp.message_id@,
        post.message.conversation_id@ == stamp.message_id@,
        post.message.timestamp@ == stamp.timestamp@,
        post.message.from@ == t@.template.from,
        post.message.to@ == t@.template.to,
        post.message.service@ == t@.template.service,
        post.message.action@ == t@.template.action,
        post.message@.agreement == t@.template.agreement,
        post.message@.party_type == t@.template.party_type,
        post.message@.service_type == t@.template.service_type,
        post.message@.properties == t@.template.properties,
        post.message@.payload_properties == t@.template.payload_properties,
        post.message.payload_cid@ == t@.template.payload_cid,
        post.body@ matches PackedView::Parts { boundary: between, parts } && between == boundary@
            && parameter(post.content_type@, "boundary"@) == Some(between) && parts.len() == 2
            && parts[1].body == bytes@,
{
    let m = crate::envelope::renewed(t@.template, stamp);
    let p = crate::exchange::post_of(Ok(post));
    a_post_packs_the_signed_message_with_its_payload(t.signs_with(), m, bytes@, boundary@, p);
    assert(post@.message == m);
    let enclosed = seq![(m.payload_cid, bytes@)];
    let signed = choose|signed: Seq<char>|
        may_sign(
            t.signs_with(),
            crate::envelope::wrapped(
                crate::xml::PREFIX@,
                crate::envelope::user_message(crate::xml::PREFIX@, m),
            ),
            enclosed,
            Ok(signed),
        ) && (post@.content_type, post@.body) == #[trigger] crate::mime::packed(
            signed,
            enclosed,
            boundary@,
        );
    the_content_type_gives_the_boundary(signed, enclosed, boundary@);
    crate::packing::a_multipart_is_the_envelope_and_each_attachment(
        signed,
        enclosed,
        boundary@,
        0,
    );
}

/// A message was sent exactly where the partner answered with a success and
/// a Receipt that names it.
pub proof fn a_message_was_sent_where_its_receipt_came<S: Signer, C: Check>(
    t: As4Transport<S, C>,
    response: Response,
    retryable: bool,
    sent: UserMessage,
    r: Result<(), TransportError>,
)
    requires
        call_ensures(
            As4Transport::<S, C>::verify_receipt,
            (&t, &response, retryable, &sent),
            r,
        ),
    ensures
        exists|heard: Result<SignalView, Refusal>| #[trigger]
            may_hear(t.signs_with(), response@, heard) && (r is Ok <==> 200 <= response.status
                < 300 && (heard matches Ok(SignalView::Receipt { ref_to, .. }) && ref_to
                == sent.message_id@)) && (!(200 <= response.status < 300) ==> (r matches Err(e)
                && e.retryable == retryable)),
{
    let said = crate::signer::verdict(r);
    a_sender_concludes_by_what_it_hears(
        t.signs_with(),
        response@,
        retryable,
        sent@.message_id,
        said,
    );
    assert(sent@.message_id == sent.message_id@);
}

/// What arrived with a message is handed on as it is, once; with none, there
/// is nothing, and a loopback that waits for it says so.
pub proof fn what_arrived_is_handed_on(
    r: Option<(UserMessage, Arrived)>,
    all: Vec<Arrived>,
    one: Result<Arrived, TransportError>,
)
    requires
        call_ensures(crate::transport::arrivals, (r,), all),
        call_ensures(crate::loopback::taken, (r,), one),
    ensures
        r matches Some((_, arrived)) ==> all@.len() == 1 && all@[0] == arrived && one == Ok::<
            Arrived,
            TransportError,
        >(arrived),
        r is None ==> all@.len() == 0 && (one matches Err(e) && !e.retryable && e.message@
            == "a message seen before: receipted, not delivered"@),
{
}

/// A message that was taken is handed up where its id was not seen before:
/// that message, those bytes, and where it came from. Where its id was seen
/// before, nothing is handed up. Either way its id is seen from then on, and
/// nothing else about the end changes.
pub proof fn a_taken_message_is_handed_up_once<S: Signer, C: Check>(
    t: &mut As4Transport<S, C>,
    peer: &str,
    path: &str,
    message: UserMessage,
    bytes: Vec<u8>,
    r: Result<Option<(UserMessage, Arrived)>, TransportError>,
)
    requires
        call_ensures(
            As4Transport::<S, C>::settle,
            (t, peer, path, Outcome::Taken { message, bytes }),
            r,
        ),
    ensures
        old(t)@.seen.contains(message.message_id@) ==> (r matches Ok(handed) && handed is None),
        !old(t)@.seen.contains(message.message_id@) ==> (r matches Ok(Some((m, arrived)))
            && m.message_id@ == message.message_id@ && m.from@ == message.from@
            && same_but_new(m, message) && m.conversation_id@ == message.conversation_id@
            && m.timestamp@ == message.timestamp@ && arrived.bytes@ == bytes@
            && arrived.origin_uri@ == "as4://"@ + peer@ + path@ + "?from="@ + message.from@
            + "&message-id="@ + message.message_id@ + "&action="@ + message.action@),
        final(t)@.seen.contains(message.message_id@),
        final(t)@.endpoint == old(t)@.endpoint,
        final(t)@.template == old(t)@.template,
        final(t)@.timeout == old(t)@.timeout,
        final(t).signs_with() == old(t).signs_with(),
        final(t).checks_with() == old(t).checks_with(),
{
    let outcome = Outcome::Taken { message, bytes };
    assert(message@.message_id == message.message_id@);
    crate::seen::what_came_is_seen(old(t)@.seen, message@.message_id);
    assert(outcome@ == (crate::exchange::OutcomeView::Taken {
        message: message@,
        bytes: bytes@,
    }));
    if let Ok(Some((m, arrived))) = r {
        assert(arrived@.bytes == arrived.bytes@ && arrived@.origin_uri == arrived.origin_uri@);
        if !old(t)@.seen.contains(message.message_id@) {
            assert(m@ == message@);
            assert(m@.message_id == m.message_id@ && m@.conversation_id == m.conversation_id@);
            assert(m@.timestamp == m.timestamp@);
            lemma_same(m, message);
        }
    }
}

/// A refused request hands nothing up and leaves an end as it was; what is
/// handed back is what it was refused for.
pub proof fn a_refused_request_leaves_an_end_as_it_was<S: Signer, C: Check>(
    t: &mut As4Transport<S, C>,
    peer: &str,
    path: &str,
    ref_to: Option<String>,
    code: &'static str,
    error: TransportError,
    r: Result<Option<(UserMessage, Arrived)>, TransportError>,
)
    requires
        call_ensures(
            As4Transport::<S, C>::settle,
            (t, peer, path, Outcome::Refused { ref_to, code, error }),
            r,
        ),
    ensures
        r matches Err(e) && e.message@ == error.message@ && e.retryable == error.retryable,
        final(t)@ == old(t)@,
        final(t).signs_with() == old(t).signs_with(),
        final(t).checks_with() == old(t).checks_with(),
{
}

/// An end remembers an id that comes, and says whether it came before; what
/// else it remembers, it remembers in order, but for the oldest where there
/// is no more room.
pub proof fn an_end_remembers_what_comes<S: Signer, C: Check>(
    t: &mut As4Transport<S, C>,
    id: &str,
    before: bool,
)
    requires
        call_ensures(As4Transport::<S, C>::remember, (t, id), before),
    ensures
        before <==> old(t)@.seen.contains(id@),
        final(t)@.seen.contains(id@),
        before ==> final(t)@.seen == old(t)@.seen,
        !before && old(t)@.seen.len() < 1024 ==> final(t)@.seen == old(t)@.seen.push(id@),
        !before && old(t)@.seen.len() == 1024 ==> final(t)@.seen == old(t)@.seen.skip(1).push(id@),
        old(t)@.seen.len() <= 1024,
        final(t)@.endpoint == old(t)@.endpoint,
        final(t)@.template == old(t)@.template,
        final(t)@.timeout == old(t)@.timeout,
{
    crate::seen::what_came_is_seen(old(t)@.seen, id@);
    crate::conduct::the_memory_grows_by_what_is_new(old(t)@.seen, id@, Seq::empty(), id@);
}

/// A memory begins empty, and says of an id whether it came before.
pub proof fn a_memory_says_what_came_before(seen: Seen, memory: &mut Seen, id: &str, before: bool)
    requires
        call_ensures(Seen::new, (), seen),
        call_ensures(Seen::remember, (memory, id), before),
    ensures
        seen@.len() == 0,
        before <==> old(memory)@.contains(id@),
        final(memory)@.contains(id@),
        before ==> final(memory)@ == old(memory)@,
        !before && old(memory)@.len() < 1024 ==> final(memory)@ == old(memory)@.push(id@),
        !before && old(memory)@.len() == 1024 ==> final(memory)@ == old(memory)@.skip(1).push(id@),
{
    crate::seen::what_came_is_seen(old(memory)@, id@);
    crate::conduct::the_memory_grows_by_what_is_new(old(memory)@, id@, Seq::empty(), id@);
}

} // verus!
