//! What is written and what is read, told by the calls: what one call writes
//! another reads back, and what a call reads is what the text it was given
//! holds.

use vstd::prelude::*;

#[allow(unused_imports)]
use crate::envelope::{carried_in, MessageView, Stamp, UserMessage};
#[allow(unused_imports)]
use crate::error::{Refusal, TransportError};
#[allow(unused_imports)]
use crate::exchange::Outcome;
#[allow(unused_imports)]
use crate::mime::{attached, packed, unpacked, Attachments, Body, Packed, PackedView};
#[allow(unused_imports)]
use crate::reading::says;
#[allow(unused_imports)]
use crate::round_trip::{a_message_reads_back_off_its_envelope, readable};
#[allow(unused_imports)]
use crate::scan::{attribute_in, element_in, pairs, properties_in};
#[allow(unused_imports)]
use crate::signal::Signal;
#[allow(unused_imports)]
use crate::signal_round_trip::{
    a_receipt_carries_the_message_it_answers, a_receipt_names_the_message_it_answers,
    an_error_reads_back,
};
#[allow(unused_imports)]
use crate::wire::Answer;
#[allow(unused_imports)]
use crate::xml::{escaped, lemma_prefix, unescape_undoes_escape, unescaped, PREFIX};
#[allow(unused_imports)]
use vstd::utf8::encode_utf8;

verus! {

/// What is escaped is unescaped to what it was, and what is unescaped is what
/// it writes, where it writes something.
pub proof fn what_is_escaped_is_unescaped(
    plain: &str,
    written: String,
    raw: &str,
    r: Result<String, TransportError>,
)
    requires
        call_ensures(crate::xml::escape, (plain,), written),
        call_ensures(crate::xml::unescape, (raw,), r),
    ensures
        written@ == escaped(plain@),
        raw@ == written@ ==> (r matches Ok(s) && s@ == plain@),
        unescaped(raw@) matches Some(t) ==> (r matches Ok(s) && s@ == t),
        unescaped(raw@) is None ==> (r matches Err(e) && !e.retryable && e.message@
            == "an entity XML does not define"@),
{
    unescape_undoes_escape(plain@);
}

/// A message is read off the envelope it wrote, the same in every field,
/// wherever it has an id, a service and an action.
pub proof fn a_message_is_read_off_what_it_wrote(
    m: UserMessage,
    written: String,
    envelope: &str,
    r: Result<UserMessage, TransportError>,
)
    requires
        call_ensures(UserMessage::envelope, (&m,), written),
        call_ensures(UserMessage::from_envelope, (envelope,), r),
        envelope@ == written@,
        m.message_id@.len() > 0,
        m.service@.len() > 0,
        m.action@.len() > 0,
    ensures
        r matches Ok(read) && read.message_id@ == m.message_id@ && read.conversation_id@
            == m.conversation_id@ && read.timestamp@ == m.timestamp@ && read@ == m@,
{
    lemma_prefix();
    assert(m@.message_id == m.message_id@ && m@.service == m.service@ && m@.action == m.action@);
    assert(readable(m@));
    a_message_reads_back_off_its_envelope(PREFIX@, m@);
    if let Ok(read) = r {
        assert(read@.message_id == read.message_id@ && read@.timestamp == read.timestamp@);
        assert(read@.conversation_id == read.conversation_id@);
        assert(m@.conversation_id == m.conversation_id@ && m@.timestamp == m.timestamp@);
    }
}

/// Reading an envelope gives the message that its first `UserMessage`
/// describes, or why it describes none.
pub proof fn what_is_read_of_an_envelope_is_what_it_carries(
    envelope: &str,
    r: Result<UserMessage, TransportError>,
    s: Result<Signal, TransportError>,
)
    requires
        call_ensures(UserMessage::from_envelope, (envelope,), r),
        call_ensures(Signal::from_envelope, (envelope,), s),
    ensures
        carried_in(envelope@) matches Ok(m) ==> (r matches Ok(read) && read@ == m),
        carried_in(envelope@) matches Err(e) ==> (r matches Err(f) && f.message@ == e.message
            && f.retryable == e.retryable),
        crate::signal::signal_in(envelope@) matches Ok(m) ==> (s matches Ok(read) && read@ == m),
        crate::signal::signal_in(envelope@) matches Err(e) ==> (s matches Err(f) && f.message@
            == e.message && f.retryable == e.retryable),
{
}

/// A Receipt is read back as one for the message it answers, and under its
/// own id; and the message it answers is read off it.
pub proof fn a_receipt_is_read_off_what_it_wrote(
    m: UserMessage,
    stamp: Stamp,
    written: String,
    envelope: &str,
    r: Result<Signal, TransportError>,
)
    requires
        call_ensures(Signal::receipt, (&m, &stamp), written),
        call_ensures(Signal::from_envelope, (envelope,), r),
        envelope@ == written@,
    ensures
        r matches Ok(Signal::Receipt { ref_to, message_id }) && ref_to@ == m.message_id@
            && message_id@ == stamp.message_id@,
        m.message_id@.len() > 0 && m.service@.len() > 0 && m.action@.len() > 0 ==> carried_in(
            written@,
        ) == Ok::<MessageView, Refusal>(m@),
{
    lemma_prefix();
    assert(m@.message_id == m.message_id@ && m@.service == m.service@ && m@.action == m.action@);
    a_receipt_names_the_message_it_answers(PREFIX@, m@, stamp);
    a_receipt_carries_the_message_it_answers(PREFIX@, m@, stamp);
    if let Ok(Signal::Error { ref_to, code, description }) = r {
        assert(r->Ok_0@ is Error);
    }
}

/// An Error is read back with its code, its description and the message it
/// is about.
pub proof fn an_error_is_read_off_what_it_wrote(
    ref_to: Option<&str>,
    code: &str,
    description: &str,
    stamp: Stamp,
    written: String,
    envelope: &str,
    r: Result<Signal, TransportError>,
)
    requires
        call_ensures(Signal::error, (ref_to, code, description, &stamp), written),
        call_ensures(Signal::from_envelope, (envelope,), r),
        envelope@ == written@,
    ensures
        r matches Ok(Signal::Error { ref_to: about, code: c, description: d }) && c@ == code@ && d@
            == description@ && (ref_to matches Some(id) ==> (about matches Some(a) && a@ == id@))
            && (ref_to is None ==> about is None),
{
    lemma_prefix();
    let about = match ref_to {
        Some(id) => Some(id@),
        None => None,
    };
    an_error_reads_back(PREFIX@, about, code@, description@, stamp);
    if let Ok(Signal::Receipt { ref_to, message_id }) = r {
        assert(r->Ok_0@ is Receipt);
    }
}

/// An element, an attribute and the properties of a text are what the text
/// holds.
pub proof fn what_is_looked_up_is_what_the_text_holds(
    xml: &str,
    name: &str,
    key: &str,
    found: Option<&str>,
    value: Result<Option<String>, TransportError>,
    listed: Result<Vec<(String, String)>, TransportError>,
)
    requires
        call_ensures(crate::scan::element, (xml, name), found),
        call_ensures(crate::scan::attribute, (xml, name, key), value),
        call_ensures(crate::scan::properties, (xml,), listed),
    ensures
        element_in(xml@, name@) matches Some(content) ==> (found matches Some(f) && f@ == content),
        element_in(xml@, name@) is None ==> found is None,
        attribute_in(xml@, name@, key@) matches Ok(Some(v)) ==> (value matches Ok(Some(w)) && w@
            == v),
        attribute_in(xml@, name@, key@) matches Ok(None) ==> (value matches Ok(None)),
        attribute_in(xml@, name@, key@) matches Err(e) ==> (value matches Err(f) && f.message@
            == e.message && f.retryable == e.retryable),
        properties_in(xml@) matches Ok(l) ==> (listed matches Ok(v) && pairs(v@) == l),
        properties_in(xml@) matches Err(e) ==> (listed matches Err(f) && f.message@ == e.message
            && f.retryable == e.retryable),
{
}

/// A body is packed of the envelope and the attachments, and unpacked into
/// them: a text goes alone where nothing is attached, and comes back.
pub proof fn what_is_packed_is_unpacked(
    envelope: &str,
    attachments: &[(String, Vec<u8>)],
    boundary: &str,
    pack: (String, Packed),
    content_type: &str,
    body: Body,
    r: Result<(String, Attachments), TransportError>,
)
    requires
        call_ensures(crate::mime::pack, (envelope, attachments, boundary), pack),
        call_ensures(crate::mime::unpack, (content_type, &body), r),
    ensures
        (pack.0@, pack.1@) == packed(envelope@, attached(attachments@), boundary@),
        attachments@.len() == 0 ==> (pack.1 matches Packed::Alone(bytes) && bytes@ == encode_utf8(
            envelope@,
        ) && (body matches Body::Single { media_type, bytes: b } && media_type@
            == "application/soap+xml"@ && b@ == bytes@ ==> (r matches Ok((text, none)) && text@
            == envelope@ && none@.len() == 0))),
        unpacked(content_type@, body@) matches Ok((e, a)) ==> (r matches Ok((text, all)) && text@
            == e && attached(all@) == a),
        unpacked(content_type@, body@) matches Err(e) ==> (r matches Err(f) && f.message@
            == e.message && f.retryable == e.retryable),
{
    assert(attached(attachments@).len() == attachments@.len());
    crate::mime::a_signal_comes_back_alone(envelope@, boundary@, content_type@);
    if attachments@.len() == 0 {
        assert(pack.1@ is Alone);
        if let Ok((text, all)) = r {
            assert(attached(all@).len() == all@.len());
        }
    }
}

/// What is attached is the content ids and the bytes, in order.
pub proof fn what_is_attached_is_each_id_and_its_bytes(attachments: Seq<(String, Vec<u8>)>, i: int)
    ensures
        attached(attachments).len() == attachments.len(),
        0 <= i < attachments.len() ==> attached(attachments)[i] == (
            attachments[i].0@,
            attachments[i].1@,
        ),
{
}

/// The payload is the first attachment that is named, and none where none is.
pub proof fn a_payload_is_looked_up_by_its_id(
    attachments: &[(String, Vec<u8>)],
    cid: &str,
    r: Option<Vec<u8>>,
    i: int,
)
    requires
        call_ensures(crate::exchange::payload, (attachments, cid), r),
    ensures
        0 <= i < attachments@.len() && attachments@[i].0@ == cid@ && (forall|j: int|
            0 <= j < i ==> (#[trigger] attachments@[j]).0@ != cid@) ==> (r matches Some(bytes)
            && bytes@ == attachments@[i].1@),
        (forall|j: int| 0 <= j < attachments@.len() ==> (#[trigger] attachments@[j]).0@ != cid@)
            ==> r is None,
{
    let all = attached(attachments@);
    assert(all.len() == attachments@.len());
    assert forall|j: int| 0 <= j < all.len() implies #[trigger] all[j] == (
        attachments@[j].0@,
        attachments@[j].1@,
    ) by {}
    crate::conduct::the_payload_is_the_first_that_is_named(all, cid@, i);
}

/// A message is for this party exactly where it is addressed to it.
pub proof fn a_message_is_for_whom_it_is_addressed_to(
    to: &str,
    me: &str,
    r: Result<(), TransportError>,
)
    requires
        call_ensures(crate::exchange::addressed, (to, me), r),
    ensures
        r is Ok <==> to@ == me@,
        r matches Err(e) ==> !e.retryable && e.message@ == "a message for "@ + to@
            + ", and this party is "@ + me@,
{
}

/// What was delivered is taken where it was admitted, and else refused for
/// why it was not and about that message; what was not delivered is refused
/// for why it was not and about none.
pub proof fn what_was_delivered_is_taken_where_it_was_admitted(
    error: TransportError,
    unread: Outcome,
    message: UserMessage,
    bytes: Vec<u8>,
    admitted: Result<(), TransportError>,
    weighed: Outcome,
)
    requires
        call_ensures(crate::exchange::unread, (error,), unread),
        call_ensures(crate::exchange::weighed, (message, bytes, admitted), weighed),
    ensures
        unread matches Outcome::Refused { ref_to: None, code, error: e } && code@ == "EBMS:0001"@
            && e.message@ == error.message@ && e.retryable == error.retryable,
        admitted is Ok ==> (weighed matches Outcome::Taken { message: m, bytes: b } && m@
            == message@ && b@ == bytes@),
        admitted matches Err(why) ==> (weighed matches Outcome::Refused {
            ref_to: Some(id),
            code,
            error: e,
        } && id@ == message.message_id@ && code@ == "EBMS:0103"@ && e.message@ == why.message@
            && e.retryable == why.retryable),
{
    assert(message@.message_id == message.message_id@);
    match weighed {
        Outcome::Taken { message: m, bytes: b } => {
            assert(weighed@ is Taken);
        },
        Outcome::Refused { ref_to, code, error: e } => {
            assert(weighed@ is Refused);
        },
    }
}

/// An envelope is answered under the status it is answered with, alone and
/// in UTF-8.
pub proof fn an_envelope_is_answered_alone(status: u16, envelope: &str, answer: Answer)
    requires
        call_ensures(crate::wire::soap, (status, envelope), answer),
    ensures
        answer.status == status,
        answer.content_type@ == "application/soap+xml"@ + "; charset=utf-8"@,
        answer.body@ == PackedView::Alone(encode_utf8(envelope@)),
{
    assert(answer@.status == answer.status);
    assert(answer@.content_type == answer.content_type@);
    assert(answer@.body == answer.body@);
}

/// Where a message came from says from whom, which message and under which
/// action, and a URL is taken to the wire by its scheme alone.
pub proof fn an_origin_says_what_the_header_knew(
    peer: &str,
    path: &str,
    from: &str,
    message_id: &str,
    action: &str,
    uri: String,
    url: &str,
    http: String,
    rest: Seq<char>,
)
    requires
        call_ensures(crate::wire::origin_of, (peer, path, from, message_id, action), uri),
        call_ensures(crate::wire::as_http, (url,), http),
    ensures
        uri@ == "as4://"@ + peer@ + path@ + "?from="@ + from@ + "&message-id="@ + message_id@
            + "&action="@ + action@,
        url@ == "as4://"@ + rest ==> http@ == "http://"@ + rest,
        url@ == "as4s://"@ + rest ==> http@ == "https://"@ + rest,
        !crate::text::starts_with(url@, "as4://"@) && !crate::text::starts_with(url@, "as4s://"@)
            ==> http@ == url@,
{
    crate::conduct::a_scheme_is_exchanged_and_nothing_else(rest, url@);
}

} // verus!
