//! What is read of an envelope, told by its elements: each field of a message
//! is what the element or the attribute it stands in says, a message is read
//! wherever all it must say is there, and else refused for the first that is
//! not; and the same of a signal.

use vstd::prelude::*;

#[allow(unused_imports)]
use crate::envelope::{
    carried_in, described_in, href_in, listed_in, optional_in, party_in, required_in, text_in,
    MessageView,
};
#[allow(unused_imports)]
use crate::error::Refusal;
#[allow(unused_imports)]
use crate::scan::{attribute_in, element_in, holds_element, properties_in, read};
#[allow(unused_imports)]
use crate::signal::{signal_in, signalled_in, SignalView};
#[allow(unused_imports)]
use crate::xml::{loosely, unescaped};

verus! {

/// The first element `name` of `xml` says `text`.
pub open spec fn says(xml: Seq<char>, name: Seq<char>, text: Seq<char>) -> bool {
    element_in(xml, name) matches Some(raw) && unescaped(raw) == Some(text)
}

/// The first element `name` of `xml` says something that cannot be read.
pub open spec fn garbles(xml: Seq<char>, name: Seq<char>) -> bool {
    element_in(xml, name) matches Some(raw) && unescaped(raw) is None
}

/// `r` is the refusal `message`, once and for all.
pub open spec fn refuses<T>(r: Result<T, Refusal>, message: Seq<char>) -> bool {
    r matches Err(e) && !e.retryable && e.message == message
}

/// The party on a side is what the first `PartyId` in its element says,
/// whatever else stands there before it, after it or around it.
pub proof fn a_party_is_what_its_id_says(
    user: Seq<char>,
    side: Seq<char>,
    party: Seq<char>,
    id: Seq<char>,
)
    ensures
        element_in(user, side) == Some(party) && says(party, "PartyId"@, id) ==> party_in(
            user,
            side,
        ) == Ok::<Seq<char>, Refusal>(id),
        element_in(user, side) == Some(party) && garbles(party, "PartyId"@) ==> refuses(
            party_in(user, side),
            "an entity XML does not define"@,
        ),
        element_in(user, side) == Some(party) && element_in(party, "PartyId"@) is None ==> refuses(
            party_in(user, side),
            "a UserMessage with no "@ + side + " party"@,
        ),
        element_in(user, side) is None ==> refuses(
            party_in(user, side),
            "a UserMessage with no "@ + side + " party"@,
        ),
{
}

/// What must be said is what its element says, and something.
pub proof fn what_is_required_is_said(user: Seq<char>, name: Seq<char>, text: Seq<char>)
    ensures
        says(user, name, text) && text.len() > 0 ==> required_in(user, name) == Ok::<
            Seq<char>,
            Refusal,
        >(text),
        says(user, name, text) && text.len() == 0 ==> refuses(
            required_in(user, name),
            "a UserMessage with no "@ + name,
        ),
        garbles(user, name) ==> refuses(required_in(user, name), "an entity XML does not define"@),
        element_in(user, name) is None ==> refuses(
            required_in(user, name),
            "a UserMessage with no "@ + name,
        ),
{
}

/// What may be left out is what its element says, and nothing where there is
/// none.
pub proof fn what_is_optional_is_said_or_not(user: Seq<char>, name: Seq<char>, text: Seq<char>)
    ensures
        says(user, name, text) ==> optional_in(user, name) == Ok::<Option<Seq<char>>, Refusal>(
            Some(text),
        ) && text_in(user, name) == Ok::<Seq<char>, Refusal>(text),
        garbles(user, name) ==> refuses(optional_in(user, name), "an entity XML does not define"@)
            && refuses(text_in(user, name), "an entity XML does not define"@),
        element_in(user, name) is None ==> optional_in(user, name) == Ok::<
            Option<Seq<char>>,
            Refusal,
        >(None) && (text_in(user, name) matches Ok(t) && t.len() == 0),
        element_in(user, name) matches Some(inner) ==> listed_in(user, name) == properties_in(
            inner,
        ),
        element_in(user, name) is None ==> (listed_in(user, name) matches Ok(l) && l.len() == 0),
{
}

/// Every field of a message that was read is what the envelope says in its
/// place: an element, an attribute or a list of properties.
pub proof fn a_message_is_what_its_elements_say(user: Seq<char>, m: MessageView)
    requires
        described_in(user) == Ok::<MessageView, Refusal>(m),
    ensures
        says(user, "MessageId"@, m.message_id) && m.message_id.len() > 0,
        says(user, "Service"@, m.service) && m.service.len() > 0,
        says(user, "Action"@, m.action) && m.action.len() > 0,
        says(user, "Timestamp"@, m.timestamp) || element_in(user, "Timestamp"@) is None
            && m.timestamp.len() == 0,
        says(user, "ConversationId"@, m.conversation_id) || element_in(user, "ConversationId"@)
            is None && m.conversation_id.len() == 0,
        element_in(user, "From"@) matches Some(party) && says(party, "PartyId"@, m.from)
            && attribute_in(party, "PartyId"@, "type"@) == Ok::<Option<Seq<char>>, Refusal>(
            m.party_type,
        ),
        element_in(user, "To"@) matches Some(party) && says(party, "PartyId"@, m.to),
        attribute_in(user, "Service"@, "type"@) == Ok::<Option<Seq<char>>, Refusal>(
            m.service_type,
        ),
        match m.agreement {
            Some(agreement) => says(user, "AgreementRef"@, agreement),
            None => element_in(user, "AgreementRef"@) is None,
        },
        match element_in(user, "MessageProperties"@) {
            Some(inner) => properties_in(inner) == Ok::<Seq<(Seq<char>, Seq<char>)>, Refusal>(
                m.properties,
            ),
            None => m.properties.len() == 0,
        },
        match element_in(user, "PartInfo"@) {
            Some(inner) => properties_in(inner) == Ok::<Seq<(Seq<char>, Seq<char>)>, Refusal>(
                m.payload_properties,
            ),
            None => m.payload_properties.len() == 0,
        },
        attribute_in(user, "PartInfo"@, "href"@) matches Ok(Some(href)) && (if href.len() >= 4
            && href.take(4) == "cid:"@ {
            href == "cid:"@ + m.payload_cid
        } else {
            href == m.payload_cid
        }),
{
    reveal_strlit("cid:");
    let href = href_in(user)->Ok_0;
    if href.len() >= 4 {
        assert(href.take(4) =~= href.subrange(0, 4));
        assert(href =~= href.take(4) + href.skip(4));
    }
}

/// A message is read wherever it names its payload, says its id, its parties,
/// its service and its action, and says nothing in its place that cannot be
/// read. Nothing else is asked of it.
pub proof fn a_message_that_says_what_it_must_is_read(
    user: Seq<char>,
    id: Seq<char>,
    service: Seq<char>,
    action: Seq<char>,
    from: Seq<char>,
    to: Seq<char>,
)
    requires
        attribute_in(user, "PartInfo"@, "href"@) matches Ok(Some(_)),
        says(user, "MessageId"@, id) && id.len() > 0,
        !garbles(user, "Timestamp"@),
        element_in(user, "From"@) matches Some(party) && says(party, "PartyId"@, from)
            && attribute_in(party, "PartyId"@, "type"@) is Ok,
        element_in(user, "To"@) matches Some(party) && says(party, "PartyId"@, to),
        says(user, "Service"@, service) && service.len() > 0,
        says(user, "Action"@, action) && action.len() > 0,
        !garbles(user, "ConversationId"@),
        attribute_in(user, "Service"@, "type"@) is Ok,
        !garbles(user, "AgreementRef"@),
        element_in(user, "MessageProperties"@) matches Some(inner) ==> properties_in(inner) is Ok,
        element_in(user, "PartInfo"@) matches Some(inner) ==> properties_in(inner) is Ok,
    ensures
        described_in(user) is Ok,
{
}

/// A message is refused for the first that is wrong with it, in the order it
/// is read in: its payload reference, its id, when it was written, its
/// parties, its service and its action.
pub proof fn a_message_is_refused_for_the_first_that_is_wrong(user: Seq<char>)
    ensures
        ({
            let missing_id = element_in(user, "MessageId"@) is None || says(
                user,
                "MessageId"@,
                Seq::empty(),
            );
            let missing_service = element_in(user, "Service"@) is None || says(
                user,
                "Service"@,
                Seq::empty(),
            );
            let missing_action = element_in(user, "Action"@) is None || says(
                user,
                "Action"@,
                Seq::empty(),
            );
            let missing_from = !(element_in(user, "From"@) matches Some(p) && element_in(
                p,
                "PartyId"@,
            ) is Some);
            let missing_to = !(element_in(user, "To"@) matches Some(p) && element_in(p, "PartyId"@)
                is Some);
            let garbled_from = element_in(user, "From"@) matches Some(p) && garbles(
                p,
                "PartyId"@,
            );
            let garbled_to = element_in(user, "To"@) matches Some(p) && garbles(p, "PartyId"@);
            let r = described_in(user);
            let garbled = "an entity XML does not define"@;
            match attribute_in(user, "PartInfo"@, "href"@) {
                Err(e) => r == Err::<MessageView, Refusal>(e),
                Ok(None) => refuses(r, "a UserMessage with no payload reference"@),
                Ok(Some(_)) => if missing_id {
                    refuses(r, "a UserMessage with no "@ + "MessageId"@)
                } else if garbles(user, "MessageId"@) || garbles(user, "Timestamp"@) {
                    refuses(r, garbled)
                } else if missing_from {
                    refuses(r, "a UserMessage with no "@ + "From"@ + " party"@)
                } else if garbled_from {
                    refuses(r, garbled)
                } else if missing_to {
                    refuses(r, "a UserMessage with no "@ + "To"@ + " party"@)
                } else if garbled_to {
                    refuses(r, garbled)
                } else if missing_service {
                    refuses(r, "a UserMessage with no "@ + "Service"@)
                } else if garbles(user, "Service"@) {
                    refuses(r, garbled)
                } else if missing_action {
                    refuses(r, "a UserMessage with no "@ + "Action"@)
                } else if garbles(user, "Action"@) || garbles(user, "ConversationId"@) {
                    refuses(r, garbled)
                } else {
                    r matches Err(e) ==> e.message == garbled || attribute_in(
                        element_in(user, "From"@)->0,
                        "PartyId"@,
                        "type"@,
                    ) is Err || attribute_in(user, "Service"@, "type"@) is Err || (element_in(
                        user,
                        "MessageProperties"@,
                    ) matches Some(i) && properties_in(i) is Err) || (element_in(user, "PartInfo"@)
                        matches Some(i) && properties_in(i) is Err)
                },
            }
        }),
{
    what_is_required_is_said(user, "MessageId"@, required_text(user, "MessageId"@));
    what_is_required_is_said(user, "Service"@, required_text(user, "Service"@));
    what_is_required_is_said(user, "Action"@, required_text(user, "Action"@));
    what_is_optional_is_said_or_not(user, "Timestamp"@, Seq::empty());
    what_is_optional_is_said_or_not(user, "ConversationId"@, Seq::empty());
    lemma_empty(user, "MessageId"@);
    lemma_empty(user, "Service"@);
    lemma_empty(user, "Action"@);
}

/// What the first element `name` of `user` says, where it says something.
spec fn required_text(user: Seq<char>, name: Seq<char>) -> Seq<char> {
    unescaped(element_in(user, name)->0)->0
}

/// What says a text of no length says nothing.
proof fn lemma_empty(user: Seq<char>, name: Seq<char>)
    ensures
        element_in(user, name) is Some && !garbles(user, name) ==> says(
            user,
            name,
            required_text(user, name),
        ) && (required_text(user, name).len() == 0 <==> says(user, name, Seq::empty())),
{
    let text = required_text(user, name);
    if text.len() == 0 {
        assert(text =~= Seq::empty());
    }
}

/// An envelope carries the message its first `UserMessage` describes, and
/// none where it has none.
pub proof fn an_envelope_carries_its_first_user_message(envelope: Seq<char>, user: Seq<char>)
    ensures
        element_in(envelope, "UserMessage"@) == Some(user) ==> carried_in(envelope)
            == described_in(user),
        element_in(envelope, "UserMessage"@) is None ==> refuses(
            carried_in(envelope),
            "an envelope with no UserMessage in it"@,
        ),
{
}

/// An envelope carries the signal its first `SignalMessage` is, and none
/// where it has none.
pub proof fn an_envelope_carries_its_first_signal(envelope: Seq<char>, signal: Seq<char>)
    ensures
        element_in(envelope, "SignalMessage"@) == Some(signal) ==> signal_in(envelope)
            == signalled_in(signal),
        element_in(envelope, "SignalMessage"@) is None ==> refuses(
            signal_in(envelope),
            "an answer with no SignalMessage in it"@,
        ),
{
}

/// A signal is a Receipt exactly where it holds one and names a message, and
/// is then for the message it names.
pub proof fn a_receipt_is_for_the_message_it_names(signal: Seq<char>, named: Seq<char>)
    ensures
        (signalled_in(signal) matches Ok(SignalView::Receipt { .. })) <==> holds_element(
            signal,
            "Receipt"@,
        ) && element_in(signal, "RefToMessageId"@) is Some,
        holds_element(signal, "Receipt"@) && element_in(signal, "RefToMessageId"@) == Some(named)
            ==> (signalled_in(signal) matches Ok(SignalView::Receipt { ref_to, message_id })
            && ref_to == loosely(named) && (match element_in(signal, "MessageId"@) {
            Some(id) => message_id == loosely(id),
            None => message_id.len() == 0,
        })),
{
}

/// A signal that is no Receipt is an Error exactly where it has one with a
/// code, and then says what its elements say; else it is refused for what it
/// lacks.
pub proof fn an_error_says_what_its_elements_say(signal: Seq<char>)
    requires
        !holds_element(signal, "Receipt"@) || element_in(signal, "RefToMessageId"@) is None,
    ensures
        match attribute_in(signal, "Error"@, "errorCode"@) {
            Err(e) => signalled_in(signal) == Err::<SignalView, Refusal>(e),
            Ok(None) => if holds_element(signal, "Receipt"@) {
                refuses(signalled_in(signal), "a Receipt naming no message"@)
            } else {
                refuses(
                    signalled_in(signal),
                    "a SignalMessage that is neither Receipt nor Error"@,
                )
            },
            Ok(Some(given)) => signalled_in(signal) matches Ok(
                SignalView::Error { ref_to, code, description },
            ) && code == given && (match element_in(signal, "RefToMessageId"@) {
                Some(id) => ref_to == Some(loosely(id)),
                None => ref_to is None,
            }) && (match element_in(signal, "Description"@) {
                Some(text) => description == loosely(text),
                None => description.len() == 0,
            }),
        },
{
}

} // verus!
