//! The SOAP 1.2 envelope an AS4 User Message travels in: an `eb:Messaging`
//! header holding one `eb:UserMessage` (`MessageInfo`, `PartyInfo`,
//! `CollaborationInfo`, `PayloadInfo`) over an empty body, the payload
//! referenced by content id and carried as a MIME attachment beside it
//! (ebMS 3.0 Core section 5.2, AS4 profile section 2).
//!
//! Written by hand and read by scanning for local names, so a partner's
//! prefix (`eb:`, `eb3:`, `ns2:`) does not matter; what matters is the
//! element.

use vstd::prelude::*;

use crate::error::{protocol_error, TransportError};
use crate::scan::{attribute_chars, element_chars, properties_chars};
use crate::text::{after, begins_with, chars_of, decimal_of, owned, string_of};
use crate::xml::{attribute_of, escape, tag, unescape_chars};

#[allow(unused_imports)]
use crate::error::{protocol, Refusal};
#[allow(unused_imports)]
use crate::scan::{attribute_in, element_in, pairs, properties_in, read};
#[allow(unused_imports)]
use crate::text::{decimal, lemma_decimal_digits, lemma_decimal_injective, starts_with};
#[allow(unused_imports)]
use crate::xml::{attributed, escaped, tagged, PREFIX};

pub use crate::scan::{attribute, element, properties};

verus! {

/// The ebMS 3.0 core namespace.
pub const EBMS: &'static str = "http://docs.oasis-open.org/ebxml-msg/ebms/v3.0/ns/core/200704/";

/// The SOAP 1.2 envelope namespace.
pub const SOAP: &'static str = "http://www.w3.org/2003/05/soap-envelope";

/// The content id the payload attachment carries.
pub const PAYLOAD_CID: &'static str = "payload@xmip";

/// The service two MSHs exchange under until a P-Mode names one (ebMS 3.0
/// Core section 5.2.2.8).
pub const TEST_SERVICE: &'static str = "http://docs.oasis-open.org/ebxml-msg/ebms/v3.0/ns/core/200704/service";

/// The action that goes with [`TEST_SERVICE`].
pub const TEST_ACTION: &'static str = "http://docs.oasis-open.org/ebxml-msg/ebms/v3.0/ns/core/200704/test";

/// The role of the party a message is from.
pub const INITIATOR: &'static str = "http://docs.oasis-open.org/ebxml-msg/ebms/v3.0/ns/core/200704/initiator";

/// The role of the party a message is to.
pub const RESPONDER: &'static str = "http://docs.oasis-open.org/ebxml-msg/ebms/v3.0/ns/core/200704/responder";

/// What makes a message a new one: an id no other message carries, and when
/// it was written.
#[derive(Debug)]
pub struct Stamp {
    pub message_id: String,
    pub timestamp: String,
}

/// One User Message as its header describes it.
#[derive(Debug, PartialEq, Eq)]
pub struct UserMessage {
    pub message_id: String,
    pub timestamp: String,
    pub from: String,
    pub to: String,
    pub service: String,
    pub action: String,
    pub conversation_id: String,
    /// The content id of the payload part, without `cid:`.
    pub payload_cid: String,
    /// The `type` both party ids carry, where a profile gives them one.
    pub party_type: Option<String>,
    /// The `type` the service carries, where a profile gives it one.
    pub service_type: Option<String>,
    /// The agreement the exchange is under, where a profile names one.
    pub agreement: Option<String>,
    /// The message properties, name and value, in order.
    pub properties: Vec<(String, String)>,
    /// The payload part's properties, name and value, in order.
    pub payload_properties: Vec<(String, String)>,
}

/// What a [`UserMessage`] says.
#[verifier::ext_equal]
pub struct MessageView {
    pub message_id: Seq<char>,
    pub timestamp: Seq<char>,
    pub from: Seq<char>,
    pub to: Seq<char>,
    pub service: Seq<char>,
    pub action: Seq<char>,
    pub conversation_id: Seq<char>,
    pub payload_cid: Seq<char>,
    pub party_type: Option<Seq<char>>,
    pub service_type: Option<Seq<char>>,
    pub agreement: Option<Seq<char>>,
    pub properties: Seq<(Seq<char>, Seq<char>)>,
    pub payload_properties: Seq<(Seq<char>, Seq<char>)>,
}

/// What an optional text says.
pub open spec fn said(text: Option<String>) -> Option<Seq<char>> {
    match text {
        Some(t) => Some(t@),
        None => None,
    }
}

impl View for UserMessage {
    type V = MessageView;

    open spec fn view(&self) -> MessageView {
        MessageView {
            message_id: self.message_id@,
            timestamp: self.timestamp@,
            from: self.from@,
            to: self.to@,
            service: self.service@,
            action: self.action@,
            conversation_id: self.conversation_id@,
            payload_cid: self.payload_cid@,
            party_type: said(self.party_type),
            service_type: said(self.service_type),
            agreement: said(self.agreement),
            properties: pairs(self.properties@),
            payload_properties: pairs(self.payload_properties@),
        }
    }
}

/// The `type` attribute, where a type is given.
pub open spec fn typed_as(kind: Option<Seq<char>>) -> Seq<char> {
    match kind {
        Some(kind) => attributed("type"@, kind),
        None => Seq::empty(),
    }
}

/// `properties` as `eb:Property` elements, in order.
pub open spec fn property_elements_of(
    prefix: Seq<char>,
    properties: Seq<(Seq<char>, Seq<char>)>,
) -> Seq<char>
    decreases properties.len(),
{
    if properties.len() == 0 {
        Seq::empty()
    } else {
        property_elements_of(prefix, properties.drop_last()) + tagged(
            prefix,
            "Property"@,
            attributed("name"@, properties.last().0),
            escaped(properties.last().1),
        )
    }
}

/// The element `name` around `properties`, where there are any.
pub open spec fn properties_under(
    prefix: Seq<char>,
    name: Seq<char>,
    properties: Seq<(Seq<char>, Seq<char>)>,
) -> Seq<char> {
    if properties.len() == 0 {
        Seq::empty()
    } else {
        tagged(prefix, name, Seq::empty(), property_elements_of(prefix, properties))
    }
}

/// An element with no attributes around `text`.
pub open spec fn plain(prefix: Seq<char>, name: Seq<char>, text: Seq<char>) -> Seq<char> {
    tagged(prefix, name, Seq::empty(), escaped(text))
}

/// The element `side` of one party: its id and its role.
pub open spec fn party_element(
    prefix: Seq<char>,
    side: Seq<char>,
    kind: Option<Seq<char>>,
    id: Seq<char>,
    role: Seq<char>,
) -> Seq<char> {
    tagged(
        prefix,
        side,
        Seq::empty(),
        tagged(prefix, "PartyId"@, typed_as(kind), escaped(id)) + tagged(
            prefix,
            "Role"@,
            Seq::empty(),
            role,
        ),
    )
}

/// `eb:MessageInfo`: when the message was written, and its id.
pub open spec fn message_info(prefix: Seq<char>, m: MessageView) -> Seq<char> {
    tagged(
        prefix,
        "MessageInfo"@,
        Seq::empty(),
        plain(prefix, "Timestamp"@, m.timestamp) + plain(prefix, "MessageId"@, m.message_id),
    )
}

/// `eb:PartyInfo`: who sends, and to whom.
pub open spec fn party_info(prefix: Seq<char>, m: MessageView) -> Seq<char> {
    tagged(
        prefix,
        "PartyInfo"@,
        Seq::empty(),
        party_element(prefix, "From"@, m.party_type, m.from, INITIATOR@) + party_element(
            prefix,
            "To"@,
            m.party_type,
            m.to,
            RESPONDER@,
        ),
    )
}

/// `eb:AgreementRef`, where there is an agreement.
pub open spec fn agreement_ref(prefix: Seq<char>, agreement: Option<Seq<char>>) -> Seq<char> {
    match agreement {
        Some(agreement) => plain(prefix, "AgreementRef"@, agreement),
        None => Seq::empty(),
    }
}

/// `eb:CollaborationInfo`: what the exchange is about.
pub open spec fn collaboration_info(prefix: Seq<char>, m: MessageView) -> Seq<char> {
    tagged(
        prefix,
        "CollaborationInfo"@,
        Seq::empty(),
        agreement_ref(prefix, m.agreement) + tagged(
            prefix,
            "Service"@,
            typed_as(m.service_type),
            escaped(m.service),
        )
            + plain(prefix, "Action"@, m.action) + plain(
                prefix,
                "ConversationId"@,
                m.conversation_id,
            ),
    )
}

/// The `href` of the payload part, and the space before it.
pub open spec fn payload_href(cid: Seq<char>) -> Seq<char> {
    " href=\"cid:"@ + escaped(cid) + "\""@
}

/// `eb:PayloadInfo`: the payload part and its properties.
pub open spec fn payload_info(prefix: Seq<char>, m: MessageView) -> Seq<char> {
    tagged(
        prefix,
        "PayloadInfo"@,
        Seq::empty(),
        tagged(
            prefix,
            "PartInfo"@,
            payload_href(m.payload_cid),
            properties_under(prefix, "PartProperties"@, m.payload_properties),
        ),
    )
}

/// The `eb:UserMessage` element of a message.
#[verifier::opaque]
pub open spec fn user_message(prefix: Seq<char>, m: MessageView) -> Seq<char> {
    tagged(
        prefix,
        "UserMessage"@,
        Seq::empty(),
        message_info(prefix, m) + party_info(prefix, m) + collaboration_info(
            prefix,
            m,
        ) + properties_under(
            prefix,
            "MessageProperties"@,
            m.properties,
        ) + payload_info(prefix, m),
    )
}

/// The declaration that `prefix` stands for the ebMS namespace, and the space
/// before it.
pub open spec fn declared(prefix: Seq<char>) -> Seq<char> {
    (if prefix.len() == 0 {
        " xmlns=\""@
    } else {
        " xmlns:"@ + prefix.drop_last() + "=\""@
    }) + EBMS@ + "\""@
}

/// `messaging` as the header of a SOAP 1.2 envelope with an empty body.
#[verifier::opaque]
pub open spec fn wrapped(prefix: Seq<char>, messaging: Seq<char>) -> Seq<char> {
    "<?xml version=\"1.0\" encoding=\"UTF-8\"?>"@ + ("<S12:Envelope xmlns:S12=\""@ + SOAP@ + "\""@
        + declared(prefix) + ">"@) + "<S12:Header>"@ + tagged(
        prefix,
        "Messaging"@,
        " S12:mustUnderstand=\"true\""@,
        messaging,
    ) + "</S12:Header>"@ + "<S12:Body/>"@ + "</S12:Envelope>"@
}

/// The text of the element `name` of `user`, which must be there and say
/// something.
pub open spec fn required_in(user: Seq<char>, name: Seq<char>) -> Result<Seq<char>, Refusal> {
    match element_in(user, name) {
        Some(raw) => match read(raw) {
            Ok(text) => if text.len() == 0 {
                Err(protocol("a UserMessage with no "@ + name))
            } else {
                Ok(text)
            },
            Err(e) => Err(e),
        },
        None => Err(protocol("a UserMessage with no "@ + name)),
    }
}

/// The id of the party on `side`, which must be there.
pub open spec fn party_in(user: Seq<char>, side: Seq<char>) -> Result<Seq<char>, Refusal> {
    let missing = Err(protocol("a UserMessage with no "@ + side + " party"@));
    match element_in(user, side) {
        Some(party) => match element_in(party, "PartyId"@) {
            Some(raw) => read(raw),
            None => missing,
        },
        None => missing,
    }
}

/// The text of the element `name` of `user`, where it is there.
pub open spec fn optional_in(user: Seq<char>, name: Seq<char>) -> Result<
    Option<Seq<char>>,
    Refusal,
> {
    match element_in(user, name) {
        Some(raw) => match read(raw) {
            Ok(text) => Ok(Some(text)),
            Err(e) => Err(e),
        },
        None => Ok(None),
    }
}

/// The text of the element `name` of `user`, nothing where it is not there.
pub open spec fn text_in(user: Seq<char>, name: Seq<char>) -> Result<Seq<char>, Refusal> {
    match optional_in(user, name) {
        Ok(Some(text)) => Ok(text),
        Ok(None) => Ok(Seq::empty()),
        Err(e) => Err(e),
    }
}

/// The properties under the element `name` of `user`, none where it is not
/// there.
pub open spec fn listed_in(user: Seq<char>, name: Seq<char>) -> Result<
    Seq<(Seq<char>, Seq<char>)>,
    Refusal,
> {
    match element_in(user, name) {
        Some(inner) => properties_in(inner),
        None => Ok(Seq::empty()),
    }
}

/// `s` without the `cid:` it begins with, where it does.
pub open spec fn without_cid(s: Seq<char>) -> Seq<char> {
    if starts_with(s, "cid:"@) {
        s.skip(4)
    } else {
        s
    }
}

/// The reference to the payload, which must be there.
pub open spec fn href_in(user: Seq<char>) -> Result<Seq<char>, Refusal> {
    match attribute_in(user, "PartInfo"@, "href"@) {
        Ok(Some(href)) => Ok(href),
        Ok(None) => Err(protocol("a UserMessage with no payload reference"@)),
        Err(e) => Err(e),
    }
}

/// The type of the sending party's id, where it has one.
pub open spec fn party_type_in(user: Seq<char>) -> Result<Option<Seq<char>>, Refusal> {
    match element_in(user, "From"@) {
        Some(from) => attribute_in(from, "PartyId"@, "type"@),
        None => Ok(None),
    }
}

/// The first refusal among what is read of a `UserMessage`, in the order it
/// is read.
pub open spec fn refusal_in(user: Seq<char>) -> Option<Refusal> {
    if let Err(e) = href_in(user) {
        Some(e)
    } else if let Err(e) = required_in(user, "MessageId"@) {
        Some(e)
    } else if let Err(e) = text_in(user, "Timestamp"@) {
        Some(e)
    } else if let Err(e) = party_in(user, "From"@) {
        Some(e)
    } else if let Err(e) = party_in(user, "To"@) {
        Some(e)
    } else if let Err(e) = required_in(user, "Service"@) {
        Some(e)
    } else if let Err(e) = required_in(user, "Action"@) {
        Some(e)
    } else if let Err(e) = text_in(user, "ConversationId"@) {
        Some(e)
    } else if let Err(e) = party_type_in(user) {
        Some(e)
    } else if let Err(e) = attribute_in(user, "Service"@, "type"@) {
        Some(e)
    } else if let Err(e) = optional_in(user, "AgreementRef"@) {
        Some(e)
    } else if let Err(e) = listed_in(user, "MessageProperties"@) {
        Some(e)
    } else if let Err(e) = listed_in(user, "PartInfo"@) {
        Some(e)
    } else {
        None
    }
}

/// The message the content `user` of a `UserMessage` describes.
pub open spec fn described_in(user: Seq<char>) -> Result<MessageView, Refusal> {
    match refusal_in(user) {
        Some(e) => Err(e),
        None => Ok(
            MessageView {
                message_id: required_in(user, "MessageId"@)->Ok_0,
                timestamp: text_in(user, "Timestamp"@)->Ok_0,
                from: party_in(user, "From"@)->Ok_0,
                to: party_in(user, "To"@)->Ok_0,
                service: required_in(user, "Service"@)->Ok_0,
                action: required_in(user, "Action"@)->Ok_0,
                conversation_id: text_in(user, "ConversationId"@)->Ok_0,
                payload_cid: without_cid(href_in(user)->Ok_0),
                party_type: party_type_in(user)->Ok_0,
                service_type: attribute_in(user, "Service"@, "type"@)->Ok_0,
                agreement: optional_in(user, "AgreementRef"@)->Ok_0,
                properties: listed_in(user, "MessageProperties"@)->Ok_0,
                payload_properties: listed_in(user, "PartInfo"@)->Ok_0,
            },
        ),
    }
}

/// The User Message an envelope carries.
pub open spec fn carried_in(envelope: Seq<char>) -> Result<MessageView, Refusal> {
    match element_in(envelope, "UserMessage"@) {
        Some(user) => described_in(user),
        None => Err(protocol("an envelope with no UserMessage in it"@)),
    }
}

/// The message id made of when it was drawn and which it is of its process.
pub open spec fn id_of(nanos: nat, count: nat) -> Seq<char> {
    decimal(nanos) + "."@ + decimal(count) + "@xmip"@
}

/// No two message ids are alike but where both the clock and the count are,
/// so a count that no other message has makes an id that no other has.
pub proof fn message_ids_differ(nanos: nat, count: nat, other_nanos: nat, other_count: nat)
    ensures
        id_of(nanos, count) == id_of(other_nanos, other_count) <==> nanos == other_nanos && count
            == other_count,
{
    if id_of(nanos, count) == id_of(other_nanos, other_count) {
        reveal_strlit(".");
        reveal_strlit("@xmip");
        let (a, b) = (decimal(nanos), decimal(other_nanos));
        let (c, d) = (decimal(count), decimal(other_count));
        let (x, y) = (id_of(nanos, count), id_of(other_nanos, other_count));
        lemma_decimal_digits(nanos);
        lemma_decimal_digits(other_nanos);
        assert(x[a.len() as int] == '.');
        assert(y[b.len() as int] == '.');
        if a.len() < b.len() {
            assert(y[a.len() as int] == b[a.len() as int]);
        }
        if b.len() < a.len() {
            assert(x[b.len() as int] == a[b.len() as int]);
        }
        assert(a =~= b) by {
            assert(x.subrange(0, a.len() as int) =~= a);
            assert(y.subrange(0, b.len() as int) =~= b);
        }
        lemma_decimal_injective(nanos, other_nanos);
        assert(x.len() == a.len() + c.len() + 6);
        assert(y.len() == b.len() + d.len() + 6);
        assert(c =~= d) by {
            assert(x.subrange(a.len() + 1int, a.len() + 1int + c.len()) =~= c);
            assert(y.subrange(b.len() + 1int, b.len() + 1int + d.len()) =~= d);
        }
        lemma_decimal_injective(count, other_count);
    }
}

/// A message id no other message from this process carries: `since_epoch`
/// is what the clock says, in nanoseconds since the Unix epoch, `None` where
/// it stands before it; `count` is one this process has not drawn before.
pub fn next_id(since_epoch: Option<u128>, count: u64) -> (id: String)
    ensures
        id@ == id_of(
            match since_epoch {
                Some(nanos) => nanos as nat,
                None => 0,
            },
            count as nat,
        ),
{
    let nanos: u128 = match since_epoch {
        Some(nanos) => nanos,
        None => 0,
    };
    let mut id = decimal_of(nanos);
    id.append(".");
    id.append(decimal_of(count as u128).as_str());
    id.append("@xmip");
    id
}

/// `properties` again.
fn copied_pairs(properties: &Vec<(String, String)>) -> (copy: Vec<(String, String)>)
    ensures
        pairs(copy@) == pairs(properties@),
{
    let mut copy: Vec<(String, String)> = Vec::new();
    for i in 0..properties.len()
        invariant
            pairs(copy@) =~= pairs(properties@).take(i as int),
    {
        let pair = (properties[i].0.clone(), properties[i].1.clone());
        let ghost earlier = copy@;
        copy.push(pair);
        proof {
            assert(pairs(copy@) =~= pairs(earlier).push((pair.0@, pair.1@)));
            assert(pairs(properties@).take(i + 1) =~= pairs(properties@).take(i as int).push(
                pairs(properties@)[i as int],
            ));
        }
    }
    assert(pairs(properties@).take(properties@.len() as int) =~= pairs(properties@));
    copy
}

/// `text` again.
fn copied_option(text: &Option<String>) -> (copy: Option<String>)
    ensures
        said(copy) == said(*text),
{
    match text {
        Some(t) => Some(t.clone()),
        None => None,
    }
}

impl Clone for UserMessage {
    fn clone(&self) -> (copy: Self)
        ensures
            copy@ == self@,
    {
        UserMessage {
            message_id: self.message_id.clone(),
            timestamp: self.timestamp.clone(),
            from: self.from.clone(),
            to: self.to.clone(),
            service: self.service.clone(),
            action: self.action.clone(),
            conversation_id: self.conversation_id.clone(),
            payload_cid: self.payload_cid.clone(),
            party_type: copied_option(&self.party_type),
            service_type: copied_option(&self.service_type),
            agreement: copied_option(&self.agreement),
            properties: copied_pairs(&self.properties),
            payload_properties: copied_pairs(&self.payload_properties),
        }
    }
}

/// A new message from `from` to `to` under `service` and `action`.
pub open spec fn new_message(
    from: Seq<char>,
    to: Seq<char>,
    service: Seq<char>,
    action: Seq<char>,
    stamp: Stamp,
) -> MessageView {
    MessageView {
        message_id: stamp.message_id@,
        timestamp: stamp.timestamp@,
        from,
        to,
        service,
        action,
        conversation_id: stamp.message_id@,
        payload_cid: PAYLOAD_CID@,
        party_type: None,
        service_type: None,
        agreement: None,
        properties: Seq::empty(),
        payload_properties: seq![("MimeType"@, "application/octet-stream"@)],
    }
}

/// `m` again as a new message.
pub open spec fn renewed(m: MessageView, stamp: Stamp) -> MessageView {
    MessageView {
        message_id: stamp.message_id@,
        timestamp: stamp.timestamp@,
        conversation_id: stamp.message_id@,
        ..m
    }
}

impl UserMessage {
    /// A message from `from` to `to` under `service` and `action`, its
    /// payload in the attachment [`PAYLOAD_CID`].
    #[must_use]
    pub fn new(from: &str, to: &str, service: &str, action: &str, stamp: Stamp) -> (m: Self)
        ensures
            m@ == new_message(from@, to@, service@, action@, stamp),
    {
        let mut payload_properties: Vec<(String, String)> = Vec::new();
        payload_properties.push((owned("MimeType"), owned("application/octet-stream")));
        let properties: Vec<(String, String)> = Vec::new();
        let m = UserMessage {
            conversation_id: stamp.message_id.clone(),
            message_id: stamp.message_id,
            timestamp: stamp.timestamp,
            from: owned(from),
            to: owned(to),
            service: owned(service),
            action: owned(action),
            payload_cid: owned(PAYLOAD_CID),
            party_type: None,
            service_type: None,
            agreement: None,
            properties,
            payload_properties,
        };
        proof {
            assert(m@.properties =~= Seq::<(Seq<char>, Seq<char>)>::empty());
            assert(m@.payload_properties =~= seq![("MimeType"@, "application/octet-stream"@)]);
        }
        m
    }

    /// This message again as a new one: a new id, a new timestamp, a new
    /// conversation, everything else as it was. That is what a Send Location
    /// does with the message it was configured with, per send.
    #[must_use]
    pub fn fresh(&self, stamp: Stamp) -> (m: Self)
        ensures
            m@ == renewed(self@, stamp),
    {
        let mut m = self.clone();
        m.conversation_id = stamp.message_id.clone();
        m.message_id = stamp.message_id;
        m.timestamp = stamp.timestamp;
        m
    }

    /// The `eb:UserMessage` element alone, as the envelope and the Receipt
    /// both carry it.
    #[must_use]
    pub fn element(&self) -> (s: String)
        ensures
            s@ == user_message(PREFIX@, self@),
    {
        let mut info = plain_tag("Timestamp", self.timestamp.as_str());
        info.append(plain_tag("MessageId", self.message_id.as_str()).as_str());
        let party_type = typed(&self.party_type);
        let mut parties = party_tag("From", party_type.as_str(), &self.from, INITIATOR);
        parties.append(party_tag("To", party_type.as_str(), &self.to, RESPONDER).as_str());
        let mut collaboration = match &self.agreement {
            Some(agreement) => plain_tag("AgreementRef", agreement.as_str()),
            None => String::new(),
        };
        collaboration.append(
            tag(
                "Service",
                typed(&self.service_type).as_str(),
                escape(self.service.as_str()).as_str(),
            ).as_str(),
        );
        collaboration.append(plain_tag("Action", self.action.as_str()).as_str());
        collaboration.append(plain_tag("ConversationId", self.conversation_id.as_str()).as_str());
        let mut href = owned(" href=\"cid:");
        href.append(escape(self.payload_cid.as_str()).as_str());
        href.append("\"");
        let part = tag(
            "PartInfo",
            href.as_str(),
            properties_tag("PartProperties", &self.payload_properties).as_str(),
        );
        let mut user = tag("MessageInfo", "", info.as_str());
        user.append(tag("PartyInfo", "", parties.as_str()).as_str());
        user.append(tag("CollaborationInfo", "", collaboration.as_str()).as_str());
        user.append(properties_tag("MessageProperties", &self.properties).as_str());
        user.append(tag("PayloadInfo", "", part.as_str()).as_str());
        proof {
            lemma_empty_literal();
            reveal(user_message);
        }
        tag("UserMessage", "", user.as_str())
    }

    /// The whole envelope: the header with this message, an empty body.
    #[must_use]
    pub fn envelope(&self) -> (s: String)
        ensures
            s@ == wrapped(PREFIX@, user_message(PREFIX@, self@)),
    {
        wrap(self.element().as_str())
    }

    /// The User Message an envelope carries.
    ///
    /// # Errors
    /// Where the envelope has no `UserMessage`, or one without its message
    /// id, parties, service, action or payload reference, or with an entity
    /// XML does not define.
    pub fn from_envelope(envelope: &str) -> (r: Result<Self, TransportError>)
        ensures
            match carried_in(envelope@) {
                Ok(m) => r matches Ok(message) && message@ == m,
                Err(refusal) => r matches Err(e) && e@ == refusal,
            },
    {
        let chars = chars_of(envelope);
        let user = match element_chars(chars.as_slice(), "UserMessage") {
            Some(user) => user,
            None => return Err(protocol_error(owned("an envelope with no UserMessage in it"))),
        };
        let href = match attribute_chars(user, "PartInfo", "href") {
            Ok(Some(href)) => href,
            Ok(None) => return Err(
                protocol_error(owned("a UserMessage with no payload reference")),
            ),
            Err(e) => return Err(e),
        };
        let message_id = match required(user, "MessageId") {
            Ok(text) => text,
            Err(e) => return Err(e),
        };
        let timestamp = match text_or_empty(user, "Timestamp") {
            Ok(text) => text,
            Err(e) => return Err(e),
        };
        let from = match party(user, "From") {
            Ok(text) => text,
            Err(e) => return Err(e),
        };
        let to = match party(user, "To") {
            Ok(text) => text,
            Err(e) => return Err(e),
        };
        let service = match required(user, "Service") {
            Ok(text) => text,
            Err(e) => return Err(e),
        };
        let action = match required(user, "Action") {
            Ok(text) => text,
            Err(e) => return Err(e),
        };
        let conversation_id = match text_or_empty(user, "ConversationId") {
            Ok(text) => text,
            Err(e) => return Err(e),
        };
        let payload_cid = trim_cid(href.as_str());
        let party_type = match element_chars(user, "From") {
            Some(from) => match attribute_chars(from, "PartyId", "type") {
                Ok(kind) => kind,
                Err(e) => return Err(e),
            },
            None => None,
        };
        let service_type = match attribute_chars(user, "Service", "type") {
            Ok(kind) => kind,
            Err(e) => return Err(e),
        };
        let agreement = match optional(user, "AgreementRef") {
            Ok(text) => text,
            Err(e) => return Err(e),
        };
        let properties = match listed(user, "MessageProperties") {
            Ok(properties) => properties,
            Err(e) => return Err(e),
        };
        let payload_properties = match listed(user, "PartInfo") {
            Ok(properties) => properties,
            Err(e) => return Err(e),
        };
        Ok(
            UserMessage {
                message_id,
                timestamp,
                from,
                to,
                service,
                action,
                conversation_id,
                payload_cid,
                party_type,
                service_type,
                agreement,
                properties,
                payload_properties,
            },
        )
    }
}

/// The empty literal is the empty text.
pub proof fn lemma_empty_literal()
    ensures
        ""@ == Seq::<char>::empty(),
{
    reveal_strlit("");
    assert(""@ =~= Seq::<char>::empty());
}

/// An element with no attributes around `text`.
pub fn plain_tag(name: &str, text: &str) -> (s: String)
    ensures
        s@ == plain(PREFIX@, name@, text@),
{
    proof {
        lemma_empty_literal();
    }
    tag(name, "", escape(text).as_str())
}

/// The element `side` of one party: its id and its role.
fn party_tag(side: &str, kind: &str, id: &String, role: &str) -> (s: String)
    ensures
        s@ == tagged(
            PREFIX@,
            side@,
            Seq::empty(),
            tagged(PREFIX@, "PartyId"@, kind@, escaped(id@)) + tagged(
                PREFIX@,
                "Role"@,
                Seq::empty(),
                role@,
            ),
        ),
{
    proof {
        lemma_empty_literal();
    }
    let mut party = tag("PartyId", kind, escape(id.as_str()).as_str());
    party.append(tag("Role", "", role).as_str());
    tag(side, "", party.as_str())
}

/// ` type="..."` where a type is given, nothing where none is.
fn typed(kind: &Option<String>) -> (s: String)
    ensures
        s@ == typed_as(said(*kind)),
{
    match kind {
        Some(kind) => attribute_of("type", kind.as_str()),
        None => String::new(),
    }
}

/// `properties` as `eb:Property` elements, in order.
fn property_elements(properties: &Vec<(String, String)>) -> (s: String)
    ensures
        s@ == property_elements_of(PREFIX@, pairs(properties@)),
{
    let mut s = String::new();
    for i in 0..properties.len()
        invariant
            s@ == property_elements_of(PREFIX@, pairs(properties@).take(i as int)),
    {
        s.append(
            tag(
                "Property",
                attribute_of("name", properties[i].0.as_str()).as_str(),
                escape(properties[i].1.as_str()).as_str(),
            ).as_str(),
        );
        proof {
            let next = pairs(properties@).take(i + 1);
            assert(next.drop_last() =~= pairs(properties@).take(i as int));
            assert(next.last() == (properties@[i as int].0@, properties@[i as int].1@));
        }
    }
    assert(pairs(properties@).take(properties@.len() as int) =~= pairs(properties@));
    s
}

/// The element `name` around `properties`, where there are any.
fn properties_tag(name: &str, properties: &Vec<(String, String)>) -> (s: String)
    ensures
        s@ == properties_under(PREFIX@, name@, pairs(properties@)),
{
    proof {
        lemma_empty_literal();
    }
    if properties.len() == 0 {
        String::new()
    } else {
        tag(name, "", property_elements(properties).as_str())
    }
}

/// `messaging` as the header of a SOAP 1.2 envelope with an empty body.
#[must_use]
pub fn wrap(messaging: &str) -> (s: String)
    ensures
        s@ == wrapped(PREFIX@, messaging@),
{
    let mut s = owned("<?xml version=\"1.0\" encoding=\"UTF-8\"?>");
    let mut envelope = owned("<S12:Envelope xmlns:S12=\"");
    envelope.append(SOAP);
    envelope.append("\"");
    envelope.append(" xmlns:eb=\"");
    envelope.append(EBMS);
    envelope.append("\"");
    envelope.append(">");
    proof {
        reveal(wrapped);
        reveal_strlit("eb:");
        reveal_strlit(" xmlns:");
        reveal_strlit("=\"");
        reveal_strlit(" xmlns:eb=\"");
        assert(" xmlns:eb=\""@ =~= " xmlns:"@ + PREFIX@.drop_last() + "=\""@);
        assert(envelope@ =~= "<S12:Envelope xmlns:S12=\""@ + SOAP@ + "\""@ + declared(PREFIX@)
            + ">"@);
    }
    s.append(envelope.as_str());
    s.append("<S12:Header>");
    s.append(tag("Messaging", " S12:mustUnderstand=\"true\"", messaging).as_str());
    s.append("</S12:Header>");
    s.append("<S12:Body/>");
    s.append("</S12:Envelope>");
    s
}

/// What is said of a `UserMessage` that lacks `name`.
fn lacking(name: &str) -> (e: TransportError)
    ensures
        e@ == protocol("a UserMessage with no "@ + name@),
{
    let mut message = owned("a UserMessage with no ");
    message.append(name);
    protocol_error(message)
}

/// What is said of a `UserMessage` that lacks the party on `side`.
fn lacking_party(side: &str) -> (e: TransportError)
    ensures
        e@ == protocol("a UserMessage with no "@ + side@ + " party"@),
{
    let mut message = owned("a UserMessage with no ");
    message.append(side);
    message.append(" party");
    protocol_error(message)
}

/// The text of the element `name`, which must be there and say something.
fn required(user: &[char], name: &str) -> (r: Result<String, TransportError>)
    ensures
        match required_in(user@, name@) {
            Ok(text) => r matches Ok(s) && s@ == text,
            Err(refusal) => r matches Err(e) && e@ == refusal,
        },
{
    match element_chars(user, name) {
        Some(raw) => match unescape_chars(raw) {
            Ok(text) => if text.as_str().is_empty() {
                Err(lacking(name))
            } else {
                Ok(text)
            },
            Err(e) => Err(e),
        },
        None => Err(lacking(name)),
    }
}

/// The id of the party on `side`, which must be there.
fn party(user: &[char], side: &str) -> (r: Result<String, TransportError>)
    ensures
        match party_in(user@, side@) {
            Ok(text) => r matches Ok(s) && s@ == text,
            Err(refusal) => r matches Err(e) && e@ == refusal,
        },
{
    match element_chars(user, side) {
        Some(party) => match element_chars(party, "PartyId") {
            Some(raw) => unescape_chars(raw),
            None => Err(lacking_party(side)),
        },
        None => Err(lacking_party(side)),
    }
}

/// The text of the element `name`, where it is there.
fn optional(user: &[char], name: &str) -> (r: Result<Option<String>, TransportError>)
    ensures
        match optional_in(user@, name@) {
            Ok(text) => r matches Ok(s) && said(s) == text,
            Err(refusal) => r matches Err(e) && e@ == refusal,
        },
{
    match element_chars(user, name) {
        Some(raw) => match unescape_chars(raw) {
            Ok(text) => Ok(Some(text)),
            Err(e) => Err(e),
        },
        None => Ok(None),
    }
}

/// The text of the element `name`, nothing where it is not there.
fn text_or_empty(user: &[char], name: &str) -> (r: Result<String, TransportError>)
    ensures
        match text_in(user@, name@) {
            Ok(text) => r matches Ok(s) && s@ == text,
            Err(refusal) => r matches Err(e) && e@ == refusal,
        },
{
    match optional(user, name) {
        Ok(Some(text)) => Ok(text),
        Ok(None) => Ok(String::new()),
        Err(e) => Err(e),
    }
}

/// The properties under the element `name`, none where it is not there.
fn listed(user: &[char], name: &str) -> (r: Result<Vec<(String, String)>, TransportError>)
    ensures
        match listed_in(user@, name@) {
            Ok(properties) => r matches Ok(v) && pairs(v@) == properties,
            Err(refusal) => r matches Err(e) && e@ == refusal,
        },
{
    match element_chars(user, name) {
        Some(inner) => properties_chars(inner),
        None => {
            let none: Vec<(String, String)> = Vec::new();
            assert(pairs(none@) =~= Seq::<(Seq<char>, Seq<char>)>::empty());
            Ok(none)
        },
    }
}

/// `href` without the `cid:` it begins with, where it does.
fn trim_cid(href: &str) -> (cid: String)
    ensures
        cid@ == without_cid(href@),
{
    proof {
        reveal_strlit("cid:");
    }
    let chars = chars_of(href);
    if begins_with(chars.as_slice(), chars_of("cid:").as_slice()) {
        string_of(after(chars.as_slice(), 4))
    } else {
        owned(href)
    }
}

} // verus!
