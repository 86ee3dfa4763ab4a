//! What is written, told letter for letter: the elements of an envelope, in
//! their order, each with its attributes and around what it says.

use vstd::prelude::*;

#[allow(unused_imports)]
use crate::envelope::{
    property_elements_of, properties_under, user_message, wrapped, MessageView, Stamp,
};
#[allow(unused_imports)]
use crate::signal::{error_of, receipt_of};
#[allow(unused_imports)]
use crate::xml::{escaped, PREFIX};

verus! {

/// The element `name` with `attributes` around `inner`.
pub open spec fn element(
    prefix: Seq<char>,
    name: Seq<char>,
    attributes: Seq<char>,
    inner: Seq<char>,
) -> Seq<char> {
    "<"@ + prefix + name + attributes + ">"@ + inner + "</"@ + prefix + name + ">"@
}

/// The `type` attribute, where there is a type.
pub open spec fn type_of(kind: Option<Seq<char>>) -> Seq<char> {
    match kind {
        Some(kind) => " "@ + "type"@ + "=\""@ + escaped(kind) + "\""@,
        None => Seq::empty(),
    }
}

/// Properties are written one after the other, each under its name.
pub proof fn properties_are_written_one_after_the_other(
    prefix: Seq<char>,
    name: Seq<char>,
    properties: Seq<(Seq<char>, Seq<char>)>,
    key: Seq<char>,
    value: Seq<char>,
)
    ensures
        property_elements_of(prefix, properties.push((key, value))) == property_elements_of(
            prefix,
            properties,
        ) + element(
            prefix,
            "Property"@,
            " "@ + "name"@ + "=\""@ + escaped(key) + "\""@,
            escaped(value),
        ),
        property_elements_of(prefix, Seq::empty()).len() == 0,
        properties.len() == 0 ==> properties_under(prefix, name, properties).len() == 0,
        properties.len() > 0 ==> properties_under(prefix, name, properties) == element(
            prefix,
            name,
            Seq::empty(),
            property_elements_of(prefix, properties),
        ),
{
    assert(properties.push((key, value)).drop_last() =~= properties);
}

/// A User Message is its id and when it was written, the two parties in their
/// roles, what the exchange is about, the properties, and the payload with
/// its own: each written as it is said, in this order.
pub proof fn a_user_message_is_written_in_this_order(prefix: Seq<char>, m: MessageView)
    ensures
        ({
            let nothing = Seq::<char>::empty();
            let info = element(prefix, "Timestamp"@, nothing, escaped(m.timestamp)) + element(
                prefix,
                "MessageId"@,
                nothing,
                escaped(m.message_id),
            );
            let from = element(prefix, "PartyId"@, type_of(m.party_type), escaped(m.from))
                + element(
                prefix,
                "Role"@,
                nothing,
                "http://docs.oasis-open.org/ebxml-msg/ebms/v3.0/ns/core/200704/initiator"@,
            );
            let to = element(prefix, "PartyId"@, type_of(m.party_type), escaped(m.to)) + element(
                prefix,
                "Role"@,
                nothing,
                "http://docs.oasis-open.org/ebxml-msg/ebms/v3.0/ns/core/200704/responder"@,
            );
            let agreement = match m.agreement {
                Some(agreement) => element(prefix, "AgreementRef"@, nothing, escaped(agreement)),
                None => nothing,
            };
            let collaboration = agreement + element(
                prefix,
                "Service"@,
                type_of(m.service_type),
                escaped(m.service),
            ) + element(prefix, "Action"@, nothing, escaped(m.action)) + element(
                prefix,
                "ConversationId"@,
                nothing,
                escaped(m.conversation_id),
            );
            let payload = element(
                prefix,
                "PartInfo"@,
                " href=\"cid:"@ + escaped(m.payload_cid) + "\""@,
                properties_under(prefix, "PartProperties"@, m.payload_properties),
            );
            user_message(prefix, m) == element(
                prefix,
                "UserMessage"@,
                nothing,
                element(prefix, "MessageInfo"@, nothing, info) + element(
                    prefix,
                    "PartyInfo"@,
                    nothing,
                    element(prefix, "From"@, nothing, from) + element(prefix, "To"@, nothing, to),
                ) + element(prefix, "CollaborationInfo"@, nothing, collaboration)
                    + properties_under(prefix, "MessageProperties"@, m.properties) + element(
                    prefix,
                    "PayloadInfo"@,
                    nothing,
                    payload,
                ),
            )
        }),
{
    reveal(user_message);
}

/// An envelope is a SOAP 1.2 envelope in UTF-8 that declares both its
/// namespaces, with what it carries as the one header, which must be
/// understood, and an empty body.
pub proof fn an_envelope_is_a_header_over_an_empty_body(prefix: Seq<char>, messaging: Seq<char>)
    ensures
        ({
            let declaration = if prefix.len() == 0 {
                " xmlns=\""@
            } else {
                " xmlns:"@ + prefix.drop_last() + "=\""@
            };
            wrapped(prefix, messaging) == "<?xml version=\"1.0\" encoding=\"UTF-8\"?>"@ + (
            "<S12:Envelope xmlns:S12=\""@ + "http://www.w3.org/2003/05/soap-envelope"@ + "\""@ + (
            declaration + "http://docs.oasis-open.org/ebxml-msg/ebms/v3.0/ns/core/200704/"@
                + "\""@) + ">"@) + "<S12:Header>"@ + element(
                prefix,
                "Messaging"@,
                " S12:mustUnderstand=\"true\""@,
                messaging,
            ) + "</S12:Header>"@ + "<S12:Body/>"@ + "</S12:Envelope>"@
        }),
        PREFIX@ == "eb:"@,
{
    reveal(wrapped);
}

/// A Receipt is new by its stamp, refers to the message it answers, and
/// carries that message whole.
pub proof fn a_receipt_is_written_in_this_order(prefix: Seq<char>, m: MessageView, stamp: Stamp)
    ensures
        ({
            let nothing = Seq::<char>::empty();
            let info = element(prefix, "Timestamp"@, nothing, escaped(stamp.timestamp@)) + element(
                prefix,
                "MessageId"@,
                nothing,
                escaped(stamp.message_id@),
            ) + element(prefix, "RefToMessageId"@, nothing, escaped(m.message_id));
            receipt_of(prefix, m, stamp) == wrapped(
                prefix,
                element(
                    prefix,
                    "SignalMessage"@,
                    nothing,
                    element(prefix, "MessageInfo"@, nothing, info) + element(
                        prefix,
                        "Receipt"@,
                        nothing,
                        user_message(prefix, m),
                    ),
                ),
            )
        }),
{
}

/// An Error is new by its stamp, refers to the message it is about where it
/// is about one, and gives its code and, in English, why.
pub proof fn an_error_is_written_in_this_order(
    prefix: Seq<char>,
    ref_to: Option<Seq<char>>,
    code: Seq<char>,
    description: Seq<char>,
    stamp: Stamp,
)
    ensures
        ({
            let nothing = Seq::<char>::empty();
            let answered = match ref_to {
                Some(id) => element(prefix, "RefToMessageId"@, nothing, escaped(id)),
                None => nothing,
            };
            let info = element(prefix, "Timestamp"@, nothing, escaped(stamp.timestamp@)) + element(
                prefix,
                "MessageId"@,
                nothing,
                escaped(stamp.message_id@),
            ) + answered;
            error_of(prefix, ref_to, code, description, stamp) == wrapped(
                prefix,
                element(
                    prefix,
                    "SignalMessage"@,
                    nothing,
                    element(prefix, "MessageInfo"@, nothing, info) + element(
                        prefix,
                        "Error"@,
                        " category=\"Content\" errorCode=\""@ + escaped(code)
                            + "\" origin=\"ebMS\" severity=\"failure\""@,
                        element(
                            prefix,
                            "Description"@,
                            " xml:lang=\"en\""@,
                            escaped(description),
                        ),
                    ),
                ),
            )
        }),
{
}

} // verus!
