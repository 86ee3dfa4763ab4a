//! What was written reads back.

use vstd::prelude::*;

#[allow(unused_imports)]
use crate::document::{
    apart, are_attributes, around, close, elem, finds, leaf, lemma_absent, lemma_around,
    lemma_attribute_lookup, lemma_attributes, lemma_avoids_append, lemma_begins, lemma_close,
    lemma_elem, lemma_escaped_no_tag, lemma_flat_append, lemma_inside, lemma_leaf,
    lemma_literal_attribute, lemma_local, lemma_lookup, lemma_nothing, lemma_nothing_to_read,
    lemma_only_value, lemma_open, lemma_properties_read_back, lemma_property_pieces,
    lemma_qualified, lemma_read_escaped, lemma_text_only, lemma_writes_append, lists, name, open,
    property_pieces, shows, writes, Tag,
};
#[allow(unused_imports)]
use crate::envelope::{
    agreement_ref, carried_in, collaboration_info, declared, described_in, href_in, listed_in,
    message_info, optional_in, party_in, party_info, party_type_in, payload_href, payload_info,
    plain, properties_under, property_elements_of, required_in, text_in, typed_as, user_message,
    without_cid, wrapped, EBMS, INITIATOR, MessageView, RESPONDER, SOAP,
};
#[allow(unused_imports)]
use crate::error::{protocol, Refusal};
#[allow(unused_imports)]
use crate::flat::{
    avoids, flat, lemma_even_append, lemma_even_plain, lemma_properties_skip, lemma_read_pieces,
    lemma_render_append, lemma_whole, no_tag, stranger, whole,
};
#[allow(unused_imports)]
use crate::markup::{is_quote, markup_end, render, Piece};
#[allow(unused_imports)]
use crate::scan::{attribute_in, begins, local_name_of, opens, value_in};
#[allow(unused_imports)]
use crate::text::{lemma_find_word, occurs_at, starts_with};
#[allow(unused_imports)]
use crate::xml::{attributed, escape_char, escaped, is_mark, is_prefix, tagged, unmarked};

verus! {

/// The `type` of an element is an attribute.
proof fn lemma_typed(prefix: Seq<char>, t: Tag, kind: Option<Seq<char>>)
    requires
        is_prefix(prefix),
    ensures
        are_attributes(typed_as(kind)),
        value_in(prefix + name(t) + typed_as(kind), "type"@) == Ok::<
            Option<Seq<char>>,
            Refusal,
        >(kind),
{
    reveal_strlit("type");
    match kind {
        Some(k) => lemma_only_value(prefix, t, "type"@, k),
        None => lemma_nothing_to_read(prefix, t, "type"@),
    }
}

/// `eb:MessageInfo` as pieces.
#[verifier::opaque]
spec fn info_pieces(prefix: Seq<char>, m: MessageView) -> Seq<Piece> {
    around(
        prefix,
        Tag::MessageInfo,
        leaf(prefix, Tag::Timestamp, Seq::empty(), escaped(m.timestamp)) + leaf(
            prefix,
            Tag::MessageId,
            Seq::empty(),
            escaped(m.message_id),
        ),
    )
}

proof fn lemma_info(prefix: Seq<char>, m: MessageView)
    requires
        is_prefix(prefix),
    ensures
        writes(info_pieces(prefix, m), message_info(prefix, m)),
        forall|s: Tag|
            s != Tag::MessageInfo && s != Tag::Timestamp && s != Tag::MessageId
                ==> #[trigger] avoids(info_pieces(prefix, m), name(s)),
{
    reveal(info_pieces);
    let none = Seq::<char>::empty();
    lemma_escaped_no_tag(m.timestamp);
    lemma_escaped_no_tag(m.message_id);
    lemma_leaf(prefix, Tag::Timestamp, none, escaped(m.timestamp));
    lemma_leaf(prefix, Tag::MessageId, none, escaped(m.message_id));
    let a = leaf(prefix, Tag::Timestamp, none, escaped(m.timestamp));
    let b = leaf(prefix, Tag::MessageId, none, escaped(m.message_id));
    lemma_writes_append(
        a,
        plain(prefix, "Timestamp"@, m.timestamp),
        b,
        plain(prefix, "MessageId"@, m.message_id),
    );
    lemma_around(
        prefix,
        Tag::MessageInfo,
        a + b,
        plain(prefix, "Timestamp"@, m.timestamp) + plain(prefix, "MessageId"@, m.message_id),
    );
    assert forall|s: Tag|
        s != Tag::MessageInfo && s != Tag::Timestamp && s != Tag::MessageId implies #[trigger] avoids(
        info_pieces(prefix, m),
        name(s),
    ) by {
        assert(avoids(a, name(s)));
        assert(avoids(b, name(s)));
        lemma_avoids_append(a, b, name(s));
    }
}

/// What a party element holds, as pieces.
#[verifier::opaque]
spec fn party_content(
    prefix: Seq<char>,
    kind: Option<Seq<char>>, id: Seq<char>, role: Seq<char>,
) -> Seq<Piece> {
    leaf(prefix, Tag::PartyId, typed_as(kind), escaped(id)) + leaf(
        prefix,
        Tag::Role,
        Seq::empty(),
        role,
    )
}

proof fn lemma_party_content(
    prefix: Seq<char>,
    kind: Option<Seq<char>>, id: Seq<char>, role: Seq<char>,
)
    requires
        is_prefix(prefix),
        no_tag(role),
    ensures
        writes(
            party_content(prefix, kind, id, role),
            tagged(prefix, "PartyId"@, typed_as(kind), escaped(id)) + tagged(
                prefix,
                "Role"@,
                Seq::empty(),
                role,
            ),
        ),
        forall|s: Tag|
            s != Tag::PartyId && s != Tag::Role ==> #[trigger] avoids(
                party_content(prefix, kind, id, role),
                name(s),
            ),
        finds(render(party_content(prefix, kind, id, role)), "PartyId"@, Some(escaped(id))),
        shows(render(party_content(prefix, kind, id, role)), "PartyId"@, "type"@, Ok(kind)),
{
    reveal(party_content);
    lemma_nothing();
    let none = Seq::<char>::empty();
    let nothing = Seq::<Piece>::empty();
    lemma_typed(prefix, Tag::PartyId, kind);
    lemma_escaped_no_tag(id);
    lemma_leaf(prefix, Tag::PartyId, typed_as(kind), escaped(id));
    lemma_leaf(prefix, Tag::Role, none, role);
    let a = leaf(prefix, Tag::PartyId, typed_as(kind), escaped(id));
    let b = leaf(prefix, Tag::Role, none, role);
    lemma_writes_append(
        a,
        tagged(prefix, "PartyId"@, typed_as(kind), escaped(id)),
        b,
        tagged(prefix, "Role"@, none, role),
    );
    assert forall|s: Tag| s != Tag::PartyId && s != Tag::Role implies #[trigger] avoids(
        party_content(prefix, kind, id, role),
        name(s),
    ) by {
        assert(avoids(a, name(s)));
        assert(avoids(b, name(s)));
        lemma_avoids_append(a, b, name(s));
    }
    assert(nothing + a + b =~= a + b);
    assert(avoids(nothing, name(Tag::PartyId)));
    lemma_lookup(prefix, nothing, Tag::PartyId, typed_as(kind), escaped(id), nothing, b);
    lemma_attribute_lookup(
        prefix,
        nothing,
        Tag::PartyId,
        typed_as(kind),
        escaped(id),
        nothing,
        b,
        "type"@,
    );
    assert(escaped(id) + render(nothing) =~= escaped(id));
}

/// `eb:PartyInfo` as pieces.
#[verifier::opaque]
spec fn parties_pieces(prefix: Seq<char>, m: MessageView) -> Seq<Piece> {
    around(
        prefix,
        Tag::PartyInfo,
        around(prefix, Tag::From, party_content(prefix, m.party_type, m.from, INITIATOR@)) + around(
            prefix,
            Tag::To,
            party_content(prefix, m.party_type, m.to, RESPONDER@),
        ),
    )
}

proof fn lemma_roles()
    ensures
        no_tag(INITIATOR@),
        no_tag(RESPONDER@),
{
    reveal_strlit("http://docs.oasis-open.org/ebxml-msg/ebms/v3.0/ns/core/200704/initiator");
    reveal_strlit("http://docs.oasis-open.org/ebxml-msg/ebms/v3.0/ns/core/200704/responder");
}

proof fn lemma_parties(prefix: Seq<char>, m: MessageView)
    requires
        is_prefix(prefix),
    ensures
        writes(parties_pieces(prefix, m), party_info(prefix, m)),
        forall|s: Tag|
            s != Tag::PartyInfo && s != Tag::From && s != Tag::To && s != Tag::PartyId && s
                != Tag::Role ==> #[trigger] avoids(parties_pieces(prefix, m), name(s)),
{
    reveal(parties_pieces);
    lemma_roles();
    lemma_party_content(prefix, m.party_type, m.from, INITIATOR@);
    lemma_party_content(prefix, m.party_type, m.to, RESPONDER@);
    let from = party_content(prefix, m.party_type, m.from, INITIATOR@);
    let to = party_content(prefix, m.party_type, m.to, RESPONDER@);
    lemma_around(prefix, Tag::From, from, render(from));
    lemma_around(prefix, Tag::To, to, render(to));
    let a = around(prefix, Tag::From, from);
    let b = around(prefix, Tag::To, to);
    lemma_writes_append(a, render(a), b, render(b));
    lemma_around(prefix, Tag::PartyInfo, a + b, render(a) + render(b));
    assert forall|s: Tag|
        s != Tag::PartyInfo && s != Tag::From && s != Tag::To && s != Tag::PartyId && s
            != Tag::Role implies #[trigger] avoids(parties_pieces(prefix, m), name(s)) by {
        assert(avoids(from, name(s)));
        assert(avoids(to, name(s)));
        assert(avoids(a, name(s)));
        assert(avoids(b, name(s)));
        lemma_avoids_append(a, b, name(s));
    }
}

/// `eb:AgreementRef` as pieces, where there is an agreement.
#[verifier::opaque]
spec fn agreement_pieces(prefix: Seq<char>, agreement: Option<Seq<char>>) -> Seq<Piece> {
    match agreement {
        Some(a) => leaf(prefix, Tag::AgreementRef, Seq::empty(), escaped(a)),
        None => Seq::empty(),
    }
}

proof fn lemma_agreement(prefix: Seq<char>, agreement: Option<Seq<char>>)
    requires
        is_prefix(prefix),
    ensures
        writes(agreement_pieces(prefix, agreement), agreement_ref(prefix, agreement)),
        forall|s: Tag|
            s != Tag::AgreementRef ==> #[trigger] avoids(
                agreement_pieces(prefix, agreement),
                name(s),
            ),
{
    reveal(agreement_pieces);
    lemma_nothing();
    if let Some(a) = agreement {
        lemma_escaped_no_tag(a);
        lemma_leaf(prefix, Tag::AgreementRef, Seq::empty(), escaped(a));
    }
}

/// `eb:CollaborationInfo` as pieces.
#[verifier::opaque]
spec fn collaboration_pieces(prefix: Seq<char>, m: MessageView) -> Seq<Piece> {
    around(
        prefix,
        Tag::CollaborationInfo,
        agreement_pieces(prefix, m.agreement) + leaf(
            prefix,
            Tag::Service,
            typed_as(m.service_type),
            escaped(m.service),
        ) + leaf(prefix, Tag::Action, Seq::empty(), escaped(m.action)) + leaf(
            prefix,
            Tag::ConversationId,
            Seq::empty(),
            escaped(m.conversation_id),
        ),
    )
}

proof fn lemma_collaboration(prefix: Seq<char>, m: MessageView)
    requires
        is_prefix(prefix),
    ensures
        writes(collaboration_pieces(prefix, m), collaboration_info(prefix, m)),
        forall|s: Tag|
            s != Tag::CollaborationInfo && s != Tag::AgreementRef && s != Tag::Service && s
                != Tag::Action && s != Tag::ConversationId ==> #[trigger] avoids(
                collaboration_pieces(prefix, m),
                name(s),
            ),
        m.agreement is None ==> avoids(collaboration_pieces(prefix, m), name(Tag::AgreementRef)),
{
    reveal(collaboration_pieces);
    let none = Seq::<char>::empty();
    let a = agreement_pieces(prefix, m.agreement);
    let b = leaf(prefix, Tag::Service, typed_as(m.service_type), escaped(m.service));
    let c = leaf(prefix, Tag::Action, none, escaped(m.action));
    let d = leaf(prefix, Tag::ConversationId, none, escaped(m.conversation_id));
    reveal(agreement_pieces);
    lemma_nothing();
    lemma_agreement(prefix, m.agreement);
    lemma_typed(prefix, Tag::Service, m.service_type);
    lemma_escaped_no_tag(m.service);
    lemma_escaped_no_tag(m.action);
    lemma_escaped_no_tag(m.conversation_id);
    lemma_leaf(prefix, Tag::Service, typed_as(m.service_type), escaped(m.service));
    lemma_leaf(prefix, Tag::Action, none, escaped(m.action));
    lemma_leaf(prefix, Tag::ConversationId, none, escaped(m.conversation_id));
    lemma_writes_append(a, render(a), b, render(b));
    lemma_writes_append(a + b, render(a) + render(b), c, render(c));
    lemma_writes_append(a + b + c, render(a) + render(b) + render(c), d, render(d));
    lemma_around(
        prefix,
        Tag::CollaborationInfo,
        a + b + c + d,
        render(a) + render(b) + render(c) + render(d),
    );
    assert forall|s: Tag|
        s != Tag::CollaborationInfo && (s != Tag::AgreementRef || m.agreement is None) && s
            != Tag::Service && s != Tag::Action && s != Tag::ConversationId implies #[trigger] avoids(
        collaboration_pieces(prefix, m),
        name(s),
    ) by {
        assert(avoids(a, name(s)));
        assert(avoids(b, name(s)));
        assert(avoids(c, name(s)));
        assert(avoids(d, name(s)));
        lemma_avoids_append(a, b, name(s));
        lemma_avoids_append(a + b, c, name(s));
        lemma_avoids_append(a + b + c, d, name(s));
    }
}

/// The element `t` around `properties` as pieces, where there are any.
#[verifier::opaque]
spec fn listing_pieces(
    prefix: Seq<char>,
    t: Tag,
    properties: Seq<(Seq<char>, Seq<char>)>,
) -> Seq<Piece> {
    if properties.len() == 0 {
        Seq::empty()
    } else {
        around(prefix, t, property_pieces(prefix, properties))
    }
}

proof fn lemma_property_elements(prefix: Seq<char>, properties: Seq<(Seq<char>, Seq<char>)>)
    requires
        is_prefix(prefix),
    ensures
        writes(property_pieces(prefix, properties), property_elements_of(prefix, properties)),
    decreases properties.len(),
{
    lemma_property_pieces(prefix, properties);
    if properties.len() > 0 {
        let last = properties.last();
        reveal_strlit("name");
        lemma_property_elements(prefix, properties.drop_last());
        lemma_attributes("name"@, last.0);
        lemma_escaped_no_tag(last.1);
        lemma_leaf(prefix, Tag::Property, attributed("name"@, last.0), escaped(last.1));
        lemma_writes_append(
            property_pieces(prefix, properties.drop_last()),
            property_elements_of(prefix, properties.drop_last()),
            leaf(prefix, Tag::Property, attributed("name"@, last.0), escaped(last.1)),
            tagged(prefix, "Property"@, attributed("name"@, last.0), escaped(last.1)),
        );
    }
}

proof fn lemma_listing(prefix: Seq<char>, t: Tag, properties: Seq<(Seq<char>, Seq<char>)>)
    requires
        is_prefix(prefix),
    ensures
        writes(
            listing_pieces(prefix, t, properties),
            properties_under(prefix, name(t), properties),
        ),
        forall|s: Tag|
            apart(t, s) && s != Tag::Property ==> #[trigger] avoids(
                listing_pieces(prefix, t, properties),
                name(s),
            ),
        properties.len() == 0 ==> avoids(listing_pieces(prefix, t, properties), name(t)),
{
    reveal(listing_pieces);
    lemma_nothing();
    lemma_property_elements(prefix, properties);
    lemma_property_pieces(prefix, properties);
    lemma_around(
        prefix,
        t,
        property_pieces(prefix, properties),
        property_elements_of(prefix, properties),
    );
    assert forall|s: Tag| apart(t, s) && s != Tag::Property implies #[trigger] avoids(
        listing_pieces(prefix, t, properties),
        name(s),
    ) by {
        assert(avoids(property_pieces(prefix, properties), name(s)));
        assert(avoids(around(prefix, t, property_pieces(prefix, properties)), name(s)));
    }
}

/// `eb:PayloadInfo` as pieces.
#[verifier::opaque]
spec fn payload_pieces(prefix: Seq<char>, m: MessageView) -> Seq<Piece> {
    around(
        prefix,
        Tag::PayloadInfo,
        elem(
            prefix,
            Tag::PartInfo,
            payload_href(m.payload_cid),
            Seq::empty(),
            listing_pieces(prefix, Tag::PartProperties, m.payload_properties),
        ),
    )
}

/// The reference to the payload, as an attribute.
proof fn lemma_href(prefix: Seq<char>, cid: Seq<char>)
    requires
        is_prefix(prefix),
    ensures
        payload_href(cid) == attributed("href"@, "cid:"@ + cid),
        are_attributes(payload_href(cid)),
        value_in(prefix + name(Tag::PartInfo) + payload_href(cid), "href"@) == Ok::<
            Option<Seq<char>>,
            Refusal,
        >(Some("cid:"@ + cid)),
{
    reveal_strlit("cid:");
    reveal_strlit("href");
    reveal_strlit(" ");
    reveal_strlit("=\"");
    reveal_strlit(" href=\"cid:");
    let c = "cid:"@ + cid;
    lemma_escaped_cid(cid);
    assert(payload_href(cid) =~= attributed("href"@, c));
    lemma_only_value(prefix, Tag::PartInfo, "href"@, c);
}

/// Nothing of `cid:` is escaped.
proof fn lemma_escaped_cid(cid: Seq<char>)
    ensures
        escaped("cid:"@ + cid) == "cid:"@ + escaped(cid),
{
    reveal_strlit("cid:");
    let s = "cid:"@ + cid;
    let s1 = s.drop_first();
    let s2 = s1.drop_first();
    let s3 = s2.drop_first();
    assert(s[0] == 'c' && s1[0] == 'i' && s2[0] == 'd' && s3[0] == ':');
    assert(s3.drop_first() =~= cid);
    assert(escaped(s3) == escape_char(':') + escaped(cid));
    assert(escaped(s2) == escape_char('d') + escaped(s3));
    assert(escaped(s1) == escape_char('i') + escaped(s2));
    assert(escaped(s) == escape_char('c') + escaped(s1));
    assert(escaped(s) =~= "cid:"@ + escaped(cid));
}

proof fn lemma_payload(prefix: Seq<char>, m: MessageView)
    requires
        is_prefix(prefix),
    ensures
        writes(payload_pieces(prefix, m), payload_info(prefix, m)),
        forall|s: Tag|
            s != Tag::PayloadInfo && s != Tag::PartInfo && s != Tag::PartProperties && s
                != Tag::Property ==> #[trigger] avoids(payload_pieces(prefix, m), name(s)),
{
    reveal(payload_pieces);
    let none = Seq::<char>::empty();
    let listing = listing_pieces(prefix, Tag::PartProperties, m.payload_properties);
    let href = payload_href(m.payload_cid);
    lemma_listing(prefix, Tag::PartProperties, m.payload_properties);
    lemma_href(prefix, m.payload_cid);
    lemma_elem(prefix, Tag::PartInfo, href, none, listing);
    let part = elem(prefix, Tag::PartInfo, href, none, listing);
    assert(none + render(listing) =~= render(listing));
    lemma_around(prefix, Tag::PayloadInfo, part, render(part));
    assert forall|s: Tag|
        s != Tag::PayloadInfo && s != Tag::PartInfo && s != Tag::PartProperties && s
            != Tag::Property implies #[trigger] avoids(payload_pieces(prefix, m), name(s)) by {
        assert(avoids(listing, name(s)));
        assert(avoids(part, name(s)));
    }
}

/// What a `UserMessage` holds, as pieces.
pub closed spec fn user_pieces(prefix: Seq<char>, m: MessageView) -> Seq<Piece> {
    info_pieces(prefix, m) + parties_pieces(prefix, m) + collaboration_pieces(
        prefix,
        m,
    ) + listing_pieces(
        prefix,
        Tag::MessageProperties,
        m.properties,
    ) + payload_pieces(prefix, m)
}

/// What a `UserMessage` holds, as written.
#[verifier::opaque]
pub open spec fn user_content(prefix: Seq<char>, m: MessageView) -> Seq<char> {
    message_info(prefix, m) + party_info(prefix, m) + collaboration_info(
        prefix,
        m,
    ) + properties_under(
        prefix,
        "MessageProperties"@,
        m.properties,
    ) + payload_info(prefix, m)
}

/// A `UserMessage` is what it holds, tagged.
pub proof fn lemma_user_message(prefix: Seq<char>, m: MessageView)
    ensures
        user_message(prefix, m) == tagged(
            prefix,
            "UserMessage"@,
            Seq::empty(),
            user_content(prefix, m),
        ),
{
    reveal(crate::envelope::user_message);
    reveal(user_content);
}

/// The elements a `UserMessage` is written with.
pub open spec fn in_user_message(s: Tag) -> bool {
    match s {
        Tag::UserMessage
        | Tag::SignalMessage
        | Tag::RefToMessageId
        | Tag::Receipt
        | Tag::Error
        | Tag::Description
        | Tag::Messaging => false,
        _ => true,
    }
}

pub proof fn lemma_user(prefix: Seq<char>, m: MessageView)
    requires
        is_prefix(prefix),
    ensures
        flat(user_pieces(prefix, m)),
        render(user_pieces(prefix, m)) == user_content(prefix, m),
        forall|s: Tag| !in_user_message(s) ==> #[trigger] avoids(user_pieces(prefix, m), name(s)),
        m.agreement is None ==> avoids(user_pieces(prefix, m), name(Tag::AgreementRef)),
        m.properties.len() == 0 ==> avoids(user_pieces(prefix, m), name(Tag::MessageProperties)),
{
    reveal(user_content);
    let a = info_pieces(prefix, m);
    let b = parties_pieces(prefix, m);
    let c = collaboration_pieces(prefix, m);
    let d = listing_pieces(prefix, Tag::MessageProperties, m.properties);
    let e = payload_pieces(prefix, m);
    lemma_info(prefix, m);
    lemma_parties(prefix, m);
    lemma_collaboration(prefix, m);
    lemma_listing(prefix, Tag::MessageProperties, m.properties);
    lemma_payload(prefix, m);
    lemma_writes_append(a, render(a), b, render(b));
    lemma_writes_append(a + b, render(a) + render(b), c, render(c));
    lemma_writes_append(a + b + c, render(a) + render(b) + render(c), d, render(d));
    lemma_writes_append(
        a + b + c + d,
        render(a) + render(b) + render(c) + render(d),
        e,
        render(e),
    );
    assert forall|s: Tag|
        !in_user_message(s) || (s == Tag::AgreementRef && m.agreement is None) || (s
            == Tag::MessageProperties && m.properties.len() == 0) implies #[trigger] avoids(
        user_pieces(prefix, m),
        name(s),
    ) by {
        assert(avoids(a, name(s)));
        assert(avoids(b, name(s)));
        assert(avoids(c, name(s)));
        assert(avoids(d, name(s)));
        assert(avoids(e, name(s)));
        lemma_avoids_append(a, b, name(s));
        lemma_avoids_append(a + b, c, name(s));
        lemma_avoids_append(a + b + c, d, name(s));
        lemma_avoids_append(a + b + c + d, e, name(s));
    }
}

/// The parts of `MessageInfo` are flat, and each is itself only.
proof fn lemma_info_parts(prefix: Seq<char>, m: MessageView)
    requires
        is_prefix(prefix),
    ensures
        no_tag(escaped(m.timestamp)),
        no_tag(escaped(m.message_id)),
        flat(leaf(prefix, Tag::Timestamp, Seq::empty(), escaped(m.timestamp))),
        flat(leaf(prefix, Tag::MessageId, Seq::empty(), escaped(m.message_id))),
        avoids(
            leaf(prefix, Tag::Timestamp, Seq::empty(), escaped(m.timestamp)),
            name(Tag::MessageId),
        ),
{
    let none = Seq::<char>::empty();
    lemma_escaped_no_tag(m.timestamp);
    lemma_escaped_no_tag(m.message_id);
    lemma_leaf(prefix, Tag::Timestamp, none, escaped(m.timestamp));
    lemma_leaf(prefix, Tag::MessageId, none, escaped(m.message_id));
}

proof fn lemma_find_timestamp(prefix: Seq<char>, m: MessageView)
    requires
        is_prefix(prefix),
    ensures
        finds(user_content(prefix, m), "Timestamp"@, Some(escaped(m.timestamp))),
{
    reveal(info_pieces);
    let none = Seq::<char>::empty();
    let nothing = Seq::<Piece>::empty();
    let timestamp = leaf(prefix, Tag::Timestamp, none, escaped(m.timestamp));
    let id = leaf(prefix, Tag::MessageId, none, escaped(m.message_id));
    let post = parties_pieces(prefix, m) + (collaboration_pieces(prefix, m) + listing_pieces(
        prefix,
        Tag::MessageProperties,
        m.properties,
    ) + payload_pieces(prefix, m));
    assert(user_pieces(prefix, m) == nothing + around(
        prefix,
        Tag::MessageInfo,
        nothing + timestamp + id,
    )
        + post) by {
        assert(nothing + timestamp + id =~= timestamp + id);
        assert(user_pieces(prefix, m) =~= nothing + info_pieces(prefix, m) + post);
    }
    lemma_nothing();
    lemma_info_parts(prefix, m);
    lemma_user_parts(prefix, m);
    lemma_flat_append(
        parties_pieces(prefix, m),
        collaboration_pieces(prefix, m) + listing_pieces(
            prefix,
            Tag::MessageProperties,
            m.properties,
        )
            + payload_pieces(prefix, m),
    );
    lemma_inside(
        prefix,
        nothing,
        Tag::MessageInfo,
        nothing,
        Tag::Timestamp,
        none,
        escaped(m.timestamp),
        nothing,
        id,
        post,
        none,
    );
    lemma_user(prefix, m);
    lemma_text_only(escaped(m.timestamp));
}

proof fn lemma_find_message_id(prefix: Seq<char>, m: MessageView)
    requires
        is_prefix(prefix),
    ensures
        finds(user_content(prefix, m), "MessageId"@, Some(escaped(m.message_id))),
{
    reveal(info_pieces);
    let none = Seq::<char>::empty();
    let nothing = Seq::<Piece>::empty();
    let timestamp = leaf(prefix, Tag::Timestamp, none, escaped(m.timestamp));
    let id = leaf(prefix, Tag::MessageId, none, escaped(m.message_id));
    let post = parties_pieces(prefix, m) + (collaboration_pieces(prefix, m) + listing_pieces(
        prefix,
        Tag::MessageProperties,
        m.properties,
    ) + payload_pieces(prefix, m));
    assert(user_pieces(prefix, m) == nothing + around(
        prefix,
        Tag::MessageInfo,
        timestamp + id + nothing,
    )
        + post) by {
        assert(timestamp + id + nothing =~= timestamp + id);
        assert(user_pieces(prefix, m) =~= nothing + info_pieces(prefix, m) + post);
    }
    lemma_nothing();
    lemma_info_parts(prefix, m);
    lemma_user_parts(prefix, m);
    lemma_flat_append(
        parties_pieces(prefix, m),
        collaboration_pieces(prefix, m) + listing_pieces(
            prefix,
            Tag::MessageProperties,
            m.properties,
        )
            + payload_pieces(prefix, m),
    );
    lemma_inside(
        prefix,
        nothing,
        Tag::MessageInfo,
        timestamp,
        Tag::MessageId,
        none,
        escaped(m.message_id),
        nothing,
        nothing,
        post,
        none,
    );
    lemma_user(prefix, m);
    lemma_text_only(escaped(m.message_id));
}

/// The parts of a `UserMessage` are flat.
proof fn lemma_user_parts(prefix: Seq<char>, m: MessageView)
    requires
        is_prefix(prefix),
    ensures
        flat(info_pieces(prefix, m)),
        flat(info_pieces(prefix, m) + parties_pieces(prefix, m)),
        flat(parties_pieces(prefix, m)),
        flat(collaboration_pieces(prefix, m)),
        flat(listing_pieces(prefix, Tag::MessageProperties, m.properties)),
        flat(payload_pieces(prefix, m)),
        flat(listing_pieces(prefix, Tag::MessageProperties, m.properties) + payload_pieces(
            prefix,
            m,
        )),
        flat(
            collaboration_pieces(prefix, m) + listing_pieces(
                prefix,
                Tag::MessageProperties,
                m.properties,
            )
                + payload_pieces(prefix, m),
        ),
{
    let listing = listing_pieces(prefix, Tag::MessageProperties, m.properties);
    lemma_info(prefix, m);
    lemma_parties(prefix, m);
    lemma_collaboration(prefix, m);
    lemma_listing(prefix, Tag::MessageProperties, m.properties);
    lemma_payload(prefix, m);
    lemma_flat_append(info_pieces(prefix, m), parties_pieces(prefix, m));
    lemma_flat_append(listing, payload_pieces(prefix, m));
    lemma_flat_append(collaboration_pieces(prefix, m), listing);
    lemma_flat_append(collaboration_pieces(prefix, m) + listing, payload_pieces(prefix, m));
}

proof fn lemma_find_from(prefix: Seq<char>, m: MessageView)
    requires
        is_prefix(prefix),
    ensures
        finds(
            user_content(prefix, m),
            "From"@,
            Some(render(party_content(prefix, m.party_type, m.from, INITIATOR@))),
        ),
{
    reveal(parties_pieces);
    lemma_nothing();
    let none = Seq::<char>::empty();
    let nothing = Seq::<Piece>::empty();
    let from = party_content(prefix, m.party_type, m.from, INITIATOR@);
    let to = party_content(prefix, m.party_type, m.to, RESPONDER@);
    let f = around(prefix, Tag::From, from);
    let t = around(prefix, Tag::To, to);
    let pre = info_pieces(prefix, m);
    let post = collaboration_pieces(prefix, m) + listing_pieces(
        prefix,
        Tag::MessageProperties,
        m.properties,
    )
        + payload_pieces(prefix, m);
    assert(user_pieces(prefix, m) == pre + around(
        prefix,
        Tag::PartyInfo,
        nothing + f + t,
    ) + post) by {
        assert(nothing + f + t =~= f + t);
        assert(user_pieces(prefix, m) =~= pre + parties_pieces(prefix, m) + post);
    }
    assert(flat(from) && flat(t) && avoids(from, name(Tag::From))) by {
        lemma_roles();
        lemma_party_content(prefix, m.party_type, m.from, INITIATOR@);
        lemma_party_content(prefix, m.party_type, m.to, RESPONDER@);
        lemma_around(prefix, Tag::To, to, render(to));
    }
    assert(avoids(pre, name(Tag::From))) by {
        lemma_info(prefix, m);
    }
    lemma_user_parts(prefix, m);
    assert(avoids(nothing, name(Tag::From)));
    lemma_inside(prefix, pre, Tag::PartyInfo, nothing, Tag::From, none, none, from, t, post,
        none,
    );
    lemma_user(prefix, m);
    lemma_text_only(render(from));
}

proof fn lemma_find_to(prefix: Seq<char>, m: MessageView)
    requires
        is_prefix(prefix),
    ensures
        finds(
            user_content(prefix, m),
            "To"@,
            Some(render(party_content(prefix, m.party_type, m.to, RESPONDER@))),
        ),
{
    reveal(parties_pieces);
    lemma_nothing();
    let none = Seq::<char>::empty();
    let nothing = Seq::<Piece>::empty();
    let from = party_content(prefix, m.party_type, m.from, INITIATOR@);
    let to = party_content(prefix, m.party_type, m.to, RESPONDER@);
    let f = around(prefix, Tag::From, from);
    let t = around(prefix, Tag::To, to);
    let pre = info_pieces(prefix, m);
    let post = collaboration_pieces(prefix, m) + listing_pieces(
        prefix,
        Tag::MessageProperties,
        m.properties,
    )
        + payload_pieces(prefix, m);
    assert(user_pieces(prefix, m) == pre + around(
        prefix,
        Tag::PartyInfo,
        f + t + nothing,
    ) + post) by {
        assert(f + t + nothing =~= f + t);
        assert(user_pieces(prefix, m) =~= pre + parties_pieces(prefix, m) + post);
    }
    assert(flat(f) && flat(to) && avoids(f, name(Tag::To)) && avoids(to, name(Tag::To))) by {
        lemma_roles();
        lemma_party_content(prefix, m.party_type, m.from, INITIATOR@);
        lemma_party_content(prefix, m.party_type, m.to, RESPONDER@);
        lemma_around(prefix, Tag::From, from, render(from));
        assert(avoids(from, name(Tag::To)));
    }
    assert(avoids(pre, name(Tag::To))) by {
        lemma_info(prefix, m);
    }
    lemma_user_parts(prefix, m);
    lemma_inside(prefix, pre, Tag::PartyInfo, f, Tag::To, none, none, to, nothing, post,
        none,
    );
    lemma_user(prefix, m);
    lemma_text_only(render(to));
}

/// What stands before `CollaborationInfo` holds nothing of it.
proof fn lemma_before_collaboration(prefix: Seq<char>, m: MessageView, t: Tag)
    requires
        is_prefix(prefix),
        t == Tag::AgreementRef || t == Tag::Service || t == Tag::Action || t == Tag::ConversationId,
    ensures
        avoids(info_pieces(prefix, m) + parties_pieces(prefix, m), name(t)),
{
    lemma_info(prefix, m);
    lemma_parties(prefix, m);
    lemma_avoids_append(info_pieces(prefix, m), parties_pieces(prefix, m), name(t));
}

/// The parts of `CollaborationInfo` are flat, and each is itself only.
proof fn lemma_collaboration_parts(prefix: Seq<char>, m: MessageView)
    requires
        is_prefix(prefix),
    ensures
        flat(agreement_pieces(prefix, m.agreement)),
        are_attributes(typed_as(m.service_type)),
        no_tag(escaped(m.service)),
        no_tag(escaped(m.action)),
        no_tag(escaped(m.conversation_id)),
        flat(leaf(prefix, Tag::Service, typed_as(m.service_type), escaped(m.service))),
        flat(leaf(prefix, Tag::Action, Seq::empty(), escaped(m.action))),
        flat(leaf(prefix, Tag::ConversationId, Seq::empty(), escaped(m.conversation_id))),
        avoids(agreement_pieces(prefix, m.agreement), name(Tag::Service)),
        avoids(agreement_pieces(prefix, m.agreement), name(Tag::Action)),
        avoids(agreement_pieces(prefix, m.agreement), name(Tag::ConversationId)),
        avoids(
            leaf(prefix, Tag::Service, typed_as(m.service_type), escaped(m.service)),
            name(Tag::Action),
        ),
        avoids(
            leaf(prefix, Tag::Service, typed_as(m.service_type), escaped(m.service)),
            name(Tag::ConversationId),
        ),
        avoids(
            leaf(prefix, Tag::Action, Seq::empty(), escaped(m.action)),
            name(Tag::ConversationId),
        ),
{
    let none = Seq::<char>::empty();
    lemma_agreement(prefix, m.agreement);
    lemma_typed(prefix, Tag::Service, m.service_type);
    lemma_escaped_no_tag(m.service);
    lemma_escaped_no_tag(m.action);
    lemma_escaped_no_tag(m.conversation_id);
    lemma_leaf(prefix, Tag::Service, typed_as(m.service_type), escaped(m.service));
    lemma_leaf(prefix, Tag::Action, none, escaped(m.action));
    lemma_leaf(prefix, Tag::ConversationId, none, escaped(m.conversation_id));
}

proof fn lemma_find_service(prefix: Seq<char>, m: MessageView)
    requires
        is_prefix(prefix),
    ensures
        finds(user_content(prefix, m), "Service"@, Some(escaped(m.service))),
        shows(user_content(prefix, m), "Service"@, "type"@, Ok(m.service_type)),
{
    reveal(collaboration_pieces);
    lemma_nothing();
    let none = Seq::<char>::empty();
    let nothing = Seq::<Piece>::empty();
    let a = agreement_pieces(prefix, m.agreement);
    let b = leaf(prefix, Tag::Service, typed_as(m.service_type), escaped(m.service));
    let c = leaf(prefix, Tag::Action, none, escaped(m.action));
    let d = leaf(prefix, Tag::ConversationId, none, escaped(m.conversation_id));
    let pre = info_pieces(prefix, m) + parties_pieces(prefix, m);
    let post = listing_pieces(prefix, Tag::MessageProperties, m.properties) + payload_pieces(
        prefix,
        m,
    );
    assert(user_pieces(prefix, m) == pre + around(
        prefix,
        Tag::CollaborationInfo,
        a + b + (c + d),
    ) + post) by {
        assert(a + b + (c + d) =~= a + b + c + d);
        assert(user_pieces(prefix, m) =~= pre + collaboration_pieces(prefix, m) + post);
    }
    lemma_collaboration_parts(prefix, m);
    lemma_flat_append(c, d);
    lemma_user_parts(prefix, m);
    lemma_before_collaboration(prefix, m, Tag::Service);
    assert(avoids(nothing, name(Tag::Service)));
    lemma_inside(
        prefix,
        pre,
        Tag::CollaborationInfo,
        a,
        Tag::Service,
        typed_as(m.service_type),
        escaped(m.service),
        nothing,
        c + d, post,
        "type"@,
    );
    lemma_user(prefix, m);
    lemma_text_only(escaped(m.service));
    lemma_typed(prefix, Tag::Service, m.service_type);
}

proof fn lemma_find_action(prefix: Seq<char>, m: MessageView)
    requires
        is_prefix(prefix),
    ensures
        finds(user_content(prefix, m), "Action"@, Some(escaped(m.action))),
{
    reveal(collaboration_pieces);
    lemma_nothing();
    let none = Seq::<char>::empty();
    let nothing = Seq::<Piece>::empty();
    let a = agreement_pieces(prefix, m.agreement);
    let b = leaf(prefix, Tag::Service, typed_as(m.service_type), escaped(m.service));
    let c = leaf(prefix, Tag::Action, none, escaped(m.action));
    let d = leaf(prefix, Tag::ConversationId, none, escaped(m.conversation_id));
    let pre = info_pieces(prefix, m) + parties_pieces(prefix, m);
    let post = listing_pieces(prefix, Tag::MessageProperties, m.properties) + payload_pieces(
        prefix,
        m,
    );
    assert(user_pieces(prefix, m) == pre + around(
        prefix,
        Tag::CollaborationInfo,
        (a + b) + c + d,
    ) + post) by {
        assert(user_pieces(prefix, m) =~= pre + collaboration_pieces(prefix, m) + post);
    }
    lemma_collaboration_parts(prefix, m);
    lemma_flat_append(a, b);
    lemma_avoids_append(a, b, name(Tag::Action));
    lemma_user_parts(prefix, m);
    lemma_before_collaboration(prefix, m, Tag::Action);
    assert(avoids(nothing, name(Tag::Action)));
    lemma_inside(
        prefix,
        pre,
        Tag::CollaborationInfo,
        a + b,
        Tag::Action,
        none,
        escaped(m.action),
        nothing,
        d, post,
        none,
    );
    lemma_user(prefix, m);
    lemma_text_only(escaped(m.action));
}

proof fn lemma_find_conversation(prefix: Seq<char>, m: MessageView)
    requires
        is_prefix(prefix),
    ensures
        finds(user_content(prefix, m), "ConversationId"@, Some(escaped(m.conversation_id))),
{
    reveal(collaboration_pieces);
    lemma_nothing();
    let none = Seq::<char>::empty();
    let nothing = Seq::<Piece>::empty();
    let a = agreement_pieces(prefix, m.agreement);
    let b = leaf(prefix, Tag::Service, typed_as(m.service_type), escaped(m.service));
    let c = leaf(prefix, Tag::Action, none, escaped(m.action));
    let d = leaf(prefix, Tag::ConversationId, none, escaped(m.conversation_id));
    let pre = info_pieces(prefix, m) + parties_pieces(prefix, m);
    let post = listing_pieces(prefix, Tag::MessageProperties, m.properties) + payload_pieces(
        prefix,
        m,
    );
    assert(user_pieces(prefix, m) == pre + around(
        prefix,
        Tag::CollaborationInfo,
        (a + b + c) + d + nothing,
    )
        + post) by {
        assert((a + b + c) + d + nothing =~= a + b + c + d);
        assert(user_pieces(prefix, m) =~= pre + collaboration_pieces(prefix, m) + post);
    }
    lemma_collaboration_parts(prefix, m);
    lemma_flat_append(a, b);
    lemma_flat_append(a + b, c);
    lemma_avoids_append(a, b, name(Tag::ConversationId));
    lemma_avoids_append(a + b, c, name(Tag::ConversationId));
    lemma_user_parts(prefix, m);
    lemma_before_collaboration(prefix, m, Tag::ConversationId);
    assert(avoids(nothing, name(Tag::ConversationId)));
    lemma_inside(
        prefix,
        pre,
        Tag::CollaborationInfo,
        a + b + c,
        Tag::ConversationId,
        none,
        escaped(m.conversation_id),
        nothing,
        nothing, post,
        none,
    );
    lemma_user(prefix, m);
    lemma_text_only(escaped(m.conversation_id));
}

proof fn lemma_find_agreement(prefix: Seq<char>, m: MessageView)
    requires
        is_prefix(prefix),
    ensures
        finds(
            user_content(prefix, m),
            "AgreementRef"@,
            match m.agreement {
                Some(a) => Some(escaped(a)),
                None => None,
            },
        ),
{
    match m.agreement {
        None => {
            lemma_user(prefix, m);
            lemma_absent(user_pieces(prefix, m), Tag::AgreementRef);
        },
        Some(agreement) => lemma_find_some_agreement(prefix, m, agreement),
    }
}

proof fn lemma_find_some_agreement(prefix: Seq<char>, m: MessageView, agreement: Seq<char>)
    requires
        is_prefix(prefix),
        m.agreement == Some(agreement),
    ensures
        finds(user_content(prefix, m), "AgreementRef"@, Some(escaped(agreement))),
{
    reveal(collaboration_pieces);
    reveal(agreement_pieces);
    let none = Seq::<char>::empty();
    let nothing = Seq::<Piece>::empty();
    let a = leaf(prefix, Tag::AgreementRef, none, escaped(agreement));
    let b = leaf(prefix, Tag::Service, typed_as(m.service_type), escaped(m.service));
    let c = leaf(prefix, Tag::Action, none, escaped(m.action));
    let d = leaf(prefix, Tag::ConversationId, none, escaped(m.conversation_id));
    let pre = info_pieces(prefix, m) + parties_pieces(prefix, m);
    let post = listing_pieces(prefix, Tag::MessageProperties, m.properties) + payload_pieces(
        prefix,
        m,
    );
    assert(user_pieces(prefix, m) == pre + around(
        prefix,
        Tag::CollaborationInfo,
        nothing + a + (b + c + d),
    )
        + post) by {
        assert(nothing + a + (b + c + d) =~= a + b + c + d);
        assert(user_pieces(prefix, m) =~= pre + collaboration_pieces(prefix, m) + post);
    }
    lemma_nothing();
    lemma_escaped_no_tag(agreement);
    lemma_collaboration_parts(prefix, m);
    lemma_flat_append(b, c);
    lemma_flat_append(b + c, d);
    lemma_user_parts(prefix, m);
    lemma_before_collaboration(prefix, m, Tag::AgreementRef);
    lemma_inside(
        prefix,
        pre,
        Tag::CollaborationInfo,
        nothing,
        Tag::AgreementRef,
        none,
        escaped(agreement),
        nothing,
        b + c + d,
        post,
        none,
    );
    lemma_user(prefix, m);
    lemma_text_only(escaped(agreement));
}

proof fn lemma_find_properties(prefix: Seq<char>, m: MessageView)
    requires
        is_prefix(prefix),
    ensures
        finds(
            user_content(prefix, m),
            "MessageProperties"@,
            if m.properties.len() == 0 {
                None
            } else {
                Some(render(property_pieces(prefix, m.properties)))
            },
        ),
{
    reveal(listing_pieces);
    lemma_nothing();
    let none = Seq::<char>::empty();
    let nothing = Seq::<Piece>::empty();
    lemma_user(prefix, m);
    if m.properties.len() == 0 {
        lemma_absent(user_pieces(prefix, m), Tag::MessageProperties);
    } else {
        let inner = property_pieces(prefix, m.properties);
        let before = info_pieces(prefix, m) + parties_pieces(prefix, m) + collaboration_pieces(
            prefix,
            m,
        );
        let after = payload_pieces(prefix, m);
        lemma_info(prefix, m);
        lemma_parties(prefix, m);
        lemma_collaboration(prefix, m);
        lemma_payload(prefix, m);
        lemma_property_pieces(prefix, m.properties);
        lemma_flat_append(info_pieces(prefix, m), parties_pieces(prefix, m));
        lemma_flat_append(
            info_pieces(prefix, m) + parties_pieces(prefix, m),
            collaboration_pieces(prefix, m),
        );
        lemma_avoids_append(
            info_pieces(prefix, m),
            parties_pieces(prefix, m),
            name(Tag::MessageProperties),
        );
        lemma_avoids_append(
            info_pieces(prefix, m) + parties_pieces(prefix, m),
            collaboration_pieces(prefix, m),
            name(Tag::MessageProperties),
        );
        assert(avoids(inner, name(Tag::MessageProperties)));
        lemma_lookup(prefix, before, Tag::MessageProperties, none, none, inner, after);
        lemma_text_only(render(inner));
    }
}

/// What stands before `PayloadInfo` holds nothing of it.
proof fn lemma_before_payload(prefix: Seq<char>, m: MessageView)
    requires
        is_prefix(prefix),
    ensures
        flat(
            info_pieces(prefix, m) + parties_pieces(prefix, m) + collaboration_pieces(
                prefix,
                m,
            ) + listing_pieces(
                prefix,
                Tag::MessageProperties,
                m.properties,
            ),
        ),
        avoids(
            info_pieces(prefix, m) + parties_pieces(prefix, m) + collaboration_pieces(
                prefix,
                m,
            ) + listing_pieces(
                prefix,
                Tag::MessageProperties,
                m.properties,
            ),
            name(Tag::PartInfo),
        ),
{
    let a = info_pieces(prefix, m);
    let b = parties_pieces(prefix, m);
    let c = collaboration_pieces(prefix, m);
    let d = listing_pieces(prefix, Tag::MessageProperties, m.properties);
    let t = name(Tag::PartInfo);
    lemma_info(prefix, m);
    lemma_parties(prefix, m);
    lemma_collaboration(prefix, m);
    lemma_listing(prefix, Tag::MessageProperties, m.properties);
    lemma_flat_append(a, b);
    lemma_flat_append(a + b, c);
    lemma_flat_append(a + b + c, d);
    assert(avoids(a, t));
    assert(avoids(b, t));
    assert(avoids(c, t));
    assert(avoids(d, t));
    lemma_avoids_append(a, b, t);
    lemma_avoids_append(a + b, c, t);
    lemma_avoids_append(a + b + c, d, t);
}

proof fn lemma_find_payload(prefix: Seq<char>, m: MessageView)
    requires
        is_prefix(prefix),
    ensures
        shows(user_content(prefix, m), "PartInfo"@, "href"@, Ok(Some("cid:"@ + m.payload_cid))),
        finds(
            user_content(prefix, m),
            "PartInfo"@,
            Some(render(listing_pieces(prefix, Tag::PartProperties, m.payload_properties))),
        ),
{
    reveal(payload_pieces);
    lemma_nothing();
    let none = Seq::<char>::empty();
    let nothing = Seq::<Piece>::empty();
    let listing = listing_pieces(prefix, Tag::PartProperties, m.payload_properties);
    let href = payload_href(m.payload_cid);
    let pre = info_pieces(prefix, m) + parties_pieces(prefix, m) + collaboration_pieces(
        prefix,
        m,
    ) + listing_pieces(
        prefix,
        Tag::MessageProperties,
        m.properties,
    );
    let part = elem(prefix, Tag::PartInfo, href, none, listing);
    assert(user_pieces(prefix, m) == pre + around(
        prefix,
        Tag::PayloadInfo,
        nothing + part + nothing,
    ) + nothing) by {
        assert(nothing + part + nothing =~= part);
        assert(user_pieces(prefix, m) =~= pre + payload_pieces(prefix, m) + nothing);
    }
    lemma_before_payload(prefix, m);
    assert(flat(listing) && avoids(listing, name(Tag::PartInfo))) by {
        lemma_listing(prefix, Tag::PartProperties, m.payload_properties);
    }
    lemma_href(prefix, m.payload_cid);
    assert(avoids(nothing, name(Tag::PartInfo)));
    lemma_inside(
        prefix,
        pre,
        Tag::PayloadInfo,
        nothing,
        Tag::PartInfo,
        href,
        none,
        listing,
        nothing,
        nothing,
        "href"@,
    );
    lemma_user(prefix, m);
    lemma_text_only(render(listing));
}

/// A tag that is no property is passed over.
proof fn lemma_lists_skip(
    pieces: Seq<Piece>,
    properties: Result<Seq<(Seq<char>, Seq<char>)>, Refusal>,
)
    requires
        pieces.len() > 0,
        flat(pieces),
        !opens(pieces[0].tag, "Property"@),
        lists(render(pieces.drop_first()), properties),
    ensures
        lists(render(pieces), properties),
{
    reveal(crate::document::lists);
    lemma_properties_skip(pieces);
}

/// Properties that nothing more follows are read back.
proof fn lemma_lists_properties(
    prefix: Seq<char>,
    properties: Seq<(Seq<char>, Seq<char>)>, after: Seq<Piece>,
)
    requires
        is_prefix(prefix),
        flat(after),
        lists(render(after), Ok(Seq::empty())),
    ensures
        lists(render(property_pieces(prefix, properties) + after), Ok(properties)),
{
    reveal(crate::document::lists);
    lemma_properties_read_back(prefix, properties, after);
    assert(properties + Seq::<(Seq<char>, Seq<char>)>::empty() =~= properties);
}

/// No tag, no property.
proof fn lemma_lists_nothing()
    ensures
        lists(render(Seq::<Piece>::empty()), Ok(Seq::empty())),
{
    reveal(crate::document::lists);
    lemma_nothing();
    lemma_read_pieces(Seq::empty());
}

/// Properties are read back where nothing follows them.
proof fn lemma_properties_alone(prefix: Seq<char>, properties: Seq<(Seq<char>, Seq<char>)>)
    requires
        is_prefix(prefix),
    ensures
        lists(render(property_pieces(prefix, properties)), Ok(properties)),
{
    let nothing = Seq::<Piece>::empty();
    lemma_nothing();
    lemma_lists_nothing();
    lemma_lists_properties(prefix, properties, nothing);
    assert(property_pieces(prefix, properties) + nothing =~= property_pieces(prefix, properties));
}

/// Properties under an element are read back.
proof fn lemma_listing_read_back(prefix: Seq<char>, t: Tag, properties: Seq<(Seq<char>, Seq<char>)>)
    requires
        is_prefix(prefix),
        apart(t, Tag::Property),
    ensures
        lists(render(listing_pieces(prefix, t, properties)), Ok(properties)),
{
    let none = Seq::<char>::empty();
    let nothing = Seq::<Piece>::empty();
    let all = listing_pieces(prefix, t, properties);
    lemma_lists_nothing();
    if properties.len() == 0 {
        assert(properties =~= Seq::<(Seq<char>, Seq<char>)>::empty());
        assert(all == nothing) by {
            reveal(listing_pieces);
        }
    } else {
        let q = seq![close(prefix, t)];
        lemma_listing(prefix, t, properties);
        lemma_open(prefix, t, none, none);
        lemma_close(prefix, t);
        assert(!opens(close(prefix, t).tag, name(Tag::Property)));
        assert(flat(q)) by {
            reveal(crate::flat::flat);
        }
        assert(q.drop_first() =~= nothing);
        lemma_lists_skip(q, Ok(Seq::empty()));
        lemma_lists_properties(prefix, properties, q);
        assert(all[0] == open(prefix, t, none, none) && all.drop_first() =~= property_pieces(
            prefix,
            properties,
        )
            + q) by {
            reveal(listing_pieces);
            reveal(crate::document::elem);
        }
        assert(stranger(open(prefix, t, none, none), name(Tag::Property)));
        lemma_lists_skip(all, Ok(properties));
    }
}

/// The tags an envelope begins with, before its header's own.
spec fn prolog(prefix: Seq<char>) -> Seq<Piece> {
    let none = Seq::<char>::empty();
    seq![
        Piece { tag: "?xml version=\"1.0\" encoding=\"UTF-8\"?"@, text: none },
        Piece {
            tag: "S12:Envelope xmlns:S12=\""@ + SOAP@ + "\""@ + declared(prefix),
            text: none,
        },
        Piece { tag: "S12:Header"@, text: none },
    ]
}

/// The tags an envelope ends with, after its header's own.
spec fn epilog() -> Seq<Piece> {
    let none = Seq::<char>::empty();
    seq![
        Piece { tag: "/S12:Header"@, text: none },
        Piece { tag: "S12:Body/"@, text: none },
        Piece { tag: "/S12:Envelope"@, text: none },
    ]
}

/// The attribute of the header.
spec fn understood() -> Seq<char> {
    " S12:mustUnderstand=\"true\""@
}

/// The declaration an envelope begins with is whole, and no element.
proof fn lemma_declaration(prefix: Seq<char>)
    ensures
        whole(prolog(prefix)[0].tag),
        begins(prolog(prefix)[0].tag, '?'),
{
    let tag = prolog(prefix)[0].tag;
    reveal(crate::flat::whole);
    reveal_strlit("?xml version=\"1.0\" encoding=\"UTF-8\"?");
    reveal_strlit("!--");
    reveal_strlit("![CDATA[");
    reveal_strlit("?");
    reveal_strlit("?>");
    assert forall|rest: Seq<char>| #[trigger]
        markup_end(tag + (seq!['>'] + rest)) == Some(tag.len() as int) by {
        let s = tag + (seq!['>'] + rest);
        let n = tag.len() as int;
        assert(s[0] == '?');
        if starts_with(s, "!--"@) {
            assert(s.subrange(0, 3)[0] == s[0]);
        }
        if starts_with(s, "![CDATA["@) {
            assert(s.subrange(0, 8)[0] == s[0]);
        }
        assert(s.subrange(0, 1) =~= "?"@);
        let t = s.skip(1);
        assert(t.subrange(n - 2, n) =~= "?>"@);
        assert forall|j: int| 0 <= j < n - 2 implies !#[trigger] occurs_at(t, "?>"@, j) by {
            if occurs_at(t, "?>"@, j) {
                assert(t.subrange(j, j + 2)[0] == t[j]);
                assert(t[j] == tag[j + 1]);
            }
        }
        lemma_find_word(t, "?>"@, n - 2);
    }
}

/// A declaration is what may stand in a tag after the name.
proof fn lemma_declared(prefix: Seq<char>)
    requires
        is_prefix(prefix),
    ensures
        are_attributes(declared(prefix)),
{
    reveal_strlit(" xmlns=\"");
    reveal_strlit(" xmlns:");
    reveal_strlit("=\"");
    reveal_strlit("http://docs.oasis-open.org/ebxml-msg/ebms/v3.0/ns/core/200704/");
    reveal_strlit("\"");
    let bare = prefix.drop_last();
    let head = if prefix.len() == 0 {
        seq![' ', 'x', 'm', 'l', 'n', 's', '=']
    } else {
        " xmlns:"@ + bare + seq!['=']
    };
    if prefix.len() > 0 {
        assert forall|i: int| 0 <= i < head.len() implies #[trigger] head[i] != '>' && head[i] != '<'
            && !is_quote(head[i]) by {
            if 7 <= i < 7 + bare.len() {
                assert(head[i] == bare[i - 7]);
                assert(!is_mark(bare[i - 7]));
            }
        }
    }
    lemma_literal_attribute(head, EBMS@);
    assert(declared(prefix) =~= head + (seq!['"'] + EBMS@ + seq!['"']));
}

/// The attributes of the envelope.
proof fn lemma_envelope_attributes(prefix: Seq<char>) -> (attributes: Seq<char>)
    requires
        is_prefix(prefix),
    ensures
        are_attributes(attributes),
        attributes.len() > 0,
        prolog(prefix)[1].tag == "S12:"@ + "Envelope"@ + attributes,
{
    reveal_strlit("S12:Envelope xmlns:S12=\"");
    reveal_strlit("http://www.w3.org/2003/05/soap-envelope");
    reveal_strlit("\"");
    reveal_strlit("S12:");
    reveal_strlit("Envelope");
    reveal_strlit(" xmlns:S12=");
    lemma_declared(prefix);
    let soap = " xmlns:S12="@ + (seq!['"'] + SOAP@ + seq!['"']);
    lemma_literal_attribute(" xmlns:S12="@, SOAP@);
    lemma_even_append(soap, declared(prefix));
    let attributes = soap + declared(prefix);
    assert(prolog(prefix)[1].tag =~= "S12:"@ + "Envelope"@ + attributes);
    assert(declared(prefix).len() > 0) by {
        reveal_strlit("\"");
    }
    assert(attributes.last() == declared(prefix).last());
    attributes
}

/// A tag of the SOAP namespace opens what it names, and is whole.
proof fn lemma_soap_tag(n: Seq<char>, attributes: Seq<char>)
    requires
        unmarked(n),
        n.len() > 0,
        are_attributes(attributes),
    ensures
        local_name_of("S12:"@ + n + attributes) == n,
        whole("S12:"@ + n + attributes),
        !begins("S12:"@ + n + attributes, '/'),
{
    reveal_strlit("S12:");
    assert(is_prefix("S12:"@)) by {
        assert("S12:"@.drop_last() =~= seq!['S', '1', '2']);
    }
    lemma_qualified("S12:"@, n);
    lemma_local("S12:"@, n, attributes);
    lemma_begins("S12:"@, n, attributes, '/');
    lemma_begins("S12:"@, n, attributes, '!');
    lemma_begins("S12:"@, n, attributes, '?');
    if attributes.len() == 0 {
        lemma_even_plain(attributes);
    }
    lemma_even_append("S12:"@ + n, attributes);
    lemma_whole("S12:"@ + n + attributes);
}

proof fn lemma_prolog(prefix: Seq<char>)
    requires
        is_prefix(prefix),
    ensures
        flat(prolog(prefix)),
        avoids(prolog(prefix), name(Tag::UserMessage)),
        avoids(prolog(prefix), name(Tag::SignalMessage)),
{
    let none = Seq::<char>::empty();
    reveal(crate::flat::flat);
    reveal(crate::flat::avoids);
    lemma_declaration(prefix);
    lemma_nothing();
    reveal_strlit("Envelope");
    reveal_strlit("Header");
    reveal_strlit("UserMessage");
    reveal_strlit("SignalMessage");
    reveal_strlit("S12:");
    reveal_strlit("S12:Header");
    let attributes = lemma_envelope_attributes(prefix);
    lemma_soap_tag("Envelope"@, attributes);
    lemma_soap_tag("Header"@, none);
    assert(prolog(prefix)[2].tag =~= "S12:"@ + "Header"@ + none);
}

proof fn lemma_epilog()
    ensures
        flat(epilog()),
{
    reveal(crate::flat::flat);
    reveal_strlit("/S12:Header");
    reveal_strlit("S12:Body/");
    reveal_strlit("/S12:Envelope");
    lemma_even_plain("/S12:Header"@);
    lemma_even_plain("S12:Body/"@);
    lemma_even_plain("/S12:Envelope"@);
    lemma_whole("/S12:Header"@);
    lemma_whole("S12:Body/"@);
    lemma_whole("/S12:Envelope"@);
}

/// An envelope as pieces.
#[verifier::rlimit(30)]
proof fn lemma_wrapped(prefix: Seq<char>, inner: Seq<Piece>)
    requires
        is_prefix(prefix),
        flat(inner),
    ensures
        wrapped(prefix, render(inner)) == render(
            prolog(prefix) + elem(
                prefix,
                Tag::Messaging,
                understood(),
                Seq::empty(),
                inner,
            ) + epilog(),
        ),
        are_attributes(understood()),
{
    let none = Seq::<char>::empty();
    let nothing = Seq::<Piece>::empty();
    reveal_strlit(" S12:mustUnderstand=\"true\"");
    reveal_strlit(" S12:mustUnderstand=");
    reveal_strlit("true");
    lemma_literal_attribute(" S12:mustUnderstand="@, "true"@);
    assert(understood() =~= " S12:mustUnderstand="@ + (seq!['"'] + "true"@ + seq!['"']));
    lemma_elem(prefix, Tag::Messaging, understood(), none, inner);
    let header = elem(prefix, Tag::Messaging, understood(), none, inner);
    lemma_render_append(prolog(prefix), header);
    lemma_render_append(prolog(prefix) + header, epilog());
    lemma_text_only(render(inner));
    lemma_rendered_prolog(prefix);
    lemma_rendered_epilog();
    reveal(crate::envelope::wrapped);
    assert(wrapped(
        prefix,
        render(inner),
    ) =~= render(prolog(prefix)) + render(header) + render(epilog()));
}

proof fn lemma_rendered_prolog(prefix: Seq<char>)
    requires
        is_prefix(prefix),
    ensures
        render(prolog(prefix)) == "<?xml version=\"1.0\" encoding=\"UTF-8\"?>"@ + (
        "<S12:Envelope xmlns:S12=\""@ + SOAP@ + "\""@ + declared(prefix) + ">"@) + "<S12:Header>"@,
{
    let p = prolog(prefix);
    let p1 = p.drop_first();
    let p2 = p1.drop_first();
    let p3 = p2.drop_first();
    assert(p1[0] == p[1]);
    assert(p2[0] == p[2]);
    assert(p3 =~= Seq::<Piece>::empty());
    let none = Seq::<char>::empty();
    assert(render(p3) =~= none);
    reveal_strlit("<?xml version=\"1.0\" encoding=\"UTF-8\"?>");
    reveal_strlit("?xml version=\"1.0\" encoding=\"UTF-8\"?");
    reveal_strlit("<S12:Envelope xmlns:S12=\"");
    reveal_strlit("S12:Envelope xmlns:S12=\"");
    reveal_strlit(">");
    reveal_strlit("<S12:Header>");
    reveal_strlit("S12:Header");
    assert("<?xml version=\"1.0\" encoding=\"UTF-8\"?>"@ =~= seq!['<'] + p[0].tag + seq!['>']);
    assert("<S12:Envelope xmlns:S12=\""@ =~= seq!['<'] + "S12:Envelope xmlns:S12=\""@);
    assert(">"@ =~= seq!['>']);
    assert("<S12:Header>"@ =~= seq!['<'] + p[2].tag + seq!['>']);
    assert(render(p2) =~= "<S12:Header>"@);
    assert(render(p1) =~= seq!['<'] + p[1].tag + seq!['>'] + "<S12:Header>"@);
}

proof fn lemma_rendered_epilog()
    ensures
        render(epilog()) == "</S12:Header>"@ + "<S12:Body/>"@ + "</S12:Envelope>"@,
{
    let p = epilog();
    let p1 = p.drop_first();
    let p2 = p1.drop_first();
    let p3 = p2.drop_first();
    assert(p1[0] == p[1]);
    assert(p2[0] == p[2]);
    assert(p3 =~= Seq::<Piece>::empty());
    assert(render(p3) =~= Seq::<char>::empty());
    reveal_strlit("/S12:Header");
    reveal_strlit("S12:Body/");
    reveal_strlit("/S12:Envelope");
    reveal_strlit("</S12:Header>");
    reveal_strlit("<S12:Body/>");
    reveal_strlit("</S12:Envelope>");
    assert("</S12:Header>"@ =~= seq!['<'] + p[0].tag + seq!['>']);
    assert("<S12:Body/>"@ =~= seq!['<'] + p[1].tag + seq!['>']);
    assert("</S12:Envelope>"@ =~= seq!['<'] + p[2].tag + seq!['>']);
    assert(render(p2) =~= "</S12:Envelope>"@);
    assert(render(p1) =~= "<S12:Body/>"@ + "</S12:Envelope>"@);
}

/// The first `t` among what an envelope carries is found in it.
#[verifier::rlimit(30)]
pub proof fn lemma_carried_among(
    prefix: Seq<char>,
    left: Seq<Piece>,
    t: Tag,
    inner: Seq<Piece>,
    right: Seq<Piece>,
)
    requires
        is_prefix(prefix),
        t == Tag::UserMessage || t == Tag::SignalMessage,
        flat(left),
        flat(inner),
        flat(right),
        avoids(left, name(t)),
        avoids(inner, name(t)),
    ensures
        finds(
            wrapped(prefix, render(left + around(prefix, t, inner) + right)),
            name(t),
            Some(render(inner)),
        ),
{
    let none = Seq::<char>::empty();
    let e = left + around(prefix, t, inner) + right;
    lemma_around(prefix, t, inner, render(inner));
    lemma_flat_append(left, around(prefix, t, inner));
    lemma_flat_append(left + around(prefix, t, inner), right);
    lemma_wrapped(prefix, e);
    lemma_prolog(prefix);
    lemma_epilog();
    lemma_text_only(render(inner));
    let p = seq![open(prefix, Tag::Messaging, understood(), none)];
    let q = seq![close(prefix, Tag::Messaging)];
    lemma_open(prefix, Tag::Messaging, understood(), none);
    lemma_close(prefix, Tag::Messaging);
    let before = prolog(prefix) + p + left;
    let after = right + q + epilog();
    assert(flat(p) && flat(q) && avoids(p, name(t))) by {
        reveal(crate::flat::flat);
        reveal(crate::flat::avoids);
    }
    lemma_flat_append(prolog(prefix), p);
    lemma_flat_append(prolog(prefix) + p, left);
    lemma_flat_append(right, q);
    lemma_flat_append(right + q, epilog());
    lemma_avoids_append(prolog(prefix), p, name(t));
    lemma_avoids_append(prolog(prefix) + p, left, name(t));
    lemma_lookup(prefix, before, t, none, none, inner, after);
    assert(before + around(prefix, t, inner) + after =~= prolog(prefix) + elem(
        prefix,
        Tag::Messaging,
        understood(),
        none,
        e,
    ) + epilog()) by {
        reveal(crate::document::elem);
    }
}

/// What an envelope carries is found in it.
pub proof fn lemma_carried(prefix: Seq<char>, t: Tag, inner: Seq<Piece>)
    requires
        is_prefix(prefix),
        t == Tag::UserMessage || t == Tag::SignalMessage,
        flat(inner),
        avoids(inner, name(t)),
    ensures
        finds(
            wrapped(prefix, tagged(prefix, name(t), Seq::empty(), render(inner))),
            name(t),
            Some(render(inner)),
        ),
{
    let nothing = Seq::<Piece>::empty();
    lemma_nothing();
    lemma_around(prefix, t, inner, render(inner));
    lemma_carried_among(prefix, nothing, t, inner, nothing);
    assert(nothing + around(prefix, t, inner) + nothing =~= around(prefix, t, inner));
}

/// A message that has what a message must have: an id, a service and an
/// action that say something.
pub open spec fn readable(m: MessageView) -> bool {
    &&& m.message_id.len() > 0
    &&& m.service.len() > 0
    &&& m.action.len() > 0
}

/// What is read of an element that must say something.
proof fn lemma_required(user: Seq<char>, n: Seq<char>, text: Seq<char>)
    requires
        finds(user, n, Some(escaped(text))),
    ensures
        required_in(user, n) == (if text.len() == 0 {
            Err(protocol("a UserMessage with no "@ + n))
        } else {
            Ok(text)
        }),
{
    reveal(crate::document::finds);
    lemma_read_escaped(text);
}

/// What is read of an element that may be there.
pub proof fn lemma_optional(user: Seq<char>, n: Seq<char>, text: Option<Seq<char>>)
    requires
        finds(
            user,
            n,
            match text {
                Some(t) => Some(escaped(t)),
                None => None,
            },
        ),
    ensures
        optional_in(user, n) == Ok::<Option<Seq<char>>, Refusal>(text),
        text_in(user, n) == Ok::<Seq<char>, Refusal>(
            match text {
                Some(t) => t,
                None => Seq::empty(),
            },
        ),
{
    reveal(crate::document::finds);
    if let Some(t) = text {
        lemma_read_escaped(t);
    }
}

/// What is read of one party.
proof fn lemma_party(
    prefix: Seq<char>,
    user: Seq<char>,
    side: Seq<char>,
    kind: Option<Seq<char>>,
    id: Seq<char>,
    role: Seq<char>,
)
    requires
        is_prefix(prefix),
        no_tag(role),
        finds(user, side, Some(render(party_content(prefix, kind, id, role)))),
    ensures
        party_in(user, side) == Ok::<Seq<char>, Refusal>(id),
        side == "From"@ ==> party_type_in(user) == Ok::<Option<Seq<char>>, Refusal>(kind),
{
    reveal(crate::document::finds);
    reveal(crate::document::shows);
    lemma_party_content(prefix, kind, id, role);
    lemma_read_escaped(id);
}

/// What is read of a listing of properties.
proof fn lemma_listed(
    user: Seq<char>,
    n: Seq<char>,
    inner: Option<Seq<char>>,
    properties: Seq<(Seq<char>, Seq<char>)>,
)
    requires
        finds(user, n, inner),
        match inner {
            Some(xml) => lists(xml, Ok(properties)),
            None => properties.len() == 0,
        },
    ensures
        listed_in(user, n) == Ok::<Seq<(Seq<char>, Seq<char>)>, Refusal>(properties),
{
    reveal(crate::document::finds);
    reveal(crate::document::lists);
    if inner is None {
        assert(properties =~= Seq::<(Seq<char>, Seq<char>)>::empty());
    }
}

/// What is read of the reference to the payload.
proof fn lemma_href_read(prefix: Seq<char>, m: MessageView)
    requires
        is_prefix(prefix),
    ensures
        href_in(user_content(prefix, m)) == Ok::<Seq<char>, Refusal>("cid:"@ + m.payload_cid),
{
    lemma_find_payload(prefix, m);
    reveal(crate::document::shows);
}

/// What is read of the type of the service.
proof fn lemma_service_type_read(prefix: Seq<char>, m: MessageView)
    requires
        is_prefix(prefix),
    ensures
        attribute_in(
            user_content(prefix, m),
            "Service"@,
            "type"@,
        ) == Ok::<Option<Seq<char>>, Refusal>(
            m.service_type,
        ),
{
    lemma_find_service(prefix, m);
    reveal(crate::document::shows);
}

/// `user` holds what `m` says.
#[verifier::opaque]
spec fn holds(user: Seq<char>, m: MessageView) -> bool {
    &&& href_in(user) == Ok::<Seq<char>, Refusal>("cid:"@ + m.payload_cid)
    &&& required_in(user, "MessageId"@) == (if m.message_id.len() == 0 {
        Err(protocol("a UserMessage with no "@ + "MessageId"@))
    } else {
        Ok(m.message_id)
    })
    &&& text_in(user, "Timestamp"@) == Ok::<Seq<char>, Refusal>(m.timestamp)
    &&& party_in(user, "From"@) == Ok::<Seq<char>, Refusal>(m.from)
    &&& party_in(user, "To"@) == Ok::<Seq<char>, Refusal>(m.to)
    &&& required_in(user, "Service"@) == (if m.service.len() == 0 {
        Err(protocol("a UserMessage with no "@ + "Service"@))
    } else {
        Ok(m.service)
    })
    &&& required_in(user, "Action"@) == (if m.action.len() == 0 {
        Err(protocol("a UserMessage with no "@ + "Action"@))
    } else {
        Ok(m.action)
    })
    &&& text_in(user, "ConversationId"@) == Ok::<Seq<char>, Refusal>(m.conversation_id)
    &&& party_type_in(user) == Ok::<Option<Seq<char>>, Refusal>(m.party_type)
    &&& attribute_in(user, "Service"@, "type"@) == Ok::<Option<Seq<char>>, Refusal>(m.service_type)
    &&& optional_in(user, "AgreementRef"@) == Ok::<Option<Seq<char>>, Refusal>(m.agreement)
    &&& listed_in(user, "MessageProperties"@) == Ok::<Seq<(Seq<char>, Seq<char>)>, Refusal>(
        m.properties,
    )
    &&& listed_in(user, "PartInfo"@) == Ok::<Seq<(Seq<char>, Seq<char>)>, Refusal>(
        m.payload_properties,
    )
}

/// What is read of every field of a message that was written.
#[verifier::rlimit(30)]
proof fn lemma_read_fields(prefix: Seq<char>, m: MessageView)
    requires
        is_prefix(prefix),
    ensures
        holds(user_content(prefix, m), m),
{
    reveal(holds);
    let user = user_content(prefix, m);
    lemma_href_read(prefix, m);
    lemma_find_message_id(prefix, m);
    lemma_required(user, "MessageId"@, m.message_id);
    lemma_find_timestamp(prefix, m);
    lemma_optional(user, "Timestamp"@, Some(m.timestamp));
    lemma_roles();
    lemma_find_from(prefix, m);
    lemma_party(prefix, user, "From"@, m.party_type, m.from, INITIATOR@);
    lemma_find_to(prefix, m);
    lemma_party(prefix, user, "To"@, m.party_type, m.to, RESPONDER@);
    lemma_find_service(prefix, m);
    lemma_required(user, "Service"@, m.service);
    lemma_find_action(prefix, m);
    lemma_required(user, "Action"@, m.action);
    lemma_find_conversation(prefix, m);
    lemma_optional(user, "ConversationId"@, Some(m.conversation_id));
    lemma_service_type_read(prefix, m);
    lemma_find_agreement(prefix, m);
    lemma_optional(user, "AgreementRef"@, m.agreement);
    lemma_find_properties(prefix, m);
    lemma_properties_alone(prefix, m.properties);
    lemma_listed(
        user,
        "MessageProperties"@,
        if m.properties.len() == 0 {
            None
        } else {
            Some(render(property_pieces(prefix, m.properties)))
        },
        m.properties,
    );
    lemma_find_payload(prefix, m);
    lemma_listing_read_back(prefix, Tag::PartProperties, m.payload_properties);
    lemma_listed(
        user,
        "PartInfo"@,
        Some(render(listing_pieces(prefix, Tag::PartProperties, m.payload_properties))),
        m.payload_properties,
    );
}

/// The content id a payload was written with is read back.
proof fn lemma_cid(cid: Seq<char>)
    ensures
        without_cid("cid:"@ + cid) == cid,
{
    reveal_strlit("cid:");
    let s = "cid:"@ + cid;
    assert(s.subrange(0, 4) =~= "cid:"@);
    assert(s.skip(4) =~= cid);
}

/// What is described by what holds what `m` says.
#[verifier::rlimit(30)]
proof fn lemma_described_by(user: Seq<char>, m: MessageView)
    requires
        holds(user, m),
    ensures
        readable(m) <==> described_in(user) == Ok::<MessageView, Refusal>(m),
{
    reveal(holds);
    lemma_cid(m.payload_cid);
}

/// What is described by the content of a message that was written.
pub proof fn lemma_described(prefix: Seq<char>, m: MessageView)
    requires
        is_prefix(prefix),
    ensures
        readable(m) <==> described_in(user_content(prefix, m)) == Ok::<MessageView, Refusal>(m),
{
    lemma_read_fields(prefix, m);
    lemma_described_by(user_content(prefix, m), m);
}

/// A User Message reads back off the envelope it wrote, under whatever prefix
/// it was written: every field of it, and that for every message but one
/// whose id, service or action says nothing, which is refused.
pub proof fn a_message_reads_back_off_its_envelope(prefix: Seq<char>, m: MessageView)
    requires
        is_prefix(prefix),
    ensures
        readable(m) <==> carried_in(wrapped(
            prefix,
            user_message(prefix, m),
        )) == Ok::<MessageView, Refusal>(m),
{
    lemma_user(prefix, m);
    lemma_user_message(prefix, m);
    lemma_carried(prefix, Tag::UserMessage, user_pieces(prefix, m));
    lemma_described(prefix, m);
    reveal(crate::document::finds);
}

} // verus!
