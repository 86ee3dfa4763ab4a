//! The envelope of a User Message.

use as4::envelope::{
    attribute, element, next_id, properties, wrap, Stamp, UserMessage, EBMS, PAYLOAD_CID, SOAP,
};

fn stamp(count: u64) -> Stamp {
    Stamp {
        message_id: next_id(Some(1_700_000_000_000_000_000), count),
        timestamp: "2023-11-14T22:13:20Z".to_string(),
    }
}

fn refusal(envelope: &str) -> String {
    let error = UserMessage::from_envelope(envelope).expect_err("refused");
    assert!(!error.retryable);
    error.message
}

const THEIRS: &str = "<S:Envelope xmlns:S=\"x\"><S:Header><ns2:Messaging><ns2:UserMessage>\
    <ns2:MessageInfo><ns2:MessageId>1@them</ns2:MessageId></ns2:MessageInfo>\
    <ns2:PartyInfo><ns2:From><ns2:PartyId type=\"urn:x\">A</ns2:PartyId></ns2:From>\
    <ns2:To><ns2:PartyId>B</ns2:PartyId></ns2:To></ns2:PartyInfo>\
    <ns2:CollaborationInfo><ns2:Service type=\"t\">s</ns2:Service><ns2:Action>a\
    </ns2:Action></ns2:CollaborationInfo><ns2:PayloadInfo><ns2:PartInfo \
    href=\"cid:p1\"/></ns2:PayloadInfo></ns2:UserMessage></ns2:Messaging>\
    </S:Header><S:Body/></S:Envelope>";

#[test]
fn a_user_message_reads_back_off_the_envelope_it_wrote() {
    let message = UserMessage::new("Buyer & Co", "Seller", "urn:svc", "Submit", stamp(1));
    let envelope = message.envelope();
    assert!(envelope.contains("<eb:PartyId>Buyer &amp; Co</eb:PartyId>"));
    assert!(envelope.contains("href=\"cid:payload@xmip\""));
    assert_eq!(
        UserMessage::from_envelope(&envelope).expect("read"),
        message
    );
    assert!(message.timestamp.ends_with('Z'));
    assert_eq!(message.timestamp.len(), 20);
    assert_ne!(
        message.message_id,
        UserMessage::new("a", "b", "c", "d", stamp(2)).message_id
    );
}

#[test]
fn a_partner_prefix_does_not_matter_and_a_hollow_envelope_is_refused() {
    let read = UserMessage::from_envelope(THEIRS).expect("read");
    assert_eq!(read.message_id, "1@them");
    assert_eq!(read.from, "A");
    assert_eq!(read.to, "B");
    assert_eq!(read.payload_cid, "p1");
    assert_eq!(read.conversation_id, "");
    assert!(UserMessage::from_envelope(&wrap("")).is_err());
    assert!(UserMessage::from_envelope("<eb:UserMessage/>").is_err());
    let no_href = THEIRS.replace(" href=\"cid:p1\"", "");
    assert!(UserMessage::from_envelope(&no_href).is_err());
}

#[test]
fn an_element_is_found_by_local_name_and_an_empty_one_is_none() {
    assert_eq!(element("<a:X>1</a:X><Y>2</Y>", "X"), Some("1"));
    assert_eq!(element("<a:X>1</a:X><Y>2</Y>", "Y"), Some("2"));
    assert_eq!(element("<X/><X>late</X>", "X"), None);
    assert_eq!(element("<Xy>1</Xy>", "X"), None);
    assert_eq!(element("<X>never closed", "X"), None);
    assert_eq!(
        attribute("<a:P href=\"cid:q\"/>", "P", "href")
            .expect("read")
            .as_deref(),
        Some("cid:q")
    );
    assert_eq!(attribute("<P/>", "P", "href").expect("read"), None);
}

#[test]
fn a_profile_shapes_the_message_and_reads_back_and_a_fresh_one_is_new() {
    let mut message = UserMessage::new("0088:1", "0088:2", "urn:proc", "urn:doc", stamp(1));
    message.party_type = Some("urn:fdc:peppol.eu:2017:identifiers:ap".to_string());
    message.service_type = Some("cenbii-procid-ubl".to_string());
    message.agreement = Some("urn:agreement".to_string());
    message.properties = vec![
        ("originalSender".to_string(), "0088:1".to_string()),
        ("finalRecipient".to_string(), "0088:2".to_string()),
    ];
    message.payload_properties.push((
        "CompressionType".to_string(),
        "application/gzip".to_string(),
    ));
    let envelope = message.envelope();
    assert!(envelope.contains("<eb:PartyId type=\"urn:fdc:peppol.eu:2017:identifiers:ap\">"));
    assert!(envelope.contains("<eb:Service type=\"cenbii-procid-ubl\">urn:proc</eb:Service>"));
    assert!(envelope.contains("<eb:Property name=\"finalRecipient\">0088:2</eb:Property>"));
    assert_eq!(
        UserMessage::from_envelope(&envelope).expect("read"),
        message
    );
    let again = message.fresh(stamp(2));
    assert_ne!(again.message_id, message.message_id);
    assert_eq!(again.conversation_id, again.message_id);
    assert_eq!(again.properties, message.properties);
    assert_eq!(
        properties("<p:Property name=\"a\">1</p:Property><Property/><Property name=\"b\"/>")
            .expect("read"),
        vec![("a".to_string(), "1".to_string())]
    );
}

#[test]
fn a_message_is_written_to_the_letter() {
    let message = UserMessage::new(
        "A",
        "B",
        "s",
        "a",
        Stamp {
            message_id: "1.2@xmip".to_string(),
            timestamp: "2023-11-14T22:13:20Z".to_string(),
        },
    );
    let role = "http://docs.oasis-open.org/ebxml-msg/ebms/v3.0/ns/core/200704/";
    let user = format!(
        "<eb:UserMessage><eb:MessageInfo><eb:Timestamp>2023-11-14T22:13:20Z</eb:Timestamp>\
         <eb:MessageId>1.2@xmip</eb:MessageId></eb:MessageInfo><eb:PartyInfo><eb:From>\
         <eb:PartyId>A</eb:PartyId><eb:Role>{role}initiator</eb:Role></eb:From><eb:To>\
         <eb:PartyId>B</eb:PartyId><eb:Role>{role}responder</eb:Role></eb:To></eb:PartyInfo>\
         <eb:CollaborationInfo><eb:Service>s</eb:Service><eb:Action>a</eb:Action>\
         <eb:ConversationId>1.2@xmip</eb:ConversationId></eb:CollaborationInfo>\
         <eb:PayloadInfo><eb:PartInfo href=\"cid:payload@xmip\"><eb:PartProperties>\
         <eb:Property name=\"MimeType\">application/octet-stream</eb:Property>\
         </eb:PartProperties></eb:PartInfo></eb:PayloadInfo></eb:UserMessage>"
    );
    assert_eq!(message.element(), user);
    assert_eq!(message.payload_cid, PAYLOAD_CID);
    assert_eq!(
        message.envelope(),
        format!(
            "<?xml version=\"1.0\" encoding=\"UTF-8\"?><S12:Envelope xmlns:S12=\"{SOAP}\" \
             xmlns:eb=\"{EBMS}\"><S12:Header><eb:Messaging S12:mustUnderstand=\"true\">{user}\
             </eb:Messaging></S12:Header><S12:Body/></S12:Envelope>"
        )
    );
    assert_eq!(wrap(&user), message.envelope());
}

#[test]
fn each_field_that_must_be_there_is_missed_by_name() {
    assert_eq!(refusal("<x/>"), "an envelope with no UserMessage in it");
    assert_eq!(
        refusal(&THEIRS.replace(" href=\"cid:p1\"", "")),
        "a UserMessage with no payload reference"
    );
    assert_eq!(
        refusal(&THEIRS.replace("1@them", "")),
        "a UserMessage with no MessageId"
    );
    assert_eq!(
        refusal(&THEIRS.replace("ns2:From>", "ns2:Frm>")),
        "a UserMessage with no From party"
    );
    assert_eq!(
        refusal(&THEIRS.replace("<ns2:PartyId>B</ns2:PartyId>", "B")),
        "a UserMessage with no To party"
    );
    assert_eq!(
        refusal(&THEIRS.replace(">s<", "><")),
        "a UserMessage with no Service"
    );
    assert_eq!(
        refusal(&THEIRS.replace("ns2:Action>", "ns2:Akt>")),
        "a UserMessage with no Action"
    );
}

#[test]
fn an_entity_xml_does_not_define_is_refused_and_a_reference_is_read() {
    assert!(refusal(&THEIRS.replace("1@them", "1&copy;them")).contains("entity"));
    let read = UserMessage::from_envelope(&THEIRS.replace("1@them", "1&#64;&lt;&#x41;&gt;"))
        .expect("read");
    assert_eq!(read.message_id, "1@<A>");
    assert_eq!(read.party_type.as_deref(), Some("urn:x"));
    assert_eq!(read.service_type.as_deref(), Some("t"));
    assert_eq!(read.agreement, None);
    assert!(attribute("<P k=\"&x;\"/>", "P", "k").is_err());
    assert!(properties("<Property name=\"a\">&x;</Property>").is_err());
    assert!(properties("<Property name=\"&x;\">1</Property>").is_err());
}

#[test]
fn every_content_id_reads_back_as_it_was_written() {
    let mut message = UserMessage::new("A", "B", "s", "a", stamp(1));
    for cid in ["p@x", "cid:p", "cid:cid:", "a&b", "a&amp;b", "&lt;", "<&>\"'", ""] {
        message.payload_cid = cid.to_string();
        let read = UserMessage::from_envelope(&message.envelope()).expect("read");
        assert_eq!(read, message);
    }
    let bare = THEIRS.replace("cid:p1", "p1");
    let read = UserMessage::from_envelope(&bare).expect("read");
    assert_eq!(read.payload_cid, "p1");
}

#[test]
fn every_text_survives_the_envelope() {
    let odd = "<&>\"' \u{e9}\u{2014}\u{1f600} &amp; ]]> </eb:From>";
    let mut message = UserMessage::new(odd, odd, odd, odd, stamp(1));
    message.conversation_id = odd.to_string();
    message.timestamp = odd.to_string();
    message.party_type = Some(odd.to_string());
    message.service_type = Some(odd.to_string());
    message.agreement = Some(odd.to_string());
    message.properties = vec![(odd.to_string(), odd.to_string()), (String::new(), String::new())];
    message.payload_properties = Vec::new();
    assert_eq!(
        UserMessage::from_envelope(&message.envelope()).expect("read"),
        message
    );
}

#[test]
fn ids_name_the_clock_and_the_count() {
    assert_eq!(next_id(Some(17), 3), "17.3@xmip");
    assert_eq!(next_id(None, 10), "0.10@xmip");
    assert_eq!(
        next_id(Some(u128::MAX), u64::MAX),
        "340282366920938463463374607431768211455.18446744073709551615@xmip"
    );
    assert_ne!(next_id(Some(1), 11), next_id(Some(11), 1));
}

#[test]
fn an_element_ends_at_its_own_end_tag() {
    assert_eq!(element("<X><aX>1</aX></X>", "X"), Some("<aX>1</aX>"));
    assert_eq!(element("<X><X>1</X></X>", "X"), Some("<X>1</X>"));
    assert_eq!(element("<X><X/>1</X>2</X>", "X"), Some("<X/>1"));
    assert_eq!(element("<X><a:X><X>1</X></a:X>2</X>3", "X"), Some("<a:X><X>1</X></a:X>2"));
    assert_eq!(element("<X k=\"1\">1</X >2</X>", "X"), Some("1"));
    assert_eq!(element("<X>1</X\n>", "X"), Some("1"));
    assert_eq!(element("<X>1<a/>2</aX>3</X>", "X"), Some("1<a/>2</aX>3"));
    assert_eq!(element("<X></X>", "X"), Some(""));
    assert_eq!(element("<X><X>1</X>", "X"), None);
    assert_eq!(element("</X><X>1</X>", "X"), Some("1"));
}

#[test]
fn a_name_ends_at_any_white_space() {
    for white in [" ", "\t", "\r", "\n", "\r\n  "] {
        assert_eq!(element(&format!("<a:X{white}>1</a:X>"), "X"), Some("1"));
        assert_eq!(element(&format!("<a:X{white}k='v'{white}>1</a:X>"), "X"), Some("1"));
        assert_eq!(
            attribute(&format!("<a:P{white}href=\"q\"/>"), "P", "href")
                .expect("read")
                .as_deref(),
            Some("q")
        );
    }
}

#[test]
fn what_is_in_quotes_or_a_comment_is_no_tag() {
    assert_eq!(element("<a b=\"<X>\"><X>1</X></a>", "X"), Some("1"));
    assert_eq!(element("<X b='>'>1</X>", "X"), Some("1"));
    assert_eq!(element("<!--<X>0</X>--><X>1</X>", "X"), Some("1"));
    assert_eq!(element("<!--a:X --><X>1</X>", "X"), Some("1"));
    assert_eq!(element("<X>1<!--</X>-->2</X>", "X"), Some("1<!--</X>-->2"));
    assert_eq!(
        element("<X><![CDATA[</X>]]></X>", "X"),
        Some("<![CDATA[</X>]]>")
    );
    assert_eq!(element("<?X a=\"?>\"?><X>1</X>", "X"), Some("1"));
}

#[test]
fn what_is_left_open_is_read_as_far_as_it_goes() {
    assert_eq!(element("<X b=\">1</X>", "X"), Some("1"));
    assert_eq!(element("<X b='>1</X>", "X"), Some("1"));
    assert_eq!(element("<X b=\">1</X><Y c=\"2\">3</Y>", "X"), Some("1"));
    assert_eq!(element("<X b=\">1</X><Y c=\"2\">3</Y>", "Y"), Some("3"));
    assert_eq!(attribute("<X b=\">1</X>", "X", "b").expect("read"), None);
    let read = |xml: &str| properties(xml).expect("read");
    let one = |name: &str, value: &str| (name.to_string(), value.to_string());
    assert_eq!(read("<Property name=\"a\">1</Other>"), vec![one("a", "1")]);
    assert_eq!(read("<Property name=\"a\">1<b>2</b>"), vec![one("a", "1<b>2")]);
    assert_eq!(
        read("<Property name=\"a\">1<Property name=\"b\">2</Property>"),
        vec![one("a", "1<Property name=\"b\">2"), one("b", "2")]
    );
    assert_eq!(
        read("<Property name=\"a\">1</Property><Property name=\"b\">2<Property name=\"&x;\">"),
        vec![one("a", "1")]
    );
}

#[test]
fn an_attribute_is_known_by_its_whole_name() {
    let read = |tag: &str, key: &str| attribute(tag, "P", key).expect("read");
    assert_eq!(read("<P xhref=\"1\" href=\"2\"/>", "href").as_deref(), Some("2"));
    assert_eq!(read("<P x:href=\"1\" href=\"2\"/>", "href").as_deref(), Some("2"));
    assert_eq!(read("<P href='2'/>", "href").as_deref(), Some("2"));
    assert_eq!(read("<P href='\"'/>", "href").as_deref(), Some("\""));
    assert_eq!(read("<P href = \"2\" />", "href").as_deref(), Some("2"));
    assert_eq!(read("<P\n\thref\n=\n\"2\"\n/>", "href").as_deref(), Some("2"));
    assert_eq!(read("<P a=\" href='1' \" href=\"2\"/>", "href").as_deref(), Some("2"));
    assert_eq!(read("<P a=\">\" href=\"2\"/>", "href").as_deref(), Some("2"));
    assert_eq!(read("<P checked href=\"2\"/>", "href").as_deref(), Some("2"));
    assert_eq!(read("<P a=1 href=\"2\"/>", "href").as_deref(), Some("2"));
    assert_eq!(read("<P href=\"1\" href=\"2\"/>", "href").as_deref(), Some("1"));
    assert_eq!(read("<P hrefs=\"1\"/>", "href"), None);
    assert_eq!(read("<P href=2/>", "href"), None);
    assert_eq!(read("<P href/>", "href"), None);
}

#[test]
fn what_is_not_whole_is_not_read() {
    assert_eq!(element("", "X"), None);
    assert_eq!(element("<", "X"), None);
    assert_eq!(element("<X", "X"), None);
    assert_eq!(attribute("<P k=\"1", "P", "k").expect("read"), None);
    assert_eq!(attribute("<P k=\"1>", "P", "k").expect("read"), None);
    assert_eq!(properties("<Property name=\"a\">1").expect("read"), vec![]);
    assert_eq!(
        properties("<Property name='a'><b>1</b></Property ><Property name=\"c\">2</Property>")
            .expect("read"),
        vec![
            ("a".to_string(), "<b>1</b>".to_string()),
            ("c".to_string(), "2".to_string()),
        ]
    );
}

#[test]
fn a_message_reads_back_under_any_prefix() {
    let mut message = UserMessage::new("Buyer & Co", "Seller", "urn:svc", "Submit", stamp(1));
    message.party_type = Some("urn:t".to_string());
    message.service_type = Some("t".to_string());
    message.agreement = Some("urn:agreement".to_string());
    message.properties = vec![("a".to_string(), "1".to_string())];
    let envelope = message.envelope();
    for prefix in ["eb3:", "ns2:", ""] {
        let theirs = envelope.replace("eb:", prefix);
        assert_ne!(theirs, envelope);
        assert_eq!(UserMessage::from_envelope(&theirs).expect("read"), message);
    }
}
