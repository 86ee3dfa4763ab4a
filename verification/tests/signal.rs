//! Receipts and Errors.

use as4::envelope::{next_id, wrap, Stamp, UserMessage};
use as4::signal::{Signal, OTHER, POLICY_NONCOMPLIANCE, VALUE_NOT_RECOGNIZED};

fn stamp(count: u64) -> Stamp {
    Stamp {
        message_id: next_id(Some(1_700_000_000_000_000_000), count),
        timestamp: "2023-11-14T22:13:20Z".to_string(),
    }
}

fn refusal(messaging: &str) -> String {
    let error = Signal::from_envelope(&wrap(messaging)).expect_err("refused");
    assert!(!error.retryable);
    error.message
}

#[test]
fn a_receipt_names_the_message_it_answers_and_carries_a_copy_of_it() {
    let message = UserMessage::new("Buyer", "Seller", "urn:svc", "Submit", stamp(1));
    let envelope = Signal::receipt(&message, &stamp(2));
    assert!(envelope.contains("<eb:Receipt><eb:UserMessage>"));
    match Signal::from_envelope(&envelope).expect("read") {
        Signal::Receipt { ref_to, message_id } => {
            assert_eq!(ref_to, message.message_id);
            assert_ne!(message_id, message.message_id);
            assert!(message_id.ends_with("@xmip"));
        }
        Signal::Error { .. } => panic!("a receipt"),
    }
    assert_eq!(
        UserMessage::from_envelope(&envelope).expect("the copy"),
        message
    );
}

#[test]
fn an_error_carries_its_code_and_says_why() {
    let envelope = Signal::error(
        Some("1@them"),
        POLICY_NONCOMPLIANCE,
        "for <Somebody>",
        &stamp(1),
    );
    assert_eq!(
        Signal::from_envelope(&envelope).expect("read"),
        Signal::Error {
            ref_to: Some("1@them".to_string()),
            code: POLICY_NONCOMPLIANCE.to_string(),
            description: "for <Somebody>".to_string(),
        }
    );
    let unread = Signal::error(None, VALUE_NOT_RECOGNIZED, "not AS4", &stamp(2));
    assert!(!unread.contains("RefToMessageId"));
    assert!(matches!(
        Signal::from_envelope(&unread),
        Ok(Signal::Error { ref_to: None, .. })
    ));
}

#[test]
fn what_is_neither_receipt_nor_error_is_refused() {
    assert!(Signal::from_envelope(&wrap("")).is_err());
    assert!(Signal::from_envelope(&wrap(
        "<eb:SignalMessage><eb:PullRequest/></eb:SignalMessage>"
    ))
    .is_err());
    let unnamed = wrap("<eb:SignalMessage><eb:Receipt>x</eb:Receipt></eb:SignalMessage>");
    assert!(Signal::from_envelope(&unnamed).is_err());
}

#[test]
fn each_refusal_says_what_is_missing() {
    assert_eq!(refusal(""), "an answer with no SignalMessage in it");
    assert_eq!(
        refusal("<eb:SignalMessage><eb:PullRequest/></eb:SignalMessage>"),
        "a SignalMessage that is neither Receipt nor Error"
    );
    assert_eq!(
        refusal("<eb:SignalMessage><eb:Receipt>x</eb:Receipt></eb:SignalMessage>"),
        "a Receipt naming no message"
    );
    assert!(refusal("<eb:SignalMessage><eb:Error errorCode=\"&x;\"/></eb:SignalMessage>")
        .contains("entity"));
}

#[test]
fn an_error_is_written_to_the_letter() {
    let envelope = Signal::error(
        Some("7"),
        OTHER,
        "busy & <late>",
        &Stamp {
            message_id: "1.2@xmip".to_string(),
            timestamp: "2023-11-14T22:13:20Z".to_string(),
        },
    );
    assert_eq!(
        envelope,
        wrap(
            "<eb:SignalMessage><eb:MessageInfo><eb:Timestamp>2023-11-14T22:13:20Z</eb:Timestamp>\
             <eb:MessageId>1.2@xmip</eb:MessageId><eb:RefToMessageId>7</eb:RefToMessageId>\
             </eb:MessageInfo><eb:Error category=\"Content\" errorCode=\"EBMS:0004\" \
             origin=\"ebMS\" severity=\"failure\"><eb:Description xml:lang=\"en\">busy &amp; \
             &lt;late&gt;</eb:Description></eb:Error></eb:SignalMessage>"
        )
    );
}

#[test]
fn a_receipt_needs_no_id_of_its_own_and_an_error_no_description() {
    let bare = wrap(
        "<eb:SignalMessage><eb:RefToMessageId>7</eb:RefToMessageId><eb:Receipt>x</eb:Receipt>\
         </eb:SignalMessage>",
    );
    assert_eq!(
        Signal::from_envelope(&bare).expect("read"),
        Signal::Receipt {
            ref_to: "7".to_string(),
            message_id: String::new(),
        }
    );
    let bare = wrap("<eb:SignalMessage><eb:Error errorCode=\"E\"/></eb:SignalMessage>");
    assert_eq!(
        Signal::from_envelope(&bare).expect("read"),
        Signal::Error {
            ref_to: None,
            code: "E".to_string(),
            description: String::new(),
        }
    );
}

#[test]
fn a_signal_reads_back_under_any_prefix() {
    let message = UserMessage::new("Buyer", "Seller", "urn:svc", "Submit", stamp(1));
    let receipt = Signal::receipt(&message, &stamp(2));
    let fault = Signal::error(Some("7"), OTHER, "busy", &stamp(3));
    for prefix in ["eb3:", "ns2:", ""] {
        for envelope in [&receipt, &fault] {
            assert_eq!(
                Signal::from_envelope(&envelope.replace("eb:", prefix)).expect("read"),
                Signal::from_envelope(envelope).expect("read")
            );
        }
    }
}

#[test]
fn an_empty_receipt_is_a_receipt() {
    let empty = wrap(
        "<eb:SignalMessage><eb:MessageInfo><eb:RefToMessageId>1@them</eb:RefToMessageId>\
         </eb:MessageInfo><eb:Receipt/></eb:SignalMessage>",
    );
    assert_eq!(
        Signal::from_envelope(&empty).expect("read"),
        Signal::Receipt {
            ref_to: "1@them".to_string(),
            message_id: String::new(),
        }
    );
    assert_eq!(
        refusal("<eb:SignalMessage><eb:Receipt /></eb:SignalMessage>"),
        "a Receipt naming no message"
    );
    let both = wrap(
        "<eb:SignalMessage><eb:Receipt/><eb:Error errorCode=\"E\"/></eb:SignalMessage>",
    );
    assert_eq!(
        Signal::from_envelope(&both).expect("read"),
        Signal::Error {
            ref_to: None,
            code: "E".to_string(),
            description: String::new(),
        }
    );
    assert_eq!(
        refusal("<eb:SignalMessage><eb:RefToMessageId>7</eb:RefToMessageId></eb:SignalMessage>"),
        "a SignalMessage that is neither Receipt nor Error"
    );
}

#[test]
fn an_entity_xml_does_not_define_is_kept_as_it_stands() {
    let read = |messaging: &str| Signal::from_envelope(&wrap(messaging)).expect("read");
    assert_eq!(
        read(
            "<eb:SignalMessage><eb:MessageId>&copy;1 &amp &#0;</eb:MessageId><eb:RefToMessageId>\
             a&x;&amp;b&</eb:RefToMessageId><eb:Receipt/></eb:SignalMessage>"
        ),
        Signal::Receipt {
            ref_to: "a&x;&b&".to_string(),
            message_id: "&copy;1 &amp &#0;".to_string(),
        }
    );
    assert_eq!(
        read(
            "<eb:SignalMessage><eb:RefToMessageId>&&lt;</eb:RefToMessageId><eb:Error \
             errorCode=\"E\"><eb:Description>no &nbsp; &#65;</eb:Description></eb:Error>\
             </eb:SignalMessage>"
        ),
        Signal::Error {
            ref_to: Some("&<".to_string()),
            code: "E".to_string(),
            description: "no &nbsp; A".to_string(),
        }
    );
}
