//! Both ends of an exchange, with the connection left out.

use as4::envelope::{next_id, PAYLOAD_CID, TEST_ACTION, TEST_SERVICE};
use as4::error::protocol_error;
use as4::exchange::{delivered, held_against, payload, posted, refuse, weighed};
use as4::mime::{pack, Body, Packed, Part, SOAP_TYPE};
use as4::seen::{Seen, REMEMBERED};
use as4::signal::{OTHER, POLICY_NONCOMPLIANCE, VALUE_NOT_RECOGNIZED};
use as4::transport::arrivals;
use as4::wire::soap;
use as4::{
    as_http, Answer, Arrived, As4Transport, Check, Outcome, Request, Response, Signal, Signer,
    Stamp, TransportError, Unchecked, Unsigned, UserMessage,
};
use std::time::Duration;

type Taken = Result<Option<(UserMessage, Arrived)>, TransportError>;

fn stamp(count: u64) -> Stamp {
    Stamp {
        message_id: next_id(Some(1_700_000_000_000_000_000), count),
        timestamp: "2023-11-14T22:13:20Z".to_string(),
    }
}

fn end(me: &str, partner: &str) -> As4Transport<Unsigned, Unchecked> {
    As4Transport::new("as4://127.0.0.1:0/msh", me, partner, stamp(1))
        .timing_out_after(Duration::from_secs(2))
}

/// A body as the other end reads it.
fn carried(packed: &Packed) -> Body {
    match packed {
        Packed::Alone(bytes) => Body::Single {
            media_type: SOAP_TYPE.to_string(),
            bytes: bytes.clone(),
        },
        Packed::Parts { parts, .. } => Body::Multipart(
            parts
                .iter()
                .map(|part| {
                    let header = |sought: &str| {
                        part.headers
                            .iter()
                            .find(|(name, _)| name == sought)
                            .map(|(_, value)| value.clone())
                    };
                    let kind = header("Content-Type").unwrap_or_default();
                    Part {
                        media_type: kind.split(';').next().unwrap_or_default().to_string(),
                        content_id: header("Content-ID")
                            .map(|id| id.trim_matches(['<', '>']).to_string()),
                        body: part.body.clone(),
                    }
                })
                .collect(),
        ),
    }
}

fn request(content_type: &str, body: Body) -> Request {
    Request {
        method: "POST".to_string(),
        path: "/msh".to_string(),
        content_type: Some(content_type.to_string()),
        body,
    }
}

fn response(answer: &Answer) -> Response {
    Response {
        status: answer.status,
        content_type: Some(answer.content_type.clone()),
        body: carried(&answer.body),
    }
}

fn envelope_of(answer: &Answer) -> String {
    match &answer.body {
        Packed::Alone(bytes) => String::from_utf8_lossy(bytes).into_owned(),
        Packed::Parts { .. } => panic!("an answer has no parts"),
    }
}

/// One request taken and answered at the far end.
fn accept<S: Signer, C: Check>(
    far: &mut As4Transport<S, C>,
    request: &Request,
    count: u64,
) -> (Answer, Taken) {
    let outcome = far.weigh(request);
    let answer = far.answer(&outcome, &stamp(count)).expect("answered");
    let taken = far.settle("127.0.0.1:4711", &request.path, outcome);
    (answer, taken)
}

/// One message sent from `near` to `far`: what the far end took, and what the
/// near end was told.
fn send<S: Signer, C: Check>(
    near: &As4Transport<Unsigned, Unchecked>,
    far: &mut As4Transport<S, C>,
    bytes: &[u8],
) -> (Taken, Result<(), TransportError>) {
    let post = near.post(bytes, "b1", stamp(2)).expect("posted");
    let request = request(&post.content_type, carried(&post.body));
    let (answer, taken) = accept(far, &request, 3);
    let told = near.verify_receipt(&response(&answer), answer.status == 503, &post.message);
    (taken, told)
}

struct OnlySubmit;

impl Check for OnlySubmit {
    fn check(&self, message: &UserMessage) -> Result<(), TransportError> {
        if message.action == "Submit" {
            Ok(())
        } else {
            Err(protocol_error("only Submit here".to_string()))
        }
    }
}

struct Busy;

impl Check for Busy {
    fn check(&self, _message: &UserMessage) -> Result<(), TransportError> {
        Err(TransportError {
            message: "come back".to_string(),
            retryable: true,
        })
    }
}

/// Signs by writing its name behind the envelope, and verifies that it is
/// there.
struct Sealed(&'static str);

impl Signer for Sealed {
    fn sign(
        &self,
        envelope: String,
        attachments: &[(String, Vec<u8>)],
    ) -> Result<String, TransportError> {
        Ok(format!("{envelope}<!--{} {}-->", self.0, attachments.len()))
    }

    fn verify(
        &self,
        envelope: &str,
        attachments: &[(String, Vec<u8>)],
    ) -> Result<(), TransportError> {
        if envelope.ends_with(&format!("<!--{} {}-->", self.0, attachments.len())) {
            Ok(())
        } else {
            Err(protocol_error("the seal is broken".to_string()))
        }
    }
}

struct Locked;

impl Signer for Locked {
    fn sign(
        &self,
        _envelope: String,
        _attachments: &[(String, Vec<u8>)],
    ) -> Result<String, TransportError> {
        Err(protocol_error("no key".to_string()))
    }

    fn verify(
        &self,
        _envelope: &str,
        _attachments: &[(String, Vec<u8>)],
    ) -> Result<(), TransportError> {
        Ok(())
    }
}

#[test]
fn a_message_seen_before_is_receipted_again_and_not_delivered_again() {
    let mut far_end = end("Seller", "Buyer");
    let near = end("Buyer", "Seller");
    let message = near.template().fresh(stamp(5));
    let near = near.shaped(message);
    let attachments = vec![(PAYLOAD_CID.to_string(), b"once".to_vec())];
    let (content_type, body) = pack(&near.template().envelope(), &attachments, "b1");
    let mut taken = Vec::new();
    for count in 0..2 {
        let (answer, one) = accept(
            &mut far_end,
            &request(&content_type, carried(&body)),
            10 + count,
        );
        near.verify_receipt(&response(&answer), false, near.template())
            .expect("two receipts");
        taken.push(one);
    }
    let again = taken.pop().expect("two").expect("again");
    let (_, first) = taken.pop().expect("one").expect("first").expect("new");
    assert_eq!(first.bytes, b"once");
    assert!(again.is_none());
    assert!(arrivals(again).is_empty());
}

#[test]
fn a_post_that_is_not_as4_is_answered_with_an_error_signal() {
    let mut far_end = end("Seller", "Buyer");
    let request = Request {
        method: "POST".to_string(),
        path: "/msh".to_string(),
        content_type: None,
        body: Body::Single {
            media_type: String::new(),
            bytes: b"ISA".to_vec(),
        },
    };
    let (answer, taken) = accept(&mut far_end, &request, 2);
    let error = taken.expect_err("not AS4");
    assert!(!error.retryable, "{}", error.message);
    assert_eq!(
        error.message,
        "a body that is neither SOAP nor multipart/related: "
    );
    assert_eq!(answer.status, 400);
    let envelope = envelope_of(&answer);
    assert!(envelope.contains("errorCode=\"EBMS:0001\""), "{envelope}");
    assert!(!envelope.contains("RefToMessageId"));
}

#[test]
fn a_message_for_another_party_or_against_the_profile_is_refused() {
    let mut seller = end("Seller", "Buyer");
    let (taken, told) = send(&end("Buyer", "Somebody"), &mut seller, b"ISA");
    assert_eq!(
        taken.expect_err("refused").message,
        "a message for Somebody, and this party is Seller"
    );
    let error = told.expect_err("refused");
    assert!(!error.retryable);
    assert!(error.message.contains("EBMS:0103"), "{}", error.message);
    assert_eq!(
        error.message,
        "the partner answered 400 \u{2014} EBMS:0103: a message for Somebody, and this party is \
         Seller"
    );
    let mut strict = end("Seller", "Buyer").checking(OnlySubmit);
    let (taken, told) = send(&end("Buyer", "Seller"), &mut strict, b"ISA");
    assert!(taken.is_err());
    let error = told.expect_err("refused");
    assert!(error.message.contains("only Submit here"), "{}", error.message);
    let near = end("Buyer", "Seller").under("urn:svc", "Submit");
    let (taken, told) = send(&near, &mut strict, b"ISA");
    assert_eq!(taken.expect("taken").expect("new").1.bytes, b"ISA");
    told.expect("receipted");
}

#[test]
fn a_receipt_for_another_message_or_a_busy_partner_is_not_a_delivery() {
    let near = end("Buyer", "Seller");
    let sent = near.post(b"ISA", "b1", stamp(2)).expect("posted").message;
    let other = UserMessage::new("Buyer", "Seller", "s", "a", stamp(3));
    let answer = soap(200, &Signal::receipt(&other, &stamp(4)));
    let error = near
        .verify_receipt(&response(&answer), false, &sent)
        .expect_err("wrong receipt");
    assert!(error.message.contains("a receipt for"), "{}", error.message);
    assert_eq!(
        error.message,
        format!("a receipt for {}, not for {}", other.message_id, sent.message_id)
    );
    assert!(!error.retryable);
    let busy = Response {
        status: 503,
        content_type: None,
        body: Body::Single {
            media_type: String::new(),
            bytes: Vec::new(),
        },
    };
    let error = near.verify_receipt(&busy, true, &sent).expect_err("busy");
    assert!(error.retryable, "{}", error.message);
    assert_eq!(
        error.message,
        "the partner answered 503 \u{2014} no signal in the answer"
    );
}

#[test]
fn a_receiver_that_fails_for_now_says_so() {
    let mut far = end("Seller", "Buyer").checking(Busy);
    let near = end("Buyer", "Seller");
    let (taken, told) = send(&near, &mut far, b"ISA");
    assert!(taken.expect_err("busy").retryable);
    let error = told.expect_err("busy");
    assert!(error.retryable);
    assert_eq!(
        error.message,
        "the partner answered 503 \u{2014} EBMS:0004: come back"
    );
}

#[test]
fn a_message_is_taken_with_its_header_and_every_byte() {
    let mut far = end("Seller & Co", "Buyer");
    let near = end("Buyer <1>", "Seller & Co").under("urn:svc", "Submit");
    let every: Vec<u8> = (0..=255).collect();
    let (taken, told) = send(&near, &mut far, &every);
    told.expect("receipted");
    let (message, arrived) = taken.expect("taken").expect("new");
    assert_eq!(message, near.template().fresh(stamp(2)));
    assert_eq!(arrived.bytes, every);
    assert_eq!(
        arrived.origin_uri,
        format!(
            "as4://127.0.0.1:4711/msh?from=Buyer <1>&message-id={}&action=Submit",
            message.message_id
        )
    );
}

#[test]
fn what_is_posted_otherwise_is_refused_by_reason() {
    let far = end("Seller", "Buyer");
    let near = end("Buyer", "Seller");
    let mut get = request("", Body::Multipart(Vec::new()));
    get.method = "GET".to_string();
    assert_eq!(
        far.unpack(&get).expect_err("no POST").message,
        "an AS4 message is a POST, not a GET"
    );
    assert!(posted(&get).is_err());
    let post = near.post(b"ISA", "b1", stamp(2)).expect("posted");
    let Body::Multipart(mut parts) = carried(&post.body) else {
        panic!("parts");
    };
    parts[1].content_id = Some("other".to_string());
    let error = far
        .unpack(&request("", Body::Multipart(parts)))
        .expect_err("no payload");
    assert_eq!(
        error.message,
        "a message whose payload cid:payload@xmip is not attached"
    );
    assert!(!error.retryable);
    let signal = soap(200, &Signal::receipt(near.template(), &stamp(3)));
    let error = far
        .unpack(&request("", carried(&signal.body)))
        .expect_err("no attachment");
    assert!(error.message.contains("is not attached"));
}

#[test]
fn the_first_attachment_of_a_name_is_the_payload() {
    let attachments = vec![
        ("a".to_string(), b"1".to_vec()),
        ("b".to_string(), b"2".to_vec()),
        ("b".to_string(), b"3".to_vec()),
    ];
    assert_eq!(payload(&attachments, "b"), Some(b"2".to_vec()));
    assert_eq!(payload(&attachments, "c"), None);
    let error = delivered("<x/>", &attachments, Err(protocol_error("unsigned".to_string())))
        .expect_err("not verified");
    assert_eq!(error.message, "unsigned");
}

#[test]
fn a_seal_is_put_on_and_checked_at_both_ends() {
    let near = end("Buyer", "Seller").signing_with(Sealed("k1"));
    let mut far = end("Seller", "Buyer").signing_with(Sealed("k1"));
    let post = near.post(b"ISA", "b1", stamp(2)).expect("posted");
    let one = request(&post.content_type, carried(&post.body));
    let (answer, taken) = accept(&mut far, &one, 3);
    assert_eq!(taken.expect("taken").expect("new").1.bytes, b"ISA");
    assert!(envelope_of(&answer).ends_with("<!--k1 0-->"));
    near.verify_receipt(&response(&answer), false, &post.message)
        .expect("receipted");
    let mut stranger = end("Seller", "Buyer").signing_with(Sealed("k2"));
    let (answer, taken) = accept(&mut stranger, &one, 3);
    assert_eq!(taken.expect_err("broken").message, "the seal is broken");
    assert_eq!(answer.status, 400);
    assert!(envelope_of(&answer).contains("errorCode=\"EBMS:0001\""));
    let error = near
        .verify_receipt(&response(&answer), false, &post.message)
        .expect_err("unsealed");
    assert_eq!(
        error.message,
        "the partner answered 400 \u{2014} no signal in the answer"
    );
}

#[test]
fn where_nothing_can_be_signed_nothing_is_sent_or_answered() {
    let locked = end("Seller", "Buyer").signing_with(Locked);
    assert_eq!(
        locked.post(b"ISA", "b1", stamp(2)).expect_err("locked").message,
        "no key"
    );
    let post = end("Buyer", "Seller").post(b"ISA", "b1", stamp(2)).expect("posted");
    let outcome = locked.weigh(&request(&post.content_type, carried(&post.body)));
    assert!(matches!(outcome, Outcome::Taken { .. }));
    assert_eq!(
        locked.answer(&outcome, &stamp(3)).expect_err("locked").message,
        "no key"
    );
}

#[test]
fn a_refusal_names_the_message_where_one_was_read() {
    let message = UserMessage::new("A", "B", "s", "a", stamp(7));
    let id = message.message_id.clone();
    let no = || protocol_error("no".to_string());
    match weighed(message, Vec::new(), Err(no())) {
        Outcome::Refused { ref_to, code, error } => {
            assert_eq!(ref_to, Some(id.clone()));
            assert_eq!(code, POLICY_NONCOMPLIANCE);
            let answer = refuse(&ref_to, code, &error, &stamp(8));
            assert_eq!(answer.status, 400);
            assert_eq!(
                Signal::from_envelope(&envelope_of(&answer)).expect("read"),
                Signal::Error {
                    ref_to: Some(id),
                    code: POLICY_NONCOMPLIANCE.to_string(),
                    description: "no".to_string(),
                }
            );
        }
        Outcome::Taken { .. } => panic!("refused"),
    }
    let later = TransportError {
        message: "later".to_string(),
        retryable: true,
    };
    let answer = refuse(&None, VALUE_NOT_RECOGNIZED, &later, &stamp(8));
    assert_eq!(answer.status, 503);
    assert!(envelope_of(&answer).contains(OTHER));
}

#[test]
fn an_answer_is_held_against_what_was_sent() {
    let receipt = |id: &str| {
        Ok(Signal::Receipt {
            ref_to: id.to_string(),
            message_id: "r".to_string(),
        })
    };
    let fault = || {
        Ok(Signal::Error {
            ref_to: None,
            code: "E".to_string(),
            description: "d".to_string(),
        })
    };
    assert!(held_against(200, false, receipt("1"), "1").is_ok());
    assert!(held_against(299, false, receipt("1"), "1").is_ok());
    let told = |r: Result<(), TransportError>| r.expect_err("told").message;
    assert_eq!(told(held_against(200, true, receipt("2"), "1")), "a receipt for 2, not for 1");
    assert_eq!(
        told(held_against(200, true, fault(), "1")),
        "the partner refused the message: E: d"
    );
    let unread = || Err(protocol_error("garbled".to_string()));
    assert_eq!(told(held_against(204, true, unread(), "1")), "garbled");
    assert_eq!(
        told(held_against(300, true, receipt("1"), "1")),
        "the partner answered 300 \u{2014} no signal in the answer"
    );
    assert_eq!(
        told(held_against(199, false, fault(), "1")),
        "the partner answered 199 \u{2014} E: d"
    );
    assert_eq!(
        told(held_against(500, false, unread(), "1")),
        "the partner answered 500 \u{2014} no signal in the answer"
    );
}

#[test]
fn the_oldest_id_is_forgotten_first_and_no_other() {
    let mut seen = Seen::new();
    for i in 0..REMEMBERED {
        assert!(!seen.remember(&i.to_string()));
    }
    for i in 0..REMEMBERED {
        assert!(seen.remember(&i.to_string()));
    }
    assert!(!seen.remember("new"));
    assert!(seen.remember("1"));
    assert!(!seen.remember("0"));
    assert!(!seen.remember("1"));
    assert!(seen.remember("3"));
}

#[test]
fn an_end_is_built_as_it_is_told() {
    let one = As4Transport::new("as4s://host/msh", "Buyer", "Seller", stamp(1));
    assert_eq!(one.endpoint(), "https://host/msh");
    assert_eq!(one.timeout(), None);
    assert_eq!(one.template().from, "Buyer");
    assert_eq!(one.template().to, "Seller");
    assert_eq!(one.template().service, TEST_SERVICE);
    assert_eq!(one.template().action, TEST_ACTION);
    assert_eq!(one.resolve(""), "https://host/msh");
    assert_eq!(one.resolve("as4://other/x"), "http://other/x");
    let one = one.under("s", "a").timing_out_after(Duration::from_secs(2));
    assert_eq!(one.template().service, "s");
    assert_eq!(one.template().action, "a");
    assert_eq!(one.timeout(), Some(Duration::from_secs(2)));
}

#[test]
fn a_scheme_is_put_on_the_wire() {
    assert_eq!(as_http("as4://h:1/msh"), "http://h:1/msh");
    assert_eq!(as_http("as4s://h:1/msh"), "https://h:1/msh");
    assert_eq!(as_http("http://h"), "http://h");
    assert_eq!(as_http("AS4://h"), "AS4://h");
    assert_eq!(as_http("as4:/"), "as4:/");
    assert_eq!(as_http(""), "");
    assert_eq!(as_http("as4://"), "http://");
    assert_eq!(as_http(&as_http("as4s://h")), "https://h");
}

#[test]
fn what_comes_again_or_is_refused_pushes_nothing_out() {
    let mut seen = Seen::new();
    assert!(!seen.remember("first"));
    assert!(!seen.remember("other"));
    for _ in 0..2 * REMEMBERED {
        assert!(seen.remember("other"));
    }
    assert!(seen.remember("first"));
    let mut far = end("Seller", "Buyer");
    let near = end("Buyer", "Seller");
    let post = near.post(b"once", "b1", stamp(5)).expect("posted");
    let one = request(&post.content_type, carried(&post.body));
    assert!(accept(&mut far, &one, 6).1.expect("taken").is_some());
    let hollow = request("text/plain", Body::Refused("cut".to_string()));
    for _ in 0..REMEMBERED + 1 {
        assert!(accept(&mut far, &hollow, 7).1.is_err());
    }
    assert!(accept(&mut far, &one, 8).1.expect("again").is_none());
}
