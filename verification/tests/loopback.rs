//! One party at both ends, with the wire left out.

use as4::envelope::next_id;
use as4::loopback::{taken, PARTY};
use as4::mime::{Body, Packed, Part, SOAP_TYPE};
use as4::{Arrived, As4Transport, Check, Request, Response, Signer, Stamp};
use std::time::Duration;

fn stamp(count: u64) -> Stamp {
    Stamp {
        message_id: next_id(Some(1_700_000_000_000_000_000), count),
        timestamp: "2023-11-14T22:13:20Z".to_string(),
    }
}

/// A body as the other end reads it.
fn carried(packed: Packed) -> Body {
    match packed {
        Packed::Alone(bytes) => Body::Single {
            media_type: SOAP_TYPE.to_string(),
            bytes,
        },
        Packed::Parts { parts, .. } => Body::Multipart(
            parts
                .into_iter()
                .map(|part| Part {
                    media_type: part.headers[0].1.split(';').next().unwrap_or_default().to_string(),
                    content_id: Some(part.headers[2].1.trim_matches(['<', '>']).to_string()),
                    body: part.body,
                })
                .collect(),
        ),
    }
}

/// One payload from the near end to the far end and its receipt back.
fn round<S: Signer, C: Check>(pair: &As4Transport<S, C>, bytes: &[u8], count: u64) -> Arrived {
    let mut far = pair.far_end();
    let near = pair.near_end("127.0.0.1:4711", "/msh");
    assert_eq!(near.endpoint(), "http://127.0.0.1:4711/msh");
    let post = near.post(bytes, "b1", stamp(count)).expect("posted");
    let request = Request {
        method: "POST".to_string(),
        path: "/msh".to_string(),
        content_type: Some(post.content_type),
        body: carried(post.body),
    };
    let outcome = far.weigh(&request);
    let answer = far.answer(&outcome, &stamp(count + 1)).expect("answered");
    let response = Response {
        status: answer.status,
        content_type: Some(answer.content_type),
        body: carried(answer.body),
    };
    near.verify_receipt(&response, false, &post.message)
        .expect("receipted");
    let one = far
        .settle("127.0.0.1:4712", &request.path, outcome)
        .expect("settled");
    taken(one).expect("taken")
}

fn edge_payloads() -> Vec<(&'static str, Vec<u8>)> {
    vec![
        ("empty", Vec::new()),
        ("one byte", vec![0x2a]),
        ("every byte", (0..=255).collect()),
        ("nul run", vec![0; 512]),
        ("high bytes", vec![0xff; 512]),
        ("crlf storm", b"\r\n".repeat(400)),
    ]
}

#[test]
fn the_loopback_returns_the_edge_payloads_whole() {
    let pair = As4Transport::loopback(Duration::from_secs(2), stamp(1));
    for (name, bytes) in edge_payloads() {
        let arrived = round(&pair, &bytes, 2);
        assert_eq!(arrived.bytes, bytes, "{name}");
    }
}

#[test]
fn a_message_is_posted_and_its_receipt_names_it() {
    let pair = As4Transport::loopback(Duration::from_secs(2), stamp(1)).under("urn:svc", "Submit");
    let first = round(&pair, b"ISA*00*", 2);
    assert_eq!(first.bytes, b"ISA*00*");
    assert!(first.origin_uri.starts_with("as4://127.0.0.1:"));
    assert!(first.origin_uri.contains("/msh?from=Xmip&message-id="));
    assert!(first.origin_uri.ends_with("@xmip&action=Submit"));
    let long = vec![0x2a; 200_000];
    let second = round(&pair, &long, 4);
    assert_eq!(second.bytes, long);
    let third = round(&pair, b"", 6);
    assert!(third.bytes.is_empty());
}

#[test]
fn the_far_end_is_this_party_unsigned_and_receipts_what_it_takes() {
    let pair = As4Transport::loopback(Duration::from_secs(2), stamp(1)).under("urn:svc", "Submit");
    let arrived = round(&pair, b"ISA*00*", 2);
    assert_eq!(arrived.bytes, b"ISA*00*");
    assert!(arrived.origin_uri.starts_with("as4://127.0.0.1:"));
    assert!(arrived.origin_uri.contains("/msh?from=Xmip&message-id="));
    assert!(arrived.origin_uri.ends_with("@xmip&action=Submit"));
    assert_eq!(pair.template().to, PARTY);
}

#[test]
fn a_loopback_is_one_party_on_this_machine() {
    let pair = As4Transport::loopback(Duration::from_secs(5), stamp(1));
    assert_eq!(pair.endpoint(), "http://127.0.0.1:0/msh");
    assert_eq!(pair.far_end().endpoint(), "http://127.0.0.1:0/msh");
    assert_eq!(pair.timeout(), Some(Duration::from_secs(5)));
    assert_eq!(pair.twin("x".to_string()).timeout(), Some(Duration::from_secs(5)));
    assert_eq!(pair.template().from, PARTY);
    let error = taken(None).expect_err("seen before");
    assert_eq!(error.message, "a message seen before: receipted, not delivered");
    assert!(!error.retryable);
}
