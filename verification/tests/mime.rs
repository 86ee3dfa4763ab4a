//! SOAP with attachments, over a small MIME reader and writer.

use as4::mime::{pack, unpack, Body, Packed, Part, Written, ROOT_CID, SOAP_TYPE};

/// The body as it goes on the wire.
fn write(packed: &Packed) -> Vec<u8> {
    match packed {
        Packed::Alone(bytes) => bytes.clone(),
        Packed::Parts { boundary, parts } => {
            let mut out = Vec::new();
            for part in parts {
                out.extend_from_slice(format!("--{boundary}\r\n").as_bytes());
                for (name, value) in &part.headers {
                    out.extend_from_slice(format!("{name}: {value}\r\n").as_bytes());
                }
                out.extend_from_slice(b"\r\n");
                out.extend_from_slice(&part.body);
                out.extend_from_slice(b"\r\n");
            }
            out.extend_from_slice(format!("--{boundary}--\r\n").as_bytes());
            out
        }
    }
}

fn media_type(content_type: &str) -> String {
    content_type
        .split(';')
        .next()
        .unwrap_or_default()
        .trim()
        .to_ascii_lowercase()
}

fn find(bytes: &[u8], word: &[u8]) -> Option<usize> {
    bytes.windows(word.len()).position(|w| w == word)
}

/// The body as it is read off the wire.
fn read(content_type: &str, bytes: &[u8]) -> Body {
    let boundary = content_type.split(';').skip(1).find_map(|parameter| {
        let (name, value) = parameter.split_once('=')?;
        (name.trim() == "boundary").then_some(value.trim().trim_matches('"').to_string())
    });
    let Some(boundary) = boundary else {
        return Body::Single {
            media_type: media_type(content_type),
            bytes: bytes.to_vec(),
        };
    };
    let dash = format!("--{boundary}");
    let next = format!("\r\n--{boundary}");
    let mut parts = Vec::new();
    let mut rest = bytes;
    loop {
        let Some(after) = rest.strip_prefix(dash.as_bytes()) else {
            return Body::Refused("no boundary".to_string());
        };
        if after.starts_with(b"--") {
            return Body::Multipart(parts);
        }
        let Some(head) = find(after, b"\r\n\r\n") else {
            return Body::Refused("a part with no head".to_string());
        };
        let content = &after[head + 4..];
        let Some(end) = find(content, next.as_bytes()) else {
            return Body::Refused("a part with no end".to_string());
        };
        let mut part = Part {
            media_type: String::new(),
            content_id: None,
            body: content[..end].to_vec(),
        };
        for line in String::from_utf8_lossy(&after[..head]).lines() {
            if let Some((name, value)) = line.split_once(':') {
                match name.trim().to_ascii_lowercase().as_str() {
                    "content-type" => part.media_type = media_type(value),
                    "content-id" => {
                        let id = value.trim().trim_start_matches('<').trim_end_matches('>');
                        part.content_id = Some(id.to_string());
                    }
                    _ => {}
                }
            }
        }
        parts.push(part);
        rest = &content[end + 2..];
    }
}

fn refusal(content_type: &str, body: &Body) -> String {
    let error = unpack(content_type, body).expect_err("refused");
    assert!(!error.retryable);
    error.message
}

fn part(media_type: &str, content_id: Option<&str>, body: &[u8]) -> Part {
    Part {
        media_type: media_type.to_string(),
        content_id: content_id.map(String::from),
        body: body.to_vec(),
    }
}

#[test]
fn an_envelope_and_its_attachments_come_back_off_the_body_they_went_in() {
    let every: Vec<u8> = (0..=255).collect();
    let attachments = vec![
        ("payload@xmip".to_string(), every.clone()),
        ("empty@xmip".to_string(), Vec::new()),
        ("crlf@xmip".to_string(), b"\r\n--\r\n".to_vec()),
    ];
    let (content_type, packed) = pack("<Envelope/>", &attachments, "=_xmip_1");
    let body = write(&packed);
    assert!(content_type.starts_with("multipart/related; boundary=\"=_xmip_"));
    assert!(body.ends_with(b"--\r\n"));
    let (envelope, back) = unpack(&content_type, &read(&content_type, &body)).expect("unpacked");
    assert_eq!(envelope, "<Envelope/>");
    assert_eq!(back, attachments);
}

#[test]
fn a_signal_travels_as_the_envelope_alone() {
    let (content_type, packed) = pack("<Receipt/>", &[], "");
    let body = write(&packed);
    assert_eq!(content_type, "application/soap+xml; charset=utf-8");
    assert_eq!(body, b"<Receipt/>");
    let (envelope, back) = unpack(&content_type, &read(&content_type, &body)).expect("unpacked");
    assert_eq!(envelope, "<Receipt/>");
    assert!(back.is_empty());
}

#[test]
fn a_partner_body_is_read_as_it_was_written_and_a_hollow_one_refused() {
    let theirs = b"--b1\r\nContent-Type: text/xml\r\n\r\n<E/>\r\n\
        --b1\r\nContent-ID: <p1>\r\nContent-Type: application/octet-stream\r\n\r\nUNA\r\n\
        --b1--\r\n";
    let kind = "Multipart/Related; type=\"text/xml\"; boundary=b1";
    let (envelope, back) = unpack(kind, &read(kind, theirs)).expect("unpacked");
    assert_eq!(envelope, "<E/>");
    assert_eq!(back, vec![("p1".to_string(), b"UNA".to_vec())]);
    assert!(unpack("text/plain", &read("text/plain", b"hello")).is_err());
    let cut = b"--b1\r\nContent-Type: text/xml\r\n\r\n<E/>";
    assert!(unpack(kind, &read(kind, cut)).is_err());
    let hollow = b"--b1\r\nContent-ID: <p>\r\n\r\nx\r\n--b1--\r\n";
    assert!(unpack(kind, &read(kind, hollow)).is_err());
}

#[test]
fn the_parts_are_headed_to_the_letter() {
    let attachments = vec![("p@x".to_string(), b"UNA".to_vec())];
    let (content_type, packed) = pack("<E/>", &attachments, "b1");
    assert_eq!(
        content_type,
        "multipart/related; boundary=\"b1\"; type=\"application/soap+xml\"; \
         start=\"<envelope@xmip>\""
    );
    let Packed::Parts { boundary, parts } = packed else {
        panic!("parts");
    };
    assert_eq!(boundary, "b1");
    assert_eq!(parts.len(), 2);
    let headers = |part: &Written| -> Vec<String> {
        part.headers
            .iter()
            .map(|(name, value)| format!("{name}: {value}"))
            .collect()
    };
    assert_eq!(
        headers(&parts[0]),
        vec![
            format!("Content-Type: {SOAP_TYPE}; charset=utf-8"),
            "Content-Transfer-Encoding: binary".to_string(),
            format!("Content-ID: <{ROOT_CID}>"),
        ]
    );
    assert_eq!(parts[0].body, b"<E/>");
    assert_eq!(
        headers(&parts[1]),
        vec![
            "Content-Type: application/octet-stream".to_string(),
            "Content-Transfer-Encoding: binary".to_string(),
            "Content-ID: <p@x>".to_string(),
        ]
    );
    assert_eq!(parts[1].body, b"UNA");
}

#[test]
fn the_first_envelope_part_is_the_envelope_wherever_it_stands() {
    let body = Body::Multipart(vec![
        part("application/octet-stream", Some("a"), b"1"),
        part("application/xml", Some("b"), b"<E/>"),
        part("text/xml", None, b"<F/>"),
    ]);
    let (envelope, attachments) = unpack("", &body).expect("unpacked");
    assert_eq!(envelope, "<E/>");
    assert_eq!(
        attachments,
        vec![
            ("a".to_string(), b"1".to_vec()),
            (String::new(), b"<F/>".to_vec()),
        ]
    );
}

#[test]
fn each_refusal_of_a_body_says_why() {
    assert_eq!(
        refusal("Text/Plain; x=1", &read("Text/Plain; x=1", b"hello")),
        "a body that is neither SOAP nor multipart/related: Text/Plain; x=1"
    );
    assert_eq!(
        refusal("", &Body::Multipart(Vec::new())),
        "a multipart with no SOAP envelope in it"
    );
    assert_eq!(
        refusal("", &Body::Refused("a part with no end".to_string())),
        "a part with no end"
    );
}

#[test]
fn bytes_that_are_no_text_are_replaced_and_text_is_kept() {
    let single = |bytes: &[u8]| Body::Single {
        media_type: SOAP_TYPE.to_string(),
        bytes: bytes.to_vec(),
    };
    let (envelope, _) = unpack("", &single(b"a\xffb")).expect("unpacked");
    assert_eq!(envelope, "a\u{fffd}b");
    let (envelope, _) = unpack("", &single("\u{e9}\u{2014}\u{1f600}".as_bytes())).expect("unpacked");
    assert_eq!(envelope, "\u{e9}\u{2014}\u{1f600}");
}
