//! SOAP with attachments, as AS4 carries a message: a `multipart/related`
//! whose root part is the SOAP 1.2 envelope and whose other parts are the
//! payloads, each named by its `Content-ID` (AS4 profile section 2.1.1,
//! RFC 2387). A Signal Message with nothing attached travels as the
//! envelope alone, `application/soap+xml`.
//!
//! The multipart body itself, its boundary and its header syntax, is a MIME
//! codec's: it writes the [`Written`] parts of a [`Packed`] body and hands a
//! body it has read over as a [`Body`]. What is AS4's here is which part is
//! the envelope and how the others are named.

use vstd::prelude::*;
use vstd::slice::slice_to_vec;

use crate::error::{protocol_error, TransportError};
use crate::text::{owned, same_text};

#[allow(unused_imports)]
use crate::envelope::said;
#[allow(unused_imports)]
use crate::error::{protocol, Refusal};
#[allow(unused_imports)]
use crate::scan::pairs;
#[allow(unused_imports)]
use vstd::utf8::{decode_utf8, encode_utf8, valid_utf8};

verus! {

/// The media type of the envelope part.
pub const SOAP_TYPE: &'static str = "application/soap+xml";

/// The content id the envelope part carries.
pub const ROOT_CID: &'static str = "envelope@xmip";

/// The parts beside the envelope: each a content id and its bytes.
pub type Attachments = Vec<(String, Vec<u8>)>;

/// What attachments are.
pub open spec fn attached(attachments: Seq<(String, Vec<u8>)>) -> Seq<(Seq<char>, Seq<u8>)> {
    attachments.map_values(|a: (String, Vec<u8>)| (a.0@, a.1@))
}

/// One part to write: its headers, in order, and its bytes.
#[derive(Debug)]
pub struct Written {
    pub headers: Vec<(String, String)>,
    pub body: Vec<u8>,
}

/// What a [`Written`] part is.
#[verifier::ext_equal]
pub struct WrittenView {
    pub headers: Seq<(Seq<char>, Seq<char>)>,
    pub body: Seq<u8>,
}

impl View for Written {
    type V = WrittenView;

    open spec fn view(&self) -> WrittenView {
        WrittenView { headers: pairs(self.headers@), body: self.body@ }
    }
}

/// What several [`Written`] parts are.
pub open spec fn written(parts: Seq<Written>) -> Seq<WrittenView> {
    parts.map_values(|p: Written| p@)
}

/// A body to write.
#[derive(Debug)]
pub enum Packed {
    /// The envelope and nothing else.
    Alone(Vec<u8>),
    /// A multipart of `parts` between `boundary`.
    Parts { boundary: String, parts: Vec<Written> },
}

/// What a [`Packed`] body is.
#[verifier::ext_equal]
pub enum PackedView {
    Alone(Seq<u8>),
    Parts { boundary: Seq<char>, parts: Seq<WrittenView> },
}

impl View for Packed {
    type V = PackedView;

    open spec fn view(&self) -> PackedView {
        match self {
            Packed::Alone(bytes) => PackedView::Alone(bytes@),
            Packed::Parts { boundary, parts } => PackedView::Parts {
                boundary: boundary@,
                parts: written(parts@),
            },
        }
    }
}

/// One part that was read.
#[derive(Debug)]
pub struct Part {
    /// The media type its `Content-Type` names, in lower case and without
    /// parameters; empty where it has none.
    pub media_type: String,
    /// Its `Content-ID` without the angle brackets, where it has one.
    pub content_id: Option<String>,
    pub body: Vec<u8>,
}

/// What a [`Part`] is.
#[verifier::ext_equal]
pub struct PartView {
    pub media_type: Seq<char>,
    pub content_id: Option<Seq<char>>,
    pub body: Seq<u8>,
}

impl View for Part {
    type V = PartView;

    open spec fn view(&self) -> PartView {
        PartView {
            media_type: self.media_type@,
            content_id: said(self.content_id),
            body: self.body@,
        }
    }
}

/// What several [`Part`]s are.
pub open spec fn read_parts(parts: Seq<Part>) -> Seq<PartView> {
    parts.map_values(|p: Part| p@)
}

/// A body that was read by its `Content-Type`.
#[derive(Debug)]
pub enum Body {
    /// One whose `Content-Type` names no boundary: its media type, in lower
    /// case and without parameters, and its bytes.
    Single { media_type: String, bytes: Vec<u8> },
    /// The parts of a multipart.
    Multipart(Vec<Part>),
    /// A multipart that cannot be read, and why.
    Refused(String),
}

/// What a [`Body`] is.
#[verifier::ext_equal]
pub enum BodyView {
    Single { media_type: Seq<char>, bytes: Seq<u8> },
    Multipart(Seq<PartView>),
    Refused(Seq<char>),
}

impl View for Body {
    type V = BodyView;

    open spec fn view(&self) -> BodyView {
        match self {
            Body::Single { media_type, bytes } => BodyView::Single {
                media_type: media_type@,
                bytes: bytes@,
            },
            Body::Multipart(parts) => BodyView::Multipart(read_parts(parts@)),
            Body::Refused(why) => BodyView::Refused(why@),
        }
    }
}

/// The `Content-Type` of the envelope.
pub open spec fn soap_content_type() -> Seq<char> {
    SOAP_TYPE@ + "; charset=utf-8"@
}

/// The `Content-Type` of a multipart between `boundary`.
pub open spec fn multipart_content_type(boundary: Seq<char>) -> Seq<char> {
    "multipart/related; boundary=\""@ + boundary + "\"; type=\""@ + SOAP_TYPE@ + "\"; start=\"<"@
        + ROOT_CID@ + ">\""@
}

/// One part: its type, written `binary`, and its content id.
pub open spec fn part_of(cid: Seq<char>, content_type: Seq<char>, bytes: Seq<u8>) -> WrittenView {
    WrittenView {
        headers: seq![
            ("Content-Type"@, content_type),
            ("Content-Transfer-Encoding"@, "binary"@),
            ("Content-ID"@, "<"@ + cid + ">"@),
        ],
        body: bytes,
    }
}

/// One attachment as a part.
pub open spec fn attachment_part(attachment: (Seq<char>, Seq<u8>)) -> WrittenView {
    part_of(attachment.0, "application/octet-stream"@, attachment.1)
}

/// The envelope and the attachments as parts, the envelope first.
pub open spec fn parts_of(
    envelope: Seq<char>,
    attachments: Seq<(Seq<char>, Seq<u8>)>,
) -> Seq<WrittenView> {
    seq![part_of(ROOT_CID@, soap_content_type(), encode_utf8(envelope))] + attachments.map_values(
        |a: (Seq<char>, Seq<u8>)| attachment_part(a),
    )
}

/// `envelope` and `attachments` as one body, and its `Content-Type`.
pub open spec fn packed(
    envelope: Seq<char>,
    attachments: Seq<(Seq<char>, Seq<u8>)>,
    boundary: Seq<char>,
) -> (Seq<char>, PackedView) {
    if attachments.len() == 0 {
        (soap_content_type(), PackedView::Alone(encode_utf8(envelope)))
    } else {
        (
            multipart_content_type(boundary),
            PackedView::Parts { boundary, parts: parts_of(envelope, attachments) },
        )
    }
}

/// `media_type` is one an envelope part is written in.
pub open spec fn names_envelope(media_type: Seq<char>) -> bool {
    media_type == SOAP_TYPE@ || media_type == "text/xml"@ || media_type == "application/xml"@
}

/// What stands for bytes that are not UTF-8: their text with the replacement
/// character wherever they are not.
pub uninterp spec fn utf8_lossy(bytes: Seq<u8>) -> Seq<char>;

/// The text that `bytes` are in UTF-8.
pub open spec fn text_of(bytes: Seq<u8>) -> Seq<char> {
    if valid_utf8(bytes) {
        decode_utf8(bytes)
    } else {
        utf8_lossy(bytes)
    }
}

/// Part `i` is the envelope: the first whose type is an envelope's.
pub open spec fn is_root(parts: Seq<PartView>, i: int) -> bool {
    &&& 0 <= i < parts.len()
    &&& names_envelope(parts[i].media_type)
    &&& forall|j: int| 0 <= j < i ==> !names_envelope(#[trigger] parts[j].media_type)
}

/// A part beside the envelope as an attachment.
pub open spec fn named(part: PartView) -> (Seq<char>, Seq<u8>) {
    (
        match part.content_id {
            Some(cid) => cid,
            None => Seq::empty(),
        },
        part.body,
    )
}

/// Several parts as attachments, in order.
pub open spec fn all_named(parts: Seq<PartView>) -> Seq<(Seq<char>, Seq<u8>)> {
    parts.map_values(|p: PartView| named(p))
}

/// The envelope and the attachments a body carries.
pub open spec fn unpacked(content_type: Seq<char>, body: BodyView) -> Result<
    (Seq<char>, Seq<(Seq<char>, Seq<u8>)>),
    Refusal,
> {
    match body {
        BodyView::Single { media_type, bytes } => if names_envelope(media_type) {
            Ok((text_of(bytes), Seq::empty()))
        } else {
            Err(
                protocol(
                    "a body that is neither SOAP nor multipart/related: "@ + content_type,
                ),
            )
        },
        BodyView::Refused(why) => Err(protocol(why)),
        BodyView::Multipart(parts) => if exists|i: int| is_root(parts, i) {
            let i = choose|i: int| is_root(parts, i);
            Ok((text_of(parts[i].body), all_named(parts.remove(i))))
        } else {
            Err(protocol("a multipart with no SOAP envelope in it"@))
        },
    }
}

/// Calls [`String::from_utf8_lossy`]. Trusted to give the text of bytes that
/// are UTF-8, and on other bytes a text that depends on the bytes alone.
#[verifier::external_body]
fn lossy(bytes: &[u8]) -> (s: String)
    ensures
        s@ == (if valid_utf8(bytes@) {
            decode_utf8(bytes@)
        } else {
            utf8_lossy(bytes@)
        }),
{
    String::from_utf8_lossy(bytes).into_owned()
}

/// The `Content-Type` of the envelope.
fn soap_type() -> (s: String)
    ensures
        s@ == soap_content_type(),
{
    let mut s = owned(SOAP_TYPE);
    s.append("; charset=utf-8");
    s
}

/// `envelope` and `attachments`, each a content id and its bytes, as one
/// body, and the `Content-Type` that describes it. `boundary` is one that
/// none of them holds; where nothing is attached it is not needed.
#[must_use]
pub fn pack(envelope: &str, attachments: &[(String, Vec<u8>)], boundary: &str) -> (r: (
    String,
    Packed,
))
    ensures
        (r.0@, r.1@) == packed(envelope@, attached(attachments@), boundary@),
{
    let soap = soap_type();
    if attachments.len() == 0 {
        return (soap, Packed::Alone(slice_to_vec(envelope.as_bytes())));
    }
    let mut content_type = owned("multipart/related; boundary=\"");
    content_type.append(boundary);
    content_type.append("\"; type=\"");
    content_type.append(SOAP_TYPE);
    content_type.append("\"; start=\"<");
    content_type.append(ROOT_CID);
    content_type.append(">\"");
    let mut parts: Vec<Written> = Vec::new();
    parts.push(part(ROOT_CID, soap.as_str(), envelope.as_bytes()));
    let ghost all = attached(attachments@);
    for i in 0..attachments.len()
        invariant
            all == attached(attachments@),
            written(parts@) == parts_of(envelope@, all.take(i as int)),
    {
        let ghost before = parts@;
        parts.push(
            part(
                attachments[i].0.as_str(),
                "application/octet-stream",
                attachments[i].1.as_slice(),
            ),
        );
        proof {
            assert(all[i as int] == (attachments@[i as int].0@, attachments@[i as int].1@));
            assert(all.take(i + 1) =~= all.take(i as int).push(all[i as int]));
            assert(written(parts@) =~= written(before).push(attachment_part(all[i as int])));
            assert(parts_of(envelope@, all.take(i + 1)) =~= parts_of(
                envelope@,
                all.take(i as int),
            ).push(attachment_part(all[i as int])));
        }
    }
    proof {
        assert(all.take(attachments@.len() as int) =~= all);
    }
    (content_type, Packed::Parts { boundary: owned(boundary), parts })
}

/// The envelope and the attachments a body carries, read by its
/// `Content-Type`.
///
/// # Errors
/// Where the body is neither an envelope nor a multipart, the multipart
/// cannot be read, or no part of it is the envelope.
pub fn unpack(content_type: &str, body: &Body) -> (r: Result<
    (String, Attachments),
    TransportError,
>)
    ensures
        match unpacked(content_type@, body@) {
            Ok((envelope, attachments)) => r matches Ok(carried) && carried.0@ == envelope
                && attached(carried.1@) == attachments,
            Err(refusal) => r matches Err(e) && e@ == refusal,
        },
{
    let parts = match body {
        Body::Single { media_type, bytes } => {
            if is_envelope(media_type.as_str()) {
                let none: Attachments = Vec::new();
                proof {
                    assert(attached(none@) =~= Seq::empty());
                }
                return Ok((lossy(bytes.as_slice()), none));
            }
            let mut why = owned("a body that is neither SOAP nor multipart/related: ");
            why.append(content_type);
            return Err(protocol_error(why));
        },
        Body::Refused(why) => return Err(protocol_error(owned(why.as_str()))),
        Body::Multipart(parts) => parts,
    };
    let ghost all = read_parts(parts@);
    let mut envelope: Option<String> = None;
    let mut attachments: Attachments = Vec::new();
    let ghost mut root: int = -1;
    proof {
        assert(attached(attachments@) =~= all_named(all.take(0)));
    }
    for i in 0..parts.len()
        invariant
            all == read_parts(parts@),
            match envelope {
                None => {
                    &&& forall|j: int| 0 <= j < i ==> !names_envelope(#[trigger] all[j].media_type)
                    &&& attached(attachments@) == all_named(all.take(i as int))
                },
                Some(text) => {
                    &&& root < i
                    &&& is_root(all, root)
                    &&& text@ == text_of(all[root].body)
                    &&& attached(attachments@) == all_named(all.take(i as int).remove(root))
                },
            },
    {
        let part = &parts[i];
        proof {
            assert(all[i as int] == part@);
            assert(all.take(i + 1) =~= all.take(i as int).push(all[i as int]));
        }
        if envelope.is_none() && is_envelope(part.media_type.as_str()) {
            envelope = Some(lossy(part.body.as_slice()));
            proof {
                root = i as int;
                assert(all.take(i + 1).remove(root) =~= all.take(i as int));
            }
        } else {
            let cid = match &part.content_id {
                Some(cid) => owned(cid.as_str()),
                None => String::new(),
            };
            let ghost before = attachments@;
            attachments.push((cid, slice_to_vec(part.body.as_slice())));
            proof {
                assert(attached(attachments@) =~= attached(before).push(named(part@)));
                if envelope is None {
                    assert(all_named(all.take(i + 1)) =~= all_named(all.take(i as int)).push(
                        named(part@),
                    ));
                } else {
                    assert(all.take(i + 1).remove(root) =~= all.take(i as int).remove(root).push(
                        all[i as int],
                    ));
                    assert(all_named(all.take(i + 1).remove(root)) =~= all_named(
                        all.take(i as int).remove(root),
                    ).push(named(part@)));
                }
            }
        }
    }
    proof {
        assert(all.take(all.len() as int) =~= all);
    }
    match envelope {
        Some(envelope) => {
            proof {
                lemma_one_root(all, root);
            }
            Ok((envelope, attachments))
        },
        None => Err(protocol_error(owned("a multipart with no SOAP envelope in it"))),
    }
}

/// One part: its type, written `binary`, and its content id.
fn part(cid: &str, content_type: &str, bytes: &[u8]) -> (p: Written)
    ensures
        p@ == part_of(cid@, content_type@, bytes@),
{
    let mut id = owned("<");
    id.append(cid);
    id.append(">");
    let mut headers: Vec<(String, String)> = Vec::new();
    headers.push((owned("Content-Type"), owned(content_type)));
    headers.push((owned("Content-Transfer-Encoding"), owned("binary")));
    headers.push((owned("Content-ID"), id));
    let p = Written { headers, body: slice_to_vec(bytes) };
    proof {
        assert(p@.headers =~= part_of(cid@, content_type@, bytes@).headers);
    }
    p
}

/// Whether `media_type` is one an envelope part is written in.
fn is_envelope(media_type: &str) -> (b: bool)
    ensures
        b == names_envelope(media_type@),
{
    same_text(media_type, SOAP_TYPE) || same_text(media_type, "text/xml") || same_text(
        media_type,
        "application/xml",
    )
}

/// A multipart has one envelope part at most.
proof fn lemma_one_root(parts: Seq<PartView>, i: int)
    requires
        is_root(parts, i),
    ensures
        unpacked(Seq::empty(), BodyView::Multipart(parts)) == Ok::<
            (Seq<char>, Seq<(Seq<char>, Seq<u8>)>),
            Refusal,
        >((text_of(parts[i].body), all_named(parts.remove(i)))),
{
    let k = choose|k: int| is_root(parts, k);
    assert(is_root(parts, k));
    if k < i {
        assert(!names_envelope(parts[k].media_type));
    }
    if i < k {
        assert(!names_envelope(parts[i].media_type));
    }
}

/// `part` is read as it was written: its bytes, its content id, and the media
/// type of an envelope.
pub open spec fn reads_back(written: WrittenView, part: PartView) -> bool {
    &&& part.body == written.body
    &&& forall|cid: Seq<char>|
        #[trigger] written.headers.contains(("Content-ID"@, "<"@ + cid + ">"@)) ==> part.content_id
            == Some(cid)
    &&& written.headers.contains(("Content-Type"@, soap_content_type())) ==> part.media_type
        == SOAP_TYPE@
}

/// `parts` are read as they were written, each of them and in order.
pub open spec fn all_read_back(written: Seq<WrittenView>, parts: Seq<PartView>) -> bool {
    &&& parts.len() == written.len()
    &&& forall|i: int| 0 <= i < parts.len() ==> reads_back(written[i], #[trigger] parts[i])
}

/// An envelope and its attachments come back off the body they went in, in
/// order and to the byte, where each part is read as it was written.
pub proof fn an_envelope_and_its_attachments_come_back(
    envelope: Seq<char>,
    attachments: Seq<(Seq<char>, Seq<u8>)>,
    content_type: Seq<char>,
    parts: Seq<PartView>,
)
    requires
        all_read_back(parts_of(envelope, attachments), parts),
    ensures
        unpacked(content_type, BodyView::Multipart(parts)) == Ok::<
            (Seq<char>, Seq<(Seq<char>, Seq<u8>)>),
            Refusal,
        >((envelope, attachments)),
{
    let written = parts_of(envelope, attachments);
    assert(reads_back(written[0], parts[0]));
    assert(written[0].headers[0] == ("Content-Type"@, soap_content_type()));
    assert(is_root(parts, 0));
    lemma_one_root(parts, 0);
    lemma_text(envelope);
    let rest = all_named(parts.remove(0));
    assert(rest.len() == attachments.len());
    assert forall|i: int| 0 <= i < rest.len() implies #[trigger] rest[i] == attachments[i] by {
        assert(parts.remove(0)[i] == parts[i + 1]);
        assert(written[i + 1] == attachment_part(attachments[i]));
        assert(reads_back(written[i + 1], parts[i + 1]));
        assert(written[i + 1].headers[2] == ("Content-ID"@, "<"@ + attachments[i].0 + ">"@));
        assert(written[i + 1].headers.contains(("Content-ID"@, "<"@ + attachments[i].0 + ">"@)));
    }
    assert(rest =~= attachments);
}

/// A signal travels as the envelope alone, and comes back off it with nothing
/// attached.
pub proof fn a_signal_comes_back_alone(
    envelope: Seq<char>,
    boundary: Seq<char>,
    content_type: Seq<char>,
)
    ensures
        packed(envelope, Seq::empty(), boundary) == (
            soap_content_type(),
            PackedView::Alone(encode_utf8(envelope)),
        ),
        unpacked(
            content_type,
            BodyView::Single { media_type: SOAP_TYPE@, bytes: encode_utf8(envelope) },
        ) == Ok::<(Seq<char>, Seq<(Seq<char>, Seq<u8>)>), Refusal>((envelope, Seq::empty())),
{
    lemma_text(envelope);
}

proof fn lemma_text(s: Seq<char>)
    ensures
        text_of(encode_utf8(s)) == s,
{
    vstd::utf8::encode_utf8_valid_utf8(s);
    vstd::utf8::encode_utf8_decode_utf8(s);
}

} // verus!
