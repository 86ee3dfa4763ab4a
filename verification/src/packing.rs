//! What a body is made of, and what is made of a body, told by the parts: a
//! multipart can be taken apart by the `Content-Type` that describes it, its
//! parts are the envelope and each attachment, and the envelope is found
//! again whatever else is beside it.

use vstd::prelude::*;

#[allow(unused_imports)]
use crate::mime::{
    all_named, attached, is_root, named, names_envelope, packed, text_of, unpacked, Body, BodyView,
    Packed, PackedView, Part, PartView, Written,
};
#[allow(unused_imports)]
use crate::text::{
    find_char, find_word, first_occurrence, is_char, lemma_first_where, occurs_at,
};
#[allow(unused_imports)]
use crate::wire::{Request, Response};
#[allow(unused_imports)]
use vstd::utf8::{encode_utf8, valid_utf8};

verus! {

/// The parameter `name` of a `Content-Type`: what stands between the quote
/// after the first `name="` in it and the next quote.
pub open spec fn parameter(content_type: Seq<char>, name: Seq<char>) -> Option<Seq<char>> {
    match find_word(content_type, name + "=\""@) {
        Some(at) => {
            let value = content_type.skip((at + name.len() + 2) as int);
            match find_char(value, '"') {
                Some(end) => Some(value.take(end)),
                None => None,
            }
        },
        None => None,
    }
}

/// A parameter is found where its name stands first, and ends at its quote.
proof fn lemma_parameter(
    s: Seq<char>,
    lead: Seq<char>,
    name: Seq<char>,
    value: Seq<char>,
    rest: Seq<char>,
)
    requires
        s == lead + (name + "=\""@) + value + "\""@ + rest,
        forall|j: int| 0 <= j < lead.len() ==> !#[trigger] occurs_at(s, name + "=\""@, j),
        forall|i: int| 0 <= i < value.len() ==> #[trigger] value[i] != '"',
    ensures
        parameter(s, name) == Some(value),
{
    reveal_strlit("=\"");
    reveal_strlit("\"");
    let word = name + "=\""@;
    let at = lead.len() as int;
    assert(s.subrange(at, at + word.len()) =~= word);
    assert(first_occurrence(s, word, at));
    let found = find_word(s, word)->0;
    assert(first_occurrence(s, word, found));
    if found < at {
        assert(!occurs_at(s, word, found));
    }
    if at < found {
        assert(!occurs_at(s, word, at));
    }
    let tail = s.skip(at + name.len() + 2);
    let end = value.len() as int;
    assert(tail =~= value + "\""@ + rest);
    assert(tail[end] == '"');
    assert forall|j: int| 0 <= j < end implies !is_char('"')(#[trigger] tail[j]) by {
        assert(tail[j] == value[j]);
    }
    lemma_first_where(tail, is_char('"'), end);
    assert(tail.take(end) =~= value);
}

/// The boundary that the `Content-Type` of a multipart gives is the one its
/// parts stand between, and what it was packed with.
pub proof fn the_content_type_gives_the_boundary(
    envelope: Seq<char>,
    attachments: Seq<(Seq<char>, Seq<u8>)>,
    boundary: Seq<char>,
)
    requires
        attachments.len() > 0,
        forall|i: int| 0 <= i < boundary.len() ==> #[trigger] boundary[i] != '"',
    ensures
        ({
            let (content_type, body) = packed(envelope, attachments, boundary);
            body matches PackedView::Parts { boundary: between, parts } && between == boundary
                && parameter(content_type, "boundary"@) == Some(between)
        }),
{
    reveal_strlit("multipart/related; boundary=\"");
    reveal_strlit("multipart/related; ");
    reveal_strlit("boundary");
    reveal_strlit("=\"");
    reveal_strlit("\"; type=\"");
    reveal_strlit("\"");
    let s = packed(envelope, attachments, boundary).0;
    let lead = "multipart/related; "@;
    let name = "boundary"@;
    let rest = s.skip(29int + boundary.len() + 1);
    assert(s.take(29) =~= "multipart/related; boundary=\""@);
    assert(lead + (name + "=\""@) =~= s.take(29));
    assert(s.subrange(29, 29int + boundary.len()) =~= boundary);
    assert(s[29int + boundary.len()] == '"');
    assert(s =~= lead + (name + "=\""@) + boundary + "\""@ + rest);
    assert forall|j: int| 0 <= j < lead.len() implies !#[trigger] occurs_at(
        s,
        name + "=\""@,
        j,
    ) by {
        if occurs_at(s, name + "=\""@, j) {
            let word = s.subrange(j, j + 10);
            assert(word == name + "=\""@);
            assert(word[0] == s[j] && s[j] == s.take(29)[j]);
            assert(word[0] == 'b');
        }
    }
    lemma_parameter(s, lead, name, boundary, rest);
}

/// A body is a multipart exactly where something is attached. Its
/// `Content-Type` says that it is one of an envelope, and by which content id
/// the envelope is found; its first part is the envelope in UTF-8 under that
/// content id, and after it comes each attachment, in order and to the byte,
/// under its own.
pub proof fn a_multipart_is_the_envelope_and_each_attachment(
    envelope: Seq<char>,
    attachments: Seq<(Seq<char>, Seq<u8>)>,
    boundary: Seq<char>,
    i: int,
)
    ensures
        packed(envelope, attachments, boundary).1 is Alone <==> attachments.len() == 0,
        packed(envelope, attachments, boundary).1 matches PackedView::Alone(bytes) ==> bytes
            == encode_utf8(envelope) && packed(envelope, attachments, boundary).0
            == "application/soap+xml"@ + "; charset=utf-8"@,
        packed(envelope, attachments, boundary).1 matches PackedView::Parts { boundary: b, parts }
            ==> {
            &&& b == boundary
            &&& packed(envelope, attachments, boundary).0 == "multipart/related; boundary=\""@ + b
                + "\"; type=\""@ + "application/soap+xml"@ + "\"; start=\"<"@ + "envelope@xmip"@
                + ">\""@
            &&& parts.len() == attachments.len() + 1
            &&& parts[0].body == encode_utf8(envelope)
            &&& parts[0].headers.len() == 3
            &&& parts[0].headers[0] == (
                "Content-Type"@,
                "application/soap+xml"@ + "; charset=utf-8"@,
            )
            &&& parts[0].headers[1] == ("Content-Transfer-Encoding"@, "binary"@)
            &&& parts[0].headers[2] == ("Content-ID"@, "<"@ + "envelope@xmip"@ + ">"@)
            &&& 0 <= i < attachments.len() ==> {
                &&& parts[i + 1].body == attachments[i].1
                &&& parts[i + 1].headers.len() == 3
                &&& parts[i + 1].headers[0] == ("Content-Type"@, "application/octet-stream"@)
                &&& parts[i + 1].headers[1] == ("Content-Transfer-Encoding"@, "binary"@)
                &&& parts[i + 1].headers[2] == ("Content-ID"@, "<"@ + attachments[i].0 + ">"@)
            }
        },
{
}

/// Bytes that are a text in UTF-8 are read as that text, and as no other.
pub proof fn a_text_is_read_off_its_bytes(s: Seq<char>, bytes: Seq<u8>)
    ensures
        text_of(encode_utf8(s)) == s,
        valid_utf8(bytes) ==> encode_utf8(text_of(bytes)) == bytes,
{
    vstd::utf8::encode_utf8_valid_utf8(s);
    vstd::utf8::encode_utf8_decode_utf8(s);
    if valid_utf8(bytes) {
        vstd::utf8::decode_utf8_encode_utf8(bytes);
    }
}

/// A body that is not a multipart is the envelope alone where it is written
/// in one of the three types an envelope is, and else refused by what it says
/// it is.
pub proof fn a_single_body_is_the_envelope(
    content_type: Seq<char>,
    media_type: Seq<char>,
    s: Seq<char>,
)
    ensures
        ({
            let body = BodyView::Single { media_type, bytes: encode_utf8(s) };
            if media_type == "application/soap+xml"@ || media_type == "text/xml"@ || media_type
                == "application/xml"@ {
                unpacked(content_type, body) matches Ok((envelope, attachments)) && envelope == s
                    && attachments.len() == 0
            } else {
                unpacked(content_type, body) matches Err(e) && !e.retryable && e.message
                    == "a body that is neither SOAP nor multipart/related: "@ + content_type
            }
        }),
{
    a_text_is_read_off_its_bytes(s, Seq::empty());
}

/// A multipart that could not be read is refused for the reason it could not.
pub proof fn an_unread_multipart_is_refused_for_its_reason(content_type: Seq<char>, why: Seq<char>)
    ensures
        unpacked(content_type, BodyView::Refused(why)) matches Err(e) && !e.retryable && e.message
            == why,
{
}

/// The first part of a multipart that is written in a type an envelope is
/// written in is the envelope, wherever it stands. Every other is an
/// attachment: all of them, in order, each under its content id and to the
/// byte.
pub proof fn the_first_envelope_part_is_the_envelope(
    content_type: Seq<char>,
    parts: Seq<PartView>,
    i: int,
    j: int,
)
    requires
        0 <= i < parts.len(),
        parts[i].media_type == "application/soap+xml"@ || parts[i].media_type == "text/xml"@
            || parts[i].media_type == "application/xml"@,
        forall|k: int|
            0 <= k < i ==> (#[trigger] parts[k]).media_type != "application/soap+xml"@
                && parts[k].media_type != "text/xml"@ && parts[k].media_type
                != "application/xml"@,
    ensures
        unpacked(content_type, BodyView::Multipart(parts)) matches Ok((envelope, attachments)) && {
            &&& envelope == text_of(parts[i].body)
            &&& attachments.len() == parts.len() - 1
            &&& 0 <= j < i ==> attachments[j].1 == parts[j].body && (match parts[j].content_id {
                Some(cid) => attachments[j].0 == cid,
                None => attachments[j].0.len() == 0,
            })
            &&& i < j < parts.len() ==> attachments[j - 1].1 == parts[j].body && (
            match parts[j].content_id {
                Some(cid) => attachments[j - 1].0 == cid,
                None => attachments[j - 1].0.len() == 0,
            })
        },
{
    assert(is_root(parts, i));
    let k = choose|k: int| is_root(parts, k);
    assert(is_root(parts, k));
    if k < i {
        assert(parts[k].media_type != "application/soap+xml"@);
    }
    if i < k {
        assert(!names_envelope(parts[i].media_type));
    }
    let rest = all_named(parts.remove(i));
    if 0 <= j < i {
        assert(parts.remove(i)[j] == parts[j]);
        assert(rest[j] == named(parts[j]));
    }
    if i < j < parts.len() {
        assert(parts.remove(i)[j - 1] == parts[j]);
        assert(rest[j - 1] == named(parts[j]));
    }
}

/// A multipart is refused where no part is written in a type an envelope is
/// written in.
pub proof fn a_multipart_with_no_envelope_is_refused(content_type: Seq<char>, parts: Seq<PartView>)
    requires
        forall|k: int|
            0 <= k < parts.len() ==> (#[trigger] parts[k]).media_type != "application/soap+xml"@
                && parts[k].media_type != "text/xml"@ && parts[k].media_type
                != "application/xml"@,
    ensures
        unpacked(content_type, BodyView::Multipart(parts)) matches Err(e) && !e.retryable
            && e.message == "a multipart with no SOAP envelope in it"@,
{
    assert forall|k: int| !is_root(parts, k) by {
        if 0 <= k < parts.len() {
            assert(parts[k].media_type != "application/soap+xml"@);
        }
    }
}

/// What a part or a body is, is what it holds.
pub proof fn a_body_is_what_it_holds(
    part: Part,
    written: Written,
    body: Body,
    pack: Packed,
    request: Request,
    response: Response,
    i: int,
)
    ensures
        part@.media_type == part.media_type@,
        part@.body == part.body@,
        part.content_id matches Some(cid) ==> part@.content_id == Some(cid@),
        part.content_id is None ==> part@.content_id is None,
        written@.body == written.body@,
        written@.headers.len() == written.headers@.len(),
        0 <= i < written.headers@.len() ==> written@.headers[i] == (
            written.headers@[i].0@,
            written.headers@[i].1@,
        ),
        body matches Body::Single { media_type, bytes } ==> body@ == (BodyView::Single {
            media_type: media_type@,
            bytes: bytes@,
        }),
        body matches Body::Refused(why) ==> body@ == BodyView::Refused(why@),
        body matches Body::Multipart(parts) ==> (body@ matches BodyView::Multipart(seen)
            && seen.len() == parts@.len() && (0 <= i < parts@.len() ==> seen[i] == parts@[i]@)),
        pack matches Packed::Alone(bytes) ==> pack@ == PackedView::Alone(bytes@),
        pack matches Packed::Parts { boundary, parts } ==> (pack@ matches PackedView::Parts {
            boundary: b,
            parts: seen,
        } && b == boundary@ && seen.len() == parts@.len() && (0 <= i < parts@.len() ==> seen[i]
            == parts@[i]@)),
        request@.method == request.method@,
        request@.path == request.path@,
        request@.body == request.body@,
        request.content_type matches Some(t) ==> request@.content_type == Some(t@),
        request.content_type is None ==> request@.content_type is None,
        response@.status == response.status,
        response@.body == response.body@,
        response.content_type matches Some(t) ==> response@.content_type == Some(t@),
        response.content_type is None ==> response@.content_type is None,
{
}

} // verus!
