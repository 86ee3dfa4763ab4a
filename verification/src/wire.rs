//! What goes over HTTP, as plain values: the request a partner posts, the
//! answer it gets, and the URLs both name each other by.

use vstd::prelude::*;

use crate::mime::{pack, Body, Packed};
use crate::text::{after, begins_with, chars_of, owned, string_of};

#[allow(unused_imports)]
use crate::envelope::said;
#[allow(unused_imports)]
use crate::mime::{soap_content_type, BodyView, PackedView};
#[allow(unused_imports)]
use crate::text::starts_with;
#[allow(unused_imports)]
use vstd::utf8::encode_utf8;

verus! {

/// A request that came.
#[derive(Debug)]
pub struct Request {
    pub method: String,
    pub path: String,
    /// Its `Content-Type`, where it has one.
    pub content_type: Option<String>,
    pub body: Body,
}

/// What a [`Request`] is.
#[verifier::ext_equal]
pub struct RequestView {
    pub method: Seq<char>,
    pub path: Seq<char>,
    pub content_type: Option<Seq<char>>,
    pub body: BodyView,
}

impl View for Request {
    type V = RequestView;

    open spec fn view(&self) -> RequestView {
        RequestView {
            method: self.method@,
            path: self.path@,
            content_type: said(self.content_type),
            body: self.body@,
        }
    }
}

/// A response that came.
#[derive(Debug)]
pub struct Response {
    pub status: u16,
    /// Its `Content-Type`, where it has one.
    pub content_type: Option<String>,
    pub body: Body,
}

/// What a [`Response`] is.
#[verifier::ext_equal]
pub struct ResponseView {
    pub status: u16,
    pub content_type: Option<Seq<char>>,
    pub body: BodyView,
}

impl View for Response {
    type V = ResponseView;

    open spec fn view(&self) -> ResponseView {
        ResponseView {
            status: self.status,
            content_type: said(self.content_type),
            body: self.body@,
        }
    }
}

/// A response to write.
#[derive(Debug)]
pub struct Answer {
    pub status: u16,
    pub content_type: String,
    pub body: Packed,
}

/// What an [`Answer`] is.
#[verifier::ext_equal]
pub struct AnswerView {
    pub status: u16,
    pub content_type: Seq<char>,
    pub body: PackedView,
}

impl View for Answer {
    type V = AnswerView;

    open spec fn view(&self) -> AnswerView {
        AnswerView {
            status: self.status,
            content_type: self.content_type@,
            body: self.body@,
        }
    }
}

/// A payload that arrived, and where from.
#[derive(Debug)]
pub struct Arrived {
    pub origin_uri: String,
    pub bytes: Vec<u8>,
}

/// What [`Arrived`].
#[verifier::ext_equal]
pub struct ArrivedView {
    pub origin_uri: Seq<char>,
    pub bytes: Seq<u8>,
}

impl View for Arrived {
    type V = ArrivedView;

    open spec fn view(&self) -> ArrivedView {
        ArrivedView { origin_uri: self.origin_uri@, bytes: self.bytes@ }
    }
}

/// A `Content-Type`, empty where there is none.
pub open spec fn or_nothing(content_type: Option<Seq<char>>) -> Seq<char> {
    match content_type {
        Some(content_type) => content_type,
        None => Seq::empty(),
    }
}

/// A `Content-Type`, empty where there is none.
pub fn or_empty(content_type: &Option<String>) -> (s: String)
    ensures
        s@ == or_nothing(said(*content_type)),
{
    match content_type {
        Some(content_type) => owned(content_type.as_str()),
        None => String::new(),
    }
}

/// `envelope` as the answer with `status`.
pub open spec fn soaped(status: u16, envelope: Seq<char>) -> AnswerView {
    AnswerView {
        status,
        content_type: soap_content_type(),
        body: PackedView::Alone(encode_utf8(envelope)),
    }
}

/// `envelope` as the answer with `status`.
#[must_use]
pub fn soap(status: u16, envelope: &str) -> (answer: Answer)
    ensures
        answer@ == soaped(status, envelope@),
{
    let nothing: Vec<(String, Vec<u8>)> = Vec::new();
    let (content_type, body) = pack(envelope, nothing.as_slice(), "");
    Answer { status, content_type, body }
}

/// `url` on the wire: `as4://` as `http://`, `as4s://` as `https://`, any
/// other as it is.
pub open spec fn http_of(url: Seq<char>) -> Seq<char> {
    if starts_with(url, "as4://"@) {
        "http://"@ + url.skip(6)
    } else if starts_with(url, "as4s://"@) {
        "https://"@ + url.skip(7)
    } else {
        url
    }
}

/// `as4://` is `http://` on the wire, and `as4s://` is `https://`; any
/// other URL as it is. Public for the profiles that ride on AS4 and name
/// an access point in its scheme.
#[must_use]
pub fn as_http(url: &str) -> (r: String)
    ensures
        r@ == http_of(url@),
{
    proof {
        reveal_strlit("as4://");
        reveal_strlit("as4s://");
    }
    let chars = chars_of(url);
    if begins_with(chars.as_slice(), chars_of("as4://").as_slice()) {
        let mut r = owned("http://");
        r.append(string_of(after(chars.as_slice(), 6)).as_str());
        r
    } else if begins_with(chars.as_slice(), chars_of("as4s://").as_slice()) {
        let mut r = owned("https://");
        r.append(string_of(after(chars.as_slice(), 7)).as_str());
        r
    } else {
        owned(url)
    }
}

/// What is on the wire begins with neither scheme that is not, so that to
/// take a URL there twice is to take it once.
pub proof fn on_the_wire_once_is_enough(url: Seq<char>)
    ensures
        !starts_with(http_of(url), "as4://"@),
        !starts_with(http_of(url), "as4s://"@),
        http_of(http_of(url)) == http_of(url),
{
    reveal_strlit("as4://");
    reveal_strlit("as4s://");
    reveal_strlit("http://");
    reveal_strlit("https://");
    let h = http_of(url);
    if starts_with(url, "as4://"@) || starts_with(url, "as4s://"@) {
        assert(h[0] == 'h');
        if starts_with(h, "as4://"@) {
            assert(h.subrange(0, 6)[0] == 'a');
        }
        if starts_with(h, "as4s://"@) {
            assert(h.subrange(0, 7)[0] == 'a');
        }
    }
}

/// Where a message came from, as the URI that carries what its header knew.
pub open spec fn origin(
    peer: Seq<char>,
    path: Seq<char>,
    from: Seq<char>,
    message_id: Seq<char>,
    action: Seq<char>,
) -> Seq<char> {
    "as4://"@ + peer + path + "?from="@ + from + "&message-id="@ + message_id + "&action="@ + action
}

/// Where a message came from, as the URI that carries what its header knew.
pub fn origin_of(peer: &str, path: &str, from: &str, message_id: &str, action: &str) -> (uri:
    String)
    ensures
        uri@ == origin(peer@, path@, from@, message_id@, action@),
{
    let mut uri = owned("as4://");
    uri.append(peer);
    uri.append(path);
    uri.append("?from=");
    uri.append(from);
    uri.append("&message-id=");
    uri.append(message_id);
    uri.append("&action=");
    uri.append(action);
    uri
}

} // verus!
