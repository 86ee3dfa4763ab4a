//! The Signal Message a receiver answers with: a Receipt naming the User
//! Message it took, or an Error saying why it did not (ebMS 3.0 Core
//! section 5.2.3, AS4 profile section 5.1.8).
//!
//! The Receipt of an unsigned exchange carries a copy of the User Message
//! it answers, which is what the profile says to send where there are no
//! signed references; the non-repudiation information a signed exchange
//! carries instead is the Signer's to add. An Error carries the ebMS code
//! and a description the sender can read in a log.

use vstd::prelude::*;

use crate::envelope::{plain_tag, wrap, Stamp, UserMessage};
use crate::error::{protocol_error, TransportError};
use crate::scan::{attribute_chars, element_chars, has_element};
use crate::text::{chars_of, owned};
use crate::xml::{escape, tag, unescape_loosely};

#[allow(unused_imports)]
use crate::envelope::{lemma_empty_literal, plain, said, user_message, wrapped, MessageView};
#[allow(unused_imports)]
use crate::error::{protocol, Refusal};
#[allow(unused_imports)]
use crate::scan::{attribute_in, element_in, holds_element};
#[allow(unused_imports)]
use crate::xml::{escaped, loosely, tagged, PREFIX};

verus! {

/// A body the receiver could not read as AS4.
pub const VALUE_NOT_RECOGNIZED: &'static str = "EBMS:0001";

/// A retryable failure on the receiver's side.
pub const OTHER: &'static str = "EBMS:0004";

/// A message that is AS4 and not one this party takes.
pub const POLICY_NONCOMPLIANCE: &'static str = "EBMS:0103";

/// What a receiver said about one message.
#[allow(inconsistent_fields)]
#[derive(Clone, Debug, PartialEq, Eq)]
pub enum Signal {
    /// The message named was received.
    Receipt { ref_to: String, message_id: String },
    /// The message named (or none, where none could be read) was not.
    Error { ref_to: Option<String>, code: String, description: String },
}

/// What a [`Signal`] says.
#[allow(inconsistent_fields)]
pub enum SignalView {
    Receipt { ref_to: Seq<char>, message_id: Seq<char> },
    Error { ref_to: Option<Seq<char>>, code: Seq<char>, description: Seq<char> },
}

impl View for Signal {
    type V = SignalView;

    open spec fn view(&self) -> SignalView {
        match self {
            Signal::Receipt { ref_to, message_id } => SignalView::Receipt {
                ref_to: ref_to@,
                message_id: message_id@,
            },
            Signal::Error { ref_to, code, description } => SignalView::Error {
                ref_to: said(*ref_to),
                code: code@,
                description: description@,
            },
        }
    }
}

/// `eb:RefToMessageId`, where a message is answered.
pub open spec fn reference_to(prefix: Seq<char>, ref_to: Option<Seq<char>>) -> Seq<char> {
    match ref_to {
        Some(id) => plain(prefix, "RefToMessageId"@, id),
        None => Seq::empty(),
    }
}

/// The `eb:MessageInfo` of a signal: when it was written, its id, and what
/// it answers.
pub open spec fn signal_info(
    prefix: Seq<char>,
    ref_to: Option<Seq<char>>, stamp: Stamp,
) -> Seq<char> {
    tagged(
        prefix,
        "MessageInfo"@,
        Seq::empty(),
        plain(prefix, "Timestamp"@, stamp.timestamp@) + plain(
            prefix,
            "MessageId"@,
            stamp.message_id@,
        )
            + reference_to(prefix, ref_to),
    )
}

/// The envelope of a Receipt for `m`.
pub open spec fn receipt_of(prefix: Seq<char>, m: MessageView, stamp: Stamp) -> Seq<char> {
    wrapped(
        prefix,
        tagged(
            prefix,
            "SignalMessage"@,
            Seq::empty(),
            signal_info(prefix, Some(m.message_id), stamp) + tagged(
                prefix,
                "Receipt"@,
                Seq::empty(),
                user_message(prefix, m),
            ),
        ),
    )
}

/// The attributes of an `eb:Error` with `code`.
pub open spec fn error_attributes(code: Seq<char>) -> Seq<char> {
    " category=\"Content\" errorCode=\""@ + escaped(code)
        + "\" origin=\"ebMS\" severity=\"failure\""@
}

/// The envelope of an Error `code` about `ref_to`.
pub open spec fn error_of(
    prefix: Seq<char>,
    ref_to: Option<Seq<char>>,
    code: Seq<char>,
    description: Seq<char>,
    stamp: Stamp,
) -> Seq<char> {
    wrapped(
        prefix,
        tagged(
            prefix,
            "SignalMessage"@,
            Seq::empty(),
            signal_info(prefix, ref_to, stamp) + tagged(
                prefix,
                "Error"@,
                error_attributes(code),
                tagged(prefix, "Description"@, " xml:lang=\"en\""@, escaped(description)),
            ),
        ),
    )
}

/// The text of the element `name` of `signal`, where it is there. A reference
/// that stands for no character is kept as it stands.
pub open spec fn kept_in(signal: Seq<char>, name: Seq<char>) -> Option<Seq<char>> {
    match element_in(signal, name) {
        Some(raw) => Some(loosely(raw)),
        None => None,
    }
}

/// A text, nothing where there is none.
pub open spec fn or_none(text: Option<Seq<char>>) -> Seq<char> {
    match text {
        Some(text) => text,
        None => Seq::empty(),
    }
}

/// The signal the content `signal` of a `SignalMessage` is: a Receipt where
/// it holds one and names a message, an Error where it holds one with a code.
pub open spec fn signalled_in(signal: Seq<char>) -> Result<SignalView, Refusal> {
    let receipted = holds_element(signal, "Receipt"@);
    let ref_to = kept_in(signal, "RefToMessageId"@);
    if receipted && ref_to is Some {
        Ok(
            SignalView::Receipt {
                ref_to: ref_to->0,
                message_id: or_none(kept_in(signal, "MessageId"@)),
            },
        )
    } else {
        match attribute_in(signal, "Error"@, "errorCode"@) {
            Ok(Some(code)) => Ok(
                SignalView::Error {
                    ref_to,
                    code,
                    description: or_none(kept_in(signal, "Description"@)),
                },
            ),
            Ok(None) => Err(
                protocol(
                    if receipted {
                        "a Receipt naming no message"@
                    } else {
                        "a SignalMessage that is neither Receipt nor Error"@
                    },
                ),
            ),
            Err(e) => Err(e),
        }
    }
}

/// The signal an envelope carries.
pub open spec fn signal_in(envelope: Seq<char>) -> Result<SignalView, Refusal> {
    match element_in(envelope, "SignalMessage"@) {
        Some(signal) => signalled_in(signal),
        None => Err(protocol("an answer with no SignalMessage in it"@)),
    }
}

impl Signal {
    /// The envelope of a Receipt for `message`, its User Message copied
    /// in.
    #[must_use]
    pub fn receipt(message: &UserMessage, stamp: &Stamp) -> (envelope: String)
        ensures
            envelope@ == receipt_of(PREFIX@, message@, *stamp),
    {
        let mut signal = info(Some(message.message_id.as_str()), stamp);
        proof {
            lemma_empty_literal();
        }
        signal.append(tag("Receipt", "", message.element().as_str()).as_str());
        wrap(tag("SignalMessage", "", signal.as_str()).as_str())
    }

    /// The envelope of an Error `code` about `ref_to`, `description` for
    /// the sender's log.
    #[must_use]
    pub fn error(ref_to: Option<&str>, code: &str, description: &str, stamp: &Stamp) -> (envelope:
        String)
        ensures
            envelope@ == error_of(
                PREFIX@,
                match ref_to {
                    Some(id) => Some(id@),
                    None => None,
                },
                code@,
                description@,
                *stamp,
            ),
    {
        let mut signal = info(ref_to, stamp);
        let mut attributes = owned(" category=\"Content\" errorCode=\"");
        attributes.append(escape(code).as_str());
        attributes.append("\" origin=\"ebMS\" severity=\"failure\"");
        let why = tag("Description", " xml:lang=\"en\"", escape(description).as_str());
        signal.append(tag("Error", attributes.as_str(), why.as_str()).as_str());
        proof {
            lemma_empty_literal();
        }
        wrap(tag("SignalMessage", "", signal.as_str()).as_str())
    }

    /// The Signal an envelope carries.
    ///
    /// # Errors
    /// Where the envelope has no `SignalMessage`, or one that is neither a
    /// Receipt naming a message nor an Error with a code, or a code that
    /// holds an entity XML does not define.
    pub fn from_envelope(envelope: &str) -> (r: Result<Self, TransportError>)
        ensures
            match signal_in(envelope@) {
                Ok(s) => r matches Ok(signal) && signal@ == s,
                Err(refusal) => r matches Err(e) && e@ == refusal,
            },
    {
        let chars = chars_of(envelope);
        let signal = match element_chars(chars.as_slice(), "SignalMessage") {
            Some(signal) => signal,
            None => return Err(protocol_error(owned("an answer with no SignalMessage in it"))),
        };
        let ref_to = kept(signal, "RefToMessageId");
        let receipted = has_element(signal, "Receipt");
        if receipted {
            if let Some(ref_to) = ref_to {
                return Ok(
                    Signal::Receipt { ref_to, message_id: kept_or_empty(signal, "MessageId") },
                );
            }
        }
        let code = match attribute_chars(signal, "Error", "errorCode") {
            Ok(Some(code)) => code,
            Ok(None) => return Err(
                protocol_error(
                    owned(
                        if receipted {
                            "a Receipt naming no message"
                        } else {
                            "a SignalMessage that is neither Receipt nor Error"
                        },
                    ),
                ),
            ),
            Err(e) => return Err(e),
        };
        Ok(Signal::Error { ref_to, code, description: kept_or_empty(signal, "Description") })
    }
}

/// The text of the element `name`, where it is there.
fn kept(signal: &[char], name: &str) -> (r: Option<String>)
    ensures
        said(r) == kept_in(signal@, name@),
{
    match element_chars(signal, name) {
        Some(raw) => Some(unescape_loosely(raw)),
        None => None,
    }
}

/// The text of the element `name`, nothing where it is not there.
fn kept_or_empty(signal: &[char], name: &str) -> (s: String)
    ensures
        s@ == or_none(kept_in(signal@, name@)),
{
    match kept(signal, name) {
        Some(text) => text,
        None => String::new(),
    }
}

/// The `eb:MessageInfo` of a signal: now, a new id, and what it answers.
fn info(ref_to: Option<&str>, stamp: &Stamp) -> (s: String)
    ensures
        s@ == signal_info(
            PREFIX@,
            match ref_to {
                Some(id) => Some(id@),
                None => None,
            },
            *stamp,
        ),
{
    let mut inner = plain_tag("Timestamp", stamp.timestamp.as_str());
    inner.append(plain_tag("MessageId", stamp.message_id.as_str()).as_str());
    let reference = match ref_to {
        Some(id) => plain_tag("RefToMessageId", id),
        None => String::new(),
    };
    inner.append(reference.as_str());
    proof {
        lemma_empty_literal();
    }
    tag("MessageInfo", "", inner.as_str())
}

} // verus!
