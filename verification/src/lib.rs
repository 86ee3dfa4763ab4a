//! Streams that arrive as AS4 User Messages. One User Message is one
//! Stream, its parties and its collaboration beside it.
//!
//! AS4 is the OASIS ebMS 3.0 profile for the exchange AS2 made ordinary,
//! done in SOAP: a POST whose body is a MIME `multipart/related`, a SOAP
//! 1.2 envelope as the root part with the `eb:Messaging` header naming
//! the parties, the service, the action and the payload, and the payload
//! as an attachment beside it by content id. The far end answers on the
//! same connection with a Signal Message: a Receipt naming the message it
//! took (the proof a partner keeps) or an Error saying why not. A Receive
//! Location answers partners; a Send Location posts to one and refuses the
//! send where the Receipt is missing, names another message, or is an
//! Error.
//!
//! Reception awareness (AS4 section 3.2) is the sender retrying until a
//! Receipt comes and the receiver never delivering one message twice: a
//! message id seen before is receipted again and not handed up again.
//!
//! WS-Security signing needs a certificate, which a [`Signer`] holds;
//! without one the exchange is [`Unsigned`]: two nodes on one wire, or a
//! partner test bench. A profile (Peppol is one) shapes the User Message it
//! sends through [`As4Transport::shaped`] and checks the one it takes through
//! [`As4Transport::checking`].
//!
//! The origin URI carries what the header knew:
//! `as4://peer/msh?from=Buyer&message-id=1.2@xmip&action=Submit`.
//!
//! Connections, the clock and the MIME codec are the caller's: they come in
//! as plain values. What holds of an exchange as a whole is proved in
//! [`delivery`]; that what is written reads back, in [`round_trip`] and
//! [`signal_round_trip`]; how each end conducts itself, in [`conduct`] and
//! [`promises`]; and what is written, read, packed and taken apart, letter by
//! letter, in [`writing`], [`reading`], [`scanning`], [`spelling`],
//! [`packing`] and [`operations`].

pub mod check;
pub mod conduct;
pub mod delivery;
pub mod document;
pub mod envelope;
pub mod error;
pub mod exchange;
pub mod flat;
pub mod loopback;
pub mod markup;
pub mod mime;
pub mod operations;
pub mod packing;
pub mod prefix;
pub mod promises;
pub mod reading;
pub mod round_trip;
pub mod scan;
pub mod scanning;
pub mod seen;
pub mod signal;
pub mod signal_round_trip;
pub mod signer;
pub mod spelling;
pub mod text;
pub mod transport;
pub mod wire;
pub mod writing;
pub mod xml;

pub use check::{Check, Unchecked};
pub use envelope::{Stamp, UserMessage};
pub use error::TransportError;
pub use exchange::{Outcome, Post};
pub use signal::Signal;
pub use signer::{Signer, Unsigned};
pub use transport::As4Transport;
pub use wire::{as_http, Answer, Arrived, Request, Response};
