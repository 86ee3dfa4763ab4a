# as4

AS4 User Messages and the Signals that answer them, verified with Verus: the
SOAP envelope an ebMS 3.0 message travels in, the Receipt or Error a receiver
answers with, the parts of the MIME body round them, and the decisions the two
ends of an exchange make.

- `src/` is the library. Nothing in it touches a socket, a clock or a random
  number: those come in as plain values.
  - `envelope`, `signal`: what is written, and what is read of it.
  - `markup`, `scan`, `xml`, `text`: XML as a run of tags, its elements and
    attributes read by local names, and text in and out of it.
  - `mime`: which part of a body is the envelope and how the others are named.
  - `signer`, `check`: what a certificate and a profile supply.
  - `seen`: reception awareness.
  - `exchange`, `transport`, `wire`, `loopback`: the two ends.
  - `round_trip`, `signal_round_trip`, `prefix`, `delivery`: what holds of all
    of it. A message reads back off its envelope, a Receipt names the message
    it answers, what is posted is delivered, and delivered once.
  - `flat`, `document`: the runs of tags those proofs take an envelope apart
    into.
- `tests/` runs the library, with the wire left out.
- `app/` puts it on a socket.

Trusted without proof are `String::push`, `char::from_u32` and
`String::from_utf8_lossy` of the standard library, each as its documentation
has it.
