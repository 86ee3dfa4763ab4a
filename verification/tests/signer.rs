//! The unsigned exchange.

use as4::{Signer, Unsigned};

#[test]
fn the_unsigned_exchange_leaves_the_envelope_as_it_is() {
    let attachments = vec![("payload".to_string(), b"UNA".to_vec())];
    let signed = Unsigned
        .sign("<Envelope/>".to_string(), &attachments)
        .expect("signed");
    assert_eq!(signed, "<Envelope/>");
    assert!(Unsigned.verify(&signed, &attachments).is_ok());
    assert!(Unsigned::default().verify("", &[]).is_ok());
}
