//! Text in XML and out of it.

use as4::text::decimal_of;
use as4::xml::{escape, unescape};

#[test]
fn the_five_are_written_as_entities_and_come_back() {
    assert_eq!(escape("<a & \"b\" 'c'>"), "&lt;a &amp; &quot;b&quot; &apos;c&apos;&gt;");
    for text in ["", "plain", "&amp;", "<&>\"'", "\u{0}\u{1f600}", ";&;"] {
        assert_eq!(unescape(&escape(text)).expect("read"), text);
    }
}

#[test]
fn references_are_read_by_number() {
    assert_eq!(unescape("&#65;&#x42;&#x1F600;&#10;").expect("read"), "AB\u{1f600}\n");
    assert_eq!(unescape("a;b").expect("read"), "a;b");
}

#[test]
fn what_xml_does_not_define_is_refused() {
    for text in ["&", "&;", "&copy;", "&amp", "&#;", "&#x;", "&#xd800;", "&#0;", "&#x110000;", "&#99999999999999999999;", "&#6a;"] {
        let error = unescape(text).expect_err(text);
        assert!(!error.retryable);
        assert_eq!(error.message, "an entity XML does not define");
    }
}

#[test]
fn numbers_are_written_in_decimal() {
    assert_eq!(decimal_of(0), "0");
    assert_eq!(decimal_of(9), "9");
    assert_eq!(decimal_of(10), "10");
    assert_eq!(decimal_of(503), "503");
    assert_eq!(decimal_of(u128::MAX), u128::MAX.to_string());
}
