//! Text on its way to the system clipboard.

use pinz::clipboard::{base64, copy, osc52, CopyError, MAX_BYTES};

#[test]
fn base64_matches_the_rfc_4648_vectors() {
    // Section 10 of the RFC. These cover all three padding cases.
    assert_eq!(base64(b""), "");
    assert_eq!(base64(b"f"), "Zg==");
    assert_eq!(base64(b"fo"), "Zm8=");
    assert_eq!(base64(b"foo"), "Zm9v");
    assert_eq!(base64(b"foob"), "Zm9vYg==");
    assert_eq!(base64(b"fooba"), "Zm9vYmE=");
    assert_eq!(base64(b"foobar"), "Zm9vYmFy");
}

#[test]
fn base64_encodes_the_bytes_of_non_ascii_text() {
    assert_eq!(base64("å".as_bytes()), "w6U=");
}

#[test]
fn osc52_wraps_the_payload_in_the_clipboard_escape() {
    assert_eq!(osc52("foo").unwrap(), "\x1b]52;c;Zm9v\x07");
}

/// tmux relays a plain OSC 52 itself when `set-clipboard on`. It is the DCS
/// passthrough form that needs `allow-passthrough on`, which is off by
/// default - so wrapping the escape is how you get it silently dropped.
#[test]
fn osc52_is_never_wrapped_for_tmux() {
    let seq = osc52("foo").unwrap();
    assert!(
        !seq.contains("\x1bPtmux;"),
        "no passthrough wrapper: {seq:?}"
    );
    assert!(!seq.contains("\x1b\x1b"), "no doubled escape: {seq:?}");
}

#[test]
fn osc52_refuses_a_payload_past_the_cap() {
    let big = "x".repeat(MAX_BYTES + 1);
    assert!(osc52(&big).is_none());
    assert!(
        osc52(&"x".repeat(MAX_BYTES)).is_some(),
        "the cap itself is allowed"
    );
}

#[test]
fn copy_writes_the_escape_to_the_sink() {
    let mut out: Vec<u8> = Vec::new();
    copy(&mut out, "foo").unwrap();
    assert_eq!(String::from_utf8(out).unwrap(), "\x1b]52;c;Zm9v\x07");
}

#[test]
fn copy_reports_an_oversized_payload_rather_than_truncating_it() {
    let mut out: Vec<u8> = Vec::new();
    let err = copy(&mut out, &"x".repeat(MAX_BYTES + 1)).unwrap_err();
    assert_eq!(err, CopyError::TooMuch { bytes: MAX_BYTES + 1 });
    assert!(out.is_empty(), "nothing partial reaches the terminal");
}
