use mweb::parser::Header;
use mweb::resolver::resolve_body;

fn header(name: &[u8], value: &[u8]) -> Header {
    Header { name: name.to_vec(), value: value.to_vec() }
}

#[test]
fn content_length_is_case_insensitive() {
    for name in [&b"Content-Length"[..], b"content-length", b"CONTENT-LENGTH", b"cOnTeNt-LeNgTh"] {
        let hs = vec![header(name, b"42")];
        let exp = resolve_body(&hs);
        assert_eq!(exp.expected_length, Some(42));
        assert!(!exp.wants_continue);
    }
}

#[test]
fn non_decimal_length_is_ignored() {
    for value in [&b"x5"[..], b"5x", b"", b" 5", b"+5", b"-5", b"5 ", b"0x10"] {
        let hs = vec![header(b"Content-Length", value)];
        let exp = resolve_body(&hs);
        assert_eq!(exp.expected_length, None);
    }
}

#[test]
fn leading_zeroes_are_decimal() {
    let hs = vec![header(b"Content-Length", b"007")];
    assert_eq!(resolve_body(&hs).expected_length, Some(7));
}

#[test]
fn zero_length_is_resolved() {
    let hs = vec![header(b"Content-Length", b"0")];
    assert_eq!(resolve_body(&hs).expected_length, Some(0));
}

#[test]
fn oversized_length_is_ignored() {
    // One digit past the largest machine word.
    let hs = vec![header(b"Content-Length", b"184467440737095516160")];
    assert_eq!(resolve_body(&hs).expected_length, None);
}

#[test]
fn first_content_length_wins() {
    let hs = vec![
        header(b"Content-LENGTH", b"3"),
        header(b"content-length", b"9"),
    ];
    assert_eq!(resolve_body(&hs).expected_length, Some(3));
}

#[test]
fn absent_content_length_is_none() {
    let hs = vec![header(b"Host", b"localhost")];
    let exp = resolve_body(&hs);
    assert_eq!(exp.expected_length, None);
    assert!(!exp.wants_continue);
}

#[test]
fn expect_continue_is_case_insensitive() {
    for value in [&b"100-continue"[..], b"100-Continue", b"100-CONTINUE"] {
        let hs = vec![header(b"Expect", value), header(b"Content-Length", b"5")];
        let exp = resolve_body(&hs);
        assert!(exp.wants_continue);
        assert_eq!(exp.expected_length, Some(5));
    }
    let hs = vec![header(b"EXPECT", b"100-continue")];
    assert!(resolve_body(&hs).wants_continue);
}

#[test]
fn other_expect_values_do_not_continue() {
    for value in [&b"101-continue"[..], b"continue", b"", b"100-continue "] {
        let hs = vec![header(b"Expect", value)];
        assert!(!resolve_body(&hs).wants_continue);
    }
}
