use cce_mail::mailto::{addresses, parse_mailto, percent_decode, unescape};

#[test]
fn mailto_bare_address() {
    let m = parse_mailto("mailto:a@example.com").unwrap();
    assert_eq!(m.to, "a@example.com");
    assert_eq!(m.subject, "");
    assert_eq!(m.body, "");
}

#[test]
fn mailto_full_query() {
    // %20 decodes; '+' stays literal (mailto is not form encoding);
    // header names are case-insensitive; cc/bcc keep their own fields.
    let m = parse_mailto(
        "mailto:a@x.org,b@y.org?Subject=Hello%20W%C3%B6rld&body=line1%0Aline2+plus&cc=c@z.org&BCC=d@w.org&to=e@v.org",
    )
    .unwrap();
    assert_eq!(m.to, "a@x.org, b@y.org, e@v.org");
    assert_eq!(m.cc, "c@z.org");
    assert_eq!(m.bcc, "d@w.org");
    assert_eq!(m.subject, "Hello Wörld");
    assert_eq!(m.body, "line1\nline2+plus");
}

#[test]
fn mailto_rejects_non_mailto_and_keeps_bad_escapes() {
    assert!(parse_mailto("https://example.com").is_none());
    assert!(parse_mailto("a@example.com").is_none());
    // Truncated/invalid %-escapes stay literal rather than erroring.
    let m = parse_mailto("mailto:a@x.org?subject=100%25%2").unwrap();
    assert_eq!(m.subject, "100%%2");
}

#[test]
fn bad_escapes_stay_as_they_are() {
    assert_eq!(percent_decode("%zz"), "%zz");
    assert_eq!(percent_decode("%"), "%");
    assert_eq!(percent_decode("%4"), "%4");
    assert_eq!(percent_decode("%+5"), "%+5");
    assert_eq!(percent_decode("%41%7e"), "A~");
}

#[test]
fn bytes_that_are_no_text_are_replaced() {
    assert_eq!(percent_decode("a%FFb"), "a\u{fffd}b");
    assert_eq!(unescape(b"a%FFb"), vec![b'a', 0xff, b'b']);
}

#[test]
fn escaping_every_byte_is_undone() {
    let all: Vec<u8> = (0..=255u8).collect();
    let escaped: String = all.iter().map(|b| format!("%{:02X}", b)).collect();
    assert_eq!(unescape(escaped.as_bytes()), all);
}

#[test]
fn a_bcc_stays_hidden() {
    let m = parse_mailto("mailto:a@x.org?bcc=h@w.org").unwrap();
    assert_eq!(m.to, "a@x.org");
    assert_eq!(m.cc, "");
    assert_eq!(m.bcc, "h@w.org");
}

#[test]
fn unknown_names_change_nothing() {
    let a = parse_mailto("mailto:a@x.org?subject=s&x-priority=1").unwrap();
    let b = parse_mailto("mailto:a@x.org?subject=s").unwrap();
    assert_eq!(a, b);
}

#[test]
fn the_scheme_has_two_spellings() {
    assert!(parse_mailto("MAILTO:a@x.org").is_some());
    assert_eq!(parse_mailto("mailto:").unwrap().to, "");
}

#[test]
fn address_lists_drop_blanks() {
    assert_eq!(addresses(" a@x , ,b@y,"), vec!["a@x".to_string(), "b@y".to_string()]);
    assert!(addresses("  ").is_empty());
}

#[test]
fn an_encoded_text_decodes_to_itself() {
    let text = "Grüße, 日本 & 100% \u{1f600}\n";
    let encoded: String = text.bytes().map(|b| format!("%{b:02X}")).collect();
    assert_eq!(percent_decode(&encoded), text);
}
