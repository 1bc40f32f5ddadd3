use cce_mail::intake::{can_be_parsed, NESTING_CAP};
use cce_mail::message::{
    attachment_contents, body_of, decode_part_bytes, extract_body, format_date, format_from,
    format_to, header_fields, message_body, parse_mail, part_body, read_header, strip_html,
    MailDate, MailMessage, BODY_CAP,
};
use cce_mail::structure::{
    encoding_str, find_attachment_parts, find_text_part, section_str, BodyStructure, Disposition,
    Part, TextPartSpec, TransferEncoding,
};

fn attach_part(
    ty: &str,
    subtype: &str,
    ty_params: Vec<(&str, &str)>,
    disposition: Option<(&str, Vec<(&str, &str)>)>,
    encoding: TransferEncoding,
    octets: u32,
) -> BodyStructure {
    BodyStructure::Basic(part(ty, subtype, ty_params, disposition, encoding, octets))
}

fn part(
    ty: &str,
    subtype: &str,
    ty_params: Vec<(&str, &str)>,
    disposition: Option<(&str, Vec<(&str, &str)>)>,
    encoding: TransferEncoding,
    octets: u32,
) -> Part {
    let own = |ps: Vec<(&str, &str)>| -> Vec<(String, String)> {
        ps.into_iter().map(|(k, v)| (k.to_string(), v.to_string())).collect()
    };
    Part {
        ty: ty.to_string(),
        subtype: subtype.to_string(),
        params: own(ty_params),
        disposition: disposition
            .map(|(t, ps)| Disposition { ty: t.to_string(), params: own(ps) }),
        encoding,
        octets,
    }
}

#[test]
fn attachment_parts_found_with_paths_and_name_fallbacks() {
    // multipart/mixed: [text/plain body, pdf w/ disposition filename,
    // image w/ only a Content-Type name, csv w/ disposition but NO name].
    let text =
        BodyStructure::Text(part("TEXT", "PLAIN", vec![], None, TransferEncoding::SevenBit, 10));
    let pdf = attach_part(
        "APPLICATION",
        "PDF",
        vec![],
        Some(("ATTACHMENT", vec![("FILENAME", "report.pdf")])),
        TransferEncoding::Base64,
        2048,
    );
    let img = attach_part(
        "IMAGE",
        "PNG",
        vec![("NAME", "shot.png")],
        None,
        TransferEncoding::Base64,
        4096,
    );
    let csv = attach_part(
        "TEXT",
        "CSV",
        vec![],
        Some(("ATTACHMENT", vec![])),
        TransferEncoding::QuotedPrintable,
        100,
    );
    let root = BodyStructure::Multipart(vec![text, pdf, img, csv]);

    let atts = find_attachment_parts(&root);
    assert_eq!(atts.len(), 3, "body text part must not be listed: {atts:?}");
    assert_eq!(atts[0].name, "report.pdf");
    assert_eq!(atts[0].section, vec![2]);
    assert_eq!(atts[0].mime, "application/pdf");
    assert_eq!(atts[0].encoding, "base64");
    assert_eq!(atts[1].name, "shot.png"); // Content-Type name fallback
    assert_eq!(atts[1].section, vec![3]);
    assert_eq!(atts[2].name, "attachment.csv"); // synthesized
    assert_eq!(atts[2].section, vec![4]);

    // A bare single-part attachment is section 1.
    let solo = attach_part(
        "APPLICATION",
        "ZIP",
        vec![("NAME", "a.zip")],
        None,
        TransferEncoding::Base64,
        9,
    );
    assert_eq!(find_attachment_parts(&solo)[0].section, vec![1]);
}

#[test]
fn decode_part_bytes_handles_the_transfer_encodings() {
    // "hello attachment" in base64, with the line-wrap noise real
    // servers emit.
    let b64 = b"aGVsbG8g\r\nYXR0YWNobWVudA==";
    assert_eq!(decode_part_bytes("base64", b64), b"hello attachment");
    assert_eq!(decode_part_bytes("quoted-printable", b"gr=C3=BC=C3=9Fe"), "grüße".as_bytes());
    // Identity encodings pass through untouched.
    assert_eq!(decode_part_bytes("7bit", b"plain"), b"plain");
    assert_eq!(decode_part_bytes("", b"raw"), b"raw");
}

fn parse(raw: &str) -> MailMessage {
    parse_mail(raw.as_bytes()).expect("fixture parses")
}

#[test]
fn rfc2047_headers_decode() {
    // Subject and From display-name as UTF-8 B encoded-words.
    let raw = "From: =?UTF-8?B?SsO8cmdlbiBNw7xsbGVy?= <juergen@example.de>\r\n\
               To: me@example.org\r\n\
               Subject: =?UTF-8?B?UsOpdW5pb24gZ8OpbsOpcmFsZSDigJQgw4RuZGVydW5nZW4=?=\r\n\
               Date: Wed, 23 Jul 2026 10:50:12 +0200\r\n\
               \r\n\
               plain body\r\n";
    let msg = parse(raw);
    assert_eq!(msg.subject.as_deref(), Some("Réunion générale — Änderungen"));
    assert_eq!(format_from(&msg), "Jürgen Müller <juergen@example.de>");
    assert_eq!(format_date(msg.date), "Jul 23 10:50");
}

#[test]
fn multipart_prefers_decoded_text_part() {
    // multipart/alternative: quoted-printable text + base64 HTML; the text
    // part must win and arrive transfer-decoded with its charset applied.
    let raw = "From: a@b.c\r\n\
               Subject: mp\r\n\
               MIME-Version: 1.0\r\n\
               Content-Type: multipart/alternative; boundary=\"XX\"\r\n\
               \r\n\
               --XX\r\n\
               Content-Type: text/plain; charset=utf-8\r\n\
               Content-Transfer-Encoding: quoted-printable\r\n\
               \r\n\
               Gr=C3=BC=C3=9Fe aus M=C3=BCnchen!\r\n\
               Caf=C3=A9 =E2=80=94 na=C3=AFve r=C3=A9sum=C3=A9.\r\n\
               --XX\r\n\
               Content-Type: text/html; charset=utf-8\r\n\
               Content-Transfer-Encoding: base64\r\n\
               \r\n\
               PGh0bWw+PGJvZHk+PHA+SMOpbGxvIDxiPndvcmxkPC9iPiAmYW1wOyBmcmllbmRzPC9wPjxwPlp3w6lpdGUgWmVpbGU8L3A+PC9ib2R5PjwvaHRtbD4=\r\n\
               --XX--\r\n";
    let body = extract_body(&parse(raw));
    assert!(body.contains("Grüße aus München!"), "qp not decoded: {body:?}");
    assert!(body.contains("Café — naïve résumé."));
    assert!(!body.contains("<b>"), "html part leaked: {body:?}");
}

#[test]
fn html_only_message_converts_to_text() {
    let raw = "From: a@b.c\r\n\
               Subject: html\r\n\
               MIME-Version: 1.0\r\n\
               Content-Type: text/html; charset=utf-8\r\n\
               Content-Transfer-Encoding: base64\r\n\
               \r\n\
               PGh0bWw+PGJvZHk+PHA+SMOpbGxvIDxiPndvcmxkPC9iPiAmYW1wOyBmcmllbmRzPC9wPjxwPlp3w6lpdGUgWmVpbGU8L3A+PC9ib2R5PjwvaHRtbD4=\r\n";
    let body = extract_body(&parse(raw));
    assert!(body.contains("Héllo"), "not decoded: {body:?}");
    assert!(body.contains("world & friends"), "entities/tags mishandled: {body:?}");
    assert!(!body.contains('<'), "tags leaked: {body:?}");
}

#[test]
fn extract_body_caps_at_1200_chars() {
    let long = "é".repeat(1500);
    let raw = format!(
        "From: a@b.c\r\nSubject: long\r\nContent-Type: text/plain; charset=utf-8\r\n\r\n{long}"
    );
    let body = extract_body(&parse(&raw));
    assert_eq!(body.chars().count(), 1203); // 1200 + "..."
    assert!(body.ends_with("..."));
}

#[test]
fn missing_headers_fall_back() {
    let msg = parse("X-Nothing: here\r\n\r\nbody\r\n");
    assert_eq!(format_from(&msg), "Unknown");
    assert_eq!(format_date(msg.date), "Unknown");
}

fn text_part(
    subtype: &str,
    enc: TransferEncoding,
    charset: Option<(&str, &str)>,
) -> BodyStructure {
    BodyStructure::Text(part("TEXT", subtype, charset.into_iter().collect(), None, enc, 0))
}

fn multipart(bodies: Vec<BodyStructure>) -> BodyStructure {
    BodyStructure::Multipart(bodies)
}

fn basic_part(ty: &str, subtype: &str) -> BodyStructure {
    attach_part(ty, subtype, vec![], None, TransferEncoding::Base64, 0)
}

#[test]
fn text_part_found_through_nested_multipart() {
    // multipart/mixed( multipart/alternative( text/plain qp, text/HTML ), application/pdf )
    let bs = multipart(vec![
        multipart(vec![
            text_part("PLAIN", TransferEncoding::QuotedPrintable, Some(("CHARSET", "UTF-8"))),
            text_part("HTML", TransferEncoding::Base64, None),
        ]),
        basic_part("APPLICATION", "PDF"),
    ]);
    let spec = find_text_part(&bs).expect("finds the plain part");
    assert_eq!(spec.path, vec![1, 1]);
    assert_eq!(section_str(&spec.path), "1.1");
    assert_eq!(spec.subtype, "plain");
    assert_eq!(spec.encoding, "quoted-printable");
    assert_eq!(spec.charset.as_deref(), Some("UTF-8"));
}

#[test]
fn html_only_and_toplevel_paths() {
    // top-level (non-multipart) text/html → section 1, html rank
    let spec = find_text_part(&text_part("HTML", TransferEncoding::Base64, None)).unwrap();
    assert_eq!(spec.path, vec![1]);
    assert_eq!(spec.subtype, "html");
    // attachments only → None (caller falls back to a capped full fetch)
    let bs = multipart(vec![basic_part("APPLICATION", "OCTET-STREAM")]);
    assert!(find_text_part(&bs).is_none());
}

#[test]
fn synthesized_part_decodes_via_mail_parser() {
    let spec = TextPartSpec {
        path: vec![1, 1],
        subtype: "plain".to_string(),
        charset: Some("utf-8".to_string()),
        encoding: "quoted-printable".to_string(),
    };
    // "Grüße aus München!" as quoted-printable part bytes
    let raw = spec.synthesize(b"Gr=C3=BC=C3=9Fe aus M=C3=BCnchen!");
    let msg = parse_mail(&raw[..]).expect("synthetic message parses");
    assert_eq!(extract_body(&msg), "Grüße aus München!");
}

// ---- beyond the above ------------------------------------------------------

#[test]
fn plain_text_wins_over_earlier_html() {
    let bs = multipart(vec![
        text_part("HTML", TransferEncoding::Base64, None),
        text_part("PLAIN", TransferEncoding::SevenBit, None),
    ]);
    let spec = find_text_part(&bs).unwrap();
    assert_eq!(spec.subtype, "plain");
    assert_eq!(spec.path, vec![2]);
}

#[test]
fn encodings_have_names() {
    assert_eq!(encoding_str(&TransferEncoding::SevenBit), "7bit");
    assert_eq!(encoding_str(&TransferEncoding::EightBit), "8bit");
    assert_eq!(encoding_str(&TransferEncoding::Binary), "binary");
    assert_eq!(encoding_str(&TransferEncoding::Base64), "base64");
    assert_eq!(encoding_str(&TransferEncoding::QuotedPrintable), "quoted-printable");
    assert_eq!(encoding_str(&TransferEncoding::Other("X-UUE".into())), "X-UUE");
    assert_eq!(section_str(&vec![2, 10, 1]), "2.10.1");
}

#[test]
fn recipients_fall_back_to_the_account() {
    let msg = parse("From: a@b.c\r\nTo: Jo <jo@x.org>\r\n\r\nx\r\n");
    assert_eq!(format_to(&msg, "me@x.org"), "Jo <jo@x.org>");
    assert_eq!(format_from(&msg), "a@b.c");
    let none = parse("From: a@b.c\r\n\r\nx\r\n");
    assert_eq!(format_to(&none, "me@x.org"), "me@x.org");
}

#[test]
fn headers_are_read_or_defaulted() {
    let h = read_header(Some(b"From: a@b.c\r\nSubject: Hi\r\n\r\n"), "me@x.org");
    assert_eq!(h.from, "a@b.c");
    assert_eq!(h.subject, "Hi");
    assert_eq!(h.to, "me@x.org");
    let none = read_header(None, "me@x.org");
    assert_eq!(none.from, "Unknown");
    assert_eq!(none.subject, "(No Subject)");
    assert_eq!(none.date, "Unknown");
    assert_eq!(header_fields(&None, "me@x.org").to, "me@x.org");
}

#[test]
fn dates_are_padded() {
    assert_eq!(
        format_date(Some(MailDate { month: 1, day: 2, hour: 3, minute: 4 })),
        "Jan 2 03:04"
    );
    assert_eq!(
        format_date(Some(MailDate { month: 12, day: 31, hour: 23, minute: 59 })),
        "Dec 31 23:59"
    );
}

#[test]
fn html_loses_its_tags_and_entities() {
    let text = strip_html("<p>a &lt;b&gt; &amp; &quot;c&quot;</p><script>x<y</script>");
    assert!(!text.contains("<p>"), "{text}");
    assert!(text.contains("a <b> & \"c\""), "{text}");
    assert_eq!(strip_html("plain"), "plain\n");
    assert_eq!(strip_html("a\n\n\n\nb  "), "a\n\nb\n");
}

#[test]
fn a_short_body_is_left_alone() {
    let body = message_body(b"From: a@b.c\r\nContent-Type: text/plain\r\n\r\nshort");
    assert_eq!(body, "short");
    assert_eq!(body_of(&None), "");
    assert_eq!(BODY_CAP, 1200);
}

#[test]
fn a_part_is_decoded_as_its_structure_says() {
    let spec = TextPartSpec {
        path: vec![1],
        subtype: "plain".into(),
        charset: None,
        encoding: "base64".into(),
    };
    assert_eq!(part_body(&spec, b"aGVsbG8="), "hello");
}

#[test]
fn undecodable_contents_come_back_as_they_are() {
    assert_eq!(attachment_contents(None, b"raw"), b"raw");
    assert_eq!(decode_part_bytes("8BIT", b"\xff\x00"), b"\xff\x00");
    assert_eq!(decode_part_bytes("BASE64", b"aGk="), b"hi");
}

fn nested(levels: usize) -> String {
    "Content-Type:message/rfc822\n\n".repeat(levels)
}

#[test]
fn deep_mail_is_read_up_to_its_bound() {
    let full = format!("{}A: b\n\ntext", nested(NESTING_CAP));
    assert!(parse_mail(full.as_bytes()).is_some());
    let over = format!("{}A: b\n\ntext", nested(NESTING_CAP + 1));
    assert!(parse_mail(over.as_bytes()).is_none());
    let deep = nested(200_000);
    assert_eq!(message_body(deep.as_bytes()), "");
    assert!(parse_mail(deep.as_bytes()).is_none());
    assert_eq!(read_header(Some(deep.as_bytes()), "me@x.org").from, "Unknown");
}

#[test]
fn mail_may_be_long_and_name_any_type() {
    let filler = "word ".repeat(5000);
    let plain = format!("From: a@b.c\r\n\r\n{filler}");
    assert!(message_body(plain.as_bytes()).starts_with("word word"));
    assert_eq!(format_from(&parse_mail(plain.as_bytes()).unwrap()), "a@b.c");
    for word in ["message/rfc822", "RFC822", "Global", "multipart/digest"] {
        let long = format!("From: a@b.c\r\n\r\n{}{filler}", format!("{word} ").repeat(1000));
        assert!(message_body(long.as_bytes()).starts_with(word), "{word}");
    }
}

#[test]
fn encoded_mail_may_speak_of_messages() {
    for (subtype, coding, text) in [
        ("enriched", "7bit", "a global matter"),
        ("plain", "quoted-printable", "a global matter, digest =C3=BC"),
        ("plain", "base64", "YSBnbG9iYWwgbWF0dGVy"),
    ] {
        let raw = format!(
            "From: a@b.c\r\nSubject: Global digest (rfc822)\r\nMIME-Version: 1.0\r\n\
             Content-Type: text/{subtype}; charset=utf-8\r\n\
             Content-Transfer-Encoding: {coding}\r\n\r\n{text}"
        );
        let msg = parse(&raw);
        assert_eq!(msg.subject.as_deref(), Some("Global digest (rfc822)"));
        // Text of another kind than plain or HTML counts as attached.
        let shown = msg.text.or_else(|| String::from_utf8(msg.attachment?).ok());
        assert!(shown.unwrap().starts_with("a global matter"), "{coding}");
    }
}

fn forwarded(outer: &str) -> String {
    format!(
        "From: a@b.c\r\nMIME-Version: 1.0\r\nContent-Type: multipart/mixed; boundary=XX\r\n\r\n\
         --XX\r\nContent-Type: text/plain\r\nContent-Transfer-Encoding: base64\r\n\r\n\
         c2VlIGJlbG93\r\n--XX\r\nContent-Type: message/rfc822\r\n{outer}\r\n\
         From: c@d.e\r\nContent-Type: text/plain\r\n\
         Content-Transfer-Encoding: quoted-printable\r\n\r\ngr=C3=BC=C3=9Fe\r\n--XX--\r\n"
    )
}

#[test]
fn a_forwarded_message_is_read_unless_it_is_encoded() {
    assert_eq!(message_body(forwarded("").as_bytes()), "see below");
    assert_eq!(
        message_body(forwarded("Content-Transfer-Encoding: 8bit\r\n").as_bytes()),
        "see below"
    );
    for coding in [
        "Content-Transfer-Encoding: base64\r\n",
        "content-transfer- Encoding :\r\n Quoted-Printable\r\n",
        "Content-Transfer-Encoding: =?utf-8?q?base64?=\r\n",
        // A zone of one letter takes in the line break, and the blank line.
        "Date: 1 Jan 2020 10:10:10 Z\n\nContent-Transfer-Encoding: base64\r\n",
    ] {
        assert!(parse_mail(forwarded(coding).as_bytes()).is_none(), "{coding}");
    }
    let digest = forwarded("").replace("multipart/mixed", "multipart/digest");
    assert!(parse_mail(digest.as_bytes()).is_none());
    let bare = "Content-Type: multipart/digest; boundary=b\r\n\r\n--b\r\n\r\n\
                From: a@b.c\r\n\r\nhi\r\n--b--\r\n";
    assert!(parse_mail(bare.as_bytes()).is_some());
}

#[test]
fn the_least_zone_is_not_parsed() {
    let raw = |zone: &str| {
        format!(
            "Received: by a; 1 Jan 2020 10:10:10 {zone}\r\nFrom: a@b.c\r\nSubject: Hi\r\n\r\ntext"
        )
    };
    for zone in ["-9223372036854775808", "-009223372036854775808"] {
        let h = read_header(Some(raw(zone).as_bytes()), "me@x.org");
        assert_eq!((h.from.as_str(), h.subject.as_str()), ("Unknown", "(No Subject)"));
        assert!(parse_mail(raw(zone).as_bytes()).is_none());
    }
    for zone in ["-0800", "9223372036854775808", "-19223372036854775808", "-9223372036854775807"] {
        let h = read_header(Some(raw(zone).as_bytes()), "me@x.org");
        assert_eq!((h.from.as_str(), h.subject.as_str()), ("a@b.c", "Hi"), "{zone}");
        assert_eq!(message_body(raw(zone).as_bytes()), "text");
    }
}

#[test]
fn what_can_be_parsed() {
    assert!(can_be_parsed(b""));
    assert!(can_be_parsed(b"Content-Type: text/plain\r\n\r\n--9223372036854775807"));
    assert!(!can_be_parsed(b"x -9223372036854775808"));
    assert!(can_be_parsed(b"Content-Type: message/global\n\nContent-Transfer-Encoding: base64\n"));
    assert!(!can_be_parsed(b"Content-Type: message/global\nContent-Transfer-Encoding: base64\n"));
    assert!(!can_be_parsed(b"Content-Type:\n message/global\nContent-Transfer-Encoding:\n\tbase64"));
    assert!(can_be_parsed(b"Content-Type: a/b\nX: global\nContent-Transfer-Encoding: base64\n"));
}

#[test]
fn a_boundary_behind_a_cut_line_is_not_parsed() {
    let mail = |line: &str| {
        format!(
            "Content-Type: multipart/mixed; boundary=b\r\n\r\n--b\r\nContent-Type: text/plain\r\n\
             Content-Transfer-Encoding: quoted-printable\r\n\r\n{line}\r\n--b--\r\n"
        )
    };
    assert_eq!(message_body(mail("gr=C3=BC=C3=9Fe").as_bytes()), "grüße");
    assert_eq!(message_body(mail("=").as_bytes()), "");
    assert!(parse_mail(mail("= \t").as_bytes()).is_none());
    // Where nothing is encoded, nothing is cut.
    let plain = mail("=").replace("quoted-printable", "8bit");
    assert_eq!(message_body(plain.as_bytes()), "=");
}

#[test]
fn single_parts_may_be_long_and_name_anything() {
    let spec = TextPartSpec {
        path: vec![1],
        subtype: "plain".into(),
        charset: Some("utf-8".into()),
        encoding: "7bit".into(),
    };
    let text = "global rfc822 digest =\n--".repeat(1000);
    assert!(part_body(&spec, text.as_bytes()).starts_with("global rfc822 digest"));
    let encoded = "digestAA".repeat(1000);
    assert_eq!(decode_part_bytes("base64", encoded.as_bytes()).len(), 6000);
    assert_eq!(part_body(&spec, b"-9223372036854775808"), "-9223372036854775808");
    // A description that breaks its own header is no single part.
    let broken = TextPartSpec { encoding: "7bit\r\nX-A: b".into(), ..spec };
    assert_eq!(part_body(&broken, b"-9223372036854775808"), "");
    assert_eq!(part_body(&broken, b"short"), "short");
}

#[test]
fn long_headers_are_read() {
    let raw = format!(
        "From: a@b.c\r\nX-Long: {}\r\nSubject: Hi\r\nContent-Type: message/rfc822\r\n\r\n",
        "x".repeat(100_000)
    );
    let h = read_header(Some(raw.as_bytes()), "me@x.org");
    assert_eq!((h.from.as_str(), h.subject.as_str()), ("a@b.c", "Hi"));
    // A header without fields shows as one that could not be read.
    let empty = read_header(Some(b"\r\nbody"), "me@x.org");
    assert_eq!((empty.from.as_str(), empty.subject.as_str()), ("Unknown", "(No Subject)"));
}
