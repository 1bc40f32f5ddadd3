use cce_mail::model::OutgoingMail;
use cce_mail::outgoing::{attachment_content_type, attachment_name, build_outgoing};

fn outgoing(to: &str, cc: &str, bcc: &str, attachments: Vec<String>) -> OutgoingMail {
    OutgoingMail {
        to: to.to_string(),
        cc: cc.to_string(),
        bcc: bcc.to_string(),
        subject: "S".to_string(),
        body: "B".to_string(),
        attachments,
    }
}

#[test]
fn outgoing_bcc_delivers_without_a_header() {
    let msg = build_outgoing(
        "me@example.org",
        &outgoing("a@x.org, b@y.org", "c@z.org", "hidden@w.org", vec![]),
        &vec![],
    )
    .unwrap();

    // Envelope (actual delivery) covers To + Cc + Bcc…
    let rcpts: Vec<String> = msg.envelope().to().iter().map(|a| a.to_string()).collect();
    assert!(rcpts.contains(&"a@x.org".to_string()));
    assert!(rcpts.contains(&"b@y.org".to_string()));
    assert!(rcpts.contains(&"c@z.org".to_string()));
    assert!(rcpts.contains(&"hidden@w.org".to_string()));

    // …but the transmitted bytes never name the bcc recipient.
    let formatted = String::from_utf8_lossy(&msg.formatted()).into_owned();
    assert!(formatted.contains("To: a@x.org, b@y.org"), "{formatted}");
    assert!(formatted.contains("Cc: c@z.org"), "{formatted}");
    assert!(!formatted.contains("hidden@w.org"), "bcc leaked into headers: {formatted}");
}

#[test]
fn outgoing_rejects_empty_and_bad_addresses() {
    assert!(build_outgoing("me@example.org", &outgoing("", "", "", vec![]), &vec![]).is_err());
    assert!(
        build_outgoing("me@example.org", &outgoing("not-an-address", "", "", vec![]), &vec![])
            .is_err()
    );
    // Bcc-only is a legitimate message.
    assert!(
        build_outgoing("me@example.org", &outgoing("", "", "b@y.org", vec![]), &vec![]).is_ok()
    );
}

#[test]
fn outgoing_attachment_builds_multipart() {
    let msg = build_outgoing(
        "me@example.org",
        &outgoing("a@x.org", "", "", vec!["/tmp/attach/note.txt".to_string()]),
        &vec![Ok(b"hello attachment".to_vec())],
    )
    .unwrap();
    let formatted = String::from_utf8_lossy(&msg.formatted()).into_owned();
    assert!(formatted.contains("multipart/mixed"), "{formatted}");
    assert!(formatted.contains("note.txt"), "{formatted}");
    assert!(formatted.contains("hello attachment"), "{formatted}");

    // Unreadable path = build error = the send fails into Drafts rather
    // than silently mailing without the file.
    assert!(build_outgoing(
        "me@example.org",
        &outgoing("a@x.org", "", "", vec!["/nonexistent/gone.pdf".to_string()]),
        &vec![Err("No such file or directory".to_string())],
    )
    .is_err());
}

#[test]
fn a_bad_sender_is_refused() {
    let e = build_outgoing("nobody", &outgoing("a@x.org", "", "", vec![]), &vec![]).unwrap_err();
    assert!(!e.is_empty());
}

#[test]
fn each_field_is_named_in_its_error() {
    for (mail, label) in [
        (outgoing("x y z", "", "", vec![]), "To"),
        (outgoing("a@x.org", "x y z", "", vec![]), "Cc"),
        (outgoing("a@x.org", "", "x y z", vec![]), "Bcc"),
    ] {
        let e = build_outgoing("me@example.org", &mail, &vec![]).unwrap_err();
        assert!(e.contains(label), "{e}");
    }
}

#[test]
fn the_subject_and_the_body_are_sent() {
    let msg =
        build_outgoing("Me <me@example.org>", &outgoing("a@x.org", "", "", vec![]), &vec![]).unwrap();
    let formatted = String::from_utf8_lossy(&msg.formatted()).into_owned();
    assert!(formatted.contains("Subject: S\r\n"), "{formatted}");
    assert!(formatted.contains("From: Me <me@example.org>"), "{formatted}");
    assert!(formatted.ends_with("\r\n\r\nB"), "{formatted:?}");
    let rcpts: Vec<String> = msg.envelope().to().iter().map(|a| a.to_string()).collect();
    assert_eq!(rcpts, vec!["a@x.org".to_string()]);
}

#[test]
fn mail_goes_out_from_the_account() {
    let msg = build_outgoing(
        "Me <me@example.org>",
        &outgoing("a@x.org", "", "b@x.org", vec![]),
        &vec![],
    )
    .unwrap();
    assert_eq!(msg.envelope().from().map(|a| a.to_string()).as_deref(), Some("me@example.org"));
}

#[test]
fn content_types_go_by_extension() {
    assert_eq!(attachment_content_type("/a/b.pdf"), "application/pdf");
    assert_eq!(attachment_content_type("/a/b.PDF"), "application/pdf");
    assert_eq!(attachment_content_type("/a/b"), "application/octet-stream");
    assert_eq!(attachment_content_type("/a/b.weird"), "application/octet-stream");
    assert_eq!(attachment_name("/a/b.pdf"), "b.pdf");
}
