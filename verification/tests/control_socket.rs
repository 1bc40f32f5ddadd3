use cce_mail::ipc::{
    client_step, exit_code, framed_reply, parse, received_line, ClientStep, Command, Parsed,
    DEFAULT_LIMIT, HELP,
};
use cce_mail::model::{AccountInfo, Email, FolderInfo, RemoteAttachment};
use cce_mail::render::{
    attachment_names, cell, count_messages, error, ok, render_accounts, render_email,
    render_folders, render_rows, render_status, StatusInfo,
};

#[test]
fn commands_parse() {
    assert_eq!(parse("help").unwrap().command, Command::Help);
    assert_eq!(
        parse("list").unwrap().command,
        Command::List { folder: None, limit: DEFAULT_LIMIT, unread: false }
    );
    assert_eq!(
        parse("--json list All Mail --limit 5 --unread").unwrap(),
        Parsed {
            command: Command::List { folder: Some("All Mail".into()), limit: 5, unread: true },
            json: true
        }
    );
    assert_eq!(
        parse("search invoice due -n 3").unwrap().command,
        Command::Search { query: "invoice due".into(), limit: 3 }
    );
    assert_eq!(parse("get 42").unwrap().command, Command::Get(42));
    assert_eq!(parse("mark-unread 7").unwrap().command, Command::MarkRead(7, false));
    assert_eq!(
        parse("select-account a@b.c").unwrap().command,
        Command::SelectAccount("a@b.c".into())
    );
    assert_eq!(parse("switch-folder sent").unwrap().command, Command::SwitchFolder("sent".into()));
    assert_eq!(
        parse("compose mailto:x@y.z?subject=hi").unwrap().command,
        Command::Compose(Some("mailto:x@y.z?subject=hi".into()))
    );
    assert_eq!(parse("quit").unwrap().command, Command::Quit);
}

#[test]
fn bad_lines_are_errors() {
    assert!(parse("").is_err());
    assert!(parse("bogus").is_err());
    assert!(parse("get").is_err());
    assert!(parse("get x").is_err());
    assert!(parse("get 1 2").is_err());
    assert!(parse("search").is_err());
    assert!(parse("list --limit").is_err());
    assert!(parse("list --limit many").is_err());
    assert!(parse("status --verbose").is_err());
    assert!(parse("sync now").is_err());
}

fn email(id: usize, subject: &str, read: bool) -> Email {
    Email {
        id,
        from: "a@b.c".into(),
        to: "me@x.y".into(),
        subject: subject.into(),
        body: "hello\nworld".into(),
        date: "2026-09-24".into(),
        read,
        folder: "inbox".into(),
        cc: String::new(),
        bcc: String::new(),
        attachments: vec!["/tmp/dir/report.pdf".into()],
        remote_attachments: Vec::new(),
        uid: Some(id as u32),
        ts: Some(1_000 + id as i64),
        origin_folder: None,
    }
}

#[test]
fn rows_are_tab_separated_and_sanitized() {
    let e = email(3, "tabs\tand\nnewlines", false);
    let text = render_rows(&[&e], false);
    assert_eq!(text, "3\tunread\tinbox\t2026-09-24\ta@b.c\ttabs and newlines");
    let json: serde_json::Value = serde_json::from_str(&render_rows(&[&e], true)).unwrap();
    assert_eq!(json[0]["id"], 3);
    assert_eq!(json[0]["attachments"][0], "report.pdf");
    assert_eq!(render_rows(&[], false), "");
    assert_eq!(render_rows(&[], true), "[]");
}

#[test]
fn email_text_has_headers_then_body() {
    let e = email(1, "Hi", true);
    let text = render_email(&e, false);
    assert!(text.starts_with("id: 1\nfolder: inbox\nfrom: a@b.c\n"));
    assert!(text.contains("\nread: yes\nattachments: report.pdf\n\nhello\nworld"));
    let json: serde_json::Value = serde_json::from_str(&render_email(&e, true)).unwrap();
    assert_eq!(json["body"], "hello\nworld");
}

fn secretive() -> AccountInfo {
    AccountInfo {
        email: "me@x.y".into(),
        imap: "imap.x.y:993".into(),
        smtp: "smtp.x.y:587".into(),
        is_default: true,
        password: "hunter2".into(),
        is_oauth: true,
        access_token: Some("tok".into()),
        refresh_token: Some("ref".into()),
        token_expiry: None,
        client_id: Some("cid".into()),
        client_secret: Some("csec".into()),
        keyring_backed: false,
    }
}

#[test]
fn accounts_never_leak_secrets() {
    let acc = secretive();
    for json in [false, true] {
        let out = render_accounts(&[acc.clone()], 0, json);
        for secret in ["hunter2", "tok", "ref", "csec"] {
            assert!(!out.contains(secret), "{out}");
        }
        assert!(out.contains("me@x.y"));
    }
}

// ---- beyond the above ------------------------------------------------------

#[test]
fn account_replies_do_not_depend_on_secrets() {
    let a = secretive();
    let mut b = secretive();
    b.password = "other".into();
    b.access_token = None;
    b.refresh_token = None;
    b.client_secret = Some("different".into());
    for json in [false, true] {
        assert_eq!(
            render_accounts(&[a.clone()], 0, json),
            render_accounts(&[b.clone()], 0, json)
        );
    }
}

#[test]
fn errors_name_what_is_wrong() {
    let bogus = parse("bogus").unwrap_err();
    assert!(bogus.contains("bogus"), "{bogus}");
    // What was typed is quoted and escaped.
    let quoted = parse("get \"x").unwrap_err();
    assert!(quoted.contains("\\\""), "{quoted}");
    for line in ["", "get", "get 1 2", "search", "list --limit", "list --limit many", "sync now"] {
        assert!(!parse(line).unwrap_err().is_empty(), "{line}");
    }
}

#[test]
fn every_command_has_its_spelling() {
    assert_eq!(parse("status").unwrap().command, Command::Status);
    assert_eq!(parse("accounts").unwrap().command, Command::Accounts);
    assert_eq!(parse("folders").unwrap().command, Command::Folders);
    assert_eq!(parse("open 9").unwrap().command, Command::Open(9));
    assert_eq!(parse("mark-read 7").unwrap().command, Command::MarkRead(7, true));
    assert_eq!(parse("sync").unwrap().command, Command::Sync);
    assert_eq!(parse("compose").unwrap().command, Command::Compose(None));
}

#[test]
fn switches_sit_anywhere() {
    let a = parse("list --unread sent --json --limit 2").unwrap();
    let b = parse("--json --limit 2 list sent --unread").unwrap();
    assert_eq!(a, b);
    assert_eq!(
        a.command,
        Command::List { folder: Some("sent".into()), limit: 2, unread: true }
    );
    assert_eq!(parse("-n 4 list").unwrap(), parse("list --limit 4").unwrap());
}

#[test]
fn the_client_sends_its_words_as_a_line() {
    let words = |ws: &[&str]| ws.iter().map(|w| w.to_string()).collect::<Vec<String>>();
    assert_eq!(client_step(&words(&[])), ClientStep::ShowHelp);
    assert_eq!(client_step(&words(&["help"])), ClientStep::ShowHelp);
    match client_step(&words(&["list", "All", "Mail"])) {
        ClientStep::Send(line) => assert!(line.starts_with("list All Mail"), "{line:?}"),
        other => panic!("{other:?}"),
    }
    assert!(HELP.contains("list"));
}

#[test]
fn error_replies_set_the_exit_code() {
    assert_eq!(exit_code(&Some(error("no such message"))), 1);
    assert_eq!(exit_code(&Some("ok: done".to_string())), 0);
    assert_ne!(exit_code(&None), 0);
    assert_eq!(error("no such message"), "error: no such message");
}

#[test]
fn replies_end_in_a_newline() {
    assert_eq!(framed_reply("x"), "x\n");
    assert_eq!(framed_reply("x\n"), "x\n");
    assert_eq!(framed_reply(""), "\n");
    assert_eq!(received_line("  list \r\n"), "list");
}

#[test]
fn ok_replies_come_as_text_and_as_json() {
    assert_eq!(ok("syncing", false), "ok: syncing");
    assert_eq!(ok("a \"quoted\"\n", true), "{\"ok\":\"a \\\"quoted\\\"\\n\"}");
}

#[test]
fn cells_hold_no_separators() {
    assert_eq!(cell("a\tb\nc\rd"), "a b c d");
    assert_eq!(cell("plain"), "plain");
}

#[test]
fn attachments_are_named_by_their_files() {
    let mut e = email(1, "s", true);
    assert_eq!(attachment_names(&e), vec!["report.pdf".to_string()]);
    // What the server lists wins over local paths.
    e.remote_attachments.push(RemoteAttachment {
        name: "scan.png".into(),
        section: vec![2],
        encoding: "base64".into(),
        mime: "image/png".into(),
        size: 10,
    });
    assert_eq!(attachment_names(&e), vec!["scan.png".to_string()]);
}

#[test]
fn counts_are_per_folder() {
    let mut sent = email(3, "s", false);
    sent.folder = "sent".into();
    let all = vec![email(1, "a", true), email(2, "b", false), sent];
    assert_eq!(count_messages(&all, "inbox"), (2, 1));
    assert_eq!(count_messages(&all, "sent"), (1, 1));
    assert_eq!(count_messages(&all, "trash"), (0, 0));
}

#[test]
fn folders_render_with_their_counts() {
    let folders = vec![
        FolderInfo { tag: "inbox".into(), label: "Inbox".into(), mailbox: "INBOX".into() },
        FolderInfo { tag: "drafts".into(), label: "Drafts".into(), mailbox: "".into() },
    ];
    let mail = vec![email(1, "a", false), email(2, "b", true)];
    let json: serde_json::Value =
        serde_json::from_str(&render_folders(&folders, &mail, "inbox", true)).unwrap();
    assert_eq!(json[0]["tag"], "inbox");
    assert_eq!(json[0]["unread"], 1);
    assert_eq!(json[1]["tag"], "drafts");
    assert_eq!(json[1]["unread"], 0);
    let text = render_folders(&folders, &mail, "inbox", false);
    assert_eq!(text.lines().count(), 2, "{text}");
}

fn status() -> StatusInfo {
    StatusInfo {
        account: Some("me@x.y".into()),
        accounts: 2,
        folder_tag: "inbox".into(),
        folder_label: "Inbox".into(),
        cached: 10,
        in_folder: 4,
        unread_in_folder: 1,
        selected: Some(3),
        syncing: false,
        last_sync_secs_ago: Some(12),
    }
}

#[test]
fn the_status_names_the_socket_and_the_account() {
    let text = render_status(&status(), "/run/x.sock", false);
    assert!(text.contains("/run/x.sock"), "{text}");
    assert!(text.contains("me@x.y"), "{text}");
    let json: serde_json::Value =
        serde_json::from_str(&render_status(&status(), "/run/x.sock", true)).unwrap();
    assert_eq!(json["account"], "me@x.y");
    assert_eq!(json["socket"], "/run/x.sock");
    assert_eq!(json["cached"], 10);
    let mut none = status();
    none.account = None;
    none.last_sync_secs_ago = None;
    let json: serde_json::Value =
        serde_json::from_str(&render_status(&none, "s", true)).unwrap();
    assert!(json["account"].is_null());
}

#[test]
fn json_strings_are_escaped() {
    assert_eq!(
        ok("\u{0}\u{1f}\u{8}\t\n\u{c}\r\"\\/\u{7f}é", true),
        "{\"ok\":\"\\u0000\\u001f\\b\\t\\n\\f\\r\\\"\\\\/\u{7f}é\"}"
    );
    assert_eq!(ok("", true), "{\"ok\":\"\"}");
    let all: String = (0..=0x2ffu32).filter_map(char::from_u32).collect();
    let back: serde_json::Value = serde_json::from_str(&ok(&all, true)).unwrap();
    assert_eq!(back["ok"].as_str(), Some(all.as_str()));
}
