use cce_mail::accounts::{
    account_choice, account_dropdown_options, cache_file_name, default_accounts, find_account,
    first_step, initial_account, is_mock_account, next_step, redacted, remembered_email,
    AccountChoice, SecretEvent, SecretStep,
};
use cce_mail::demo::{get_default_mock_emails, initial_emails};
use cce_mail::jobs::{
    DeleteJob, PartJob, PartReply, PartStep, SaveJob, SaveReply, SaveStep, SeenJob, SendJob,
    SendReply, SendStep, ServerStep, SyncJob,
};
use cce_mail::model::{AccountInfo, FolderSync, OutgoingMail, RemoteAttachment};
use cce_mail::net::{
    attachment_query, download_name, endpoint, mailboxes, oauth_response, read_refresh_reply,
    refresh_form, refreshed, seen_flags, smtp_security, take_token, token_step, trash_mailboxes,
    RefreshReply, Security, TokenStep,
};
use cce_mail::session::{said_message, OpenReply, OpenStep, Opening, Said};
use cce_mail::state::AppMessage;

fn account() -> AccountInfo {
    AccountInfo {
        email: "me@x.y".into(),
        imap: "imap.x.y:1993".into(),
        smtp: "smtp.x.y:587".into(),
        is_default: false,
        password: "pw".into(),
        is_oauth: false,
        access_token: None,
        refresh_token: None,
        token_expiry: None,
        client_id: None,
        client_secret: None,
        keyring_backed: false,
    }
}

fn oauth() -> AccountInfo {
    AccountInfo {
        is_oauth: true,
        access_token: Some("old".into()),
        refresh_token: Some("r".into()),
        token_expiry: Some(1000),
        ..account()
    }
}

// ---- accounts --------------------------------------------------------------

#[test]
fn the_demo_account_is_built_in() {
    let all = default_accounts();
    assert_eq!(all.len(), 1);
    assert!(is_mock_account(&all[0]));
    assert!(!is_mock_account(&account()));
    let mail = get_default_mock_emails();
    assert_eq!(mail.len(), 4);
    assert_eq!(mail[0].subject, "Welcome to Clear Mail");
    assert!(mail[1].body.contains("- Window Background: [0.05, 0.05, 0.07, 1.0]"));
    assert_eq!(mail.iter().map(|e| e.id).collect::<Vec<_>>(), vec![1, 2, 3, 4]);
    assert_eq!(mail[3].folder, "sent");
    assert!(mail.iter().all(|e| e.uid.is_none()));
    assert_eq!(initial_emails("lsgalante@cce-ui.org"), mail);
    assert!(initial_emails("me@x.y").is_empty());
}

#[test]
fn accounts_are_found_and_offered() {
    let all = vec![account(), oauth()];
    assert_eq!(find_account(&all, "me@x.y"), 0);
    assert_eq!(find_account(&all, "no@x.y"), 2);
    assert_eq!(initial_account(&all, &None), 0);
    assert_eq!(
        account_dropdown_options(&all),
        vec!["me@x.y".to_string(), "me@x.y".to_string(), "Manage Accounts…".to_string()]
    );
    assert_eq!(account_choice(1, 2), AccountChoice::Select(1));
    assert_eq!(account_choice(2, 2), AccountChoice::Manage);
    assert_eq!(remembered_email(" a@b \n").as_deref(), Some("a@b"));
    assert_eq!(remembered_email(" \n"), None);
    assert_eq!(cache_file_name("a.b@c.d"), "emails_a_b_c_d.json");
}

#[test]
fn keyring_passwords_are_not_stored() {
    let mut backed = account();
    backed.keyring_backed = true;
    let stored = redacted(&[account(), backed]);
    assert_eq!(stored[0].password, "pw");
    assert_eq!(stored[1].password, "");
    assert_eq!(stored[1].email, "me@x.y");
}

#[test]
fn a_plain_password_moves_into_the_keyring() {
    let mut a = account();
    assert_eq!(first_step(&a), SecretStep::Open);
    assert_eq!(
        next_step(&mut a, SecretStep::Open, SecretEvent::Worked(true)),
        (SecretStep::Migrate, false)
    );
    assert_eq!(
        next_step(&mut a, SecretStep::Migrate, SecretEvent::Worked(true)),
        (SecretStep::Done, true)
    );
    assert!(a.keyring_backed);
    assert_eq!(a.password, "pw");
    // A failed write changes nothing.
    let mut b = account();
    assert_eq!(
        next_step(&mut b, SecretStep::Migrate, SecretEvent::Worked(false)),
        (SecretStep::Done, false)
    );
    assert!(!b.keyring_backed);
    assert_eq!(first_step(&default_accounts()[0]), SecretStep::Done);
}

#[test]
fn a_legacy_entry_is_copied_before_it_is_dropped() {
    let mut a = account();
    a.password = String::new();
    let mut step = first_step(&a);
    let mut steps = vec![step];
    for event in [
        SecretEvent::Worked(true),
        SecretEvent::Found(None),
        SecretEvent::Found(Some("old".into())),
        SecretEvent::Worked(true),
        SecretEvent::Worked(true),
    ] {
        step = next_step(&mut a, step, event).0;
        steps.push(step);
    }
    assert_eq!(
        steps,
        vec![
            SecretStep::Open,
            SecretStep::Read,
            SecretStep::ReadLegacy,
            SecretStep::Adopt,
            SecretStep::DropLegacy,
            SecretStep::Done,
        ]
    );
    assert_eq!(a.password, "old");
    assert!(a.keyring_backed);
    // Where the copy fails, the legacy entry stays.
    let mut b = account();
    b.password = "old".into();
    assert_eq!(
        next_step(&mut b, SecretStep::Adopt, SecretEvent::Worked(false)).0,
        SecretStep::Done
    );
    assert!(!b.keyring_backed);
}

// ---- endpoints and tokens --------------------------------------------------

#[test]
fn endpoints_have_a_default_port() {
    let e = endpoint("imap.x.y:1993", 993);
    assert_eq!((e.domain.as_str(), e.port), ("imap.x.y", 1993));
    assert_eq!(endpoint("imap.x.y", 993).port, 993);
    assert_eq!(endpoint("imap.x.y:", 993).port, 993);
    assert_eq!(endpoint("imap.x.y:99999", 993).port, 993);
    assert_eq!(endpoint("imap.x.y:1:2", 993).port, 1);
    assert_eq!(smtp_security(465), Security::Tls);
    assert_eq!(smtp_security(587), Security::StartTls);
    assert_eq!(oauth_response("u", "t"), "user=u\x01auth=Bearer t\x01\x01");
}

#[test]
fn fresh_tokens_are_used_and_stale_ones_renewed() {
    let a = oauth();
    assert_eq!(token_step(&a, 699), TokenStep::Use("old".into()));
    assert_eq!(token_step(&a, 700), TokenStep::Refresh("r".into()));
    let mut none = oauth();
    none.refresh_token = None;
    assert_eq!(token_step(&none, 700), TokenStep::Fail("No refresh token".into()));
    assert_eq!(token_step(&account(), 0), TokenStep::Fail("Not an OAuth account".into()));
}

#[test]
fn a_refresh_carries_the_accounts_own_client() {
    let mut a = oauth();
    a.client_id = Some("mine".into());
    let form = refresh_form(&a, "r", "cid", "csec");
    let flat: Vec<(&str, &str)> = form.iter().map(|(k, v)| (k.as_str(), v.as_str())).collect();
    assert_eq!(
        flat,
        vec![
            ("client_id", "mine"),
            ("client_secret", "csec"),
            ("refresh_token", "r"),
            ("grant_type", "refresh_token"),
        ]
    );
}

#[test]
fn refresh_replies_are_read() {
    assert_eq!(
        read_refresh_reply(br#"{"access_token":"tok","expires_in":10,"x":[1]}"#),
        RefreshReply::Granted(Some("tok".into()), Some(10))
    );
    assert_eq!(
        read_refresh_reply(br#"{"access_token":7,"expires_in":"soon"}"#),
        RefreshReply::Granted(None, None)
    );
    assert_eq!(
        read_refresh_reply(br#"{"access_token":"a\"b","expires_in":-1}"#),
        RefreshReply::Granted(Some("a\"b".into()), None)
    );
    assert_eq!(read_refresh_reply(b"[1]"), RefreshReply::Granted(None, None));
    assert_eq!(read_refresh_reply(b"{"), RefreshReply::Unreadable);
}

#[test]
fn a_refresh_ends_in_a_token_or_a_reason() {
    let mut a = oauth();
    assert_eq!(
        refreshed(&mut a, RefreshReply::Granted(Some("new".into()), Some(10)), 500),
        Ok("new".into())
    );
    assert_eq!(a.access_token.as_deref(), Some("new"));
    assert_eq!(a.token_expiry, Some(510));
    assert_eq!(take_token(&mut a, None, None, 500), "");
    assert_eq!(a.token_expiry, Some(4100));
    let before = a.clone();
    assert_eq!(
        refreshed(&mut a, RefreshReply::Unreachable("dns".into()), 0),
        Err("Refresh request request failed: dns".into())
    );
    assert_eq!(
        refreshed(&mut a, RefreshReply::Refused("400 Bad Request".into(), "no".into()), 0),
        Err("Refresh request failed status: 400 Bad Request, error: no".into())
    );
    assert_eq!(
        refreshed(&mut a, RefreshReply::Unreadable, 0),
        Err("Failed to parse refresh token JSON response".into())
    );
    assert_eq!(a, before);
}

// ---- sessions --------------------------------------------------------------

#[test]
fn a_session_opens_with_a_password() {
    let mut o = Opening::new(account());
    assert_eq!(
        o.step(),
        OpenStep::Connect {
            domain: "imap.x.y".into(),
            port: 1993,
            note: "Connecting to imap.x.y:1993...".into()
        }
    );
    assert!(o.take(OpenReply::Done).is_empty());
    assert_eq!(o.step(), OpenStep::Login("me@x.y".into(), "pw".into()));
    assert!(o.take(OpenReply::Done).is_empty());
    assert_eq!(o.step(), OpenStep::Opened);
}

#[test]
fn a_session_opens_with_a_token() {
    let mut o = Opening::new(oauth());
    assert_eq!(o.step(), OpenStep::Token);
    assert_eq!(
        o.take(OpenReply::Token("new".into(), Some("new".into()), Some(9))),
        vec![Said::Tokens("me@x.y".into(), Some("new".into()), Some(9))]
    );
    o.take(OpenReply::Done);
    assert_eq!(o.step(), OpenStep::Authenticate(oauth_response("me@x.y", "new")));
    assert_eq!(
        o.take(OpenReply::Failed("no".into())),
        vec![Said::Error("IMAP OAuth Login failed: no".into())]
    );
    assert_eq!(o.step(), OpenStep::Failed);
}

#[test]
fn each_failure_to_open_is_said() {
    let mut o = Opening::new(oauth());
    assert_eq!(
        o.take(OpenReply::Failed("x".into())),
        vec![Said::Error("OAuth Refresh Failed: x".into())]
    );
    let mut o = Opening::new(account());
    assert_eq!(
        o.take(OpenReply::NoTls),
        vec![Said::Error("Failed to create TLS connector".into())]
    );
    let mut o = Opening::new(account());
    assert_eq!(
        o.take(OpenReply::Failed("x".into())),
        vec![Said::Error("IMAP Connection failed: x".into())]
    );
    let mut o = Opening::new(account());
    o.take(OpenReply::Done);
    assert_eq!(
        o.take(OpenReply::Failed("x".into())),
        vec![Said::Error("IMAP Login failed: x".into())]
    );
    assert!(o.take(OpenReply::Done).is_empty());
    assert_eq!(o.step(), OpenStep::Failed);
}

#[test]
fn a_quiet_worker_passes_on_tokens_alone() {
    assert!(said_message(Said::Note("n".into()), false).is_none());
    assert!(said_message(Said::Error("e".into()), false).is_none());
    assert!(said_message(Said::Log("l".into()), true).is_none());
    assert!(matches!(said_message(Said::Note("n".into()), true),
        Some(AppMessage::Status(t)) if t == "n"));
    assert!(matches!(said_message(Said::Error("e".into()), true),
        Some(AppMessage::StatusError(t)) if t == "e"));
    assert!(matches!(said_message(Said::Tokens("a".into(), None, Some(1)), false),
        Some(AppMessage::UpdateAccountTokens(a, None, Some(1))) if a == "a"));
}

// ---- jobs ------------------------------------------------------------------

fn sync_of(folder: &str) -> FolderSync {
    FolderSync {
        folder: folder.into(),
        fetched: vec![],
        server_uids: vec![],
        seen_uids: vec![],
        remaining: 0,
    }
}

#[test]
fn a_sync_takes_the_inbox_and_the_first_sent_folder() {
    let job = SyncJob::new(&account()).unwrap();
    assert!(matches!(SyncJob::greeting(), AppMessage::Status(t) if t == "Syncing Inbox..."));
    let o = job.order().unwrap();
    assert_eq!((o.mailbox.as_str(), o.folder.as_str(), o.verbose), ("INBOX", "inbox", true));
    let job = job.take(Some(sync_of("inbox")));
    let o = job.order().unwrap();
    assert_eq!(
        (o.mailbox.as_str(), o.folder.as_str(), o.verbose),
        ("[Gmail]/Sent Mail", "sent", false)
    );
    let job = job.take(None);
    assert_eq!(job.order().unwrap().mailbox, "Sent");
    let job = job.take(Some(sync_of("sent")));
    assert!(job.order().is_none());
    let report = job.report();
    assert!(matches!(&report[0], AppMessage::EmailsSynced(a, fs) if a == "me@x.y" && fs.len() == 2));
    assert!(matches!(&report[1], AppMessage::Status(t) if t == "Sync Complete"));
}

#[test]
fn a_sync_without_an_inbox_reports_nothing() {
    let job = SyncJob::new(&account()).unwrap().take(None);
    assert!(job.order().is_none());
    assert!(job.report().is_empty());
    let job = SyncJob::new(&account()).unwrap().take(Some(sync_of("inbox"))).take(None).take(None);
    assert!(job.order().is_none());
    assert_eq!(job.report().len(), 2);
    assert!(SyncJob::new(&default_accounts()[0]).is_none());
}

#[test]
fn a_deletion_copies_marks_and_removes() {
    let mut j = DeleteJob::new(&account(), 42).unwrap();
    let mut steps = vec![j.step()];
    for problem in [None, Some("no".to_string()), None, None] {
        assert!(j.take(problem).is_empty());
        steps.push(j.step());
    }
    assert_eq!(
        steps,
        vec![
            ServerStep::Select("INBOX".into()),
            ServerStep::Copy("42".into(), "[Gmail]/Trash".into()),
            ServerStep::Copy("42".into(), "Trash".into()),
            ServerStep::Store("42".into(), "+FLAGS (\\Deleted)".into()),
            ServerStep::Expunge("42".into()),
        ]
    );
    assert!(j.take(Some("no uidplus".into())).is_empty());
    assert_eq!(j.step(), ServerStep::ExpungeAll);
    assert_eq!(j.take(None), vec![Said::Note("Deleted on server".into())]);
    assert_eq!(j.step(), ServerStep::Logout);
    assert!(DeleteJob::new(&default_accounts()[0], 1).is_none());
}

#[test]
fn a_deletion_stops_at_its_failures() {
    let mut j = DeleteJob::new(&account(), 42).unwrap();
    assert_eq!(
        j.take(Some("x".into())),
        vec![Said::Error("Failed to select INBOX: x".into())]
    );
    assert_eq!(j.step(), ServerStep::Logout);
    let mut j = DeleteJob::new(&account(), 42).unwrap();
    j.take(None);
    j.take(None);
    assert_eq!(
        j.take(Some("x".into())),
        vec![Said::Error("Server delete failed: x".into())]
    );
    assert_eq!(j.step(), ServerStep::Logout);
}

#[test]
fn the_read_flag_is_pushed() {
    let mut j = SeenJob::new(&account(), 7, false).unwrap();
    assert_eq!(j.step(), ServerStep::Select("INBOX".into()));
    j.take(true);
    assert_eq!(j.step(), ServerStep::Store("7".into(), "-FLAGS (\\Seen)".into()));
    j.take(false);
    assert_eq!(j.step(), ServerStep::Logout);
    let mut j = SeenJob::new(&account(), 7, true).unwrap();
    j.take(false);
    assert_eq!(j.step(), ServerStep::Logout);
    assert_eq!(seen_flags(true), "+FLAGS (\\Seen)");
    assert!(SeenJob::new(&default_accounts()[0], 7, true).is_none());
}

fn attachment() -> RemoteAttachment {
    RemoteAttachment {
        name: "../p.tar.gz".into(),
        section: vec![2, 1],
        encoding: "base64".into(),
        mime: "application/gzip".into(),
        size: 4,
    }
}

#[test]
fn an_attachment_is_fetched_and_decoded() {
    let j = PartJob::new(&account(), "sent", 7, attachment());
    assert_eq!(j.step(), PartStep::Select("[Gmail]/Sent Mail".into()));
    let j = j.take(PartReply::Selected(false));
    assert_eq!(j.step(), PartStep::Select("Sent".into()));
    let j = j.take(PartReply::Selected(true));
    assert_eq!(j.step(), PartStep::Fetch("7".into(), "(BODY.PEEK[2.1])".into(), vec![2, 1]));
    let j = j.take(PartReply::Part(Some(b"aGk=".to_vec())));
    assert_eq!(j.step(), PartStep::Save("../p.tar.gz".into()));
    assert_eq!(j.contents(), b"hi");
    let j = j.take(PartReply::Saved(Ok("/d/p.tar.gz".into())));
    assert_eq!(j.step(), PartStep::Done(Ok("/d/p.tar.gz".into())));
    assert_eq!(attachment_query(&vec![3]), "(BODY.PEEK[3])");
}

#[test]
fn each_failure_of_an_attachment_is_reported() {
    let done = |j: PartJob, e: &str| assert_eq!(j.step(), PartStep::Done(Err(e.into())));
    let new = || PartJob::new(&account(), "inbox", 7, attachment());
    done(
        PartJob::new(&default_accounts()[0], "inbox", 7, attachment()),
        "This account has no server copy",
    );
    done(new().unreachable(), "IMAP connection failed");
    done(new().take(PartReply::Selected(false)), "Cannot select mailbox");
    let fetching = || new().take(PartReply::Selected(true));
    done(fetching().take(PartReply::Part(None)), "Server returned no data for the part");
    done(fetching().take(PartReply::Failed("x".into())), "Fetch failed: x");
    done(
        fetching()
            .take(PartReply::Part(Some(b"aGk=".to_vec())))
            .take(PartReply::Saved(Err("full".into()))),
        "full",
    );
    assert_eq!(mailboxes("inbox"), vec!["INBOX".to_string()]);
    assert_eq!(trash_mailboxes(), vec!["[Gmail]/Trash".to_string(), "Trash".to_string()]);
}

#[test]
fn files_are_saved_under_free_names() {
    let mut j = SaveJob::new(Some("/home/me"), "../p.tar.gz");
    assert_eq!(j.step(), SaveStep::CreateDirectory("/home/me/Downloads".into()));
    j.take(SaveReply::Worked);
    assert_eq!(j.step(), SaveStep::Probe("/home/me/Downloads/p.tar.gz".into()));
    j.take(SaveReply::Taken);
    assert_eq!(j.step(), SaveStep::Probe("/home/me/Downloads/p.tar (1).gz".into()));
    assert_eq!(j.tried(), 1);
    j.take(SaveReply::Worked);
    assert_eq!(j.step(), SaveStep::Write("/home/me/Downloads/p.tar (1).gz".into()));
    j.take(SaveReply::Worked);
    assert_eq!(j.step(), SaveStep::Done(Ok("/home/me/Downloads/p.tar (1).gz".into())));
}

#[test]
fn each_failure_to_save_is_reported() {
    assert_eq!(SaveJob::new(None, "x").step(), SaveStep::Done(Err("No HOME".into())));
    let mut j = SaveJob::new(Some("/h"), "x");
    j.take(SaveReply::Failed("ro".into()));
    assert_eq!(j.step(), SaveStep::Done(Err("Cannot create /h/Downloads: ro".into())));
    let mut j = SaveJob::new(Some("/h"), "x");
    j.take(SaveReply::Worked);
    j.take(SaveReply::Worked);
    j.take(SaveReply::Failed("full".into()));
    assert_eq!(j.step(), SaveStep::Done(Err("Cannot write /h/Downloads/x: full".into())));
}

#[test]
fn hostile_names_stay_in_the_directory() {
    assert_eq!(download_name("../.ssh/authorized_keys", 0), "authorized_keys");
    assert_eq!(download_name("..", 0), "attachment");
    assert_eq!(download_name("/", 3), "attachment (3)");
    assert_eq!(download_name(".bashrc", 1), ".bashrc (1)");
    assert_eq!(download_name("a.pdf", 2), "a (2).pdf");
}

fn out(bcc: &str, attachments: Vec<String>) -> OutgoingMail {
    OutgoingMail {
        to: "a@x.org".into(),
        cc: String::new(),
        bcc: bcc.into(),
        subject: "S".into(),
        body: "B".into(),
        attachments,
    }
}

#[test]
fn a_mail_is_built_and_handed_over() {
    let j = SendJob::new(account(), out("", vec!["/tmp/f.txt".into()]));
    assert_eq!(
        j.step(),
        SendStep::Read("Sending SMTP mail...".into(), vec!["/tmp/f.txt".into()])
    );
    let (j, said) = j.take(SendReply::Files(vec![Ok(b"hello".to_vec())]));
    assert!(said.is_empty());
    match j.step() {
        SendStep::Deliver(d) => {
            assert_eq!((d.domain.as_str(), d.port), ("smtp.x.y", 587));
            assert_eq!(d.security, Security::StartTls);
            assert_eq!((d.user.as_str(), d.secret.as_str(), d.oauth), ("me@x.y", "pw", false));
        }
        other => panic!("{other:?}"),
    }
    let bytes = j.message().as_ref().unwrap().formatted();
    assert!(String::from_utf8_lossy(&bytes).contains("f.txt"));
    let (j, _) = j.take(SendReply::Delivered);
    assert_eq!(j.step(), SendStep::Done);
    assert!(matches!(j.report(), AppMessage::SendResult(m, None) if m.subject == "S"));
}

#[test]
fn each_failure_to_send_keeps_the_mail() {
    let report = |j: SendJob| match j.report() {
        AppMessage::SendResult(m, Some(e)) => {
            assert_eq!(m.to, "a@x.org");
            e
        }
        other => panic!("{other:?}"),
    };
    let (j, _) =
        SendJob::new(oauth(), out("", vec![])).take(SendReply::Failed("x".into()));
    assert_eq!(report(j), "OAuth Refresh Failed: x");
    let (j, _) = SendJob::new(account(), out("bad address", vec![])).take(SendReply::Files(vec![]));
    assert!(!report(j).is_empty());
    let (j, _) = SendJob::new(account(), out("", vec![])).take(SendReply::Files(vec![]));
    let (j, _) = j.take(SendReply::Failed("refused".into()));
    assert_eq!(report(j), "SMTP send failed: refused");
}

#[test]
fn a_token_is_fetched_before_sending() {
    let j = SendJob::new(oauth(), out("", vec![]));
    assert_eq!(j.step(), SendStep::Token);
    let (j, said) = j.take(SendReply::Token("new".into(), Some("new".into()), Some(3)));
    assert_eq!(said, vec![Said::Tokens("me@x.y".into(), Some("new".into()), Some(3))]);
    let (j, _) = j.take(SendReply::Files(vec![]));
    assert!(matches!(j.step(), SendStep::Deliver(d) if d.secret == "new" && d.oauth));
}

#[test]
fn demo_mail_is_delivered_at_once() {
    let j = SendJob::new(default_accounts()[0].clone(), out("", vec![]));
    assert_eq!(j.step(), SendStep::Done);
    assert!(matches!(j.report(), AppMessage::SendResult(_, None)));
}
