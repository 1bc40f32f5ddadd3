use cce_mail::list::{
    compose_chip_label, compose_key, detail_chip_label, detail_labels, folder_of_row, folder_row,
    human_size, mail_menu_message, menu_action, row_labels, search_hit, CardAction, ComposeField,
    KeyPress, KeyStep,
};
use cce_mail::model::{AccountInfo, Email, Folder, FolderSync, OutgoingMail, RemoteAttachment};
use cce_mail::schedule::{MIN_SYNC_GAP_MILLIS, SECRET_RETRY_MILLIS};
use cce_mail::state::{mail_is_empty, AppMessage, Effect, MailApp, StatusToast};
use cce_mail::update::BACKFILL_DELAY_MILLIS;

fn account(email: &str, password: &str) -> AccountInfo {
    AccountInfo {
        email: email.into(),
        imap: "imap.x.y:993".into(),
        smtp: "smtp.x.y:465".into(),
        is_default: false,
        password: password.into(),
        is_oauth: false,
        access_token: None,
        refresh_token: None,
        token_expiry: None,
        client_id: None,
        client_secret: None,
        keyring_backed: false,
    }
}

fn mail(id: usize, uid: Option<u32>, folder: &str, read: bool) -> Email {
    Email {
        id,
        from: "Ann <ann@x.org>".into(),
        to: "me@x.y".into(),
        subject: format!("Subject {id}"),
        body: "line one\nline two".into(),
        date: "Jan 1 10:00".into(),
        read,
        folder: folder.into(),
        cc: String::new(),
        bcc: String::new(),
        attachments: Vec::new(),
        remote_attachments: Vec::new(),
        uid,
        ts: None,
        origin_folder: None,
    }
}

fn app() -> MailApp {
    let mut a = MailApp::start(
        vec![account("me@x.y", "pw"), account("other@x.y", "pw")],
        &None,
        &None,
    );
    a.show_emails(vec![
        mail(1, Some(11), "inbox", false),
        mail(2, Some(12), "inbox", true),
        mail(3, None, "sent", true),
        mail(4, None, "drafts", true),
    ]);
    a
}

fn text(a: &MailApp) -> String {
    a.status.as_ref().map(|s| s.text().to_string()).unwrap_or_default()
}

#[test]
fn a_client_starts_at_the_remembered_account() {
    let accounts = || vec![account("a@x", "p"), account("b@x", "p")];
    assert_eq!(MailApp::start(accounts(), &Some("b@x".into()), &None).selected_account_idx, 1);
    assert_eq!(MailApp::start(accounts(), &Some("gone@x".into()), &None).selected_account_idx, 0);
    let mut default = accounts();
    default[1].is_default = true;
    assert_eq!(MailApp::start(default, &None, &None).selected_account_idx, 1);
    let composing =
        MailApp::start(accounts(), &None, &Some("mailto:z@y.org?subject=Hi".into()));
    assert!(composing.compose.open);
    assert_eq!(composing.compose.to.text, "z@y.org");
    assert_eq!(composing.compose.subject.edit_buffer, "Hi");
    assert_eq!(composing.compose.title, "New Message");
    assert!(!MailApp::start(accounts(), &None, &Some("x".into())).compose.open);
}

#[test]
fn opening_a_message_marks_it_read_here_and_there() {
    let mut a = app();
    let c = a.update(AppMessage::SelectEmail(1), 0);
    assert!(a.emails[0].read);
    assert_eq!(a.selected_email_id, Some(1));
    assert!(matches!(&c.effects[0], Effect::BodyToTop));
    assert!(matches!(&c.effects[1], Effect::SaveEmails(e) if e == "me@x.y"));
    assert!(matches!(&c.effects[2], Effect::SetSeen(11, true)));
    assert!(c.redraw && !c.exit);
    // A second time there is nothing to push.
    let c = a.update(AppMessage::SelectEmail(1), 0);
    assert_eq!(c.effects.len(), 1);
}

#[test]
fn cancelling_keeps_the_mail_and_selecting_resumes_it() {
    let mut a = app();
    a.update(AppMessage::ComposeNew, 0);
    assert!(a.compose.open);
    a.compose.to.set("  z@y.org ");
    a.compose.subject.set("Hello");
    a.compose.body.set("  body  ");
    a.update(AppMessage::ComposeAttach(Some("/tmp/f.pdf".into())), 0);
    a.update(AppMessage::ComposeAttach(None), 0);
    let c = a.update(AppMessage::ComposeCancel, 0);
    assert!(matches!(&c.effects[0], Effect::SaveEmails(_)));
    assert!(!a.compose.open);
    assert_eq!(text(&a), "Saved to Drafts");
    let draft = a.emails.last().unwrap().clone();
    assert_eq!(draft.folder, "drafts");
    assert_eq!(draft.id, 5);
    assert_eq!(draft.to, "z@y.org");
    assert_eq!(draft.body, "  body  ");
    assert_eq!(draft.attachments, vec!["/tmp/f.pdf".to_string()]);

    a.update(AppMessage::SelectEmail(5), 0);
    assert_eq!(a.emails.len(), 4);
    assert!(a.compose.open);
    let again = a.compose.gather();
    assert_eq!(again.to, "z@y.org");
    assert_eq!(again.subject, "Hello");
    assert_eq!(again.body, "  body  ");
    assert_eq!(again.attachments, vec!["/tmp/f.pdf".to_string()]);
}

#[test]
fn an_empty_compose_leaves_no_draft() {
    let mut a = app();
    a.update(AppMessage::ComposeNew, 0);
    let c = a.update(AppMessage::ComposeCancel, 0);
    assert!(c.effects.is_empty());
    assert_eq!(a.emails.len(), 4);
    assert!(mail_is_empty(&a.compose.gather()));
}

#[test]
fn sending_needs_a_recipient() {
    let mut a = app();
    a.update(AppMessage::ComposeNew, 0);
    a.compose.subject.set("Hello");
    let c = a.update(AppMessage::ComposeSend, 0);
    assert!(c.effects.is_empty());
    assert!(a.compose.open);
    assert_eq!(text(&a), "Recipient is required");
    a.compose.bcc.set("h@w.org");
    let c = a.update(AppMessage::ComposeSend, 0);
    assert!(matches!(&c.effects[0], Effect::Send(m) if m.bcc == "h@w.org" && m.subject == "Hello"));
    assert!(!a.compose.open);
    assert_eq!(a.emails.len(), 4, "nothing is filed before the outcome is known");
}

fn out() -> OutgoingMail {
    OutgoingMail {
        to: "z@y.org".into(),
        cc: String::new(),
        bcc: "h@w.org".into(),
        subject: String::new(),
        body: "b".into(),
        attachments: vec!["/tmp/f.pdf".into()],
    }
}

#[test]
fn delivered_mail_is_filed_as_sent_without_its_bcc() {
    let mut a = app();
    a.update(AppMessage::SendResult(out(), None), 0);
    let e = a.emails.last().unwrap();
    assert_eq!(e.folder, "sent");
    assert_eq!(e.bcc, "");
    assert_eq!(e.subject, "(No Subject)");
    assert_eq!(e.attachments, vec!["f.pdf".to_string()]);
    assert_eq!(e.date, "Just now");
    assert_eq!(text(&a), "Email Sent Successfully");
}

#[test]
fn failed_mail_is_kept_as_a_draft() {
    let mut a = app();
    a.update(AppMessage::SendResult(out(), Some("refused".into())), 0);
    let e = a.emails.last().unwrap();
    assert_eq!(e.folder, "drafts");
    assert_eq!(e.bcc, "h@w.org");
    assert_eq!(e.attachments, vec!["/tmp/f.pdf".to_string()]);
    assert_eq!(text(&a), "Send failed — saved to Drafts: refused");
}

#[test]
fn a_reply_quotes_and_starts_clean() {
    let mut a = app();
    a.compose.cc.set("left@over");
    a.selected_email_id = Some(1);
    let c = a.update(AppMessage::Reply, 0);
    assert!(matches!(&c.effects[0], Effect::CursorToStart));
    let m = a.compose.gather();
    assert_eq!(m.to, "Ann <ann@x.org>");
    assert_eq!(m.cc, "");
    assert_eq!(m.subject, "Re: Subject 1");
    assert_eq!(
        m.body,
        "\n\nOn Jan 1 10:00, Ann <ann@x.org> wrote:\n> line one\n> line two"
    );
    a.emails[0].subject = "Re: Subject 1".into();
    a.update(AppMessage::Reply, 0);
    assert_eq!(a.compose.gather().subject, "Re: Subject 1");
}

#[test]
fn deleting_goes_through_the_trash() {
    let mut a = app();
    a.selected_email_id = Some(2);
    let c = a.update(AppMessage::DeleteSelected, 0);
    assert_eq!(a.emails[1].folder, "trash");
    assert!(matches!(&c.effects[0], Effect::DeleteOnServer(12)));
    assert!(matches!(&c.effects[1], Effect::SaveEmails(_)));
    assert_eq!(a.selected_email_id, None);
    assert_eq!(text(&a), "Moved to Trash");
    a.selected_email_id = Some(2);
    let c = a.update(AppMessage::DeleteSelected, 0);
    assert_eq!(a.emails.len(), 3);
    assert!(c.effects.iter().all(|e| !matches!(e, Effect::DeleteOnServer(_))));
    assert_eq!(text(&a), "Email Deleted Permanently");
}

#[test]
fn toggling_twice_restores_the_flag() {
    let mut a = app();
    a.selected_email_id = Some(2);
    let c = a.update(AppMessage::ToggleUnread, 0);
    assert!(!a.emails[1].read);
    assert!(matches!(&c.effects[0], Effect::SetSeen(12, false)));
    let c = a.update(AppMessage::ToggleUnread, 0);
    assert!(a.emails[1].read);
    assert!(matches!(&c.effects[0], Effect::SetSeen(12, true)));
    // Mail that is not in the inbox concerns no server.
    a.selected_email_id = Some(3);
    let c = a.update(AppMessage::ToggleUnread, 0);
    assert!(c.effects.iter().all(|e| matches!(e, Effect::SaveEmails(_))));
}

#[test]
fn switching_accounts_loads_theirs() {
    let mut a = app();
    let c = a.update(AppMessage::SelectAccount(1), 0);
    assert!(a.emails.is_empty());
    assert_eq!(a.selected_account_idx, 1);
    assert!(matches!(&c.effects[0], Effect::LoadEmails(e) if e == "other@x.y"));
    assert!(matches!(&c.effects[1], Effect::RememberAccount(e) if e == "other@x.y"));
    assert!(matches!(&c.effects[2], Effect::Sync(true)));
    assert!(matches!(&c.effects[3], Effect::ScrollToTop));
}

fn synced(remaining: usize) -> Vec<FolderSync> {
    vec![FolderSync {
        folder: "inbox".into(),
        fetched: vec![mail(0, Some(13), "inbox", false)],
        server_uids: vec![11, 12, 13],
        seen_uids: vec![],
        remaining,
    }]
}

#[test]
fn a_sync_is_merged_and_goes_on_while_mail_is_missing() {
    let mut a = app();
    let c = a.update(AppMessage::EmailsSynced("me@x.y".into(), synced(7)), 1000);
    assert!(matches!(&c.effects[0], Effect::SaveEmails(e) if e == "me@x.y"));
    assert_eq!(a.emails.len(), 5);
    assert_eq!(a.backfill_at, Some(1000 + BACKFILL_DELAY_MILLIS));
    a.update(AppMessage::EmailsSynced("me@x.y".into(), synced(0)), 2000);
    assert_eq!(a.emails.len(), 5);
    assert_eq!(a.backfill_at, None);
    // Another account's mail is merged where it is stored.
    let c = a.update(AppMessage::EmailsSynced("other@x.y".into(), synced(0)), 2000);
    assert!(matches!(&c.effects[0], Effect::MergeStored(e, f) if e == "other@x.y" && f.len() == 1));
    assert_eq!(a.emails.len(), 5);
}

#[test]
fn new_tokens_are_stored() {
    let mut a = app();
    let c = a.update(
        AppMessage::UpdateAccountTokens("other@x.y".into(), Some("t".into()), Some(9)),
        0,
    );
    assert!(matches!(&c.effects[0], Effect::SaveAccounts));
    assert_eq!(a.accounts[1].access_token.as_deref(), Some("t"));
    assert_eq!(a.accounts[1].token_expiry, Some(9));
    assert!(a.accounts[0].access_token.is_none());
    let c = a.update(AppMessage::UpdateAccountTokens("no@x".into(), None, None), 0);
    assert!(c.effects.is_empty());
}

#[test]
fn attachments_are_fetched_by_their_place() {
    let mut a = app();
    a.emails[0].remote_attachments.push(RemoteAttachment {
        name: "p.png".into(),
        section: vec![2],
        encoding: "base64".into(),
        mime: "image/png".into(),
        size: 2048,
    });
    let c = a.update(AppMessage::OpenAttachment(1, 0), 0);
    assert!(matches!(&c.effects[0],
        Effect::FetchAttachment(f, 11, att) if f == "inbox" && att.name == "p.png"));
    assert_eq!(text(&a), "Fetching p.png...");
    let c = a.update(AppMessage::AttachmentFetched(Ok("/d/p.png".into())), 0);
    assert!(matches!(&c.effects[0], Effect::OpenFile(p) if p == "/d/p.png"));
    assert_eq!(text(&a), "Saved p.png — opening...");
    a.update(AppMessage::AttachmentFetched(Err("gone".into())), 0);
    assert_eq!(text(&a), "Attachment: gone");
    a.emails[0].uid = None;
    a.update(AppMessage::OpenAttachment(1, 0), 0);
    assert_eq!(text(&a), "No server copy for this message");
}

#[test]
fn the_rest_of_the_messages() {
    let mut a = app();
    let c = a.update(AppMessage::SwitchFolder(Folder::Sent), 0);
    assert!(matches!(&c.effects[..], [Effect::ScrollToTop, Effect::Sync(false)]));
    assert_eq!(a.current_folder, Folder::Sent);
    let c = a.update(AppMessage::SyncNow, 0);
    assert!(c.effects.iter().any(|e| matches!(e, Effect::Sync(true))));
    let c = a.update(AppMessage::ManageAccounts, 0);
    assert!(c.effects.iter().any(|e| matches!(e, Effect::OpenSettings)));
    a.update(AppMessage::Status("note".into()), 0);
    assert!(matches!(&a.status, Some(StatusToast::Info { text, .. }) if text == "note"));
    a.update(AppMessage::StatusError("bad".into()), 0);
    assert!(matches!(&a.status, Some(StatusToast::Error { text }) if text == "bad"));
    assert!(a.update(AppMessage::Quit, 0).exit);
}

#[test]
fn a_message_that_does_not_fit_is_found_out_first() {
    let mut a = app();
    assert!(a.can_take(&AppMessage::SendResult(out(), None), 0));
    a.emails[0].id = usize::MAX;
    assert!(!a.can_take(&AppMessage::SendResult(out(), None), 0));
    assert!(!a.can_take(&AppMessage::EmailsSynced("me@x.y".into(), synced(0)), 0));
    assert!(a.can_take(&AppMessage::Reply, 0));
    // A sync of another account leaves the shown mail alone.
    assert!(a.can_take(&AppMessage::EmailsSynced("other@x.y".into(), synced(0)), u64::MAX));
    assert!(!a.can_take(&AppMessage::EmailsSynced("other@x.y".into(), synced(1)), u64::MAX));
    // An empty dialog leaves no draft behind.
    assert!(a.can_take(&AppMessage::ComposeCancel, 0));
    a.compose.body.set("text");
    assert!(!a.can_take(&AppMessage::ComposeCancel, 0));
}

#[test]
fn a_mail_without_recipients_needs_no_account() {
    let mut a = MailApp::start(vec![], &None, &None);
    assert!(a.can_take(&AppMessage::ComposeSend, 0));
    let c = a.update(AppMessage::ComposeSend, 0);
    assert!(c.effects.is_empty());
    assert_eq!(text(&a), "Recipient is required");
    a.compose.to.set("a@x.org");
    assert!(!a.can_take(&AppMessage::ComposeSend, 0));
}

// ---- time ------------------------------------------------------------------

#[test]
fn unforced_syncs_keep_their_distance() {
    let mut a = app();
    assert!(a.may_sync(false, 0));
    let known = a.begin_sync(1000).unwrap();
    assert!(known.inbox.contains(&11) && known.inbox.contains(&12));
    assert!(known.sent.is_empty());
    assert!(!a.may_sync(false, 1000 + MIN_SYNC_GAP_MILLIS - 1));
    assert!(a.may_sync(false, 1000 + MIN_SYNC_GAP_MILLIS));
    assert!(a.may_sync(true, 1001));
}

#[test]
fn a_missing_password_is_reported_once_and_retried() {
    let mut a = app();
    a.accounts[0].password = String::new();
    assert_eq!(a.missing_secret(), Some(0));
    assert!(a.begin_sync(0).is_none());
    assert_eq!(text(&a), "No password for me@x.y — is the keyring unlocked?");
    assert_eq!(a.secret_retry_at, Some(SECRET_RETRY_MILLIS));
    a.status = None;
    assert_eq!(a.tick(10, SECRET_RETRY_MILLIS).0, 1);
    assert!(a.begin_sync(SECRET_RETRY_MILLIS).is_none());
    assert!(a.status.is_none(), "said once");
    a.accounts[0].password = "pw".into();
    assert!(a.begin_sync(20_000).is_some());
    assert_eq!(a.secret_retry_at, None);
    assert!(!a.secret_missing_reported);
}

#[test]
fn infos_expire_and_errors_stay() {
    let mut a = app();
    a.status = Some(StatusToast::info("i", 100));
    assert_eq!(a.tick(60, 0), (0, false));
    assert_eq!(text(&a), "i");
    assert_eq!(a.tick(60, 0), (0, true));
    assert!(a.status.is_none());
    a.status = Some(StatusToast::error("e"));
    assert_eq!(a.tick(1_000_000, 0), (0, false));
    assert_eq!(text(&a), "e");
    assert!(a.dismiss_error());
    assert!(a.status.is_none());
    assert!(!a.dismiss_error());
}

#[test]
fn a_backfill_is_due_once() {
    let mut a = app();
    a.backfill_at = Some(50);
    assert_eq!(a.tick(0, 49).0, 0);
    assert_eq!(a.tick(0, 50).0, 1);
    assert_eq!(a.tick(0, 51).0, 0);
}

// ---- the list --------------------------------------------------------------

#[test]
fn the_list_shows_the_folder_and_the_search() {
    let mut a = app();
    let ids = |a: &MailApp| a.filtered_emails().iter().map(|e| e.id).collect::<Vec<_>>();
    assert_eq!(ids(&a), vec![1, 2]);
    a.search.set("SUBJECT 2");
    assert_eq!(ids(&a), vec![2]);
    a.search.set("ÄÖ");
    a.emails[0].body = "groß: äöü".into();
    assert_eq!(ids(&a), vec![1]);
    a.search.set("zzz");
    assert!(ids(&a).is_empty());
    assert!(search_hit("a", "b", "c", ""));
    assert!(!search_hit("a", "b", "c", "d"));
}

#[test]
fn rows_are_cut_to_their_budget() {
    let mut e = mail(1, None, "inbox", true);
    let l = row_labels(&e, 3, 100, 8);
    assert_eq!(l.head, "Ann...");
    assert_eq!(l.subject, "Subject 1");
    assert_eq!(l.snippet, "line one...");
    e.folder = "sent".into();
    assert_eq!(row_labels(&e, 100, 100, 100).head, "To: me@x.y");
    assert_eq!(row_labels(&e, 100, 100, 100).snippet, "line one line two");
    let d = detail_labels(&e);
    assert_eq!(d.from, "From: Ann <ann@x.org>");
    assert_eq!(d.to, "To:   me@x.y");
    assert_eq!(d.date, "Date: Jan 1 10:00");
}

#[test]
fn sizes_read_like_single_precision_ones() {
    let like = |size: u32| {
        if size >= 1_048_576 {
            format!("{:.1} MB", size as f32 / 1_048_576.0)
        } else if size >= 1024 {
            format!("{} KB", size / 1024)
        } else {
            format!("{} B", size)
        }
    };
    for size in [
        0, 1, 1023, 1024, 1025, 1_048_575, 1_048_576, 1_100_000, 1_101_004, 1_101_005, 1_153_434,
        1_205_862, 1_572_864, 16_777_216, 16_777_217, 16_777_219, 33_554_433, 104_857_599,
        u32::MAX, u32::MAX - 1, u32::MAX - 128, u32::MAX - 129, 3_221_225_471,
    ] {
        assert_eq!(human_size(size), like(size), "{size}");
    }
    let mut x: u32 = 12345;
    for _ in 0..200_000 {
        x = x.wrapping_mul(1_664_525).wrapping_add(1_013_904_223);
        assert_eq!(human_size(x), like(x), "{x}");
        assert_eq!(human_size(x >> 8), like(x >> 8), "{}", x >> 8);
    }
    // All ties of one decimal.
    for n in 0..81_920u32 {
        let size = 1_048_576 + n * 52_428;
        assert_eq!(human_size(size), like(size), "{size}");
    }
}

#[test]
fn chips_carry_names_and_sizes() {
    let att = RemoteAttachment {
        name: "p.png".into(),
        section: vec![2],
        encoding: "base64".into(),
        mime: "image/png".into(),
        size: 2048,
    };
    assert_eq!(detail_chip_label(&att), "p.png · 2 KB");
    assert_eq!(compose_chip_label("/tmp/f.pdf"), "f.pdf ×");
    assert_eq!(
        compose_chip_label("/tmp/a-very-long-file-name-indeed.pdf"),
        "a-very-long-file-name-... ×"
    );
}

#[test]
fn the_bar_maps_rows_to_meanings() {
    let mut a = app();
    assert_eq!(a.inbox_label(), "Inbox (1)");
    a.emails[0].read = true;
    assert_eq!(a.inbox_label(), "Inbox");
    for f in [Folder::Inbox, Folder::Sent, Folder::Drafts, Folder::Trash] {
        assert_eq!(folder_of_row(folder_row(f)), f);
    }
    assert!(matches!(mail_menu_message(0), AppMessage::ComposeNew));
    assert!(matches!(mail_menu_message(1), AppMessage::SyncNow));
    assert!(matches!(mail_menu_message(2), AppMessage::Quit));
    assert!(matches!(a.choose_account_row(1), Some(AppMessage::SelectAccount(1))));
    assert!(a.choose_account_row(0).is_none());
    assert!(matches!(a.choose_account_row(2), Some(AppMessage::ManageAccounts)));
    assert_eq!(a.account_row, 0);
}

#[test]
fn reloaded_accounts_keep_the_selection_by_address() {
    let mut a = app();
    assert_eq!(
        a.accounts_reloaded(vec![account("new@x", "p"), account("me@x.y", "p")]),
        None
    );
    assert_eq!((a.account_row, a.selected_account_idx), (1, 1));
    assert_eq!(a.accounts_reloaded(vec![account("new@x", "p")]), Some(0));
    assert_eq!((a.account_row, a.selected_account_idx), (0, 1));
}

#[test]
fn a_selected_account_is_found_where_it_moved() {
    let mut a = MailApp::start(
        vec![account("a@x", "p"), account("b@x", "p")],
        &Some("b@x".into()),
        &None,
    );
    let reloaded = vec![account("c@x", "p"), account("a@x", "p"), account("b@x", "p")];
    assert_eq!(a.accounts_reloaded(reloaded), None);
    assert_eq!((a.account_row, a.selected_account_idx), (2, 2));
    assert_eq!(a.accounts[a.selected_account_idx].email, "b@x");
    // Its own row is no change, the former one is.
    assert!(a.choose_account_row(2).is_none());
    assert!(matches!(a.choose_account_row(1), Some(AppMessage::SelectAccount(1))));
}

#[test]
fn a_cards_menu_fits_its_message() {
    let mut a = app();
    let m = a.open_card_menu(0).unwrap();
    assert_eq!(a.selected_email_id, Some(1));
    assert!(!a.emails[0].read, "a menu does not open the message");
    assert_eq!(m.labels.len(), m.actions.len());
    assert_eq!(menu_action(&m.actions, 0), None);
    assert!(m.actions.contains(&Some(CardAction::Reply)));
    assert_eq!(menu_action(&m.actions, 99), None);
    assert!(a.open_card_menu(9).is_none());
    a.current_folder = Folder::Drafts;
    let m = a.open_card_menu(0).unwrap();
    assert!(m.actions.contains(&Some(CardAction::Edit(4))));
    assert!(!m.actions.contains(&Some(CardAction::Reply)));
    assert!(matches!(CardAction::Edit(4).message(), AppMessage::SelectEmail(4)));
    assert!(matches!(a.click_row(0), Some(AppMessage::SelectEmail(4))));
    assert!(a.click_row(1).is_none());
}

#[test]
fn clicks_and_keys() {
    let mut a = app();
    let key = |escape, compose_chord, search_chord| KeyPress {
        pressed: true,
        escape,
        compose_chord,
        search_chord,
    };
    assert_eq!(a.press_key(key(false, false, true)), KeyStep::SearchOpened);
    assert!(a.search_open && a.search.editing);
    a.search.edit_buffer = "q".into();
    assert_eq!(a.press_key(key(false, false, true)), KeyStep::PassOn);
    assert_eq!(a.press_key(key(true, false, false)), KeyStep::SearchClosed);
    assert_eq!(a.search.value(), "");
    assert!(!a.search_open);
    assert_eq!(a.press_key(key(false, true, false)), KeyStep::Compose);
    assert_eq!(a.press_key(key(true, false, false)), KeyStep::PassOn);
    assert!(matches!(compose_key(key(true, false, false)), Some(AppMessage::ComposeCancel)));
    assert!(compose_key(key(false, true, false)).is_none());
    assert_eq!(a.editing_field(), None);
    a.compose.cc.editing = true;
    assert_eq!(a.editing_field(), Some(ComposeField::Cc));
    a.compose.attachments = vec!["/a".into(), "/b".into()];
    a.remove_attachment(0);
    assert_eq!(a.compose.attachments, vec!["/b".to_string()]);
    assert!(a.click_attachment(0).is_none());
    assert_eq!(a.find_message(3), 2);
    assert_eq!(a.find_message(99), 4);
}
