//! What each message to the client does, and what the user is told of it.
use vstd::prelude::*;

use crate::input::{char_keysym, keysym, named_keysym, Key, NamedKey};
use crate::mailto::mailto_prefill;
use crate::merge::fetched_count;
use crate::model::{folder_tag, views, EmailView, Folder, FolderSyncView, OutgoingView};
use crate::net::candidate;
use crate::number::{all_digits, decimal, parsed, value};
use crate::outgoing::sent_name;
use crate::pass::{fresh_pass, pass_says, FolderReply, PassView, Stage};
use crate::path::file_name;
use crate::schedule::{known_uids, started};
use crate::session::SaidView;
use crate::state::{toast_after, toast_text, AppMessage, AppView, EffectView, ToastView};
use crate::text::opt_text;
use crate::update::{
    attachment_fetched, compose_attach, compose_cancel, compose_new, compose_send, delete_selected, draft_at,
    emails_synced, left_over, manage_accounts, message_at, open_attachment, redraws, reply,
    search_changed, select_account, select_email, send_result, switch_folder, toggle_unread,
    update_tokens, updated,
};

verus! {

// ---------------------------------------------------------------------------
// Messages

/// Each message does its own thing, and nothing that another one does.
pub proof fn each_message_does_its_own(s: AppView, now: u64, msg: AppMessage)
    ensures
        msg matches AppMessage::SwitchFolder(f) ==> updated(s, msg, now) == switch_folder(s, f),
        msg matches AppMessage::SelectEmail(id) ==> updated(s, msg, now) == select_email(s, id),
        msg is SearchChanged ==> updated(s, msg, now) == search_changed(s),
        msg is ComposeNew ==> updated(s, msg, now) == compose_new(s),
        msg is ComposeCancel ==> updated(s, msg, now) == compose_cancel(s),
        msg is ComposeSend ==> updated(s, msg, now) == compose_send(s),
        msg matches AppMessage::ComposeAttach(path) ==> updated(s, msg, now) == compose_attach(
            s,
            opt_text(path),
        ),
        msg matches AppMessage::SendResult(m, e) ==> updated(s, msg, now) == send_result(
            s,
            m@,
            opt_text(e),
        ),
        msg matches AppMessage::OpenAttachment(id, i) ==> updated(s, msg, now) == open_attachment(
            s,
            id,
            i,
        ),
        msg is Reply ==> updated(s, msg, now) == reply(s),
        msg is DeleteSelected ==> updated(s, msg, now) == delete_selected(s),
        msg is ToggleUnread ==> updated(s, msg, now) == toggle_unread(s),
        msg matches AppMessage::SelectAccount(idx) ==> updated(s, msg, now) == select_account(
            s,
            idx,
        ),
        msg is ManageAccounts ==> updated(s, msg, now) == manage_accounts(s),
        msg is SyncNow ==> updated(s, msg, now).state == s && updated(s, msg, now).effects == seq![
            EffectView::Sync(true),
        ],
        msg is Quit ==> updated(s, msg, now).state == s && updated(s, msg, now).effects.len() == 0,
        msg matches AppMessage::EmailsSynced(email, fs) ==> updated(s, msg, now) == emails_synced(
            s,
            email@,
            views(fs@),
            now,
        ),
        msg matches AppMessage::UpdateAccountTokens(email, token, expiry) ==> updated(s, msg, now)
            == update_tokens(s, email@, opt_text(token), expiry),
        msg matches AppMessage::AttachmentFetched(Ok(p)) ==> updated(s, msg, now)
            == attachment_fetched(s, Ok(p@)),
        msg matches AppMessage::AttachmentFetched(Err(e)) ==> updated(s, msg, now)
            == attachment_fetched(s, Err(e@)),
{
}

/// Only a request to sync or to quit, and new tokens, leave the screen as it
/// is.
pub proof fn most_messages_redraw(msg: AppMessage)
    ensures
        msg is SyncNow || msg is Quit || msg is UpdateAccountTokens ==> !redraws(msg),
        !(msg is SyncNow) && !(msg is Quit) && !(msg is UpdateAccountTokens) ==> redraws(msg),
{
}

// ---------------------------------------------------------------------------
// What the user is told

/// A note that shows for so long.
pub open spec fn tells(s: AppView, text: Seq<char>, millis: nat) -> bool {
    s.status == Some(ToastView::Info { text, millis })
}

/// A failure, which shows until it is clicked away.
pub open spec fn complains(s: AppView, text: Seq<char>) -> bool {
    s.status == Some(ToastView::Error { text })
}

/// What a worker says shows as it is, a failure as a failure, and changes
/// nothing else.
pub proof fn a_worker_s_words_show(s: AppView, msg: AppMessage, now: u64)
    ensures
        msg matches AppMessage::Status(t) ==> tells(updated(s, msg, now).state, t@, 4000),
        msg matches AppMessage::StatusError(t) ==> complains(updated(s, msg, now).state, t@),
        msg is Status || msg is StatusError ==> updated(s, msg, now).effects.len() == 0 && updated(
            s,
            msg,
            now,
        ).state == (AppView { status: updated(s, msg, now).state.status, ..s }),
        s.status matches Some(t) ==> (t matches ToastView::Info { text, .. } ==> toast_text(t)
            == text),
        s.status matches Some(t) ==> (t matches ToastView::Error { text } ==> toast_text(t)
            == text),
{
}

/// The user is told of a mail that was put down, that names nobody, that was
/// sent, or that was not, with the reason.
pub proof fn the_user_is_told_of_a_mail(s: AppView, m: OutgoingView, why: Seq<char>)
    ensures
        ({
            let t = compose_cancel(s).state;
            t.emails != s.emails ==> tells(t, "Saved to Drafts"@, 3000)
        }),
        compose_cancel(s).state.emails == s.emails ==> compose_cancel(s).state.status == s.status,
        compose_send(s).effects.len() == 0 ==> complains(
            compose_send(s).state,
            "Recipient is required"@,
        ),
        compose_send(s).effects.len() > 0 ==> compose_send(s).state.status == s.status,
        tells(send_result(s, m, None).state, "Email Sent Successfully"@, 4000),
        complains(
            send_result(s, m, Some(why)).state,
            "Send failed — saved to Drafts: "@ + why,
        ),
        complains(attachment_fetched(s, Err(why)).state, "Attachment: "@ + why),
        tells(
            attachment_fetched(s, Ok(why)).state,
            "Saved "@ + sent_name(why) + " — opening..."@,
            4000,
        ),
        tells(manage_accounts(s).state, "Opening System Settings..."@, 4000),
        manage_accounts(s).effects == seq![EffectView::OpenSettings],
{
}

/// The user is told of a message that was deleted: moved to the trash, or
/// deleted for good out of it.
pub proof fn the_user_is_told_of_a_deletion(s: AppView, id: usize)
    requires
        s.selected_id == Some(id),
    ensures
        ({
            let k = message_at(s.emails, id);
            let t = delete_selected(s).state;
            &&& t.selected_id is None
            &&& k >= s.emails.len() || s.emails[k].folder != "trash"@ ==> tells(
                t,
                "Moved to Trash"@,
                4000,
            )
            &&& 0 <= k < s.emails.len() && s.emails[k].folder == "trash"@ ==> tells(
                t,
                "Email Deleted Permanently"@,
                4000,
            )
        }),
{
}

/// While history is left, the user is told how much came and how much is still
/// to come.
pub proof fn the_user_is_told_what_is_left(
    s: AppView,
    email: Seq<char>,
    folders: Seq<FolderSyncView>,
    now: u64,
)
    requires
        left_over(folders) > 0,
    ensures
        ({
            let t = emails_synced(s, email, folders, now).state;
            let text = "Fetched "@ + decimal(fetched_count(folders)) + " — "@ + decimal(
                left_over(folders),
            ) + " older messages still to come..."@;
            tells(t, text, 4000)
        }),
{
}

/// What a pass says of a failure names the fetch that failed and why.
pub proof fn a_pass_names_the_fetch_that_failed(s: PassView, k: usize, i: usize, why: String)
    ensures
        s.stage == Stage::Headers(k) ==> pass_says(s, FolderReply::Failed(why)) == seq![
            SaidView::Error("IMAP Fetch failed: "@ + why@),
        ],
        s.stage == Stage::Texts(k, i) && s.requests[i as int].path is Some ==> pass_says(
            s,
            FolderReply::Failed(why),
        ) == seq![SaidView::Error("IMAP part fetch failed: "@ + why@)],
        s.stage == Stage::Texts(k, i) && s.requests[i as int].path is None ==> pass_says(
            s,
            FolderReply::Failed(why),
        ) == seq![SaidView::Error("IMAP fallback fetch failed: "@ + why@)],
        fresh_pass(Seq::empty(), Seq::empty(), Seq::empty(), s.known).remaining == 0,
{
}

// ---------------------------------------------------------------------------
// Keys

/// A key that types characters is known by the first of them: a Latin-1 one by
/// itself, another one in the plane of its own; one that types nothing by
/// nothing.
pub proof fn keys_are_known_by_what_they_type(k: Key, c: char)
    ensures
        0x20 <= c as u32 <= 0xff ==> char_keysym(c) == c as u32,
        !(0x20 <= c as u32 <= 0xff) ==> char_keysym(c) == c as u32 + 0x100_0000,
        k matches Key::Character(s) ==> (s@.len() == 0 ==> keysym(k) is None) && (s@.len() > 0
            && s@[0] == c ==> keysym(k) == Some(char_keysym(c))),
        k matches Key::Named(n) ==> keysym(k) == Some(named_keysym(n) as int),
        named_keysym(NamedKey::Space) == ' ' as u32,
{
}

/// The keys that move go by their places in the X11 table: Home, then left, up,
/// right and down, then the pages, then End.
pub proof fn moving_keys_stand_in_a_row()
    ensures
        named_keysym(NamedKey::Home) == 0xff50,
        named_keysym(NamedKey::ArrowLeft) == named_keysym(NamedKey::Home) + 1,
        named_keysym(NamedKey::ArrowUp) == named_keysym(NamedKey::Home) + 2,
        named_keysym(NamedKey::ArrowRight) == named_keysym(NamedKey::Home) + 3,
        named_keysym(NamedKey::ArrowDown) == named_keysym(NamedKey::Home) + 4,
        named_keysym(NamedKey::PageUp) == named_keysym(NamedKey::Home) + 5,
        named_keysym(NamedKey::PageDown) == named_keysym(NamedKey::Home) + 6,
        named_keysym(NamedKey::End) == named_keysym(NamedKey::Home) + 7,
{
}

// ---------------------------------------------------------------------------
// What the cache holds, and names

/// A uid is held of a folder exactly where some message of that folder has it.
pub proof fn held_uids_are_those_of_the_folder(emails: Seq<EmailView>, tag: Seq<char>, u: u32)
    ensures
        known_uids(emails, tag).contains(u) <==> exists|i: int|
            0 <= i < emails.len() && (#[trigger] emails[i]).folder == tag && emails[i].uid == Some(
                u,
            ),
{
}

/// A name that holds no file name at all is saved as `attachment`.
pub proof fn a_nameless_attachment_gets_a_name(name: Seq<char>)
    requires
        file_name(name) is None,
    ensures
        candidate(name, 0) == "attachment"@,
{
}

/// A number is read off digits alone, with a plus sign before them at the most,
/// and only where it is not too large.
pub proof fn a_number_is_read_off_digits_alone(s: Seq<char>, max: nat)
    requires
        s.len() > 0,
    ensures
        s[0] != '+' ==> (parsed(s, max) is Some <==> all_digits(s) && value(s) <= max),
        s[0] != '+' ==> (parsed(s, max) matches Some(n) ==> n == value(s)),
        s[0] != '+' ==> parsed(seq!['+'] + s, max) == parsed(s, max),
        parsed(Seq::empty(), max) is None,
{
    if s[0] != '+' {
        let t = seq!['+'] + s;
        assert(t.skip(1) =~= s);
        assert(t.drop_first() =~= s);
    }
}

// ---------------------------------------------------------------------------
// Titles, time and folders

/// The dialog is titled by what it is for: a new message, a draft, a reply.
pub proof fn the_dialog_is_titled(s: AppView, id: usize, url: Seq<char>)
    ensures
        compose_new(s).state.compose.title == "New Message"@,
        mailto_prefill(url) is Some ==> started(s.accounts, None, Some(url)).compose.title
            == "New Message"@,
        draft_at(s.emails, id) < s.emails.len() ==> select_email(s, id).state.compose.title
            == "Draft"@,
        s.selected_id == Some(id) && message_at(s.emails, id) < s.emails.len() ==> reply(
            s,
        ).state.compose.title == "Reply"@,
{
}

/// A note goes away once its time is up and not before; a failure stays.
pub proof fn a_note_goes_away_in_time(text: Seq<char>, millis: nat, elapsed: nat, more: nat)
    ensures
        elapsed >= millis ==> toast_after(Some(ToastView::Info { text, millis }), elapsed) is None,
        elapsed < millis ==> toast_after(Some(ToastView::Info { text, millis }), elapsed) == Some(
            ToastView::Info { text, millis: (millis - elapsed) as nat },
        ),
        toast_after(toast_after(Some(ToastView::Info { text, millis }), elapsed), more)
            == toast_after(Some(ToastView::Info { text, millis }), elapsed + more),
        toast_after(Some(ToastView::Error { text }), elapsed) == Some(ToastView::Error { text }),
        toast_after(None, elapsed) is None,
{
}

/// Each folder has a tag of its own.
pub proof fn folders_have_their_own_tags(f: Folder)
    ensures
        f is Inbox ==> folder_tag(f) == "inbox"@,
        f is Sent ==> folder_tag(f) == "sent"@,
        f is Drafts ==> folder_tag(f) == "drafts"@,
        f is Trash ==> folder_tag(f) == "trash"@,
{
}

} // verus!
