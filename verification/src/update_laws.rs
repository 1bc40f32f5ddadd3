//! What holds of every message.

use vstd::prelude::*;
use crate::merge::{lemma_max_id, max_id};
use crate::merge_laws::{ids_unique, merge_makes_ids_unique};
use crate::model::{views, EmailView, FolderSyncView, OutgoingView};
use crate::scan::{trim, trim_is_a_part_without_outer_space};
use crate::state::{is_empty_mail, AppMessage, AppView, ToastView};
use crate::update::{
    active, as_draft, as_sent, compose_cancel, compose_send, delete_selected, draft_at,
    draft_content, emails_synced, message_at, ready_for, reply, select_email, send_result,
    toggle_unread, update_tokens, updated, without_id,
};

verus! {

// ---------------------------------------------------------------------------
// Finding messages

pub proof fn lemma_message_at(emails: Seq<EmailView>, id: usize)
    ensures
        0 <= message_at(emails, id) <= emails.len(),
        message_at(emails, id) < emails.len() ==> emails[message_at(emails, id)].id == id,
        forall|i: int| 0 <= i < message_at(emails, id) ==> (#[trigger] emails[i]).id != id,
    decreases emails.len(),
{
    if emails.len() > 0 && emails[0].id != id {
        let t = emails.drop_first();
        lemma_message_at(t, id);
        assert forall|i: int| 0 <= i < message_at(emails, id) implies (#[trigger] emails[i]).id
            != id by {
            if i > 0 {
                assert(emails[i] == t[i - 1]);
            }
        }
    }
}

pub proof fn lemma_draft_at(emails: Seq<EmailView>, id: usize)
    ensures
        0 <= draft_at(emails, id) <= emails.len(),
        draft_at(emails, id) < emails.len() ==> emails[draft_at(emails, id)].id == id
            && emails[draft_at(emails, id)].folder == "drafts"@,
        forall|i: int|
            0 <= i < draft_at(emails, id) ==> (#[trigger] emails[i]).id != id || emails[i].folder
                != "drafts"@,
    decreases emails.len(),
{
    if emails.len() > 0 && !(emails[0].id == id && emails[0].folder == "drafts"@) {
        let t = emails.drop_first();
        lemma_draft_at(t, id);
        assert forall|i: int| 0 <= i < draft_at(emails, id) implies (#[trigger] emails[i]).id != id
            || emails[i].folder != "drafts"@ by {
            if i > 0 {
                assert(emails[i] == t[i - 1]);
            }
        }
    }
}

// ---------------------------------------------------------------------------
// Drafts

proof fn lemma_trim_twice(s: Seq<char>)
    ensures
        trim(trim(s)) == trim(s),
{
    trim_is_a_part_without_outer_space(s);
}

/// The draft that was filed last is found again.
proof fn lemma_new_draft(s: AppView, m: OutgoingView)
    requires
        max_id(s.emails) < usize::MAX,
    ensures
        ({
            let d = as_draft(s, m);
            let emails = s.emails.push(d);
            &&& draft_at(emails, d.id) == s.emails.len()
            &&& emails[s.emails.len() as int] == d
            &&& emails.remove(s.emails.len() as int) == s.emails
        }),
{
    let d = as_draft(s, m);
    let emails = s.emails.push(d);
    lemma_max_id(s.emails);
    lemma_draft_at(emails, d.id);
    let k = draft_at(emails, d.id);
    let n = s.emails.len() as int;
    assert(emails[n] == d && d.folder == "drafts"@);
    if k < n {
        assert(emails[k] == s.emails[k]);
        assert(s.emails[k].id < d.id);
    }
    assert(emails.remove(s.emails.len() as int) =~= s.emails);
}

/// Cancelling a compose loses nothing: selecting the draft it left brings the
/// same mail back into the dialog, takes the draft out of the folder and
/// leaves nothing selected.
pub proof fn cancel_and_resume_is_lossless(s: AppView)
    requires
        max_id(s.emails) < usize::MAX,
        !is_empty_mail(s.compose.gathered()),
    ensures
        ({
            let put_down = compose_cancel(s).state;
            let id = as_draft(s, s.compose.gathered()).id;
            let resumed = select_email(put_down, id).state;
            &&& !put_down.compose.open
            &&& put_down.emails.last().folder == "drafts"@
            &&& resumed.compose.open
            &&& resumed.compose.gathered() == s.compose.gathered()
            &&& resumed.emails == s.emails
            &&& resumed.selected_id is None
        }),
{
    let m = s.compose.gathered();
    lemma_new_draft(s, m);
    lemma_trim_twice(s.compose.to.value());
    lemma_trim_twice(s.compose.cc.value());
    lemma_trim_twice(s.compose.bcc.value());
    lemma_trim_twice(s.compose.subject.value());
}

/// A mail that could not be sent is not lost: it is in the drafts, and
/// selecting it there brings it back into the dialog.
pub proof fn a_failed_send_is_kept(s: AppView, m: OutgoingView, error: Seq<char>)
    requires
        max_id(s.emails) < usize::MAX,
    ensures
        ({
            let failed = send_result(s, m, Some(error)).state;
            let resumed = select_email(failed, as_draft(s, m).id).state;
            &&& failed.emails == s.emails.push(as_draft(s, m))
            &&& draft_content(as_draft(s, m)) == m
            &&& failed.status matches Some(ToastView::Error { .. })
            &&& resumed.emails == s.emails
            &&& resumed.compose.to.value() == m.to
            &&& resumed.compose.cc.value() == m.cc
            &&& resumed.compose.bcc.value() == m.bcc
            &&& resumed.compose.subject.value() == m.subject
            &&& resumed.compose.body.value() == m.body
            &&& resumed.compose.attachments == m.attachments
        }),
{
    lemma_new_draft(s, m);
}

/// Nothing is filed as sent before the outcome of a send is known, and a sent
/// copy names nobody who was bcc'd.
pub proof fn only_delivered_mail_is_filed_as_sent(
    s: AppView,
    m: OutgoingView,
    outcome: Option<Seq<char>>,
)
    ensures
        compose_send(s).state.emails == s.emails,
        as_sent(s, m).bcc.len() == 0,
        as_sent(s, m).folder == "sent"@,
        ({
            let after = send_result(s, m, outcome).state.emails;
            after.drop_last() == s.emails && (after.last().folder == "sent"@ <==> outcome is None)
        }),
{
    reveal_strlit("sent");
    reveal_strlit("drafts");
    assert("sent"@.len() == 4 && "drafts"@.len() == 6);
    let after = send_result(s, m, outcome).state.emails;
    assert(after.drop_last() =~= s.emails);
}

// ---------------------------------------------------------------------------
// Deleting and marking

/// Marking twice changes nothing.
pub proof fn toggling_twice_restores(s: AppView)
    ensures
        toggle_unread(toggle_unread(s).state).state == s,
{
    if let Some(id) = s.selected_id {
        lemma_message_at(s.emails, id);
        let k = message_at(s.emails, id);
        if k < s.emails.len() {
            let t = toggle_unread(s).state;
            lemma_message_at(t.emails, id);
            let j = message_at(t.emails, id);
            if j < k {
                assert(t.emails[j] == s.emails[j]);
            }
            assert(j == k) by {
                if k < j {
                    assert(t.emails[k].id != id);
                }
            }
            assert(toggle_unread(t).state.emails =~= s.emails);
        }
    }
}

/// A message is deleted in two steps: the first puts it into the trash, with
/// everything else of it and all other mail untouched; the second, on a
/// message in the trash, removes it for good, and it alone where ids are
/// unique.
pub proof fn deleting_takes_two_steps(s: AppView, id: usize)
    requires
        s.selected_id == Some(id),
        message_at(s.emails, id) < s.emails.len(),
    ensures
        ({
            let k = message_at(s.emails, id);
            let after = delete_selected(s).state.emails;
            if s.emails[k].folder == "trash"@ {
                &&& forall|i: int| 0 <= i < after.len() ==> (#[trigger] after[i]).id != id
                &&& ids_unique(s.emails) ==> after == s.emails.remove(k)
            } else {
                after == s.emails.update(k, EmailView { folder: "trash"@, ..s.emails[k] })
            }
        }),
        delete_selected(s).state.selected_id is None,
{
    lemma_message_at(s.emails, id);
    let k = message_at(s.emails, id);
    lemma_without_id(s.emails, id);
    if ids_unique(s.emails) {
        lemma_without_unique_id(s.emails, id, k);
    }
}

proof fn lemma_without_id(s: Seq<EmailView>, id: usize)
    ensures
        forall|i: int|
            0 <= i < without_id(s, id).len() ==> (#[trigger] without_id(s, id)[i]).id != id
                && s.contains(without_id(s, id)[i]),
    decreases s.len(),
{
    reveal(Seq::filter);
    if s.len() > 0 {
        let t = s.drop_last();
        lemma_without_id(t, id);
        let r = without_id(s, id);
        let before = without_id(t, id);
        assert forall|i: int| 0 <= i < r.len() implies (#[trigger] r[i]).id != id && s.contains(
            r[i],
        ) by {
            if i < before.len() {
                assert(r[i] == before[i]);
                let k = t.index_of(before[i]);
                assert(s[k] == r[i]);
            } else {
                assert(s[s.len() - 1] == r[i]);
            }
        }
    }
}

proof fn lemma_without_unique_id(s: Seq<EmailView>, id: usize, k: int)
    requires
        ids_unique(s),
        0 <= k < s.len(),
        s[k].id == id,
    ensures
        without_id(s, id) == s.remove(k),
    decreases s.len(),
{
    reveal(Seq::filter);
    let t = s.drop_last();
    assert forall|i: int| 0 <= i < t.len() implies t[i] == s[i] by {}
    assert(ids_unique(t));
    if k < t.len() {
        lemma_without_unique_id(t, id, k);
        assert(s[s.len() - 1].id != s[k].id);
        assert(t.remove(k).push(s.last()) =~= s.remove(k));
    } else {
        lemma_without_absent_id(t, id);
        assert(t =~= s.remove(k));
    }
}

proof fn lemma_without_absent_id(s: Seq<EmailView>, id: usize)
    requires
        forall|i: int| 0 <= i < s.len() ==> (#[trigger] s[i]).id != id,
    ensures
        without_id(s, id) == s,
    decreases s.len(),
{
    reveal(Seq::filter);
    if s.len() > 0 {
        let t = s.drop_last();
        assert forall|i: int| 0 <= i < t.len() implies (#[trigger] t[i]).id != id by {
            assert(t[i] == s[i]);
        }
        lemma_without_absent_id(t, id);
        assert(s[s.len() - 1].id != id);
        assert(t.push(s.last()) =~= s);
    }
}

/// The server hears only of inbox mail that it knows: no other message is
/// deleted or marked there.
pub proof fn only_inbox_mail_reaches_the_server(s: AppView, id: usize, i: int)
    requires
        s.selected_id == Some(id),
        0 <= i < delete_selected(s).effects.len(),
        delete_selected(s).effects[i] is DeleteOnServer,
    ensures
        ({
            let k = message_at(s.emails, id);
            &&& k < s.emails.len()
            &&& s.emails[k].folder == "inbox"@
            &&& s.emails[k].uid == Some(delete_selected(s).effects[i]->DeleteOnServer_0)
        }),
{
    lemma_message_at(s.emails, id);
}

/// A message that is opened is read afterwards; what else there is stays as
/// it was.
pub proof fn an_opened_message_is_read(s: AppView, id: usize)
    requires
        draft_at(s.emails, id) >= s.emails.len(),
        message_at(s.emails, id) < s.emails.len(),
    ensures
        ({
            let k = message_at(s.emails, id);
            let after = select_email(s, id).state;
            &&& after.selected_id == Some(id)
            &&& after.emails == s.emails.update(k, EmailView { read: true, ..s.emails[k] })
        }),
{
    lemma_message_at(s.emails, id);
    let k = message_at(s.emails, id);
    if s.emails[k].read {
        assert(s.emails.update(k, EmailView { read: true, ..s.emails[k] }) =~= s.emails);
    }
}

/// A reply carries nothing over from an earlier compose.
pub proof fn a_reply_starts_clean(s: AppView)
    requires
        s.selected_id is Some,
        message_at(s.emails, s.selected_id->0) < s.emails.len(),
    ensures
        ({
            let k = message_at(s.emails, s.selected_id->0);
            let c = reply(s).state.compose;
            &&& c.open
            &&& c.to.value() == s.emails[k].from
            &&& c.cc.value().len() == 0
            &&& c.bcc.value().len() == 0
            &&& c.attachments.len() == 0
        }),
{
}

// ---------------------------------------------------------------------------
// Sync and tokens

/// A sync of another account leaves the mail that is shown alone.
pub proof fn a_background_sync_leaves_the_list_alone(
    s: AppView,
    email: Seq<char>,
    folders: Seq<FolderSyncView>,
    now: u64,
)
    requires
        active(s) != Some(email),
    ensures
        emails_synced(s, email, folders, now).state.emails == s.emails,
{
}

/// New tokens change an account's tokens and nothing else.
pub proof fn new_tokens_change_tokens_only(
    s: AppView,
    email: Seq<char>,
    token: Option<Seq<char>>,
    expiry: Option<u64>,
    i: int,
)
    requires
        0 <= i < s.accounts.len(),
    ensures
        ({
            let t = update_tokens(s, email, token, expiry).state;
            let a = s.accounts[i];
            let b = t.accounts[i];
            &&& t.accounts.len() == s.accounts.len()
            &&& b == (crate::model::AccountView {
                access_token: b.access_token,
                token_expiry: b.token_expiry,
                ..a
            })
            &&& a.email != email ==> b == a
            &&& t == (AppView { accounts: t.accounts, ..s })
        }),
{
    lemma_account_at(s.accounts, email);
}

proof fn lemma_account_at(accounts: Seq<crate::model::AccountView>, email: Seq<char>)
    ensures
        0 <= crate::accounts::account_at(accounts, email) <= accounts.len(),
        crate::accounts::account_at(accounts, email) < accounts.len()
            ==> accounts[crate::accounts::account_at(accounts, email)].email == email,
    decreases accounts.len(),
{
    if accounts.len() > 0 && accounts[0].email != email {
        lemma_account_at(accounts.drop_first(), email);
    }
}

// ---------------------------------------------------------------------------
// Ids

proof fn lemma_push_ids(emails: Seq<EmailView>, e: EmailView)
    requires
        ids_unique(emails),
        max_id(emails) < usize::MAX,
        e.id == max_id(emails) + 1,
    ensures
        ids_unique(emails.push(e)),
{
    lemma_max_id(emails);
    let r = emails.push(e);
    assert forall|i: int, j: int| 0 <= i < j < r.len() implies (#[trigger] r[i]).id != (
    #[trigger] r[j]).id by {
        assert(r[i] == emails[i]);
        if j < emails.len() {
            assert(r[j] == emails[j]);
        }
    }
}

proof fn lemma_update_ids(emails: Seq<EmailView>, k: int, e: EmailView)
    requires
        ids_unique(emails),
        0 <= k < emails.len(),
        e.id == emails[k].id,
    ensures
        ids_unique(emails.update(k, e)),
{
    let r = emails.update(k, e);
    assert forall|i: int| 0 <= i < r.len() implies (#[trigger] r[i]).id == emails[i].id by {}
}

/// Ids stay unique whatever message comes in, so that selection and actions
/// never hit the wrong row.
pub proof fn ids_stay_unique(s: AppView, msg: AppMessage, now: u64)
    requires
        ids_unique(s.emails),
        ready_for(s, msg, now),
    ensures
        ids_unique(updated(s, msg, now).state.emails),
{
    match msg {
        AppMessage::SelectEmail(id) => {
            lemma_draft_at(s.emails, id);
            lemma_message_at(s.emails, id);
            let d = draft_at(s.emails, id);
            let k = message_at(s.emails, id);
            if d < s.emails.len() {
                let r = s.emails.remove(d);
                assert forall|i: int| 0 <= i < r.len() implies (#[trigger] r[i]) == s.emails[if i
                    < d {
                    i
                } else {
                    i + 1
                }] by {}
            } else if k < s.emails.len() {
                lemma_update_ids(s.emails, k, EmailView { read: true, ..s.emails[k] });
            }
        },
        AppMessage::ComposeCancel => {
            if !is_empty_mail(s.compose.gathered()) {
                lemma_push_ids(s.emails, as_draft(s, s.compose.gathered()));
            }
        },
        AppMessage::SendResult(m, e) => {
            lemma_push_ids(s.emails, as_draft(s, m@));
            lemma_push_ids(s.emails, as_sent(s, m@));
        },
        AppMessage::DeleteSelected => {
            if let Some(id) = s.selected_id {
                lemma_message_at(s.emails, id);
                let k = message_at(s.emails, id);
                if k < s.emails.len() {
                    lemma_update_ids(s.emails, k, EmailView { folder: "trash"@, ..s.emails[k] });
                    lemma_without_unique_id(s.emails, id, k);
                    let r = s.emails.remove(k);
                    assert forall|i: int| 0 <= i < r.len() implies (#[trigger] r[i])
                        == s.emails[if i < k {
                        i
                    } else {
                        i + 1
                    }] by {}
                }
            }
        },
        AppMessage::ToggleUnread => {
            if let Some(id) = s.selected_id {
                lemma_message_at(s.emails, id);
                let k = message_at(s.emails, id);
                if k < s.emails.len() {
                    lemma_update_ids(
                        s.emails,
                        k,
                        EmailView { read: !s.emails[k].read, ..s.emails[k] },
                    );
                }
            }
        },
        AppMessage::EmailsSynced(email, fs) => {
            if active(s) == Some(email@) {
                merge_makes_ids_unique(s.emails, views(fs@));
            }
        },
        _ => {},
    }
}

} // verus!
