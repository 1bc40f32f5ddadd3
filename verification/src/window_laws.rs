//! What holds of everything the window shows and of every message it acts on.

use vstd::prelude::*;
use crate::accounts::{account_at, default_at, starting_account};
use crate::list::{
    after_key, edited_field, is_shown, key_step, lemma_rows, lower_case_of, menu_actions,
    menu_labels, row_head, rows_shown, size_text, tenths_of_mb, CardAction, ComposeField, KeyPress,
    KeyStep,
};
use crate::mailto::mailto_prefill;
use crate::merge::{max_id, merged_mail};
use crate::model::{folder_tag, AccountView, EmailView, Folder, FolderSyncView, OutgoingView};
use crate::number::{decimal, value};
use crate::outgoing::sent_name;
use crate::reading_laws::an_occurrence_is_replaced;
use crate::scan::{part_at, replace, trim};
use crate::schedule::{
    due_syncs, lacks_login, secret_wanted, started, sync_begun, sync_starts, ticked,
};
use crate::state::{AppView, EffectView, FieldView, ToastView};
use crate::update::{
    attachment_fetched, compose_attach, compose_cancel, compose_new, compose_send, delete_selected,
    draft_at, emails_synced, left_over, message_at, open_attachment, reply, reply_body, select_account,
    select_email, send_result, switch_folder, toggle_unread,
};
use crate::update_laws::{lemma_draft_at, lemma_message_at};

verus! {

// ---------------------------------------------------------------------------
// Searching

/// What a box says: what is being typed into it, else what it holds.
pub open spec fn said(f: FieldView) -> Seq<char> {
    if f.editing {
        f.edit_buffer
    } else {
        f.text
    }
}

/// `q` stands in `t` from `k` on.
pub open spec fn stands_in(t: Seq<char>, q: Seq<char>, k: int) -> bool {
    0 <= k <= t.len() - q.len() && t.subrange(k, k + q.len()) == q
}

/// A message of the folder shows wherever the search text, in lower case, is a
/// part of its sender, of its subject or of its body, in lower case; each of
/// the three alone is enough. It does not show where none of them has it, nor
/// does mail of another folder; and an empty search shows the whole folder.
pub proof fn a_search_finds_sender_subject_and_body(s: AppView, i: int, k: int)
    requires
        0 <= i < s.emails.len(),
    ensures
        ({
            let e = s.emails[i];
            let q = lower_case_of(said(s.search));
            let from = lower_case_of(e.from);
            let subject = lower_case_of(e.subject);
            let body = lower_case_of(e.body);
            let here = match s.folder {
                Folder::Inbox => e.folder == "inbox"@,
                Folder::Sent => e.folder == "sent"@,
                Folder::Drafts => e.folder == "drafts"@,
                Folder::Trash => e.folder == "trash"@,
            };
            let shown = rows_shown(s).contains(e);
            &&& here && stands_in(from, q, k) ==> shown
            &&& here && stands_in(subject, q, k) ==> shown
            &&& here && stands_in(body, q, k) ==> shown
            &&& here && q.len() == 0 ==> shown
            &&& q.len() > 0 && (forall|n: int| !#[trigger] stands_in(from, q, n)) && (forall|n: int|
                !#[trigger] stands_in(subject, q, n)) && (forall|n: int|
                !#[trigger] stands_in(body, q, n)) ==> !shown
            &&& !here ==> !shown
        }),
{
    let e = s.emails[i];
    lemma_rows(s.emails, |e: EmailView| is_shown(e, folder_tag(s.folder), s.search.value()));
    let q = lower_case_of(said(s.search));
    let from = lower_case_of(e.from);
    let subject = lower_case_of(e.subject);
    let body = lower_case_of(e.body);
    if stands_in(from, q, k) {
        assert(part_at(from, q, k));
    }
    if stands_in(subject, q, k) {
        assert(part_at(subject, q, k));
    }
    if stands_in(body, q, k) {
        assert(part_at(body, q, k));
    }
    if rows_shown(s).contains(e) && q.len() > 0 {
        if exists|n: int| part_at(from, q, n) {
            let n = choose|n: int| part_at(from, q, n);
            assert(stands_in(from, q, n));
        } else if exists|n: int| part_at(subject, q, n) {
            let n = choose|n: int| part_at(subject, q, n);
            assert(stands_in(subject, q, n));
        } else {
            let n = choose|n: int| part_at(body, q, n);
            assert(stands_in(body, q, n));
        }
    }
}

/// The rows stand in the order of the mail: each is a message further on than
/// the row before it.
pub open spec fn in_mail_order(
    rows: Seq<EmailView>,
    emails: Seq<EmailView>,
    places: Seq<int>,
) -> bool {
    &&& places.len() == rows.len()
    &&& forall|k: int|
        0 <= k < rows.len() ==> 0 <= #[trigger] places[k] < emails.len() && rows[k]
            == emails[places[k]]
    &&& forall|j: int, k: int|
        0 <= j < k < rows.len() ==> #[trigger] places[j] < #[trigger] places[k]
}

proof fn lemma_filter_places(s: Seq<EmailView>, p: spec_fn(EmailView) -> bool) -> (places: Seq<int>)
    ensures
        in_mail_order(s.filter(p), s, places),
    decreases s.len(),
{
    reveal(Seq::filter);
    if s.len() == 0 {
        Seq::empty()
    } else {
        let t = s.drop_last();
        let before = lemma_filter_places(t, p);
        let places = if p(s.last()) {
            before.push(s.len() - 1)
        } else {
            before
        };
        let rows = s.filter(p);
        assert forall|k: int| 0 <= k < rows.len() implies 0 <= #[trigger] places[k] < s.len()
            && rows[k] == s[places[k]] by {
            if k < before.len() {
                assert(places[k] == before[k]);
                assert(rows[k] == t.filter(p)[k]);
            }
        }
        assert forall|j: int, k: int| 0 <= j < k < rows.len() implies #[trigger] places[j]
            < #[trigger] places[k] by {
            assert(places[j] == before[j]);
            if k < before.len() {
                assert(places[k] == before[k]);
            }
        }
        places
    }
}

/// The rows that show keep the order of the mail.
pub proof fn rows_keep_the_order_of_the_mail(s: AppView)
    ensures
        exists|places: Seq<int>| #[trigger] in_mail_order(rows_shown(s), s.emails, places),
{
    let p = |e: EmailView| is_shown(e, folder_tag(s.folder), s.search.value());
    let places = lemma_filter_places(s.emails, p);
    assert(rows_shown(s) == s.emails.filter(p));
    assert(in_mail_order(rows_shown(s), s.emails, places));
}

// ---------------------------------------------------------------------------
// Rows, menus and keys

/// A row of sent mail leads with whom it went to, any other with whom it came
/// from.
pub proof fn a_row_leads_with_the_other_party(e: EmailView)
    ensures
        e.folder == "sent"@ ==> row_head(e).len() == e.to.len() + 4 && row_head(e).skip(4) == e.to,
        e.folder != "sent"@ ==> row_head(e) == e.from,
{
    reveal_strlit("To: ");
    if e.folder == "sent"@ {
        assert(row_head(e).skip(4) =~= e.to);
    }
}

/// A menu's rows do what they say: of a draft, edit that draft or delete it; of
/// any other message, reply, delete, or flip the mark that it has.
pub proof fn a_menu_does_what_it_says(e: EmailView, row: int)
    requires
        0 <= row < menu_actions(e).len(),
    ensures
        menu_actions(e)[row] matches Some(CardAction::Edit(id)) ==> e.folder == "drafts"@ && id
            == e.id && menu_labels(e)[row] == "Edit"@,
        menu_actions(e)[row] == Some(CardAction::Reply) ==> e.folder != "drafts"@ && menu_labels(
            e,
        )[row] == "Reply"@,
        menu_actions(e)[row] == Some(CardAction::Delete) ==> menu_labels(e)[row] == "Delete"@,
        menu_actions(e)[row] == Some(CardAction::ToggleRead) ==> e.folder != "drafts"@
            && menu_labels(e)[row] == if e.read {
            "Mark Unread"@
        } else {
            "Mark Read"@
        },
        menu_actions(e).contains(Some(CardAction::Delete)),
        e.folder == "drafts"@ ==> menu_actions(e).contains(Some(CardAction::Edit(e.id))),
        e.folder != "drafts"@ ==> menu_actions(e).contains(Some(CardAction::Reply)) && menu_actions(
            e,
        ).contains(Some(CardAction::ToggleRead)),
{
    assert(menu_actions(e)[2] == Some(CardAction::Delete));
    if e.folder == "drafts"@ {
        assert(menu_actions(e)[1] == Some(CardAction::Edit(e.id)));
    } else {
        assert(menu_actions(e)[1] == Some(CardAction::Reply));
        assert(menu_actions(e)[3] == Some(CardAction::ToggleRead));
    }
}

/// Letting a key go does nothing; Escape closes an open search; the chords
/// compose and search, the latter unless a search is being typed.
pub proof fn keys_do_one_thing_each(s: AppView, k: KeyPress)
    ensures
        !k.pressed ==> key_step(s, k) == KeyStep::PassOn && after_key(s, k) == s,
        k.pressed && k.escape && s.search_open ==> key_step(s, k) == KeyStep::SearchClosed,
        k.pressed && k.compose_chord && !k.escape ==> key_step(s, k) == KeyStep::Compose && after_key(
            s,
            k,
        ) == s,
        k.pressed && k.search_chord && !k.escape && !k.compose_chord && !s.search.editing ==> key_step(
            s,
            k,
        ) == KeyStep::SearchOpened && after_key(s, k).search_open && after_key(s, k).search.editing,
        k.pressed && !k.escape && !k.compose_chord && !k.search_chord ==> key_step(s, k)
            == KeyStep::PassOn,
        after_key(s, k).emails == s.emails && after_key(s, k).compose == s.compose && after_key(
            s,
            k,
        ).folder == s.folder,
{
}

/// The field being edited is one that is being edited, and there is none only
/// where none is.
pub proof fn the_edited_field_is_edited(s: AppView)
    ensures
        match edited_field(s) {
            Some(ComposeField::To) => s.compose.to.editing,
            Some(ComposeField::Cc) => s.compose.cc.editing,
            Some(ComposeField::Bcc) => s.compose.bcc.editing,
            Some(ComposeField::Subject) => s.compose.subject.editing,
            Some(ComposeField::Body) => s.compose.body.editing,
            None => !s.compose.to.editing && !s.compose.cc.editing && !s.compose.bcc.editing
                && !s.compose.subject.editing && !s.compose.body.editing,
        },
{
}

/// Sizes below a kibibyte show in bytes, below a mebibyte in whole kibibytes,
/// others in tenths of a mebibyte, to the nearest one where single precision
/// holds the size.
pub proof fn sizes_show_in_their_unit(size: u32)
    ensures
        size < 1024 ==> size_text(size) == decimal(size as nat) + " B"@,
        1024 <= size < 1024 * 1024 ==> exists|k: nat|
            size_text(size) == #[trigger] decimal(k) + " KB"@ && k * 1024 <= size < (k + 1) * 1024,
        size >= 1024 * 1024 ==> exists|t: nat|
            size_text(size) == #[trigger] decimal(t / 10) + "."@ + decimal(t % 10) + " MB"@ && (size
                < 0x100_0000 ==> -524288 <= t * 1048576 - size * 10 <= 524288),
{
    if 1024 <= size < 1024 * 1024 {
        let k = (size / 1024) as nat;
        assert(size_text(size) == decimal(k) + " KB"@);
        assert(k * 1024 <= size < (k + 1) * 1024);
    }
    if size >= 1024 * 1024 {
        let t = tenths_of_mb(size);
        assert(size_text(size) == decimal(t / 10) + "."@ + decimal(t % 10) + " MB"@);
        if size < 0x100_0000 {
            let n = size as nat;
            assert(crate::list::single_step(n) == 1);
            assert(n % 1 == 0 && n / 1 == n);
            assert(crate::list::rounded(n, 1) == n);
            let m = n * 10;
            assert(t == crate::list::rounded(m, 1048576));
            let q = m / 1048576;
            let r = m % 1048576;
            assert(m == q * 1048576 + r);
        }
    }
}

// ---------------------------------------------------------------------------
// Selecting

/// The message with an id is the first that has it.
pub open spec fn is_first_with(emails: Seq<EmailView>, id: usize, k: int) -> bool {
    0 <= k < emails.len() && emails[k].id == id && forall|i: int|
        0 <= i < k ==> (#[trigger] emails[i]).id != id
}

proof fn lemma_first_is(emails: Seq<EmailView>, id: usize, k: int)
    requires
        is_first_with(emails, id, k),
    ensures
        message_at(emails, id) == k,
{
    lemma_message_at(emails, id);
    let m = message_at(emails, id);
    if m < k {
        assert(emails[m].id != id);
    }
    if k < m {
        assert(emails[k].id != id);
    }
}

/// Opening a message that is no draft selects it and marks it read, here and,
/// where it lies in the inbox of an account and was unread, on the server; no
/// other message is touched, and nothing else of the window.
pub proof fn opening_marks_the_message_read(s: AppView, id: usize, k: int, uid: u32, seen: bool)
    requires
        is_first_with(s.emails, id, k),
        forall|i: int|
            0 <= i < s.emails.len() && (#[trigger] s.emails[i]).id == id ==> s.emails[i].folder
                != "drafts"@,
    ensures
        ({
            let t = select_email(s, id);
            &&& t.state == (AppView {
                emails: s.emails.update(k, EmailView { read: true, ..s.emails[k] }),
                selected_id: Some(id),
                ..s
            })
            &&& t.effects.contains(EffectView::SetSeen(uid, seen)) <==> seen && !s.emails[k].read
                && s.emails[k].folder == "inbox"@ && s.emails[k].uid == Some(uid) && s.selected
                < s.accounts.len()
            &&& !s.emails[k].read && s.selected < s.accounts.len() ==> t.effects.contains(
                EffectView::SaveEmails(s.accounts[s.selected as int].email),
            )
        }),
{
    lemma_first_is(s.emails, id, k);
    lemma_draft_at(s.emails, id);
    let t = select_email(s, id);
    assert(draft_at(s.emails, id) >= s.emails.len());
    assert(t.state.emails =~= s.emails.update(k, EmailView { read: true, ..s.emails[k] }));
    if !s.emails[k].read {
        let e = s.emails[k];
        if s.selected < s.accounts.len() {
            assert(t.effects[1] == EffectView::SaveEmails(s.accounts[s.selected as int].email));
            if e.folder == "inbox"@ && e.uid is Some {
                assert(t.effects[2] == EffectView::SetSeen(e.uid->0, true));
            }
        }
    }
}

/// Selecting a draft takes it out of the mail and opens the dialog on what it
/// holds: each field of it in its own box.
pub proof fn a_draft_resumes_in_its_fields(s: AppView, id: usize, k: int)
    requires
        0 <= k < s.emails.len(),
        s.emails[k].id == id,
        s.emails[k].folder == "drafts"@,
        forall|i: int|
            0 <= i < k ==> (#[trigger] s.emails[i]).id != id || s.emails[i].folder != "drafts"@,
    ensures
        ({
            let d = s.emails[k];
            let t = select_email(s, id).state;
            &&& t.emails == s.emails.remove(k)
            &&& t.selected_id is None
            &&& t.compose.open
            &&& said(t.compose.to) == d.to
            &&& said(t.compose.cc) == d.cc
            &&& said(t.compose.bcc) == d.bcc
            &&& said(t.compose.subject) == d.subject
            &&& said(t.compose.body) == d.body
            &&& t.compose.attachments == d.attachments
        }),
{
    lemma_draft_at(s.emails, id);
    let m = draft_at(s.emails, id);
    if m < k {
        assert(s.emails[m].id != id || s.emails[m].folder != "drafts"@);
    }
    if k < m {
        assert(s.emails[k].id != id || s.emails[k].folder != "drafts"@);
    }
}

/// Entering a folder shows it, selects nothing, and asks for a sync that may
/// wait; the mail stays as it is.
pub proof fn a_folder_is_entered(s: AppView, f: Folder)
    ensures
        switch_folder(s, f).state == (AppView { folder: f, selected_id: None, ..s }),
        switch_folder(s, f).effects.contains(EffectView::Sync(false)),
        !switch_folder(s, f).effects.contains(EffectView::Sync(true)),
{
    let e = switch_folder(s, f).effects;
    assert(e[1] == EffectView::Sync(false));
}

// ---------------------------------------------------------------------------
// Composing

/// What a mail composed here is kept as, with its own sender, recipients,
/// subject, text and attachments, under an id above all others.
pub open spec fn keeps_mail(e: EmailView, s: AppView, to: Seq<char>, cc: Seq<char>, body: Seq<char>) -> bool {
    &&& e.to == to
    &&& e.cc == cc
    &&& e.body == body
    &&& e.from == if s.selected < s.accounts.len() {
        s.accounts[s.selected as int].email
    } else {
        Seq::empty()
    }
    &&& e.uid is None
    &&& e.read
    &&& e.remote_attachments.len() == 0
    &&& forall|i: int| 0 <= i < s.emails.len() ==> (#[trigger] s.emails[i]).id < e.id
}

/// Putting a mail down that holds anything leaves it as the last draft, each
/// box in its own field: recipients and subject without blanks around them, the
/// text as it was typed; the dialog is closed and empty.
pub proof fn a_cancelled_mail_becomes_a_draft(s: AppView)
    requires
        max_id(s.emails) < usize::MAX,
    ensures
        ({
            let c = s.compose;
            let t = compose_cancel(s).state;
            let blank = trim(said(c.to)).len() == 0 && trim(said(c.cc)).len() == 0 && trim(
                said(c.bcc),
            ).len() == 0 && trim(said(c.subject)).len() == 0 && said(c.body).len() == 0
                && c.attachments.len() == 0;
            &&& !t.compose.open
            &&& said(t.compose.to).len() == 0 && said(t.compose.cc).len() == 0 && said(
                t.compose.bcc,
            ).len() == 0 && said(t.compose.subject).len() == 0 && said(t.compose.body).len() == 0
                && t.compose.attachments.len() == 0
            &&& blank ==> t.emails == s.emails
            &&& !blank ==> {
                let d = t.emails.last();
                &&& t.emails.len() == s.emails.len() + 1
                &&& t.emails.drop_last() == s.emails
                &&& d.folder == "drafts"@
                &&& keeps_mail(d, s, trim(said(c.to)), trim(said(c.cc)), said(c.body))
                &&& d.bcc == trim(said(c.bcc))
                &&& d.subject == trim(said(c.subject))
                &&& d.attachments == c.attachments
            }
        }),
{
    crate::merge::lemma_max_id(s.emails);
    let t = compose_cancel(s).state;
    assert(t.emails.len() > s.emails.len() ==> t.emails.drop_last() =~= s.emails);
}

/// Sending hands over the mail that was composed, box by box, and closes the
/// dialog; without a recipient it hands over nothing and keeps the dialog.
pub proof fn sending_hands_over_what_was_composed(s: AppView)
    ensures
        ({
            let c = s.compose;
            let t = compose_send(s);
            if trim(said(c.to)).len() + trim(said(c.cc)).len() + trim(said(c.bcc)).len() > 0 {
                &&& t.effects.len() == 1
                &&& t.effects[0] matches EffectView::Send(m) && {
                    &&& m.to == trim(said(c.to))
                    &&& m.cc == trim(said(c.cc))
                    &&& m.bcc == trim(said(c.bcc))
                    &&& m.subject == trim(said(c.subject))
                    &&& m.body == said(c.body)
                    &&& m.attachments == c.attachments
                }
                &&& !t.state.compose.open
                &&& said(t.state.compose.to).len() == 0 && said(t.state.compose.body).len() == 0
                    && t.state.compose.attachments.len() == 0
                &&& t.state.emails == s.emails
            } else {
                &&& t.effects.len() == 0
                &&& t.state.compose == c
                &&& t.state.status matches Some(ToastView::Error { .. })
            }
        }),
{
}

/// A delivered mail is kept as sent: to whom, with which copy, subject and text
/// it was sent, its attachments by name, and nobody who was bcc'd. One that
/// failed is kept as a draft with all that it held.
pub proof fn a_send_is_recorded_as_it_went(s: AppView, m: OutgoingView, error: Option<Seq<char>>)
    requires
        max_id(s.emails) < usize::MAX,
    ensures
        ({
            let t = send_result(s, m, error).state;
            let e = t.emails.last();
            &&& t.emails.len() == s.emails.len() + 1
            &&& t.emails.drop_last() == s.emails
            &&& keeps_mail(e, s, m.to, m.cc, m.body)
            &&& error is None ==> {
                &&& e.folder == "sent"@
                &&& e.bcc.len() == 0
                &&& m.subject.len() > 0 ==> e.subject == m.subject
                &&& m.subject.len() == 0 ==> e.subject == "(No Subject)"@
                &&& e.attachments.len() == m.attachments.len()
                &&& forall|i: int|
                    0 <= i < m.attachments.len() ==> #[trigger] e.attachments[i] == sent_name(
                        m.attachments[i],
                    )
                &&& !(t.status matches Some(ToastView::Error { .. }))
            }
            &&& error is Some ==> {
                &&& e.folder == "drafts"@
                &&& e.bcc == m.bcc
                &&& e.subject == m.subject
                &&& e.attachments == m.attachments
                &&& t.status matches Some(ToastView::Error { .. })
            }
            &&& s.selected < s.accounts.len() ==> send_result(s, m, error).effects.contains(
                EffectView::SaveEmails(s.accounts[s.selected as int].email),
            )
        }),
{
    crate::merge::lemma_max_id(s.emails);
    let t = send_result(s, m, error).state;
    assert(t.emails.drop_last() =~= s.emails);
    let ef = send_result(s, m, error).effects;
    if s.selected < s.accounts.len() {
        assert(ef[0] == EffectView::SaveEmails(s.accounts[s.selected as int].email));
    }
}

/// A reply goes to the sender of the message that is selected, under its
/// subject, which gets a `Re:` unless it has one; nothing of it is copied to
/// anyone else, and nothing is attached.
pub proof fn a_reply_goes_to_the_sender(s: AppView, id: usize, k: int)
    requires
        s.selected_id == Some(id),
        is_first_with(s.emails, id, k),
    ensures
        ({
            let e = s.emails[k];
            let c = reply(s).state.compose;
            &&& reply(s).state == (AppView { compose: c, ..s })
            &&& c.open
            &&& said(c.to) == e.from
            &&& said(c.cc).len() == 0 && said(c.bcc).len() == 0 && c.attachments.len() == 0
            &&& e.subject.len() >= 3 && e.subject.take(3) == "Re:"@ ==> said(c.subject) == e.subject
            &&& !(e.subject.len() >= 3 && e.subject.take(3) == "Re:"@) ==> said(c.subject).skip(4)
                == e.subject && said(c.subject).take(4) == "Re: "@
            &&& said(c.body) == reply_body(e)
        }),
{
    lemma_first_is(s.emails, id, k);
    reveal_strlit("Re:");
    reveal_strlit("Re: ");
    let e = s.emails[k];
    let c = reply(s).state.compose;
    assert(("Re: "@ + e.subject).skip(4) =~= e.subject);
    assert(("Re: "@ + e.subject).take(4) =~= "Re: "@);
}

/// A reply quotes the message line by line, each behind `> `, under a line that
/// says when it came and from whom.
pub proof fn a_reply_quotes_every_line(e: EmailView, line: Seq<char>, rest: Seq<char>)
    requires
        forall|i: int| 0 <= i < line.len() ==> line[i] != '\n',
    ensures
        ({
            let head = "\n\nOn "@ + e.date + ", "@ + e.from + " wrote:\n> "@;
            let quoted = |body: Seq<char>| reply_body(EmailView { body, ..e });
            &&& quoted(line) == head + line
            &&& quoted(rest).take(head.len() as int) == head
            &&& quoted(line + "\n"@ + rest) == head + line + "\n> "@ + quoted(rest).skip(
                head.len() as int,
            )
        }),
{
    reveal_strlit("\n");
    let head = "\n\nOn "@ + e.date + ", "@ + e.from + " wrote:\n> "@;
    let q = replace(rest, "\n"@, "\n> "@);
    assert((head + q).take(head.len() as int) =~= head);
    assert((head + q).skip(head.len() as int) =~= q);
    an_occurrence_is_replaced(line, "\n"@, rest, "\n> "@);
    an_occurrence_is_replaced(line, "\n"@, Seq::empty(), "\n> "@);
    crate::reading_laws::lemma_replace_absent(line, "\n"@, "\n> "@);
    assert(head + (line + "\n> "@ + q) =~= head + line + "\n> "@ + q);
}

/// A new message starts from an empty dialog, and a picked file is queued
/// behind the others; picking none changes nothing.
pub proof fn composing_starts_empty(s: AppView, path: Seq<char>)
    ensures
        ({
            let c = compose_new(s).state.compose;
            &&& c.open
            &&& said(c.to).len() == 0 && said(c.cc).len() == 0 && said(c.bcc).len() == 0 && said(
                c.subject,
            ).len() == 0 && said(c.body).len() == 0 && c.attachments.len() == 0
            &&& compose_new(s).state == (AppView { compose: c, ..s })
        }),
        ({
            let c = compose_attach(s, Some(path)).state.compose;
            &&& c.attachments.len() == s.compose.attachments.len() + 1
            &&& c.attachments.last() == path
            &&& c.attachments.drop_last() == s.compose.attachments
            &&& said(c.to) == said(s.compose.to) && said(c.body) == said(s.compose.body)
        }),
        compose_attach(s, None).state == s,
{
    assert(compose_attach(s, Some(path)).state.compose.attachments.drop_last()
        =~= s.compose.attachments);
}

// ---------------------------------------------------------------------------
// Deleting and marking

/// Deleting the selected message moves it, and it alone, to the trash, or out
/// of the trash for good; the server is told exactly where it was an inbox
/// message of an account that the server knows.
pub proof fn deleting_reaches_the_selected_message(s: AppView, id: usize, k: int, uid: u32)
    requires
        s.selected_id == Some(id),
        is_first_with(s.emails, id, k),
    ensures
        ({
            let t = delete_selected(s);
            let e = s.emails[k];
            &&& t.state.selected_id is None
            &&& e.folder != "trash"@ ==> t.state.emails == s.emails.update(
                k,
                EmailView { folder: "trash"@, ..e },
            )
            &&& e.folder == "trash"@ ==> forall|i: int|
                0 <= i < s.emails.len() ==> (t.state.emails.contains(#[trigger] s.emails[i])
                    <==> s.emails[i].id != id)
            &&& t.effects.contains(EffectView::DeleteOnServer(uid)) <==> e.folder == "inbox"@
                && e.uid == Some(uid) && s.selected < s.accounts.len()
            &&& s.selected < s.accounts.len() ==> t.effects.contains(
                EffectView::SaveEmails(s.accounts[s.selected as int].email),
            )
        }),
{
    lemma_first_is(s.emails, id, k);
    let t = delete_selected(s);
    let e = s.emails[k];
    lemma_rows(s.emails, |e: EmailView| e.id != id);
    reveal_strlit("inbox");
    reveal_strlit("trash");
    assert("inbox"@[0] == 'i' && "trash"@[0] == 't');
    if s.selected < s.accounts.len() {
        let save = EffectView::SaveEmails(s.accounts[s.selected as int].email);
        assert(t.effects.last() == save);
        assert(t.effects[t.effects.len() - 1] == save);
        if e.folder == "inbox"@ && e.uid is Some {
            assert(t.effects[0] == EffectView::DeleteOnServer(e.uid->0));
        }
    }
}

/// Marking flips the read flag of the selected message, and of it alone, and
/// tells the server the new one exactly where it was an inbox message of an
/// account that the server knows.
pub proof fn marking_flips_the_selected_message(
    s: AppView,
    id: usize,
    k: int,
    uid: u32,
    seen: bool,
)
    requires
        s.selected_id == Some(id),
        is_first_with(s.emails, id, k),
    ensures
        ({
            let t = toggle_unread(s);
            let e = s.emails[k];
            &&& t.state == (AppView {
                emails: s.emails.update(k, EmailView { read: !e.read, ..e }),
                ..s
            })
            &&& t.effects.contains(EffectView::SetSeen(uid, seen)) <==> seen != e.read && e.folder
                == "inbox"@ && e.uid == Some(uid) && s.selected < s.accounts.len()
        }),
{
    lemma_first_is(s.emails, id, k);
    let t = toggle_unread(s);
    let e = s.emails[k];
    if e.folder == "inbox"@ && e.uid is Some && s.selected < s.accounts.len() {
        assert(t.effects[0] == EffectView::SetSeen(e.uid->0, !e.read));
    }
}

/// Without a selection nothing is deleted, marked or replied to.
pub proof fn nothing_selected_nothing_done(s: AppView)
    requires
        s.selected_id is None,
    ensures
        delete_selected(s).state == s && delete_selected(s).effects.len() == 0,
        toggle_unread(s).state == s && toggle_unread(s).effects.len() == 0,
        reply(s).state == s && reply(s).effects.len() == 0,
{
}

// ---------------------------------------------------------------------------
// Attachments of received mail

/// An attachment is fetched off the message it belongs to: from that message's
/// folder, under its uid; one that has no server copy is reported.
pub proof fn an_attachment_is_fetched_off_its_message(s: AppView, id: usize, k: int, i: usize)
    requires
        is_first_with(s.emails, id, k),
        i < s.emails[k].remote_attachments.len(),
    ensures
        ({
            let t = open_attachment(s, id, i);
            let e = s.emails[k];
            &&& e.uid matches Some(uid) ==> s.selected < s.accounts.len() ==> t.effects == seq![
                EffectView::FetchAttachment(e.folder, uid, e.remote_attachments[i as int]),
            ]
            &&& e.uid is None ==> t.effects.len() == 0 && (t.state.status matches Some(
                ToastView::Error { .. },
            ))
            &&& t.state == (AppView { status: t.state.status, ..s })
        }),
{
    lemma_first_is(s.emails, id, k);
}

/// A fetched attachment is opened where it was saved; a failure is reported
/// and opens nothing.
pub proof fn a_fetched_attachment_is_opened(s: AppView, path: Seq<char>, e: Seq<char>)
    ensures
        attachment_fetched(s, Ok(path)).effects == seq![EffectView::OpenFile(path)],
        attachment_fetched(s, Err(e)).effects.len() == 0,
        attachment_fetched(s, Err(e)).state.status matches Some(ToastView::Error { .. }),
        attachment_fetched(s, Ok(path)).state.emails == s.emails,
{
}

// ---------------------------------------------------------------------------
// Accounts and syncs

/// Choosing an account shows none of the other's mail: its own is loaded, it
/// is remembered and synced at once.
pub proof fn another_account_brings_its_own_mail(s: AppView, idx: usize)
    requires
        idx < s.accounts.len(),
    ensures
        ({
            let t = select_account(s, idx);
            let email = s.accounts[idx as int].email;
            &&& t.state.selected == idx
            &&& t.state.account_row == idx
            &&& t.state.emails.len() == 0
            &&& t.state.selected_id is None
            &&& t.state.accounts == s.accounts
            &&& t.effects.contains(EffectView::LoadEmails(email))
            &&& t.effects.contains(EffectView::RememberAccount(email))
            &&& t.effects.contains(EffectView::Sync(true))
            &&& forall|other: Seq<char>|
                #[trigger] t.effects.contains(EffectView::LoadEmails(other)) ==> other == email
        }),
{
    let t = select_account(s, idx);
    let email = s.accounts[idx as int].email;
    assert(t.effects[0] == EffectView::LoadEmails(email));
    assert(t.effects[1] == EffectView::RememberAccount(email));
    assert(t.effects[2] == EffectView::Sync(true));
}

/// What a pass left is the sum of what its folders left.
pub proof fn left_overs_add_up(folders: Seq<FolderSyncView>, f: FolderSyncView)
    ensures
        left_over(Seq::empty()) == 0,
        left_over(folders.push(f)) == left_over(folders) + f.remaining,
{
    assert(folders.push(f).drop_last() =~= folders);
}

/// A sync of the account that is shown is merged into its mail and stored under
/// it; one of another account is handed on to be merged into what is stored for
/// that one. While history is left the next pass is due in three seconds, and
/// otherwise none is.
pub proof fn a_sync_reaches_its_own_account(
    s: AppView,
    email: Seq<char>,
    folders: Seq<FolderSyncView>,
    now: u64,
)
    requires
        s.selected < s.accounts.len(),
        now + 3000 <= u64::MAX,
    ensures
        ({
            let t = emails_synced(s, email, folders, now);
            let shown = s.accounts[s.selected as int].email == email;
            &&& shown ==> t.state.emails == merged_mail(s.emails, folders) && t.effects == seq![
                EffectView::SaveEmails(email),
            ]
            &&& !shown ==> t.state.emails == s.emails && t.effects == seq![
                EffectView::MergeStored(email, folders),
            ]
            &&& left_over(folders) > 0 ==> t.state.backfill_at == Some((now + 3000) as u64)
            &&& left_over(folders) == 0 ==> t.state.backfill_at is None && t.state.status
                == s.status
        }),
{
}

/// The first account with an address, or none.
proof fn lemma_account_at(accounts: Seq<AccountView>, email: Seq<char>)
    ensures
        0 <= account_at(accounts, email) <= accounts.len(),
        account_at(accounts, email) < accounts.len() ==> accounts[account_at(
            accounts,
            email,
        )].email == email,
        forall|i: int|
            0 <= i < account_at(accounts, email) ==> (#[trigger] accounts[i]).email != email,
    decreases accounts.len(),
{
    if accounts.len() > 0 && accounts[0].email != email {
        lemma_account_at(accounts.drop_first(), email);
        assert forall|i: int| 0 <= i < account_at(accounts, email) implies (
        #[trigger] accounts[i]).email != email by {
            if i > 0 {
                assert(accounts[i] == accounts.drop_first()[i - 1]);
            }
        }
    }
}

proof fn lemma_default_at(accounts: Seq<AccountView>)
    ensures
        0 <= default_at(accounts) <= accounts.len(),
        default_at(accounts) < accounts.len() ==> accounts[default_at(accounts)].is_default,
        forall|i: int| 0 <= i < default_at(accounts) ==> !(#[trigger] accounts[i]).is_default,
    decreases accounts.len(),
{
    if accounts.len() > 0 && !accounts[0].is_default {
        lemma_default_at(accounts.drop_first());
        assert forall|i: int| 0 <= i < default_at(accounts) implies !(
        #[trigger] accounts[i]).is_default by {
            if i > 0 {
                assert(accounts[i] == accounts.drop_first()[i - 1]);
            }
        }
    }
}

/// The client starts with the account that was used last, if it is still
/// there; else with the first default one; else with the first.
pub proof fn the_client_starts_where_it_was(
    accounts: Seq<AccountView>,
    last: Option<Seq<char>>,
    i: int,
)
    requires
        0 <= i < accounts.len(),
    ensures
        ({
            let k = starting_account(accounts, last);
            let known = exists|n: int|
                0 <= n < accounts.len() && Some((#[trigger] accounts[n]).email) == last;
            &&& 0 <= k < accounts.len()
            &&& known ==> Some(accounts[k].email) == last
            &&& !known && accounts[i].is_default ==> accounts[k].is_default && k <= i
            &&& !known && (forall|n: int|
                0 <= n < accounts.len() ==> !(#[trigger] accounts[n]).is_default) ==> k == 0
        }),
{
    if let Some(e) = last {
        lemma_account_at(accounts, e);
        if account_at(accounts, e) < accounts.len() {
            assert(Some(accounts[account_at(accounts, e)].email) == last);
        }
    }
    lemma_default_at(accounts);
    if default_at(accounts) > i {
        assert(!accounts[i].is_default);
    }
}

/// The client starts on the inbox with nothing selected, searched or shown; the
/// dialog is open exactly where a link was given, on what it prefills.
pub proof fn a_link_opens_the_dialog(
    accounts: Seq<AccountView>,
    last: Option<Seq<char>>,
    url: Option<Seq<char>>,
)
    requires
        accounts.len() <= usize::MAX,
    ensures
        ({
            let s = started(accounts, last, url);
            let p = match url {
                Some(u) => mailto_prefill(u),
                None => None,
            };
            &&& s.accounts == accounts
            &&& s.folder == Folder::Inbox
            &&& s.selected_id is None
            &&& s.emails.len() == 0
            &&& said(s.search).len() == 0
            &&& s.compose.open <==> p is Some
            &&& p matches Some(p) ==> said(s.compose.to) == p.to && said(s.compose.cc) == p.cc
                && said(s.compose.bcc) == p.bcc && said(s.compose.subject) == p.subject && said(
                s.compose.body,
            ) == p.body && s.compose.attachments.len() == 0
            &&& s.last_sync is None && s.backfill_at is None && s.status is None
        }),
{
}

/// A password is wanted exactly of an account that has none, is not signed in
/// by token and is not the demonstration; the keyring is asked for it, and no
/// sync starts without it.
pub proof fn a_sync_needs_a_login(s: AppView, now: u64)
    requires
        s.selected < s.accounts.len(),
        now + 5000 <= u64::MAX,
    ensures
        ({
            let a = s.accounts[s.selected as int];
            let demo = a.password == "mock_password"@ || a.email == "lsgalante@cce-ui.org"@;
            &&& lacks_login(a) <==> a.password.len() == 0 && !a.is_oauth && !demo
            &&& secret_wanted(s) == if a.password.len() == 0 && !demo {
                Some(s.selected)
            } else {
                None
            }
            &&& sync_starts(s) <==> a.password.len() > 0 || a.is_oauth || demo
            &&& sync_starts(s) ==> sync_begun(s, now).last_sync == Some(now)
            &&& !sync_starts(s) ==> sync_begun(s, now).secret_retry_at == Some((now + 5000) as u64)
                && sync_begun(s, now).last_sync == s.last_sync && ((sync_begun(s, now).status
                matches Some(ToastView::Error { .. })) || s.secret_missing_reported)
            &&& sync_begun(s, now).emails == s.emails && sync_begun(s, now).accounts == s.accounts
        }),
{
}

/// A retry or a backfill pass runs once, when its time has come, and not
/// before.
pub proof fn timers_run_out_once(s: AppView, elapsed: u64, now: u64, later: u64)
    requires
        now <= later,
    ensures
        ({
            let retry = s.secret_retry_at matches Some(t) && t <= now;
            let backfill = s.backfill_at matches Some(t) && t <= now;
            let t = ticked(s, elapsed, now);
            &&& due_syncs(s, now) == (if retry {
                1int
            } else {
                0int
            }) + (if backfill {
                1int
            } else {
                0int
            })
            &&& due_syncs(t, now) == 0
            &&& !retry ==> t.secret_retry_at == s.secret_retry_at
            &&& !backfill ==> t.backfill_at == s.backfill_at
            &&& t.emails == s.emails && t.last_sync == s.last_sync
        }),
{
}

} // verus!
