//! How messages change the state.

use vstd::prelude::*;
use crate::accounts::{account_at, find_account};
use crate::merge::{
    fetched_count, ids_suffice, largest_id, max_id, merge_sync, merged_mail,
};
use crate::model::{
    views, views_push, AccountView, Email, EmailView, Folder, FolderSync, FolderSyncView,
    OutgoingMail, OutgoingView,
};
use crate::number::{decimal, decimal_text};
use crate::outgoing::{attachment_name, sent_name};
use crate::scan::{replace, replace_text, starts_with, text_starts_with};
use crate::state::{
    is_empty_mail, mail_is_empty, AppMessage, AppView, ComposeView, Effect, EffectView, MailApp,
    StatusToast, ToastView,
};
use crate::text::{copy_texts, opt_text, same, texts, texts_push};

verus! {

// ---------------------------------------------------------------------------
// Vocabulary

/// What a message comes to.
pub ghost struct Step {
    pub state: AppView,
    pub effects: Seq<EffectView>,
}

/// The address of the selected account.
pub open spec fn active(s: AppView) -> Option<Seq<char>> {
    if s.selected < s.accounts.len() {
        Some(s.accounts[s.selected as int].email)
    } else {
        None
    }
}

pub open spec fn active_or_empty(s: AppView) -> Seq<char> {
    match active(s) {
        Some(e) => e,
        None => Seq::empty(),
    }
}

/// Storing the mail, where an account is selected.
pub open spec fn saving(s: AppView) -> Seq<EffectView> {
    match active(s) {
        Some(e) => seq![EffectView::SaveEmails(e)],
        None => Seq::empty(),
    }
}

/// Where the message with an id stands; their number if it is not there.
pub open spec fn message_at(emails: Seq<EmailView>, id: usize) -> int
    decreases emails.len(),
{
    if emails.len() == 0 || emails[0].id == id {
        0
    } else {
        1 + message_at(emails.drop_first(), id)
    }
}

/// Where the draft with an id stands.
pub open spec fn draft_at(emails: Seq<EmailView>, id: usize) -> int
    decreases emails.len(),
{
    if emails.len() == 0 || (emails[0].id == id && emails[0].folder == "drafts"@) {
        0
    } else {
        1 + draft_at(emails.drop_first(), id)
    }
}

pub open spec fn info(text: Seq<char>, millis: nat) -> Option<ToastView> {
    Some(ToastView::Info { text, millis })
}

pub open spec fn failure(text: Seq<char>) -> Option<ToastView> {
    Some(ToastView::Error { text })
}

/// An effect on the server for an inbox message, where an account is selected.
pub open spec fn on_server(s: AppView, e: EmailView, effect: spec_fn(u32) -> EffectView) -> Seq<
    EffectView,
> {
    if e.folder == "inbox"@ && e.uid is Some && active(s) is Some {
        seq![effect(e.uid->0)]
    } else {
        Seq::empty()
    }
}

impl MailApp {
    /// The address of the account in use.
    pub fn active_email(&self) -> (r: Option<String>)
        ensures
            opt_text(r) == active(self@),
    {
        if self.selected_account_idx < self.accounts.len() {
            assert(views(self.accounts@)[self.selected_account_idx as int]
                == self.accounts@[self.selected_account_idx as int]@);
            Some(self.accounts[self.selected_account_idx].email.clone())
        } else {
            None
        }
    }

    fn save_effects(&self) -> (r: Vec<Effect>)
        ensures
            views(r@) == saving(self@),
    {
        let mut out: Vec<Effect> = Vec::new();
        if let Some(e) = self.active_email() {
            let effect = Effect::SaveEmails(e);
            out.push(effect);
            assert(views(out@) =~= seq![effect@]);
        } else {
            assert(views(out@) =~= Seq::empty());
        }
        out
    }

    pub fn find_message(&self, id: usize) -> (r: usize)
        ensures
            r == message_at(self@.emails, id),
            r <= self.emails@.len(),
            r < self.emails@.len() ==> self.emails@[r as int].id == id,
    {
        let ghost all = views(self.emails@);
        let mut i: usize = 0;
        assert(all.skip(0) =~= all);
        while i < self.emails.len()
            invariant
                i <= self.emails@.len(),
                all == views(self.emails@),
                message_at(all, id) == i + message_at(all.skip(i as int), id),
            decreases self.emails@.len() - i,
        {
            assert(all.skip(i as int)[0] == self.emails@[i as int]@);
            if self.emails[i].id == id {
                return i;
            }
            assert(all.skip(i as int).drop_first() =~= all.skip(i + 1));
            i = i + 1;
        }
        i
    }

    fn find_draft(&self, id: usize) -> (r: usize)
        ensures
            r == draft_at(self@.emails, id),
            r <= self.emails@.len(),
    {
        let ghost all = views(self.emails@);
        let mut i: usize = 0;
        assert(all.skip(0) =~= all);
        while i < self.emails.len()
            invariant
                i <= self.emails@.len(),
                all == views(self.emails@),
                draft_at(all, id) == i + draft_at(all.skip(i as int), id),
            decreases self.emails@.len() - i,
        {
            assert(all.skip(i as int)[0] == self.emails@[i as int]@);
            if self.emails[i].id == id && same(self.emails[i].folder.as_str(), "drafts") {
                return i;
            }
            assert(all.skip(i as int).drop_first() =~= all.skip(i + 1));
            i = i + 1;
        }
        i
    }
}

/// One effect.
fn only(e: Effect) -> (r: Vec<Effect>)
    ensures
        views(r@) == seq![e@],
{
    let mut out: Vec<Effect> = Vec::new();
    out.push(e);
    assert(views(out@) =~= seq![e@]);
    out
}

fn none() -> (r: Vec<Effect>)
    ensures
        views(r@) == Seq::<EffectView>::empty(),
{
    let out: Vec<Effect> = Vec::new();
    assert(views(out@) =~= Seq::empty());
    out
}

/// `a` and then `b`.
fn chain(a: Vec<Effect>, b: Vec<Effect>) -> (r: Vec<Effect>)
    ensures
        views(r@) == views(a@) + views(b@),
{
    let mut out = a;
    let mut more = b;
    out.append(&mut more);
    assert(views(out@) =~= views(a@) + views(b@));
    out
}

// ---------------------------------------------------------------------------
// Looking around

pub open spec fn switch_folder(s: AppView, f: Folder) -> Step {
    Step {
        state: AppView { folder: f, selected_id: None, ..s },
        // Folders refresh from the server on entry, throttled.
        effects: seq![EffectView::ScrollToTop, EffectView::Sync(false)],
    }
}

pub open spec fn search_changed(s: AppView) -> Step {
    Step { state: AppView { selected_id: None, ..s }, effects: seq![EffectView::ScrollToTop] }
}

/// A draft's content, to go on composing.
pub open spec fn draft_content(e: EmailView) -> OutgoingView {
    OutgoingView {
        to: e.to,
        cc: e.cc,
        bcc: e.bcc,
        subject: e.subject,
        body: e.body,
        attachments: e.attachments,
    }
}

/// Selecting a message. A draft does not open in the read pane: it resumes in
/// the compose dialog and leaves the folder. Another message is shown and,
/// where it was unread, marked read here and on the server.
pub open spec fn select_email(s: AppView, id: usize) -> Step {
    let d = draft_at(s.emails, id);
    let k = message_at(s.emails, id);
    if d < s.emails.len() {
        Step {
            state: AppView {
                emails: s.emails.remove(d),
                compose: s.compose.filled(draft_content(s.emails[d]), "Draft"@),
                selected_id: None,
                ..s
            },
            effects: saving(s),
        }
    } else if k < s.emails.len() && !s.emails[k].read {
        Step {
            state: AppView {
                emails: s.emails.update(k, EmailView { read: true, ..s.emails[k] }),
                selected_id: Some(id),
                ..s
            },
            effects: seq![EffectView::BodyToTop] + saving(s) + on_server(
                s,
                s.emails[k],
                |uid: u32| EffectView::SetSeen(uid, true),
            ),
        }
    } else {
        Step {
            state: AppView { selected_id: Some(id), ..s },
            effects: seq![EffectView::BodyToTop],
        }
    }
}

impl MailApp {
    fn on_switch_folder(&mut self, f: Folder) -> (r: Vec<Effect>)
        ensures
            final(self)@ == switch_folder(old(self)@, f).state,
            views(r@) == switch_folder(old(self)@, f).effects,
    {
        self.current_folder = f;
        self.selected_email_id = None;
        let r = chain(only(Effect::ScrollToTop), only(Effect::Sync(false)));
        assert(views(r@) =~= seq![EffectView::ScrollToTop, EffectView::Sync(false)]);
        r
    }

    fn on_search_changed(&mut self) -> (r: Vec<Effect>)
        ensures
            final(self)@ == search_changed(old(self)@).state,
            views(r@) == search_changed(old(self)@).effects,
    {
        self.selected_email_id = None;
        only(Effect::ScrollToTop)
    }

    /// The effect of a read flag on the server.
    fn seen_effect(&self, k: usize, seen: bool) -> (r: Vec<Effect>)
        requires
            k < self.emails@.len(),
        ensures
            views(r@) == on_server(
                self@,
                self@.emails[k as int],
                |uid: u32| EffectView::SetSeen(uid, seen),
            ),
    {
        let e = &self.emails[k];
        assert(self@.emails[k as int] == e@);
        if same(e.folder.as_str(), "inbox") && self.active_email().is_some() {
            if let Some(uid) = e.uid {
                return only(Effect::SetSeen(uid, seen));
            }
        }
        none()
    }

    fn on_select_email(&mut self, id: usize) -> (r: Vec<Effect>)
        ensures
            final(self)@ == select_email(old(self)@, id).state,
            views(r@) == select_email(old(self)@, id).effects,
    {
        let ghost s = self@;
        let d = self.find_draft(id);
        if d < self.emails.len() {
            let draft = self.emails.remove(d);
            assert(views(self.emails@) =~= s.emails.remove(d as int));
            assert(s.emails[d as int] == draft@);
            let content = OutgoingMail {
                to: draft.to,
                cc: draft.cc,
                bcc: draft.bcc,
                subject: draft.subject,
                body: draft.body,
                attachments: draft.attachments,
            };
            assert(content@ == draft_content(s.emails[d as int]));
            self.compose.fill(&content, "Draft");
            self.selected_email_id = None;
            return self.save_effects();
        }
        self.selected_email_id = Some(id);
        let k = self.find_message(id);
        if k < self.emails.len() {
            assert(s.emails[k as int] == self.emails@[k as int]@);
            if !self.emails[k].read {
                let seen = self.seen_effect(k, true);
                self.emails[k].read = true;
                assert(views(self.emails@) =~= s.emails.update(
                    k as int,
                    EmailView { read: true, ..s.emails[k as int] },
                ));
                return chain(chain(only(Effect::BodyToTop), self.save_effects()), seen);
            }
        }
        only(Effect::BodyToTop)
    }
}

// ---------------------------------------------------------------------------
// Composing

pub open spec fn compose_new(s: AppView) -> Step {
    Step {
        state: AppView {
            compose: ComposeView { title: "New Message"@, open: true, ..s.compose.cleared() },
            ..s
        },
        effects: Seq::empty(),
    }
}

/// A mail as it is kept in the drafts folder.
pub open spec fn as_draft(s: AppView, m: OutgoingView) -> EmailView {
    EmailView {
        id: (max_id(s.emails) + 1) as usize,
        from: active_or_empty(s),
        to: m.to,
        subject: m.subject,
        body: m.body,
        date: "Draft"@,
        read: true,
        folder: "drafts"@,
        cc: m.cc,
        bcc: m.bcc,
        attachments: m.attachments,
        remote_attachments: Seq::empty(),
        uid: None,
        ts: None,
        origin_folder: None,
    }
}

/// Cancel is "put it down", not "throw it away": any content goes to the
/// drafts, where selecting it resumes the compose.
pub open spec fn compose_cancel(s: AppView) -> Step {
    let m = s.compose.gathered();
    let closed = ComposeView { open: false, ..s.compose.cleared() };
    if is_empty_mail(m) {
        Step { state: AppView { compose: closed, ..s }, effects: Seq::empty() }
    } else {
        Step {
            state: AppView {
                compose: closed,
                emails: s.emails.push(as_draft(s, m)),
                status: info("Saved to Drafts"@, 3000),
                ..s
            },
            effects: saving(s),
        }
    }
}

pub open spec fn compose_attach(s: AppView, path: Option<Seq<char>>) -> Step {
    Step {
        state: match path {
            Some(p) => AppView {
                compose: ComposeView {
                    attachments: s.compose.attachments.push(p),
                    ..s.compose
                },
                ..s
            },
            None => s,
        },
        effects: Seq::empty(),
    }
}

pub open spec fn has_recipient(m: OutgoingView) -> bool {
    m.to.len() > 0 || m.cc.len() > 0 || m.bcc.len() > 0
}

/// Whether a mail names anyone to send it to.
pub fn names_recipient(m: &OutgoingMail) -> (r: bool)
    ensures
        r == has_recipient(m@),
{
    !m.to.as_str().is_empty() || !m.cc.as_str().is_empty() || !m.bcc.as_str().is_empty()
}

/// Nothing is recorded before the outcome is known.
pub open spec fn compose_send(s: AppView) -> Step {
    let m = s.compose.gathered();
    if has_recipient(m) {
        Step {
            state: AppView { compose: ComposeView { open: false, ..s.compose.cleared() }, ..s },
            effects: seq![EffectView::Send(m)],
        }
    } else {
        Step {
            state: AppView { status: failure("Recipient is required"@), ..s },
            effects: Seq::empty(),
        }
    }
}

/// A mail as it is kept once it was delivered: who was bcc'd is recorded
/// nowhere, attachments by name alone.
pub open spec fn as_sent(s: AppView, m: OutgoingView) -> EmailView {
    EmailView {
        id: (max_id(s.emails) + 1) as usize,
        from: active_or_empty(s),
        to: m.to,
        subject: if m.subject.len() == 0 {
            "(No Subject)"@
        } else {
            m.subject
        },
        body: m.body,
        date: "Just now"@,
        read: true,
        folder: "sent"@,
        cc: m.cc,
        bcc: Seq::empty(),
        attachments: m.attachments.map_values(|p: Seq<char>| sent_name(p)),
        remote_attachments: Seq::empty(),
        uid: None,
        ts: None,
        origin_folder: None,
    }
}

/// Sent mail is filed as sent, failed mail as a draft.
pub open spec fn send_result(s: AppView, m: OutgoingView, error: Option<Seq<char>>) -> Step {
    match error {
        None => Step {
            state: AppView {
                emails: s.emails.push(as_sent(s, m)),
                status: info("Email Sent Successfully"@, 4000),
                ..s
            },
            effects: saving(s),
        },
        Some(e) => Step {
            state: AppView {
                emails: s.emails.push(as_draft(s, m)),
                status: failure("Send failed — saved to Drafts: "@ + e),
                ..s
            },
            effects: saving(s),
        },
    }
}

/// The subject of a reply.
pub open spec fn reply_subject(subject: Seq<char>) -> Seq<char> {
    if starts_with(subject, "Re:"@) {
        subject
    } else {
        "Re: "@ + subject
    }
}

/// The body of a reply: the message quoted.
pub open spec fn reply_body(e: EmailView) -> Seq<char> {
    "\n\nOn "@ + e.date + ", "@ + e.from + " wrote:\n> "@ + replace(e.body, "\n"@, "\n> "@)
}

/// A reply starts from a clean slate: a Cc, Bcc or attachment left over from
/// an earlier compose must not ride along.
pub open spec fn reply_mail(e: EmailView) -> OutgoingView {
    OutgoingView {
        to: e.from,
        cc: Seq::empty(),
        bcc: Seq::empty(),
        subject: reply_subject(e.subject),
        body: reply_body(e),
        attachments: Seq::empty(),
    }
}

pub open spec fn reply(s: AppView) -> Step {
    let k = message_at(s.emails, s.selected_id->0);
    if s.selected_id is Some && k < s.emails.len() {
        Step {
            state: AppView {
                compose: s.compose.filled(reply_mail(s.emails[k]), "Reply"@),
                ..s
            },
            effects: seq![EffectView::CursorToStart],
        }
    } else {
        Step { state: s, effects: Seq::empty() }
    }
}

impl MailApp {
    fn on_compose_new(&mut self) -> (r: Vec<Effect>)
        ensures
            final(self)@ == compose_new(old(self)@).state,
            views(r@) == compose_new(old(self)@).effects,
    {
        self.compose.clear();
        self.compose.title = "New Message".to_owned();
        self.compose.open = true;
        none()
    }

    fn sender_address(&self) -> (r: String)
        ensures
            r@ == active_or_empty(self@),
    {
        match self.active_email() {
            Some(e) => e,
            None => {
                let empty = String::new();
                assert(empty@ =~= Seq::<char>::empty());
                empty
            },
        }
    }

    /// File content in the local drafts folder.
    fn file_as_draft(&mut self, m: &OutgoingMail) -> (r: Vec<Effect>)
        requires
            max_id(old(self)@.emails) < usize::MAX,
        ensures
            final(self)@ == (AppView {
                emails: old(self)@.emails.push(as_draft(old(self)@, m@)),
                ..old(self)@
            }),
            views(r@) == saving(old(self)@),
    {
        broadcast use views_push;

        let ghost s = self@;
        let id: usize = largest_id(&self.emails) + 1;
        let e = Email {
            id,
            from: self.sender_address(),
            to: m.to.clone(),
            subject: m.subject.clone(),
            body: m.body.clone(),
            date: "Draft".to_owned(),
            read: true,
            folder: "drafts".to_owned(),
            uid: None,
            cc: m.cc.clone(),
            bcc: m.bcc.clone(),
            attachments: copy_texts(&m.attachments),
            remote_attachments: Vec::new(),
            ts: None,
            origin_folder: None,
        };
        proof {
            assert(e@.remote_attachments =~= Seq::empty());
            assert(e@ == as_draft(s, m@));
        }
        self.emails.push(e);
        self.save_effects()
    }

    fn on_compose_cancel(&mut self) -> (r: Vec<Effect>)
        requires
            !is_empty_mail(old(self)@.compose.gathered()) ==> max_id(old(self)@.emails)
                < usize::MAX,
        ensures
            final(self)@ == compose_cancel(old(self)@).state,
            views(r@) == compose_cancel(old(self)@).effects,
    {
        let m = self.compose.gather();
        let mut effects = none();
        if !mail_is_empty(&m) {
            effects = self.file_as_draft(&m);
            self.status = Some(StatusToast::info("Saved to Drafts", 3000));
        }
        self.compose.clear();
        self.compose.open = false;
        effects
    }

    fn on_compose_attach(&mut self, path: Option<String>) -> (r: Vec<Effect>)
        ensures
            final(self)@ == compose_attach(old(self)@, opt_text(path)).state,
            views(r@) == compose_attach(old(self)@, opt_text(path)).effects,
    {
        broadcast use texts_push;

        if let Some(p) = path {
            self.compose.attachments.push(p);
        }
        none()
    }

    fn on_compose_send(&mut self) -> (r: Vec<Effect>)
        ensures
            final(self)@ == compose_send(old(self)@).state,
            views(r@) == compose_send(old(self)@).effects,
    {
        let m = self.compose.gather();
        if names_recipient(&m) {
            self.compose.clear();
            self.compose.open = false;
            only(Effect::Send(m))
        } else {
            self.status = Some(StatusToast::error("Recipient is required"));
            none()
        }
    }

    fn on_send_result(&mut self, m: OutgoingMail, outcome: Option<String>) -> (r: Vec<Effect>)
        requires
            max_id(old(self)@.emails) < usize::MAX,
        ensures
            final(self)@ == send_result(old(self)@, m@, opt_text(outcome)).state,
            views(r@) == send_result(old(self)@, m@, opt_text(outcome)).effects,
    {
        broadcast use views_push;

        let ghost s = self@;
        match outcome {
            None => {
                let id: usize = largest_id(&self.emails) + 1;
                let attachments = sent_names(&m.attachments);
                let subject = if m.subject.as_str().is_empty() {
                    "(No Subject)".to_owned()
                } else {
                    m.subject.clone()
                };
                let e = Email {
                    id,
                    from: self.sender_address(),
                    to: m.to.clone(),
                    subject,
                    body: m.body.clone(),
                    date: "Just now".to_owned(),
                    read: true,
                    folder: "sent".to_owned(),
                    uid: None,
                    cc: m.cc.clone(),
                    bcc: String::new(),
                    attachments,
                    remote_attachments: Vec::new(),
                    ts: None,
                    origin_folder: None,
                };
                proof {
                    assert(e@.remote_attachments =~= Seq::empty());
                    assert(e@.bcc =~= Seq::<char>::empty());
                    assert(e@ == as_sent(s, m@));
                }
                self.emails.push(e);
                self.status = Some(StatusToast::info("Email Sent Successfully", 4000));
                self.save_effects()
            },
            Some(err) => {
                let effects = self.file_as_draft(&m);
                let mut text = "Send failed — saved to Drafts: ".to_owned();
                text.append(err.as_str());
                self.status = Some(StatusToast::error(text.as_str()));
                effects
            },
        }
    }

    fn on_reply(&mut self) -> (r: Vec<Effect>)
        ensures
            final(self)@ == reply(old(self)@).state,
            views(r@) == reply(old(self)@).effects,
    {
        let id = match self.selected_email_id {
            Some(id) => id,
            None => {
                return none();
            },
        };
        let k = self.find_message(id);
        if k < self.emails.len() {
            let ghost s = self@;
            let e = &self.emails[k];
            assert(s.emails[k as int] == e@);
            let subject = if text_starts_with(e.subject.as_str(), "Re:") {
                e.subject.clone()
            } else {
                let mut t = "Re: ".to_owned();
                t.append(e.subject.as_str());
                t
            };
            proof {
                reveal_strlit("\n");
            }
            let mut body = "\n\nOn ".to_owned();
            body.append(e.date.as_str());
            body.append(", ");
            body.append(e.from.as_str());
            body.append(" wrote:\n> ");
            body.append(replace_text(e.body.as_str(), "\n", "\n> ").as_str());
            let m = OutgoingMail {
                to: e.from.clone(),
                cc: String::new(),
                bcc: String::new(),
                subject,
                body,
                attachments: Vec::new(),
            };
            proof {
                assert(m@.cc =~= Seq::<char>::empty() && m@.bcc =~= Seq::<char>::empty());
                assert(m@.attachments =~= Seq::<Seq<char>>::empty());
                assert(m@ == reply_mail(s.emails[k as int]));
            }
            self.compose.fill(&m, "Reply");
            return only(Effect::CursorToStart);
        }
        none()
    }
}

/// The names attachments are sent under.
fn sent_names(paths: &Vec<String>) -> (r: Vec<String>)
    ensures
        texts(r@) == texts(paths@).map_values(|p: Seq<char>| sent_name(p)),
{
    let ghost all = texts(paths@).map_values(|p: Seq<char>| sent_name(p));
    let mut out: Vec<String> = Vec::new();
    let mut i: usize = 0;
    while i < paths.len()
        invariant
            i <= paths@.len(),
            all == texts(paths@).map_values(|p: Seq<char>| sent_name(p)),
            texts(out@) =~= all.take(i as int),
        decreases paths@.len() - i,
    {
        broadcast use texts_push;

        out.push(attachment_name(paths[i].as_str()));
        i = i + 1;
    }
    assert(all.take(i as int) =~= all);
    out
}

// ---------------------------------------------------------------------------
// Attachments of received mail

/// Clicking an attachment fetches it, where the message is on the server.
pub open spec fn open_attachment(s: AppView, id: usize, i: usize) -> Step {
    let k = message_at(s.emails, id);
    if k < s.emails.len() && i < s.emails[k].remote_attachments.len() {
        let e = s.emails[k];
        let a = e.remote_attachments[i as int];
        match e.uid {
            Some(uid) => if active(s) is Some {
                Step {
                    state: AppView { status: info("Fetching "@ + a.name + "..."@, 4000), ..s },
                    effects: seq![EffectView::FetchAttachment(e.folder, uid, a)],
                }
            } else {
                Step { state: s, effects: Seq::empty() }
            },
            None => Step {
                state: AppView { status: failure("No server copy for this message"@), ..s },
                effects: Seq::empty(),
            },
        }
    } else {
        Step { state: s, effects: Seq::empty() }
    }
}

pub open spec fn attachment_fetched(s: AppView, r: Result<Seq<char>, Seq<char>>) -> Step {
    match r {
        Ok(path) => Step {
            state: AppView {
                status: info("Saved "@ + sent_name(path) + " — opening..."@, 4000),
                ..s
            },
            effects: seq![EffectView::OpenFile(path)],
        },
        Err(e) => Step {
            state: AppView { status: failure("Attachment: "@ + e), ..s },
            effects: Seq::empty(),
        },
    }
}

impl MailApp {
    fn on_open_attachment(&mut self, id: usize, i: usize) -> (r: Vec<Effect>)
        ensures
            final(self)@ == open_attachment(old(self)@, id, i).state,
            views(r@) == open_attachment(old(self)@, id, i).effects,
    {
        let k = self.find_message(id);
        if k < self.emails.len() {
            let ghost s = self@;
            let e = &self.emails[k];
            assert(s.emails[k as int] == e@);
            assert(e@.remote_attachments.len() == e.remote_attachments@.len());
            if i < e.remote_attachments.len() {
                let a = e.remote_attachments[i].clone();
                assert(e@.remote_attachments[i as int] == e.remote_attachments@[i as int]@);
                match e.uid {
                    Some(uid) => {
                        if self.active_email().is_some() {
                            let folder = e.folder.clone();
                            let mut text = "Fetching ".to_owned();
                            text.append(a.name.as_str());
                            text.append("...");
                            self.status = Some(StatusToast::info(text.as_str(), 4000));
                            return only(Effect::FetchAttachment(folder, uid, a));
                        }
                    },
                    None => {
                        self.status = Some(StatusToast::error("No server copy for this message"));
                    },
                }
            }
        }
        none()
    }

    fn on_attachment_fetched(&mut self, outcome: Result<String, String>) -> (r: Vec<Effect>)
        ensures
            ({
                let o = match outcome {
                    Ok(p) => Ok(p@),
                    Err(e) => Err(e@),
                };
                &&& final(self)@ == attachment_fetched(old(self)@, o).state
                &&& views(r@) == attachment_fetched(old(self)@, o).effects
            }),
    {
        match outcome {
            Ok(path) => {
                let mut text = "Saved ".to_owned();
                text.append(attachment_name(path.as_str()).as_str());
                text.append(" — opening...");
                self.status = Some(StatusToast::info(text.as_str(), 4000));
                only(Effect::OpenFile(path))
            },
            Err(e) => {
                let mut text = "Attachment: ".to_owned();
                text.append(e.as_str());
                self.status = Some(StatusToast::error(text.as_str()));
                none()
            },
        }
    }
}

// ---------------------------------------------------------------------------
// Deleting and marking

pub open spec fn without_id(emails: Seq<EmailView>, id: usize) -> Seq<EmailView> {
    emails.filter(|e: EmailView| e.id != id)
}

/// Deleting moves a message to the trash, from the inbox on the server too;
/// from the trash it removes it for good.
pub open spec fn delete_selected(s: AppView) -> Step {
    match s.selected_id {
        None => Step { state: s, effects: Seq::empty() },
        Some(id) => {
            let k = message_at(s.emails, id);
            let t = AppView { selected_id: None, status: info("Moved to Trash"@, 4000), ..s };
            if k >= s.emails.len() {
                Step { state: t, effects: saving(s) }
            } else if s.emails[k].folder == "trash"@ {
                Step {
                    state: AppView {
                        emails: without_id(s.emails, id),
                        status: info("Email Deleted Permanently"@, 4000),
                        ..t
                    },
                    effects: saving(s),
                }
            } else {
                Step {
                    state: AppView {
                        emails: s.emails.update(
                            k,
                            EmailView { folder: "trash"@, ..s.emails[k] },
                        ),
                        ..t
                    },
                    effects: on_server(
                        s,
                        s.emails[k],
                        |uid: u32| EffectView::DeleteOnServer(uid),
                    ) + saving(s),
                }
            }
        },
    }
}

/// Flip the read flag, for inbox mail on the server too.
pub open spec fn toggle_unread(s: AppView) -> Step {
    match s.selected_id {
        None => Step { state: s, effects: Seq::empty() },
        Some(id) => {
            let k = message_at(s.emails, id);
            if k >= s.emails.len() {
                Step { state: s, effects: saving(s) }
            } else {
                let e = s.emails[k];
                Step {
                    state: AppView {
                        emails: s.emails.update(k, EmailView { read: !e.read, ..e }),
                        ..s
                    },
                    effects: on_server(s, e, |uid: u32| EffectView::SetSeen(uid, !e.read))
                        + saving(s),
                }
            }
        },
    }
}

/// The messages with another id.
fn drop_id(emails: &mut Vec<Email>, id: usize)
    ensures
        views(final(emails)@) == without_id(views(old(emails)@), id),
{
    let ghost all = views(emails@);
    let ghost p = |e: EmailView| e.id != id;
    let mut i: usize = 0;
    let ghost mut k: int = 0;
    proof {
        reveal(Seq::filter);
        assert(all.take(0).filter(p) =~= Seq::empty());
        assert(views(emails@).take(0) =~= Seq::empty());
        assert(all.skip(0) =~= all);
        assert(views(emails@).skip(0) =~= all);
    }
    while i < emails.len()
        invariant
            i <= emails@.len(),
            0 <= k <= all.len(),
            p == (|e: EmailView| e.id != id),
            views(emails@).take(i as int) == all.take(k).filter(p),
            views(emails@).skip(i as int) == all.skip(k),
        decreases all.len() - k,
    {
        let ghost now = views(emails@);
        proof {
            assert(now.skip(i as int).len() == all.skip(k).len());
            assert(now.skip(i as int)[0] == all.skip(k)[0]);
            assert(all[k] == now[i as int]);
            reveal(Seq::filter);
            assert(all.take(k + 1).drop_last() =~= all.take(k));
            assert(all.skip(k).skip(1) =~= all.skip(k + 1));
        }
        if emails[i].id == id {
            emails.remove(i);
            proof {
                assert(views(emails@) =~= now.remove(i as int));
                assert(views(emails@).take(i as int) =~= now.take(i as int));
                assert(views(emails@).skip(i as int) =~= now.skip(i as int).skip(1));
                k = k + 1;
            }
        } else {
            proof {
                assert(now.take(i + 1) =~= now.take(i as int).push(now[i as int]));
                assert(now.skip(i + 1) =~= now.skip(i as int).skip(1));
                k = k + 1;
            }
            i = i + 1;
        }
    }
    proof {
        assert(views(emails@).skip(i as int).len() == 0);
        assert(all.skip(k).len() == 0);
        assert(all.take(k) =~= all);
        assert(views(emails@).take(i as int) =~= views(emails@));
    }
}

impl MailApp {
    fn delete_effect(&self, k: usize) -> (r: Vec<Effect>)
        requires
            k < self.emails@.len(),
        ensures
            views(r@) == on_server(
                self@,
                self@.emails[k as int],
                |uid: u32| EffectView::DeleteOnServer(uid),
            ),
    {
        let e = &self.emails[k];
        assert(self@.emails[k as int] == e@);
        if same(e.folder.as_str(), "inbox") && self.active_email().is_some() {
            if let Some(uid) = e.uid {
                return only(Effect::DeleteOnServer(uid));
            }
        }
        none()
    }

    fn on_delete_selected(&mut self) -> (r: Vec<Effect>)
        ensures
            final(self)@ == delete_selected(old(self)@).state,
            views(r@) == delete_selected(old(self)@).effects,
    {
        let ghost s = self@;
        let id = match self.selected_email_id {
            Some(id) => id,
            None => {
                return none();
            },
        };
        let k = self.find_message(id);
        let mut effects = none();
        let mut text = "Moved to Trash";
        if k < self.emails.len() {
            assert(s.emails[k as int] == self.emails@[k as int]@);
            if same(self.emails[k].folder.as_str(), "trash") {
                drop_id(&mut self.emails, id);
                text = "Email Deleted Permanently";
            } else {
                effects = self.delete_effect(k);
                self.emails[k].folder = "trash".to_owned();
                assert(views(self.emails@) =~= s.emails.update(
                    k as int,
                    EmailView { folder: "trash"@, ..s.emails[k as int] },
                ));
            }
        }
        self.selected_email_id = None;
        self.status = Some(StatusToast::info(text, 4000));
        let r = chain(effects, self.save_effects());
        assert(Seq::<EffectView>::empty() + saving(s) =~= saving(s));
        r
    }

    fn on_toggle_unread(&mut self) -> (r: Vec<Effect>)
        ensures
            final(self)@ == toggle_unread(old(self)@).state,
            views(r@) == toggle_unread(old(self)@).effects,
    {
        let ghost s = self@;
        let id = match self.selected_email_id {
            Some(id) => id,
            None => {
                return none();
            },
        };
        let k = self.find_message(id);
        if k < self.emails.len() {
            assert(s.emails[k as int] == self.emails@[k as int]@);
            let read = !self.emails[k].read;
            let effects = self.seen_effect(k, read);
            self.emails[k].read = read;
            proof {
                let e = s.emails[k as int];
                assert(views(self.emails@) =~= s.emails.update(
                    k as int,
                    EmailView { read: !e.read, ..e },
                ));
                assert((|uid: u32| EffectView::SetSeen(uid, read)) =~= (|uid: u32|
                    EffectView::SetSeen(uid, !e.read)));
            }
            return chain(effects, self.save_effects());
        }
        self.save_effects()
    }
}

// ---------------------------------------------------------------------------
// Accounts

pub open spec fn select_account(s: AppView, idx: usize) -> Step {
    let last = if s.accounts.len() == 0 {
        0
    } else {
        s.accounts.len() - 1
    };
    let t = AppView {
        selected: idx,
        account_row: if idx <= last {
            idx
        } else {
            last as usize
        },
        emails: Seq::empty(),
        selected_id: None,
        ..s
    };
    match active(t) {
        Some(email) => Step {
            state: t,
            effects: seq![
                EffectView::LoadEmails(email),
                EffectView::RememberAccount(email),
                EffectView::Sync(true),
                EffectView::ScrollToTop,
            ],
        },
        None => Step { state: t, effects: seq![EffectView::ScrollToTop] },
    }
}

pub open spec fn manage_accounts(s: AppView) -> Step {
    Step {
        state: AppView { status: info("Opening System Settings..."@, 4000), ..s },
        effects: seq![EffectView::OpenSettings],
    }
}

pub open spec fn update_tokens(
    s: AppView,
    email: Seq<char>,
    token: Option<Seq<char>>,
    expiry: Option<u64>,
) -> Step {
    let k = account_at(s.accounts, email);
    if k < s.accounts.len() {
        Step {
            state: AppView {
                accounts: s.accounts.update(
                    k,
                    AccountView { access_token: token, token_expiry: expiry, ..s.accounts[k] },
                ),
                ..s
            },
            effects: seq![EffectView::SaveAccounts],
        }
    } else {
        Step { state: s, effects: Seq::empty() }
    }
}

impl MailApp {
    fn on_select_account(&mut self, idx: usize) -> (r: Vec<Effect>)
        ensures
            final(self)@ == select_account(old(self)@, idx).state,
            views(r@) == select_account(old(self)@, idx).effects,
    {
        let last: usize = if self.accounts.len() == 0 {
            0
        } else {
            self.accounts.len() - 1
        };
        self.selected_account_idx = idx;
        self.account_row = if idx <= last {
            idx
        } else {
            last
        };
        self.emails = Vec::new();
        self.selected_email_id = None;
        assert(self@.emails =~= Seq::empty());
        match self.active_email() {
            Some(email) => {
                let copy = email.clone();
                let a = chain(only(Effect::LoadEmails(copy)), only(Effect::RememberAccount(email)));
                let b = chain(only(Effect::Sync(true)), only(Effect::ScrollToTop));
                let r = chain(a, b);
                assert(views(r@) =~= select_account(old(self)@, idx).effects);
                r
            },
            None => only(Effect::ScrollToTop),
        }
    }

    fn on_manage_accounts(&mut self) -> (r: Vec<Effect>)
        ensures
            final(self)@ == manage_accounts(old(self)@).state,
            views(r@) == manage_accounts(old(self)@).effects,
    {
        self.status = Some(StatusToast::info("Opening System Settings...", 4000));
        only(Effect::OpenSettings)
    }

    fn on_update_tokens(&mut self, email: String, token: Option<String>, expiry: Option<u64>) -> (r:
        Vec<Effect>)
        ensures
            final(self)@ == update_tokens(old(self)@, email@, opt_text(token), expiry).state,
            views(r@) == update_tokens(old(self)@, email@, opt_text(token), expiry).effects,
    {
        let ghost s = self@;
        let k = find_account(&self.accounts, email.as_str());
        if k < self.accounts.len() {
            assert(s.accounts[k as int] == self.accounts@[k as int]@);
            self.accounts[k].access_token = token;
            self.accounts[k].token_expiry = expiry;
            proof {
                assert(views(self.accounts@) =~= update_tokens(
                    s,
                    email@,
                    opt_text(token),
                    expiry,
                ).state.accounts);
            }
            return only(Effect::SaveAccounts);
        }
        none()
    }
}

// ---------------------------------------------------------------------------
// Synced mail

/// How long to wait between backfill passes.
pub const BACKFILL_DELAY_MILLIS: u64 = 3000;

/// How many messages a pass left for later.
pub open spec fn left_over(folders: Seq<FolderSyncView>) -> nat
    decreases folders.len(),
{
    if folders.len() == 0 {
        0
    } else {
        left_over(folders.drop_last()) + folders.last().remaining as nat
    }
}

pub open spec fn backfill_text(fetched: nat, remaining: nat) -> Seq<char> {
    "Fetched "@ + decimal(fetched) + " — "@ + decimal(remaining)
        + " older messages still to come..."@
}

/// A pass is merged into the mail of the account it was made for, shown or
/// stored; while history is still coming down the next pass is due soon.
pub open spec fn emails_synced(
    s: AppView,
    email: Seq<char>,
    folders: Seq<FolderSyncView>,
    now: u64,
) -> Step {
    let remaining = left_over(folders);
    let t = if remaining > 0 {
        AppView {
            backfill_at: Some((now + BACKFILL_DELAY_MILLIS) as u64),
            status: info(backfill_text(fetched_count(folders), remaining), 4000),
            ..s
        }
    } else {
        AppView { backfill_at: None, ..s }
    };
    match active(s) {
        Some(a) => if a == email {
            Step {
                state: AppView { emails: merged_mail(s.emails, folders), ..t },
                effects: seq![EffectView::SaveEmails(email)],
            }
        } else {
            Step { state: t, effects: seq![EffectView::MergeStored(email, folders)] }
        },
        None => Step { state: t, effects: Seq::empty() },
    }
}

fn sum_fetched(folders: &Vec<FolderSync>) -> (r: usize)
    requires
        fetched_count(views(folders@)) <= usize::MAX,
    ensures
        r == fetched_count(views(folders@)),
{
    let ghost all = views(folders@);
    let mut n: usize = 0;
    let mut i: usize = 0;
    while i < folders.len()
        invariant
            i <= folders@.len(),
            all == views(folders@),
            fetched_count(all) <= usize::MAX,
            n == fetched_count(all.take(i as int)),
        decreases folders@.len() - i,
    {
        proof {
            assert(all.take(i + 1).drop_last() =~= all.take(i as int));
            crate::merge::lemma_fetched_count(all, i + 1);
        }
        n = n + folders[i].fetched.len();
        i = i + 1;
    }
    assert(all.take(i as int) =~= all);
    n
}

proof fn lemma_left_over(folders: Seq<FolderSyncView>, k: int)
    requires
        0 <= k <= folders.len(),
    ensures
        left_over(folders.take(k)) <= left_over(folders),
    decreases folders.len(),
{
    if k < folders.len() {
        lemma_left_over(folders.drop_last(), k);
        assert(folders.drop_last().take(k) =~= folders.take(k));
    } else {
        assert(folders.take(k) =~= folders);
    }
}

fn sum_remaining(folders: &Vec<FolderSync>) -> (r: usize)
    requires
        left_over(views(folders@)) <= usize::MAX,
    ensures
        r == left_over(views(folders@)),
{
    let ghost all = views(folders@);
    let mut n: usize = 0;
    let mut i: usize = 0;
    while i < folders.len()
        invariant
            i <= folders@.len(),
            all == views(folders@),
            left_over(all) <= usize::MAX,
            n == left_over(all.take(i as int)),
        decreases folders@.len() - i,
    {
        proof {
            assert(all.take(i + 1).drop_last() =~= all.take(i as int));
            lemma_left_over(all, i + 1);
        }
        n = n + folders[i].remaining;
        i = i + 1;
    }
    assert(all.take(i as int) =~= all);
    n
}

/// What a sync's counts and ids must fit. The mail that is shown matters only
/// to a sync of its own account, the time only where some is left for later.
pub open spec fn sync_fits(
    s: AppView,
    email: Seq<char>,
    folders: Seq<FolderSyncView>,
    now: u64,
) -> bool {
    &&& active(s) == Some(email) ==> ids_suffice(s.emails, folders)
    &&& fetched_count(folders) <= usize::MAX
    &&& left_over(folders) <= usize::MAX
    &&& left_over(folders) > 0 ==> now + BACKFILL_DELAY_MILLIS <= u64::MAX
}

impl MailApp {
    fn on_emails_synced(&mut self, email: String, folders: Vec<FolderSync>, now: u64) -> (r: Vec<
        Effect,
    >)
        requires
            sync_fits(old(self)@, email@, views(folders@), now),
        ensures
            final(self)@ == emails_synced(old(self)@, email@, views(folders@), now).state,
            views(r@) == emails_synced(old(self)@, email@, views(folders@), now).effects,
    {
        proof {
            crate::merge::lemma_max_id(self@.emails);
        }
        let remaining = sum_remaining(&folders);
        let fetched = sum_fetched(&folders);
        if remaining > 0 {
            self.backfill_at = Some(now + BACKFILL_DELAY_MILLIS);
            let mut text = "Fetched ".to_owned();
            text.append(decimal_text(fetched as u64).as_str());
            text.append(" — ");
            text.append(decimal_text(remaining as u64).as_str());
            text.append(" older messages still to come...");
            self.status = Some(StatusToast::info(text.as_str(), 4000));
        } else {
            self.backfill_at = None;
        }
        match self.active_email() {
            Some(a) => {
                if a == email {
                    let mut prior: Vec<Email> = Vec::new();
                    std::mem::swap(&mut prior, &mut self.emails);
                    self.emails = merge_sync(prior, folders.as_slice());
                    only(Effect::SaveEmails(email))
                } else {
                    only(Effect::MergeStored(email, folders))
                }
            },
            None => none(),
        }
    }
}

// ---------------------------------------------------------------------------
// All messages

/// What a message comes to, at time `now`.
pub open spec fn updated(s: AppView, msg: AppMessage, now: u64) -> Step {
    let quiet = Seq::<EffectView>::empty();
    match msg {
        AppMessage::SwitchFolder(f) => switch_folder(s, f),
        AppMessage::SelectEmail(id) => select_email(s, id),
        AppMessage::SearchChanged => search_changed(s),
        AppMessage::ComposeNew => compose_new(s),
        AppMessage::ComposeCancel => compose_cancel(s),
        AppMessage::ComposeSend => compose_send(s),
        AppMessage::ComposeAttach(path) => compose_attach(s, opt_text(path)),
        AppMessage::SendResult(m, e) => send_result(s, m@, opt_text(e)),
        AppMessage::OpenAttachment(id, i) => open_attachment(s, id, i),
        AppMessage::AttachmentFetched(r) => attachment_fetched(
            s,
            match r {
                Ok(p) => Ok(p@),
                Err(e) => Err(e@),
            },
        ),
        AppMessage::Reply => reply(s),
        AppMessage::DeleteSelected => delete_selected(s),
        AppMessage::ToggleUnread => toggle_unread(s),
        AppMessage::SelectAccount(idx) => select_account(s, idx),
        AppMessage::ManageAccounts => manage_accounts(s),
        AppMessage::SyncNow => Step { state: s, effects: seq![EffectView::Sync(true)] },
        AppMessage::Quit => Step { state: s, effects: quiet },
        AppMessage::Status(t) => Step {
            state: AppView { status: info(t@, 4000), ..s },
            effects: quiet,
        },
        AppMessage::StatusError(t) => Step {
            state: AppView { status: failure(t@), ..s },
            effects: quiet,
        },
        AppMessage::EmailsSynced(email, fs) => emails_synced(s, email@, views(fs@), now),
        AppMessage::UpdateAccountTokens(email, token, expiry) => update_tokens(
            s,
            email@,
            opt_text(token),
            expiry,
        ),
    }
}

/// Whether a message changes what is on screen.
pub open spec fn redraws(msg: AppMessage) -> bool {
    !(msg is SyncNow) && !(msg is Quit) && !(msg is UpdateAccountTokens)
}

/// What a message needs: an id for a new message, an account to send from
/// where there is something to send, counts that fit.
pub open spec fn ready_for(s: AppView, msg: AppMessage, now: u64) -> bool {
    match msg {
        AppMessage::ComposeCancel => !is_empty_mail(s.compose.gathered()) ==> max_id(s.emails)
            < usize::MAX,
        AppMessage::ComposeSend => has_recipient(s.compose.gathered()) ==> s.selected
            < s.accounts.len(),
        AppMessage::SendResult(_, _) => max_id(s.emails) < usize::MAX,
        AppMessage::EmailsSynced(email, fs) => sync_fits(s, email@, views(fs@), now),
        _ => true,
    }
}

/// The effects of a message, and what it means for the window.
#[derive(Debug)]
pub struct Change {
    pub effects: Vec<Effect>,
    pub redraw: bool,
    pub exit: bool,
}

impl MailApp {
    /// Take a message in.
    pub fn update(&mut self, msg: AppMessage, now: u64) -> (r: Change)
        requires
            ready_for(old(self)@, msg, now),
        ensures
            final(self)@ == updated(old(self)@, msg, now).state,
            views(r.effects@) == updated(old(self)@, msg, now).effects,
            r.redraw == redraws(msg),
            r.exit == (msg is Quit),
    {
        let mut redraw = true;
        let mut exit = false;
        let effects = match msg {
            AppMessage::SwitchFolder(f) => self.on_switch_folder(f),
            AppMessage::SelectEmail(id) => self.on_select_email(id),
            AppMessage::SearchChanged => self.on_search_changed(),
            AppMessage::ComposeNew => self.on_compose_new(),
            AppMessage::ComposeCancel => self.on_compose_cancel(),
            AppMessage::ComposeSend => self.on_compose_send(),
            AppMessage::ComposeAttach(path) => self.on_compose_attach(path),
            AppMessage::SendResult(m, e) => self.on_send_result(m, e),
            AppMessage::OpenAttachment(id, i) => self.on_open_attachment(id, i),
            AppMessage::AttachmentFetched(o) => self.on_attachment_fetched(o),
            AppMessage::Reply => self.on_reply(),
            AppMessage::DeleteSelected => self.on_delete_selected(),
            AppMessage::ToggleUnread => self.on_toggle_unread(),
            AppMessage::SelectAccount(idx) => self.on_select_account(idx),
            AppMessage::ManageAccounts => self.on_manage_accounts(),
            AppMessage::SyncNow => {
                redraw = false;
                only(Effect::Sync(true))
            },
            AppMessage::Quit => {
                redraw = false;
                exit = true;
                none()
            },
            AppMessage::Status(t) => {
                self.status = Some(StatusToast::info(t.as_str(), 4000));
                none()
            },
            AppMessage::StatusError(t) => {
                self.status = Some(StatusToast::error(t.as_str()));
                none()
            },
            AppMessage::EmailsSynced(email, fs) => self.on_emails_synced(email, fs, now),
            AppMessage::UpdateAccountTokens(email, token, expiry) => {
                redraw = false;
                self.on_update_tokens(email, token, expiry)
            },
        };
        Change { effects, redraw, exit }
    }

    /// Show mail that was loaded for the selected account.
    pub fn show_emails(&mut self, emails: Vec<Email>)
        ensures
            final(self)@ == (AppView { emails: views(emails@), ..old(self)@ }),
    {
        self.emails = emails;
    }
}

} // verus!
