//! The state of the client, the messages that change it and the effects they
//! ask for.

use vstd::prelude::*;
use crate::model::{
    opt_view, views, AccountInfo, AccountView, Email, EmailView, Folder, FolderSync, FolderSyncView,
    OutgoingMail, OutgoingView, RemoteAttachment, RemoteAttachmentView,
};
use crate::scan::{trim, trim_text};
use crate::text::{copy_texts, texts};

verus! {

// ---------------------------------------------------------------------------
// Text fields

/// A text box: what it holds, and what is being typed into it.
#[derive(Debug, Clone, PartialEq)]
pub struct TextField {
    pub text: String,
    pub edit_buffer: String,
    pub editing: bool,
}

#[verifier::ext_equal]
pub ghost struct FieldView {
    pub text: Seq<char>,
    pub edit_buffer: Seq<char>,
    pub editing: bool,
}

impl View for TextField {
    type V = FieldView;

    open spec fn view(&self) -> FieldView {
        FieldView { text: self.text@, edit_buffer: self.edit_buffer@, editing: self.editing }
    }
}

impl FieldView {
    /// What the field says: the side its editing flag selects.
    pub open spec fn value(self) -> Seq<char> {
        if self.editing {
            self.edit_buffer
        } else {
            self.text
        }
    }

    /// The field holding `s` on both sides.
    pub open spec fn holding(self, s: Seq<char>) -> FieldView {
        FieldView { text: s, edit_buffer: s, ..self }
    }
}

impl TextField {
    pub fn new() -> (r: TextField)
        ensures
            r@ == (FieldView { text: Seq::empty(), edit_buffer: Seq::empty(), editing: false }),
    {
        let r = TextField { text: String::new(), edit_buffer: String::new(), editing: false };
        assert(r@.text =~= Seq::<char>::empty() && r@.edit_buffer =~= Seq::<char>::empty());
        r
    }

    pub fn value(&self) -> (r: String)
        ensures
            r@ == self@.value(),
    {
        if self.editing {
            self.edit_buffer.clone()
        } else {
            self.text.clone()
        }
    }

    /// Put `s` on both sides: a box left untouched must agree with one that
    /// was clicked into.
    pub fn set(&mut self, s: &str)
        ensures
            final(self)@ == old(self)@.holding(s@),
    {
        self.text = s.to_owned();
        self.edit_buffer = s.to_owned();
    }
}

// ---------------------------------------------------------------------------
// The compose dialog

#[derive(Debug, PartialEq)]
pub struct Compose {
    pub to: TextField,
    pub cc: TextField,
    pub bcc: TextField,
    pub subject: TextField,
    pub body: TextField,
    /// Absolute paths queued for the next send.
    pub attachments: Vec<String>,
    pub title: String,
    pub open: bool,
}

#[verifier::ext_equal]
pub ghost struct ComposeView {
    pub to: FieldView,
    pub cc: FieldView,
    pub bcc: FieldView,
    pub subject: FieldView,
    pub body: FieldView,
    pub attachments: Seq<Seq<char>>,
    pub title: Seq<char>,
    pub open: bool,
}

impl View for Compose {
    type V = ComposeView;

    open spec fn view(&self) -> ComposeView {
        ComposeView {
            to: self.to@,
            cc: self.cc@,
            bcc: self.bcc@,
            subject: self.subject@,
            body: self.body@,
            attachments: texts(self.attachments@),
            title: self.title@,
            open: self.open,
        }
    }
}

impl ComposeView {
    /// The mail as composed right now: recipients and subject trimmed, the
    /// body as it is.
    pub open spec fn gathered(self) -> OutgoingView {
        OutgoingView {
            to: trim(self.to.value()),
            cc: trim(self.cc.value()),
            bcc: trim(self.bcc.value()),
            subject: trim(self.subject.value()),
            body: self.body.value(),
            attachments: self.attachments,
        }
    }

    pub open spec fn cleared(self) -> ComposeView {
        let empty = Seq::<char>::empty();
        ComposeView {
            to: self.to.holding(empty),
            cc: self.cc.holding(empty),
            bcc: self.bcc.holding(empty),
            subject: self.subject.holding(empty),
            body: self.body.holding(empty),
            attachments: Seq::empty(),
            ..self
        }
    }

    /// The dialog, open on these fields.
    pub open spec fn filled(self, m: OutgoingView, title: Seq<char>) -> ComposeView {
        ComposeView {
            to: self.to.holding(m.to),
            cc: self.cc.holding(m.cc),
            bcc: self.bcc.holding(m.bcc),
            subject: self.subject.holding(m.subject),
            body: self.body.holding(m.body),
            attachments: m.attachments,
            title,
            open: true,
        }
    }
}

/// A field with nothing in it that nobody is typing into.
pub open spec fn empty_field() -> FieldView {
    FieldView { text: Seq::empty(), edit_buffer: Seq::empty(), editing: false }
}

/// The dialog closed, with nothing in it.
pub open spec fn closed_dialog() -> ComposeView {
    ComposeView {
        to: empty_field(),
        cc: empty_field(),
        bcc: empty_field(),
        subject: empty_field(),
        body: empty_field(),
        attachments: Seq::empty(),
        title: Seq::empty(),
        open: false,
    }
}

/// A mail that has nothing in it.
pub open spec fn is_empty_mail(m: OutgoingView) -> bool {
    m.to.len() == 0 && m.cc.len() == 0 && m.bcc.len() == 0 && m.subject.len() == 0 && m.body.len()
        == 0 && m.attachments.len() == 0
}

impl Compose {
    pub fn new() -> (r: Compose)
        ensures
            r@ == closed_dialog(),
    {
        let r = Compose {
            to: TextField::new(),
            cc: TextField::new(),
            bcc: TextField::new(),
            subject: TextField::new(),
            body: TextField::new(),
            attachments: Vec::new(),
            title: String::new(),
            open: false,
        };
        assert(r@.attachments =~= Seq::empty());
        assert(r@.title =~= Seq::<char>::empty());
        r
    }

    /// The mail as composed right now.
    pub fn gather(&self) -> (r: OutgoingMail)
        ensures
            r@ == self@.gathered(),
    {
        OutgoingMail {
            to: trim_text(self.to.value().as_str()),
            cc: trim_text(self.cc.value().as_str()),
            bcc: trim_text(self.bcc.value().as_str()),
            subject: trim_text(self.subject.value().as_str()),
            body: self.body.value(),
            attachments: copy_texts(&self.attachments),
        }
    }

    /// Reset every field.
    pub fn clear(&mut self)
        ensures
            final(self)@ == old(self)@.cleared(),
    {
        proof {
            reveal_strlit("");
            assert(""@ =~= Seq::<char>::empty());
        }
        self.to.set("");
        self.cc.set("");
        self.bcc.set("");
        self.subject.set("");
        self.body.set("");
        self.attachments = Vec::new();
        assert(self@.attachments =~= Seq::<Seq<char>>::empty());
    }

    /// Open the dialog on a mail.
    pub fn fill(&mut self, m: &OutgoingMail, title: &str)
        ensures
            final(self)@ == old(self)@.filled(m@, title@),
    {
        self.to.set(m.to.as_str());
        self.cc.set(m.cc.as_str());
        self.bcc.set(m.bcc.as_str());
        self.subject.set(m.subject.as_str());
        self.body.set(m.body.as_str());
        self.attachments = copy_texts(&m.attachments);
        self.title = title.to_owned();
        self.open = true;
    }
}

/// Whether a mail has nothing in it.
pub fn mail_is_empty(m: &OutgoingMail) -> (r: bool)
    ensures
        r == is_empty_mail(m@),
{
    m.to.as_str().is_empty() && m.cc.as_str().is_empty() && m.bcc.as_str().is_empty()
        && m.subject.as_str().is_empty() && m.body.as_str().is_empty() && m.attachments.len() == 0
}

// ---------------------------------------------------------------------------
// Status

/// The single status slot. An info counts down and expires; an error stays
/// until it is clicked away or replaced, so that a failed sync cannot vanish
/// unseen.
#[derive(Debug, Clone, PartialEq)]
pub enum StatusToast {
    Info { text: String, millis: u64 },
    Error { text: String },
}

pub ghost enum ToastView {
    Info { text: Seq<char>, millis: nat },
    Error { text: Seq<char> },
}

impl View for StatusToast {
    type V = ToastView;

    open spec fn view(&self) -> ToastView {
        match *self {
            StatusToast::Info { text, millis } => ToastView::Info {
                text: text@,
                millis: millis as nat,
            },
            StatusToast::Error { text } => ToastView::Error { text: text@ },
        }
    }
}

pub open spec fn toast_text(t: ToastView) -> Seq<char> {
    match t {
        ToastView::Info { text, .. } => text,
        ToastView::Error { text } => text,
    }
}

/// A toast after some time has passed.
pub open spec fn toast_after(t: Option<ToastView>, elapsed: nat) -> Option<ToastView> {
    match t {
        Some(ToastView::Info { text, millis }) => if millis <= elapsed {
            None
        } else {
            Some(ToastView::Info { text, millis: (millis - elapsed) as nat })
        },
        other => other,
    }
}

impl StatusToast {
    pub fn info(text: &str, millis: u64) -> (r: StatusToast)
        ensures
            r@ == (ToastView::Info { text: text@, millis: millis as nat }),
    {
        StatusToast::Info { text: text.to_owned(), millis }
    }

    pub fn error(text: &str) -> (r: StatusToast)
        ensures
            r@ == (ToastView::Error { text: text@ }),
    {
        StatusToast::Error { text: text.to_owned() }
    }

    pub fn text(&self) -> (r: &str)
        ensures
            r@ == toast_text(self@),
    {
        match self {
            StatusToast::Info { text, .. } => text.as_str(),
            StatusToast::Error { text } => text.as_str(),
        }
    }
}

/// An error stays however long it takes; an info goes once its time is up.
pub proof fn errors_stay_and_infos_expire(t: ToastView, elapsed: nat)
    ensures
        t is Error ==> toast_after(Some(t), elapsed) == Some(t),
        t matches ToastView::Info { millis, .. } ==> (toast_after(Some(t), elapsed) is None
            <==> millis <= elapsed),
{
}

// ---------------------------------------------------------------------------
// Messages and effects

#[derive(Debug)]
pub enum AppMessage {
    SwitchFolder(Folder),
    SelectEmail(usize),
    SearchChanged,
    ComposeNew,
    ComposeCancel,
    ComposeSend,
    /// A file was picked to attach, or none.
    ComposeAttach(Option<String>),
    /// Outcome of a send: `None` is delivered, `Some` says why it failed.
    SendResult(OutgoingMail, Option<String>),
    /// An attachment of a message was clicked: the message's id, the
    /// attachment's index.
    OpenAttachment(usize, usize),
    /// Where an attachment was saved, or why it could not be fetched.
    AttachmentFetched(Result<String, String>),
    Reply,
    DeleteSelected,
    ToggleUnread,
    SelectAccount(usize),
    ManageAccounts,
    SyncNow,
    Quit,
    Status(String),
    /// A failure a user must not miss.
    StatusError(String),
    EmailsSynced(String, Vec<FolderSync>),
    UpdateAccountTokens(String, Option<String>, Option<u64>),
}

/// Work that a message asks for outside the state.
#[derive(Debug)]
pub enum Effect {
    /// Show the list and the detail pane from their tops.
    ScrollToTop,
    /// Show the detail pane from its top.
    BodyToTop,
    /// Put the cursor of the compose body at its start.
    CursorToStart,
    /// Store the cached mail under this account.
    SaveEmails(String),
    /// Replace the cached mail by what is stored under this account.
    LoadEmails(String),
    /// Remember this account as the one in use.
    RememberAccount(String),
    /// Store the accounts.
    SaveAccounts,
    /// Sync the selected account; forced or subject to the throttle.
    Sync(bool),
    /// Merge a sync into the mail stored under an account that is not shown.
    MergeStored(String, Vec<FolderSync>),
    /// Mirror the read flag of an inbox message to the server.
    SetSeen(u32, bool),
    /// Delete an inbox message on the server.
    DeleteOnServer(u32),
    /// Send a mail from the selected account.
    Send(OutgoingMail),
    /// Fetch an attachment of a message: its folder, its uid, the attachment.
    FetchAttachment(String, u32, RemoteAttachment),
    /// Open a file with its default application.
    OpenFile(String),
    /// Open the account settings.
    OpenSettings,
}

pub ghost enum EffectView {
    ScrollToTop,
    BodyToTop,
    CursorToStart,
    SaveEmails(Seq<char>),
    LoadEmails(Seq<char>),
    RememberAccount(Seq<char>),
    SaveAccounts,
    Sync(bool),
    MergeStored(Seq<char>, Seq<FolderSyncView>),
    SetSeen(u32, bool),
    DeleteOnServer(u32),
    Send(OutgoingView),
    FetchAttachment(Seq<char>, u32, RemoteAttachmentView),
    OpenFile(Seq<char>),
    OpenSettings,
}

impl View for Effect {
    type V = EffectView;

    open spec fn view(&self) -> EffectView {
        match *self {
            Effect::ScrollToTop => EffectView::ScrollToTop,
            Effect::BodyToTop => EffectView::BodyToTop,
            Effect::CursorToStart => EffectView::CursorToStart,
            Effect::SaveEmails(a) => EffectView::SaveEmails(a@),
            Effect::LoadEmails(a) => EffectView::LoadEmails(a@),
            Effect::RememberAccount(a) => EffectView::RememberAccount(a@),
            Effect::SaveAccounts => EffectView::SaveAccounts,
            Effect::Sync(force) => EffectView::Sync(force),
            Effect::MergeStored(a, fs) => EffectView::MergeStored(a@, views(fs@)),
            Effect::SetSeen(uid, seen) => EffectView::SetSeen(uid, seen),
            Effect::DeleteOnServer(uid) => EffectView::DeleteOnServer(uid),
            Effect::Send(m) => EffectView::Send(m@),
            Effect::FetchAttachment(f, uid, a) => EffectView::FetchAttachment(f@, uid, a@),
            Effect::OpenFile(p) => EffectView::OpenFile(p@),
            Effect::OpenSettings => EffectView::OpenSettings,
        }
    }
}

// ---------------------------------------------------------------------------
// The state

/// The client: accounts, the mail of the selected one, and what is on screen.
/// Times are milliseconds on one clock.
#[derive(Debug)]
pub struct MailApp {
    pub accounts: Vec<AccountInfo>,
    pub selected_account_idx: usize,
    /// The row the account switcher shows.
    pub account_row: usize,
    pub emails: Vec<Email>,
    pub current_folder: Folder,
    pub selected_email_id: Option<usize>,
    pub search: TextField,
    /// The search band is shown.
    pub search_open: bool,
    pub compose: Compose,
    /// When the most recent sync was started.
    pub last_sync_start: Option<u64>,
    /// When to retry a sync that was skipped for want of a password.
    pub secret_retry_at: Option<u64>,
    /// Whether the missing password has been reported.
    pub secret_missing_reported: bool,
    /// When to run the next backfill pass.
    pub backfill_at: Option<u64>,
    pub status: Option<StatusToast>,
}

#[verifier::ext_equal]
pub ghost struct AppView {
    pub accounts: Seq<AccountView>,
    pub selected: usize,
    pub account_row: usize,
    pub emails: Seq<EmailView>,
    pub folder: Folder,
    pub selected_id: Option<usize>,
    pub search: FieldView,
    pub search_open: bool,
    pub compose: ComposeView,
    pub last_sync: Option<u64>,
    pub secret_retry_at: Option<u64>,
    pub secret_missing_reported: bool,
    pub backfill_at: Option<u64>,
    pub status: Option<ToastView>,
}

impl View for MailApp {
    type V = AppView;

    open spec fn view(&self) -> AppView {
        AppView {
            accounts: views(self.accounts@),
            selected: self.selected_account_idx,
            account_row: self.account_row,
            emails: views(self.emails@),
            folder: self.current_folder,
            selected_id: self.selected_email_id,
            search: self.search@,
            search_open: self.search_open,
            compose: self.compose@,
            last_sync: self.last_sync_start,
            secret_retry_at: self.secret_retry_at,
            secret_missing_reported: self.secret_missing_reported,
            backfill_at: self.backfill_at,
            status: opt_view(self.status),
        }
    }
}

} // verus!
