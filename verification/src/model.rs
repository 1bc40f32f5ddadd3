//! The data the client works on: accounts, messages, folders.

use vstd::prelude::*;
use crate::text::{copy_opt, copy_texts, opt_text, texts};

verus! {

/// The views of a list of values.
pub open spec fn views<T: View>(s: Seq<T>) -> Seq<T::V> {
    Seq::new(s.len(), |i: int| s[i]@)
}

pub broadcast proof fn views_push<T: View>(s: Seq<T>, x: T)
    ensures
        #[trigger] views(s.push(x)) == views(s).push(x@),
{
    assert(views(s.push(x)) =~= views(s).push(x@));
}

/// The view of an optional value.
pub open spec fn opt_view<T: View>(o: Option<T>) -> Option<T::V> {
    match o {
        Some(x) => Some(x@),
        None => None,
    }
}

// ---------------------------------------------------------------------------
// Folders

#[derive(Debug, Clone, Copy, PartialEq, Eq, Structural)]
pub enum Folder {
    Inbox,
    Sent,
    Drafts,
    Trash,
}

/// The tag a message carries for the folder it is in.
pub open spec fn folder_tag(f: Folder) -> Seq<char> {
    match f {
        Folder::Inbox => "inbox"@,
        Folder::Sent => "sent"@,
        Folder::Drafts => "drafts"@,
        Folder::Trash => "trash"@,
    }
}

impl Folder {
    pub fn tag(&self) -> (r: &'static str)
        ensures
            r@ == folder_tag(*self),
    {
        match self {
            Folder::Inbox => "inbox",
            Folder::Sent => "sent",
            Folder::Drafts => "drafts",
            Folder::Trash => "trash",
        }
    }
}

/// Different folders have different tags.
pub proof fn folder_tags_differ(f: Folder, g: Folder)
    ensures
        folder_tag(f) == folder_tag(g) ==> f == g,
{
    reveal_strlit("inbox");
    reveal_strlit("sent");
    reveal_strlit("drafts");
    reveal_strlit("trash");
    if folder_tag(f) == folder_tag(g) {
        assert(folder_tag(f)[0] == folder_tag(g)[0]);
    }
}

/// A folder of the selected account as the control socket lists it.
#[derive(Debug, Clone)]
pub struct FolderInfo {
    pub tag: String,
    pub label: String,
    /// Server-side name; empty for a folder that only exists here.
    pub mailbox: String,
}

#[verifier::ext_equal]
pub ghost struct FolderInfoView {
    pub tag: Seq<char>,
    pub label: Seq<char>,
    pub mailbox: Seq<char>,
}

impl View for FolderInfo {
    type V = FolderInfoView;

    open spec fn view(&self) -> FolderInfoView {
        FolderInfoView { tag: self.tag@, label: self.label@, mailbox: self.mailbox@ }
    }
}

// ---------------------------------------------------------------------------
// Messages

/// One attachment as the server describes it: everything needed to list it
/// in the detail pane and to fetch exactly that part on demand.
#[derive(Debug, PartialEq)]
pub struct RemoteAttachment {
    pub name: String,
    /// Part path; [`crate::structure::section_str`] gives its dotted form.
    pub section: Vec<u32>,
    /// Content-Transfer-Encoding, for the decode after the fetch.
    pub encoding: String,
    pub mime: String,
    /// Transfer-encoded size in octets, as reported by the server.
    pub size: u32,
}

#[verifier::ext_equal]
pub ghost struct RemoteAttachmentView {
    pub name: Seq<char>,
    pub section: Seq<u32>,
    pub encoding: Seq<char>,
    pub mime: Seq<char>,
    pub size: u32,
}

impl View for RemoteAttachment {
    type V = RemoteAttachmentView;

    open spec fn view(&self) -> RemoteAttachmentView {
        RemoteAttachmentView {
            name: self.name@,
            section: self.section@,
            encoding: self.encoding@,
            mime: self.mime@,
            size: self.size,
        }
    }
}

/// A copy of a list of numbers.
pub fn copy_numbers(v: &Vec<u32>) -> (r: Vec<u32>)
    ensures
        r@ == v@,
{
    let mut out: Vec<u32> = Vec::new();
    let mut i: usize = 0;
    while i < v.len()
        invariant
            i <= v@.len(),
            out@ =~= v@.take(i as int),
        decreases v@.len() - i,
    {
        out.push(v[i]);
        i = i + 1;
    }
    out
}

impl Clone for RemoteAttachment {
    fn clone(&self) -> (r: Self)
        ensures
            r@ == self@,
    {
        RemoteAttachment {
            name: self.name.clone(),
            section: copy_numbers(&self.section),
            encoding: self.encoding.clone(),
            mime: self.mime.clone(),
            size: self.size,
        }
    }
}

/// A copy of a list of attachments.
pub fn copy_attachments(v: &Vec<RemoteAttachment>) -> (r: Vec<RemoteAttachment>)
    ensures
        views(r@) == views(v@),
{
    broadcast use views_push;

    let mut out: Vec<RemoteAttachment> = Vec::new();
    let mut i: usize = 0;
    while i < v.len()
        invariant
            i <= v@.len(),
            views(out@) =~= views(v@).take(i as int),
        decreases v@.len() - i,
    {
        broadcast use views_push;

        out.push(v[i].clone());
        i = i + 1;
    }
    out
}

#[derive(Debug, PartialEq)]
pub struct Email {
    pub id: usize,
    pub from: String,
    pub to: String,
    pub subject: String,
    pub body: String,
    pub date: String,
    pub read: bool,
    /// The tag of the folder the message is in.
    pub folder: String,
    /// Cc line of locally-composed mail (sent copies and drafts); fetched
    /// mail leaves it empty.
    pub cc: String,
    /// Only ever filled on drafts: a sent copy records who was bcc'd nowhere,
    /// which is the point of bcc.
    pub bcc: String,
    /// Drafts: absolute paths still to be attached. Sent copies: just the
    /// file names, for display.
    pub attachments: Vec<String>,
    /// Attachments found on the server. Locally-created mail leaves this
    /// empty.
    pub remote_attachments: Vec<RemoteAttachment>,
    /// Server-side UID; `None` for mock or locally-created mail. Server
    /// operations key on this, never on `id`.
    pub uid: Option<u32>,
    /// When the message was sent, in seconds, where that is known.
    pub ts: Option<i64>,
    /// The folder the message was in before it was moved.
    pub origin_folder: Option<String>,
}

#[verifier::ext_equal]
pub ghost struct EmailView {
    pub id: usize,
    pub from: Seq<char>,
    pub to: Seq<char>,
    pub subject: Seq<char>,
    pub body: Seq<char>,
    pub date: Seq<char>,
    pub read: bool,
    pub folder: Seq<char>,
    pub cc: Seq<char>,
    pub bcc: Seq<char>,
    pub attachments: Seq<Seq<char>>,
    pub remote_attachments: Seq<RemoteAttachmentView>,
    pub uid: Option<u32>,
    pub ts: Option<i64>,
    pub origin_folder: Option<Seq<char>>,
}

impl View for Email {
    type V = EmailView;

    open spec fn view(&self) -> EmailView {
        EmailView {
            id: self.id,
            from: self.from@,
            to: self.to@,
            subject: self.subject@,
            body: self.body@,
            date: self.date@,
            read: self.read,
            folder: self.folder@,
            cc: self.cc@,
            bcc: self.bcc@,
            attachments: texts(self.attachments@),
            remote_attachments: views(self.remote_attachments@),
            uid: self.uid,
            ts: self.ts,
            origin_folder: opt_text(self.origin_folder),
        }
    }
}

impl Clone for Email {
    fn clone(&self) -> (r: Self)
        ensures
            r@ == self@,
    {
        Email {
            id: self.id,
            from: self.from.clone(),
            to: self.to.clone(),
            subject: self.subject.clone(),
            body: self.body.clone(),
            date: self.date.clone(),
            read: self.read,
            folder: self.folder.clone(),
            cc: self.cc.clone(),
            bcc: self.bcc.clone(),
            attachments: copy_texts(&self.attachments),
            remote_attachments: copy_attachments(&self.remote_attachments),
            uid: self.uid,
            ts: self.ts,
            origin_folder: copy_opt(&self.origin_folder),
        }
    }
}

/// What one folder's sync brought.
///
/// `server_uids` is the whole mailbox, not just what was fetched: the merge
/// needs it to notice messages deleted from another client.
#[derive(Debug, Clone)]
pub struct FolderSync {
    pub folder: String,
    /// Newly downloaded messages. `id` is left 0: identity is assigned by the
    /// merge, which is the only place that can see the whole cache.
    pub fetched: Vec<Email>,
    pub server_uids: Vec<u32>,
    /// Of the recent window, the uids the server marks as seen.
    pub seen_uids: Vec<u32>,
    /// Still missing after this pass.
    pub remaining: usize,
}

#[verifier::ext_equal]
pub ghost struct FolderSyncView {
    pub folder: Seq<char>,
    pub fetched: Seq<EmailView>,
    pub server_uids: Seq<u32>,
    pub seen_uids: Seq<u32>,
    pub remaining: usize,
}

impl View for FolderSync {
    type V = FolderSyncView;

    open spec fn view(&self) -> FolderSyncView {
        FolderSyncView {
            folder: self.folder@,
            fetched: views(self.fetched@),
            server_uids: self.server_uids@,
            seen_uids: self.seen_uids@,
            remaining: self.remaining,
        }
    }
}

/// What the compose dialog hands to the sender.
#[derive(Debug)]
pub struct OutgoingMail {
    pub to: String,
    pub cc: String,
    pub bcc: String,
    pub subject: String,
    pub body: String,
    /// Absolute paths; read when the message is built.
    pub attachments: Vec<String>,
}

#[verifier::ext_equal]
pub ghost struct OutgoingView {
    pub to: Seq<char>,
    pub cc: Seq<char>,
    pub bcc: Seq<char>,
    pub subject: Seq<char>,
    pub body: Seq<char>,
    pub attachments: Seq<Seq<char>>,
}

impl View for OutgoingMail {
    type V = OutgoingView;

    open spec fn view(&self) -> OutgoingView {
        OutgoingView {
            to: self.to@,
            cc: self.cc@,
            bcc: self.bcc@,
            subject: self.subject@,
            body: self.body@,
            attachments: texts(self.attachments@),
        }
    }
}

impl Clone for OutgoingMail {
    fn clone(&self) -> (r: Self)
        ensures
            r@ == self@,
    {
        OutgoingMail {
            to: self.to.clone(),
            cc: self.cc.clone(),
            bcc: self.bcc.clone(),
            subject: self.subject.clone(),
            body: self.body.clone(),
            attachments: copy_texts(&self.attachments),
        }
    }
}

// ---------------------------------------------------------------------------
// Accounts

#[derive(Debug, PartialEq)]
pub struct AccountInfo {
    pub email: String,
    pub imap: String,
    pub smtp: String,
    pub is_default: bool,
    pub password: String,
    pub is_oauth: bool,
    pub access_token: Option<String>,
    pub refresh_token: Option<String>,
    pub token_expiry: Option<u64>,
    pub client_id: Option<String>,
    pub client_secret: Option<String>,
    /// The password came from, or was moved into, the keyring: it is blanked
    /// on disk.
    pub keyring_backed: bool,
}

#[verifier::ext_equal]
pub ghost struct AccountView {
    pub email: Seq<char>,
    pub imap: Seq<char>,
    pub smtp: Seq<char>,
    pub is_default: bool,
    pub password: Seq<char>,
    pub is_oauth: bool,
    pub access_token: Option<Seq<char>>,
    pub refresh_token: Option<Seq<char>>,
    pub token_expiry: Option<u64>,
    pub client_id: Option<Seq<char>>,
    pub client_secret: Option<Seq<char>>,
    pub keyring_backed: bool,
}

impl View for AccountInfo {
    type V = AccountView;

    open spec fn view(&self) -> AccountView {
        AccountView {
            email: self.email@,
            imap: self.imap@,
            smtp: self.smtp@,
            is_default: self.is_default,
            password: self.password@,
            is_oauth: self.is_oauth,
            access_token: opt_text(self.access_token),
            refresh_token: opt_text(self.refresh_token),
            token_expiry: self.token_expiry,
            client_id: opt_text(self.client_id),
            client_secret: opt_text(self.client_secret),
            keyring_backed: self.keyring_backed,
        }
    }
}

impl Clone for AccountInfo {
    fn clone(&self) -> (r: Self)
        ensures
            r@ == self@,
    {
        AccountInfo {
            email: self.email.clone(),
            imap: self.imap.clone(),
            smtp: self.smtp.clone(),
            is_default: self.is_default,
            password: self.password.clone(),
            is_oauth: self.is_oauth,
            access_token: copy_opt(&self.access_token),
            refresh_token: copy_opt(&self.refresh_token),
            token_expiry: self.token_expiry,
            client_id: copy_opt(&self.client_id),
            client_secret: copy_opt(&self.client_secret),
            keyring_backed: self.keyring_backed,
        }
    }
}

} // verus!
