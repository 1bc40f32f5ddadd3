//! What the workers do on a server, step by step.
//!
//! Each job gives its next step and takes in how that came out, until there
//! is nothing left but to log out. The mock account has no server; no job of
//! its takes a step.

use vstd::prelude::*;
use crate::accounts::{is_mock, is_mock_account};
use crate::message::{decode_part_bytes, decoded};
use crate::model::{
    copy_numbers, opt_view, views, views_push, AccountInfo, AccountView, FolderSync,
    FolderSyncView, OutgoingMail, OutgoingView, RemoteAttachment, RemoteAttachmentView,
};
use crate::net::{
    attachment_query, candidate, domain_of, download_name, endpoint, mailboxes, mailboxes_of,
    outcome_text, port_of, seen_flags, smtp_security, trash_mailboxes, Security, DELETE_FLAGS, SMTP_PORT,
};
use crate::number::{decimal, decimal_text};
use crate::outgoing::{build_outgoing, is_outgoing, outgoing_problem, FileContents};
use crate::path::{below, path_below};
use crate::scan::join;
use crate::session::{because, say_nothing, say_one, Said, SaidView};
use crate::state::AppMessage;
use crate::structure::decimals;
use crate::text::{copy_opt, copy_texts, opt_text, same, texts};

verus! {

/// How a step on the server came out: `None` if it worked, else why not.
pub type Problem = Option<String>;

// ---------------------------------------------------------------------------
// Syncing an account

#[derive(Debug, Clone, Copy, PartialEq, Eq, Structural)]
pub enum SyncStage {
    Inbox,
    /// The sent folder, under one of the names it may have.
    Sent(usize),
    /// All is in; report it.
    Report,
    /// The inbox could not be had; there is nothing to report.
    Over,
}

/// A sync of all folders of an account.
#[derive(Debug)]
pub struct SyncJob {
    email: String,
    folders: Vec<FolderSync>,
    stage: SyncStage,
}

#[verifier::ext_equal]
pub ghost struct SyncView {
    pub email: Seq<char>,
    pub folders: Seq<FolderSyncView>,
    pub stage: SyncStage,
}

impl View for SyncJob {
    type V = SyncView;

    closed spec fn view(&self) -> SyncView {
        SyncView { email: self.email@, folders: views(self.folders@), stage: self.stage }
    }
}

/// A pass to make.
#[derive(Debug, PartialEq)]
pub struct PassOrder {
    pub mailbox: String,
    /// The tag of the folder the mail goes to.
    pub folder: String,
    /// Whether the user is told of it.
    pub verbose: bool,
}

#[verifier::ext_equal]
pub ghost struct OrderView {
    pub mailbox: Seq<char>,
    pub folder: Seq<char>,
    pub verbose: bool,
}

impl View for PassOrder {
    type V = OrderView;

    open spec fn view(&self) -> OrderView {
        OrderView { mailbox: self.mailbox@, folder: self.folder@, verbose: self.verbose }
    }
}

/// The names the sent folder may have.
pub open spec fn sent_names() -> Seq<Seq<char>> {
    seq!["[Gmail]/Sent Mail"@, "Sent"@]
}

/// The pass to make next; `None` if there is none.
pub open spec fn sync_order(s: SyncView) -> Option<OrderView> {
    match s.stage {
        SyncStage::Inbox => Some(
            OrderView { mailbox: "INBOX"@, folder: "inbox"@, verbose: true },
        ),
        SyncStage::Sent(i) => if i < sent_names().len() {
            Some(OrderView { mailbox: sent_names()[i as int], folder: "sent"@, verbose: false })
        } else {
            None
        },
        _ => None,
    }
}

/// The job once a pass came out; `None` means that it was given up. The sent
/// folder rides along: a server without one just syncs the inbox.
pub open spec fn sync_after(s: SyncView, pass: Option<FolderSyncView>) -> SyncView {
    match (s.stage, pass) {
        (SyncStage::Inbox, Some(f)) => SyncView {
            folders: s.folders.push(f),
            stage: SyncStage::Sent(0),
            ..s
        },
        (SyncStage::Inbox, None) => SyncView { stage: SyncStage::Over, ..s },
        (SyncStage::Sent(_), Some(f)) => SyncView {
            folders: s.folders.push(f),
            stage: SyncStage::Report,
            ..s
        },
        (SyncStage::Sent(i), None) => SyncView {
            stage: if i + 1 < sent_names().len() {
                SyncStage::Sent((i + 1) as usize)
            } else {
                SyncStage::Report
            },
            ..s
        },
        _ => s,
    }
}

impl SyncJob {
    /// A sync of an account; the mock account has none.
    pub fn new(account: &AccountInfo) -> (r: Option<SyncJob>)
        ensures
            r is None <==> is_mock(account@),
            r matches Some(job) ==> job@ == (SyncView {
                email: account@.email,
                folders: Seq::empty(),
                stage: SyncStage::Inbox,
            }),
    {
        if is_mock_account(account) {
            None
        } else {
            let job = SyncJob {
                email: account.email.clone(),
                folders: Vec::new(),
                stage: SyncStage::Inbox,
            };
            assert(job@.folders =~= Seq::empty());
            Some(job)
        }
    }

    /// What the user is told when the session is open.
    pub fn greeting() -> (r: AppMessage)
        ensures
            r matches AppMessage::Status(t) && t@ == "Syncing Inbox..."@,
    {
        AppMessage::Status("Syncing Inbox...".to_owned())
    }

    /// The pass to make next; `None` if it is time to log out.
    pub fn order(&self) -> (r: Option<PassOrder>)
        ensures
            opt_view(r) == sync_order(self@),
    {
        match self.stage {
            SyncStage::Inbox => Some(
                PassOrder {
                    mailbox: "INBOX".to_owned(),
                    folder: "inbox".to_owned(),
                    verbose: true,
                },
            ),
            SyncStage::Sent(i) => {
                if i == 0 {
                    Some(
                        PassOrder {
                            mailbox: "[Gmail]/Sent Mail".to_owned(),
                            folder: "sent".to_owned(),
                            verbose: false,
                        },
                    )
                } else if i == 1 {
                    Some(
                        PassOrder {
                            mailbox: "Sent".to_owned(),
                            folder: "sent".to_owned(),
                            verbose: false,
                        },
                    )
                } else {
                    None
                }
            },
            _ => None,
        }
    }

    /// Take in how the pass came out.
    pub fn take(self, pass: Option<FolderSync>) -> (r: SyncJob)
        ensures
            r@ == sync_after(self@, opt_view(pass)),
    {
        broadcast use views_push;

        let SyncJob { email, folders, stage } = self;
        let mut folders = folders;
        match stage {
            SyncStage::Inbox => match pass {
                Some(f) => {
                    folders.push(f);
                    SyncJob { email, folders, stage: SyncStage::Sent(0) }
                },
                None => SyncJob { email, folders, stage: SyncStage::Over },
            },
            SyncStage::Sent(i) => match pass {
                Some(f) => {
                    folders.push(f);
                    SyncJob { email, folders, stage: SyncStage::Report }
                },
                None => {
                    let next = if i == 0 {
                        SyncStage::Sent(1)
                    } else {
                        SyncStage::Report
                    };
                    SyncJob { email, folders, stage: next }
                },
            },
            _ => SyncJob { email, folders, stage },
        }
    }

    /// What the client is told in the end, before the session is closed: the
    /// folders that were synced, if the inbox was.
    pub fn report(self) -> (r: Vec<AppMessage>)
        ensures
            self@.stage != SyncStage::Report ==> r@.len() == 0,
            self@.stage == SyncStage::Report ==> {
                &&& r@.len() == 2
                &&& r@[0] matches AppMessage::EmailsSynced(a, fs) && a@ == self@.email && views(
                    fs@,
                ) == self@.folders
                &&& r@[1] matches AppMessage::Status(t) && t@ == "Sync Complete"@
            },
    {
        let mut out: Vec<AppMessage> = Vec::new();
        match self.stage {
            SyncStage::Report => {
                out.push(AppMessage::EmailsSynced(self.email, self.folders));
                out.push(AppMessage::Status("Sync Complete".to_owned()));
            },
            _ => {},
        }
        out
    }
}

// ---------------------------------------------------------------------------
// Changing a message

/// A step of a job that changes a message.
#[derive(Debug, PartialEq)]
pub enum ServerStep {
    Select(String),
    /// Copy messages to a mailbox.
    Copy(String, String),
    /// Change flags of messages.
    Store(String, String),
    /// Remove these messages for good, if they are marked as deleted.
    Expunge(String),
    /// Remove all messages that are marked as deleted.
    ExpungeAll,
    Logout,
}

pub ghost enum ServerStepView {
    Select(Seq<char>),
    Copy(Seq<char>, Seq<char>),
    Store(Seq<char>, Seq<char>),
    Expunge(Seq<char>),
    ExpungeAll,
    Logout,
}

impl View for ServerStep {
    type V = ServerStepView;

    open spec fn view(&self) -> ServerStepView {
        match *self {
            ServerStep::Select(m) => ServerStepView::Select(m@),
            ServerStep::Copy(u, m) => ServerStepView::Copy(u@, m@),
            ServerStep::Store(u, f) => ServerStepView::Store(u@, f@),
            ServerStep::Expunge(u) => ServerStepView::Expunge(u@),
            ServerStep::ExpungeAll => ServerStepView::ExpungeAll,
            ServerStep::Logout => ServerStepView::Logout,
        }
    }
}

#[derive(Debug, Clone, Copy, PartialEq, Eq, Structural)]
pub enum DeleteStage {
    Select,
    /// A copy to one of the names the trash may have.
    Copy(usize),
    Store,
    Expunge,
    ExpungeAll,
    Logout,
}

/// Delete an inbox message: copy it to the trash as well as can be, mark it,
/// remove it.
#[derive(Debug)]
pub struct DeleteJob {
    pub uid: u32,
    pub stage: DeleteStage,
}

pub open spec fn trash_names() -> Seq<Seq<char>> {
    seq!["[Gmail]/Trash"@, "Trash"@]
}

pub open spec fn delete_step(uid: u32, stage: DeleteStage) -> ServerStepView {
    let set = decimal(uid as nat);
    match stage {
        DeleteStage::Select => ServerStepView::Select("INBOX"@),
        DeleteStage::Copy(i) => ServerStepView::Copy(
            set,
            if i == 0 {
                trash_names()[0]
            } else {
                trash_names()[1]
            },
        ),
        DeleteStage::Store => ServerStepView::Store(set, DELETE_FLAGS@),
        DeleteStage::Expunge => ServerStepView::Expunge(set),
        DeleteStage::ExpungeAll => ServerStepView::ExpungeAll,
        DeleteStage::Logout => ServerStepView::Logout,
    }
}

/// The stage after a step worked, or did not.
pub open spec fn delete_after(stage: DeleteStage, worked: bool) -> DeleteStage {
    match stage {
        DeleteStage::Select => if worked {
            DeleteStage::Copy(0)
        } else {
            DeleteStage::Logout
        },
        DeleteStage::Copy(i) => if !worked && i == 0 {
            DeleteStage::Copy(1)
        } else {
            DeleteStage::Store
        },
        DeleteStage::Store => if worked {
            DeleteStage::Expunge
        } else {
            DeleteStage::Logout
        },
        DeleteStage::Expunge => if worked {
            DeleteStage::Logout
        } else {
            DeleteStage::ExpungeAll
        },
        _ => DeleteStage::Logout,
    }
}

pub open spec fn delete_says(stage: DeleteStage, problem: Option<Seq<char>>) -> Seq<SaidView> {
    match (stage, problem) {
        (DeleteStage::Select, Some(e)) => seq![
            SaidView::Error("Failed to select INBOX: "@ + e),
        ],
        (DeleteStage::Store, Some(e)) => seq![SaidView::Error("Server delete failed: "@ + e)],
        (DeleteStage::Expunge, None) => seq![SaidView::Note("Deleted on server"@)],
        (DeleteStage::ExpungeAll, _) => seq![SaidView::Note("Deleted on server"@)],
        _ => Seq::empty(),
    }
}

impl DeleteJob {
    pub fn new(account: &AccountInfo, uid: u32) -> (r: Option<DeleteJob>)
        ensures
            r is None <==> is_mock(account@),
            r matches Some(job) ==> job.uid == uid && job.stage == DeleteStage::Select,
    {
        if is_mock_account(account) {
            None
        } else {
            Some(DeleteJob { uid, stage: DeleteStage::Select })
        }
    }

    pub fn step(&self) -> (r: ServerStep)
        ensures
            r@ == delete_step(self.uid, self.stage),
    {
        let set = decimal_text(self.uid as u64);
        match self.stage {
            DeleteStage::Select => ServerStep::Select("INBOX".to_owned()),
            DeleteStage::Copy(i) => {
                let names = trash_mailboxes();
                assert(texts(names@).len() == 2);
                assert(texts(names@)[0] == names@[0]@ && texts(names@)[1] == names@[1]@);
                let name = if i == 0 {
                    names[0].clone()
                } else {
                    names[1].clone()
                };
                ServerStep::Copy(set, name)
            },
            DeleteStage::Store => ServerStep::Store(set, DELETE_FLAGS.to_owned()),
            DeleteStage::Expunge => ServerStep::Expunge(set),
            DeleteStage::ExpungeAll => ServerStep::ExpungeAll,
            DeleteStage::Logout => ServerStep::Logout,
        }
    }

    pub fn take(&mut self, problem: Problem) -> (r: Vec<Said>)
        ensures
            final(self).uid == old(self).uid,
            final(self).stage == delete_after(old(self).stage, problem is None),
            views(r@) == delete_says(old(self).stage, opt_text(problem)),
    {
        let stage = self.stage;
        let worked = problem.is_none();
        self.stage = match stage {
            DeleteStage::Select => if worked {
                DeleteStage::Copy(0)
            } else {
                DeleteStage::Logout
            },
            DeleteStage::Copy(i) => if !worked && i == 0 {
                DeleteStage::Copy(1)
            } else {
                DeleteStage::Store
            },
            DeleteStage::Store => if worked {
                DeleteStage::Expunge
            } else {
                DeleteStage::Logout
            },
            DeleteStage::Expunge => if worked {
                DeleteStage::Logout
            } else {
                DeleteStage::ExpungeAll
            },
            _ => DeleteStage::Logout,
        };
        match problem {
            Some(e) => match stage {
                DeleteStage::Select => say_one(
                    Said::Error(because("Failed to select INBOX: ", e.as_str())),
                ),
                DeleteStage::Store => say_one(
                    Said::Error(because("Server delete failed: ", e.as_str())),
                ),
                DeleteStage::ExpungeAll => say_one(Said::Note("Deleted on server".to_owned())),
                _ => say_nothing(),
            },
            None => match stage {
                DeleteStage::Expunge => say_one(Said::Note("Deleted on server".to_owned())),
                DeleteStage::ExpungeAll => say_one(Said::Note("Deleted on server".to_owned())),
                _ => say_nothing(),
            },
        }
    }
}

#[derive(Debug, Clone, Copy, PartialEq, Eq, Structural)]
pub enum SeenStage {
    Select,
    Store,
    Logout,
}

/// Push the read flag of an inbox message to the server. A failure says
/// nothing: a later push heals it.
#[derive(Debug)]
pub struct SeenJob {
    pub uid: u32,
    pub seen: bool,
    pub stage: SeenStage,
}

pub open spec fn seen_step(uid: u32, seen: bool, stage: SeenStage) -> ServerStepView {
    match stage {
        SeenStage::Select => ServerStepView::Select("INBOX"@),
        SeenStage::Store => ServerStepView::Store(
            decimal(uid as nat),
            if seen {
                "+FLAGS (\\Seen)"@
            } else {
                "-FLAGS (\\Seen)"@
            },
        ),
        SeenStage::Logout => ServerStepView::Logout,
    }
}

pub open spec fn seen_after(stage: SeenStage, worked: bool) -> SeenStage {
    if stage == SeenStage::Select && worked {
        SeenStage::Store
    } else {
        SeenStage::Logout
    }
}

impl SeenJob {
    pub fn new(account: &AccountInfo, uid: u32, seen: bool) -> (r: Option<SeenJob>)
        ensures
            r is None <==> is_mock(account@),
            r matches Some(job) ==> job.uid == uid && job.seen == seen && job.stage
                == SeenStage::Select,
    {
        if is_mock_account(account) {
            None
        } else {
            Some(SeenJob { uid, seen, stage: SeenStage::Select })
        }
    }

    pub fn step(&self) -> (r: ServerStep)
        ensures
            r@ == seen_step(self.uid, self.seen, self.stage),
    {
        match self.stage {
            SeenStage::Select => ServerStep::Select("INBOX".to_owned()),
            SeenStage::Store => ServerStep::Store(
                decimal_text(self.uid as u64),
                seen_flags(self.seen).to_owned(),
            ),
            SeenStage::Logout => ServerStep::Logout,
        }
    }

    pub fn take(&mut self, worked: bool)
        ensures
            *final(self) == (SeenJob { stage: seen_after(old(self).stage, worked), ..*old(self) }),
    {
        self.stage = match self.stage {
            SeenStage::Select => if worked {
                SeenStage::Store
            } else {
                SeenStage::Logout
            },
            _ => SeenStage::Logout,
        };
    }
}

// ---------------------------------------------------------------------------
// Saving a file

#[derive(Debug, Clone, Copy, PartialEq, Eq, Structural)]
pub enum SaveStage {
    /// The directory is created, if need be.
    Create,
    /// Is the name taken?
    Probe,
    Write,
    Done,
}

/// Save an attachment in the downloads directory, under a name that is free.
#[derive(Debug)]
pub struct SaveJob {
    dir: String,
    name: String,
    /// The number of names that are taken.
    tried: u64,
    stage: SaveStage,
    failure: Option<String>,
}

#[verifier::ext_equal]
pub ghost struct SaveView {
    pub dir: Seq<char>,
    pub name: Seq<char>,
    pub tried: u64,
    pub stage: SaveStage,
    pub failure: Option<Seq<char>>,
}

impl View for SaveJob {
    type V = SaveView;

    closed spec fn view(&self) -> SaveView {
        SaveView {
            dir: self.dir@,
            name: self.name@,
            tried: self.tried,
            stage: self.stage,
            failure: opt_text(self.failure),
        }
    }
}

#[derive(Debug, PartialEq)]
pub enum SaveStep {
    CreateDirectory(String),
    /// Look whether there is a file of this name.
    Probe(String),
    /// Write the file.
    Write(String),
    /// Where the file is, or why it could not be saved.
    Done(Result<String, String>),
}

pub ghost enum SaveStepView {
    CreateDirectory(Seq<char>),
    Probe(Seq<char>),
    Write(Seq<char>),
    Done(Result<Seq<char>, Seq<char>>),
}

impl View for SaveStep {
    type V = SaveStepView;

    open spec fn view(&self) -> SaveStepView {
        match *self {
            SaveStep::CreateDirectory(d) => SaveStepView::CreateDirectory(d@),
            SaveStep::Probe(p) => SaveStepView::Probe(p@),
            SaveStep::Write(p) => SaveStepView::Write(p@),
            SaveStep::Done(r) => SaveStepView::Done(outcome_text(r)),
        }
    }
}

#[derive(Debug, PartialEq)]
pub enum SaveReply {
    Worked,
    /// The name is taken.
    Taken,
    /// It did not work; why.
    Failed(String),
}

pub ghost enum SaveReplyView {
    Worked,
    Taken,
    Failed(Seq<char>),
}

impl View for SaveReply {
    type V = SaveReplyView;

    open spec fn view(&self) -> SaveReplyView {
        match *self {
            SaveReply::Worked => SaveReplyView::Worked,
            SaveReply::Taken => SaveReplyView::Taken,
            SaveReply::Failed(e) => SaveReplyView::Failed(e@),
        }
    }
}

/// The file that is tried.
pub open spec fn save_path(s: SaveView) -> Seq<char> {
    below(s.dir, candidate(s.name, s.tried as nat))
}

/// A job in the home directory's downloads, or its failure without a home.
pub open spec fn save_start(home: Option<Seq<char>>, name: Seq<char>) -> SaveView {
    match home {
        Some(h) => SaveView {
            dir: below(h, "Downloads"@),
            name,
            tried: 0,
            stage: SaveStage::Create,
            failure: None,
        },
        None => SaveView {
            dir: Seq::empty(),
            name,
            tried: 0,
            stage: SaveStage::Done,
            failure: Some("No HOME"@),
        },
    }
}

pub open spec fn save_step(s: SaveView) -> SaveStepView {
    match s.stage {
        SaveStage::Create => SaveStepView::CreateDirectory(s.dir),
        SaveStage::Probe => SaveStepView::Probe(save_path(s)),
        SaveStage::Write => SaveStepView::Write(save_path(s)),
        SaveStage::Done => SaveStepView::Done(
            match s.failure {
                Some(e) => Err(e),
                None => Ok(save_path(s)),
            },
        ),
    }
}

pub open spec fn save_after(s: SaveView, reply: SaveReplyView) -> SaveView {
    match (s.stage, reply) {
        (SaveStage::Create, SaveReplyView::Worked) => SaveView { stage: SaveStage::Probe, ..s },
        (SaveStage::Create, SaveReplyView::Failed(e)) => SaveView {
            stage: SaveStage::Done,
            failure: Some("Cannot create "@ + s.dir + ": "@ + e),
            ..s
        },
        (SaveStage::Probe, SaveReplyView::Taken) => SaveView { tried: (s.tried + 1) as u64, ..s },
        (SaveStage::Probe, _) => SaveView { stage: SaveStage::Write, ..s },
        (SaveStage::Write, SaveReplyView::Worked) => SaveView { stage: SaveStage::Done, ..s },
        (SaveStage::Write, SaveReplyView::Failed(e)) => SaveView {
            stage: SaveStage::Done,
            failure: Some("Cannot write "@ + save_path(s) + ": "@ + e),
            ..s
        },
        _ => s,
    }
}

impl SaveJob {
    pub fn new(home: Option<&str>, name: &str) -> (r: SaveJob)
        ensures
            r@ == save_start(
                match home {
                    Some(h) => Some(h@),
                    None => None,
                },
                name@,
            ),
    {
        match home {
            Some(h) => SaveJob {
                dir: path_below(h, "Downloads"),
                name: name.to_owned(),
                tried: 0,
                stage: SaveStage::Create,
                failure: None,
            },
            None => {
                let dir = String::new();
                assert(dir@ =~= Seq::<char>::empty());
                SaveJob {
                    dir,
                    name: name.to_owned(),
                    tried: 0,
                    stage: SaveStage::Done,
                    failure: Some("No HOME".to_owned()),
                }
            },
        }
    }

    fn path(&self) -> (r: String)
        ensures
            r@ == save_path(self@),
    {
        path_below(self.dir.as_str(), download_name(self.name.as_str(), self.tried).as_str())
    }

    pub fn step(&self) -> (r: SaveStep)
        ensures
            r@ == save_step(self@),
    {
        match self.stage {
            SaveStage::Create => SaveStep::CreateDirectory(self.dir.clone()),
            SaveStage::Probe => SaveStep::Probe(self.path()),
            SaveStage::Write => SaveStep::Write(self.path()),
            SaveStage::Done => match &self.failure {
                Some(e) => SaveStep::Done(Err(e.clone())),
                None => SaveStep::Done(Ok(self.path())),
            },
        }
    }

    /// How many names were taken so far.
    pub fn tried(&self) -> (r: u64)
        ensures
            r == self@.tried,
    {
        self.tried
    }

    pub fn take(&mut self, reply: SaveReply)
        requires
            old(self)@.tried < u64::MAX,
        ensures
            final(self)@ == save_after(old(self)@, reply@),
    {
        match reply {
            SaveReply::Worked => match self.stage {
                SaveStage::Create => {
                    self.stage = SaveStage::Probe;
                },
                SaveStage::Probe => {
                    self.stage = SaveStage::Write;
                },
                SaveStage::Write => {
                    self.stage = SaveStage::Done;
                },
                SaveStage::Done => {},
            },
            SaveReply::Taken => match self.stage {
                SaveStage::Probe => {
                    self.tried = self.tried + 1;
                },
                _ => {},
            },
            SaveReply::Failed(e) => match self.stage {
                SaveStage::Create => {
                    let mut t = "Cannot create ".to_owned();
                    t.append(self.dir.as_str());
                    t.append(": ");
                    t.append(e.as_str());
                    self.failure = Some(t);
                    self.stage = SaveStage::Done;
                },
                SaveStage::Probe => {
                    self.stage = SaveStage::Write;
                },
                SaveStage::Write => {
                    let mut t = "Cannot write ".to_owned();
                    t.append(self.path().as_str());
                    t.append(": ");
                    t.append(e.as_str());
                    self.failure = Some(t);
                    self.stage = SaveStage::Done;
                },
                SaveStage::Done => {},
            },
        }
    }
}

// ---------------------------------------------------------------------------
// Fetching an attachment

#[derive(Debug, Clone, Copy, PartialEq, Eq, Structural)]
pub enum PartStage {
    /// One of the mailboxes the folder may be.
    Select(usize),
    Fetch,
    Save,
    Done,
}

/// Fetch one attachment of a message, and have it saved.
#[derive(Debug)]
pub struct PartJob {
    folder: String,
    uid: u32,
    attachment: RemoteAttachment,
    stage: PartStage,
    /// The attachment's contents, once they are here.
    contents: Vec<u8>,
    outcome: Result<String, String>,
}

#[verifier::ext_equal]
pub ghost struct PartJobView {
    pub folder: Seq<char>,
    pub uid: u32,
    pub attachment: RemoteAttachmentView,
    pub stage: PartStage,
    pub contents: Seq<u8>,
    pub outcome: Result<Seq<char>, Seq<char>>,
}

impl View for PartJob {
    type V = PartJobView;

    closed spec fn view(&self) -> PartJobView {
        PartJobView {
            folder: self.folder@,
            uid: self.uid,
            attachment: self.attachment@,
            stage: self.stage,
            contents: self.contents@,
            outcome: outcome_text(self.outcome),
        }
    }
}

#[derive(Debug, PartialEq)]
pub enum PartStep {
    Select(String),
    /// Fetch a part of a message: the message, the query, the part's path.
    Fetch(String, String, Vec<u32>),
    /// Save contents under a name like this one; see [`SaveJob`].
    Save(String),
    /// Report where the attachment is, or why it is not here; log out.
    Done(Result<String, String>),
}

pub ghost enum PartStepView {
    Select(Seq<char>),
    Fetch(Seq<char>, Seq<char>, Seq<u32>),
    Save(Seq<char>),
    Done(Result<Seq<char>, Seq<char>>),
}

impl View for PartStep {
    type V = PartStepView;

    open spec fn view(&self) -> PartStepView {
        match *self {
            PartStep::Select(m) => PartStepView::Select(m@),
            PartStep::Fetch(u, q, p) => PartStepView::Fetch(u@, q@, p@),
            PartStep::Save(n) => PartStepView::Save(n@),
            PartStep::Done(r) => PartStepView::Done(outcome_text(r)),
        }
    }
}

#[derive(Debug, PartialEq)]
pub enum PartReply {
    /// Whether the mailbox could be selected.
    Selected(bool),
    /// The part's bytes, if the server sent any.
    Part(Option<Vec<u8>>),
    /// The fetch did not work; why.
    Failed(String),
    /// What saving came to.
    Saved(Result<String, String>),
}

pub ghost enum PartReplyView {
    Selected(bool),
    Part(Option<Seq<u8>>),
    Failed(Seq<char>),
    Saved(Result<Seq<char>, Seq<char>>),
}

impl View for PartReply {
    type V = PartReplyView;

    open spec fn view(&self) -> PartReplyView {
        match *self {
            PartReply::Selected(ok) => PartReplyView::Selected(ok),
            PartReply::Part(b) => PartReplyView::Part(opt_view(b)),
            PartReply::Failed(e) => PartReplyView::Failed(e@),
            PartReply::Saved(r) => PartReplyView::Saved(outcome_text(r)),
        }
    }
}

pub open spec fn part_start(
    a: AccountView,
    folder: Seq<char>,
    uid: u32,
    attachment: RemoteAttachmentView,
) -> PartJobView {
    PartJobView {
        folder,
        uid,
        attachment,
        stage: if is_mock(a) {
            PartStage::Done
        } else {
            PartStage::Select(0)
        },
        contents: Seq::empty(),
        outcome: Err("This account has no server copy"@),
    }
}

pub open spec fn part_step(s: PartJobView) -> PartStepView {
    match s.stage {
        PartStage::Select(i) => PartStepView::Select(mailboxes_of(s.folder)[i as int]),
        PartStage::Fetch => PartStepView::Fetch(
            decimal(s.uid as nat),
            "(BODY.PEEK["@ + join(decimals(s.attachment.section), "."@) + "])"@,
            s.attachment.section,
        ),
        PartStage::Save => PartStepView::Save(s.attachment.name),
        PartStage::Done => PartStepView::Done(s.outcome),
    }
}

/// The job with its end reached.
pub open spec fn part_over(s: PartJobView, outcome: Result<Seq<char>, Seq<char>>) -> PartJobView {
    PartJobView { stage: PartStage::Done, outcome, ..s }
}

pub open spec fn part_after(s: PartJobView, reply: PartReplyView) -> PartJobView {
    match (s.stage, reply) {
        (PartStage::Select(i), PartReplyView::Selected(ok)) => if ok {
            PartJobView { stage: PartStage::Fetch, ..s }
        } else if i + 1 < mailboxes_of(s.folder).len() {
            PartJobView { stage: PartStage::Select((i + 1) as usize), ..s }
        } else {
            part_over(s, Err("Cannot select mailbox"@))
        },
        (PartStage::Fetch, PartReplyView::Part(Some(bytes))) => PartJobView {
            stage: PartStage::Save,
            contents: decoded(s.attachment.encoding, bytes),
            ..s
        },
        (PartStage::Fetch, PartReplyView::Part(None)) => part_over(
            s,
            Err("Server returned no data for the part"@),
        ),
        (PartStage::Fetch, PartReplyView::Failed(e)) => part_over(s, Err("Fetch failed: "@ + e)),
        (PartStage::Save, PartReplyView::Saved(r)) => part_over(s, r),
        _ => s,
    }
}

impl PartJob {
    #[verifier::type_invariant]
    spec fn has_a_mailbox(self) -> bool {
        self.stage matches PartStage::Select(i) ==> i < mailboxes_of(self.folder@).len()
    }

    pub fn new(account: &AccountInfo, folder: &str, uid: u32, attachment: RemoteAttachment) -> (r:
        PartJob)
        ensures
            r@ == part_start(account@, folder@, uid, attachment@),
    {
        let stage = if is_mock_account(account) {
            PartStage::Done
        } else {
            PartStage::Select(0)
        };
        PartJob {
            folder: folder.to_owned(),
            uid,
            attachment,
            stage,
            contents: Vec::new(),
            outcome: Err("This account has no server copy".to_owned()),
        }
    }

    /// The job of which no session could be opened.
    pub fn unreachable(self) -> (r: PartJob)
        ensures
            r@ == part_over(self@, Err("IMAP connection failed"@)),
    {
        PartJob {
            stage: PartStage::Done,
            outcome: Err("IMAP connection failed".to_owned()),
            ..self
        }
    }

    pub fn step(&self) -> (r: PartStep)
        ensures
            r@ == part_step(self@),
    {
        proof {
            use_type_invariant(self);
        }
        match self.stage {
            PartStage::Select(i) => {
                let names = mailboxes(self.folder.as_str());
                assert(texts(names@)[i as int] == names@[i as int]@);
                PartStep::Select(names[i].clone())
            },
            PartStage::Fetch => PartStep::Fetch(
                decimal_text(self.uid as u64),
                attachment_query(&self.attachment.section),
                copy_numbers(&self.attachment.section),
            ),
            PartStage::Save => PartStep::Save(self.attachment.name.clone()),
            PartStage::Done => PartStep::Done(copy_outcome(&self.outcome)),
        }
    }

    /// The contents to save.
    pub fn contents(&self) -> (r: &Vec<u8>)
        ensures
            r@ == self@.contents,
    {
        &self.contents
    }

    pub fn take(self, reply: PartReply) -> (r: PartJob)
        ensures
            r@ == part_after(self@, reply@),
    {
        proof {
            use_type_invariant(&self);
        }
        match reply {
            PartReply::Selected(ok) => match self.stage {
                PartStage::Select(i) => {
                    let names = mailboxes(self.folder.as_str());
                    let n: usize = names.len();
                    assert(texts(names@).len() == n);
                    if ok {
                        PartJob { stage: PartStage::Fetch, ..self }
                    } else if i + 1 < n {
                        PartJob { stage: PartStage::Select(i + 1), ..self }
                    } else {
                        PartJob {
                            stage: PartStage::Done,
                            outcome: Err("Cannot select mailbox".to_owned()),
                            ..self
                        }
                    }
                },
                _ => self,
            },
            PartReply::Part(part) => match self.stage {
                PartStage::Fetch => match part {
                    Some(bytes) => {
                        let contents = decode_part_bytes(
                            self.attachment.encoding.as_str(),
                            bytes.as_slice(),
                        );
                        PartJob { stage: PartStage::Save, contents, ..self }
                    },
                    None => PartJob {
                        stage: PartStage::Done,
                        outcome: Err("Server returned no data for the part".to_owned()),
                        ..self
                    },
                },
                _ => self,
            },
            PartReply::Failed(e) => match self.stage {
                PartStage::Fetch => PartJob {
                    stage: PartStage::Done,
                    outcome: Err(because("Fetch failed: ", e.as_str())),
                    ..self
                },
                _ => self,
            },
            PartReply::Saved(r) => match self.stage {
                PartStage::Save => PartJob { stage: PartStage::Done, outcome: r, ..self },
                _ => self,
            },
        }
    }
}

fn copy_outcome(r: &Result<String, String>) -> (c: Result<String, String>)
    ensures
        outcome_text(c) == outcome_text(*r),
{
    match r {
        Ok(t) => Ok(t.clone()),
        Err(e) => Err(e.clone()),
    }
}

// ---------------------------------------------------------------------------
// Sending

#[derive(Debug, Clone, Copy, PartialEq, Eq, Structural)]
pub enum SendStage {
    Token,
    /// The files to attach are read.
    Read,
    Deliver,
    Done,
}

/// Send a mail. Every end reports the mail as it was composed, so that it can
/// be filed as sent or kept as a draft.
pub struct SendJob {
    account: AccountInfo,
    mail: OutgoingMail,
    token: String,
    stage: SendStage,
    message: Option<lettre::Message>,
    failure: Option<String>,
}

#[verifier::ext_equal]
pub ghost struct SendView {
    pub account: AccountView,
    pub mail: OutgoingView,
    pub token: Seq<char>,
    pub stage: SendStage,
    pub message: Option<lettre::Message>,
    pub failure: Option<Seq<char>>,
}

impl View for SendJob {
    type V = SendView;

    closed spec fn view(&self) -> SendView {
        SendView {
            account: self.account@,
            mail: self.mail@,
            token: self.token@,
            stage: self.stage,
            message: self.message,
            failure: opt_text(self.failure),
        }
    }
}

/// How a mail is handed over.
#[derive(Debug, PartialEq)]
pub struct Delivery {
    pub domain: String,
    pub port: u16,
    pub security: Security,
    pub user: String,
    /// A password, or an access token.
    pub secret: String,
    /// Log in by the `XOAUTH2` mechanism.
    pub oauth: bool,
}

#[derive(Debug, PartialEq)]
pub enum SendStep {
    /// Come by an access token.
    Token,
    /// Tell the user, and read these files.
    Read(String, Vec<String>),
    /// Hand over [`SendJob::message`].
    Deliver(Delivery),
    /// Report [`SendJob::report`].
    Done,
}

#[verifier::ext_equal]
pub ghost struct DeliveryView {
    pub domain: Seq<char>,
    pub port: nat,
    pub security: Security,
    pub user: Seq<char>,
    pub secret: Seq<char>,
    pub oauth: bool,
}

pub ghost enum SendStepView {
    Token,
    Read(Seq<char>, Seq<Seq<char>>),
    Deliver(DeliveryView),
    Done,
}

impl View for Delivery {
    type V = DeliveryView;

    open spec fn view(&self) -> DeliveryView {
        DeliveryView {
            domain: self.domain@,
            port: self.port as nat,
            security: self.security,
            user: self.user@,
            secret: self.secret@,
            oauth: self.oauth,
        }
    }
}

impl View for SendStep {
    type V = SendStepView;

    open spec fn view(&self) -> SendStepView {
        match *self {
            SendStep::Token => SendStepView::Token,
            SendStep::Read(t, paths) => SendStepView::Read(t@, texts(paths@)),
            SendStep::Deliver(d) => SendStepView::Deliver(d@),
            SendStep::Done => SendStepView::Done,
        }
    }
}

pub enum SendReply {
    /// A token to use, and the account's token and expiry from now on.
    Token(String, Option<String>, Option<u64>),
    /// The files, each read or not.
    Files(Vec<FileContents>),
    Delivered,
    /// It did not work; why.
    Failed(String),
}

/// The mock account's mail counts as delivered right away.
pub open spec fn send_start(a: AccountView, mail: OutgoingView) -> SendView {
    SendView {
        account: a,
        mail,
        token: a.password,
        stage: if a.password == "mock_password"@ {
            SendStage::Done
        } else if a.is_oauth {
            SendStage::Token
        } else {
            SendStage::Read
        },
        message: None,
        failure: None,
    }
}

pub open spec fn send_step(s: SendView) -> SendStepView {
    match s.stage {
        SendStage::Token => SendStepView::Token,
        SendStage::Read => SendStepView::Read("Sending SMTP mail..."@, s.mail.attachments),
        SendStage::Deliver => {
            let port = port_of(s.account.smtp, SMTP_PORT);
            SendStepView::Deliver(
                DeliveryView {
                    domain: domain_of(s.account.smtp),
                    port,
                    security: if port == SMTP_PORT {
                        Security::Tls
                    } else {
                        Security::StartTls
                    },
                    user: s.account.email,
                    secret: s.token,
                    oauth: s.account.is_oauth,
                },
            )
        },
        SendStage::Done => SendStepView::Done,
    }
}

/// The job with a failure to report.
pub open spec fn send_failed(s: SendView, why: Seq<char>) -> SendView {
    SendView { stage: SendStage::Done, failure: Some(why), ..s }
}

/// How a job goes on after a reply. The message is built from the files once
/// they are read.
pub open spec fn send_goes_on(s: SendView, reply: SendReply, t: SendView) -> bool {
    match (s.stage, reply) {
        (SendStage::Token, SendReply::Token(token, access_token, expiry)) => t == (SendView {
            account: AccountView {
                access_token: opt_text(access_token),
                token_expiry: expiry,
                ..s.account
            },
            token: token@,
            stage: SendStage::Read,
            ..s
        }),
        (SendStage::Token, SendReply::Failed(e)) => t == send_failed(
            s,
            "OAuth Refresh Failed: "@ + e@,
        ),
        (SendStage::Read, SendReply::Files(files)) => match outgoing_problem(
            s.account.email,
            s.mail,
            files@,
        ) {
            Some(e) => t == send_failed(s, e),
            None => t.message is Some && is_outgoing(
                t.message->0,
                s.account.email,
                s.mail,
                files@,
            ) && t == (SendView { stage: SendStage::Deliver, message: t.message, ..s }),
        },
        (SendStage::Deliver, SendReply::Delivered) => t == (SendView {
            stage: SendStage::Done,
            ..s
        }),
        (SendStage::Deliver, SendReply::Failed(e)) => t == send_failed(
            s,
            "SMTP send failed: "@ + e@,
        ),
        _ => t == s,
    }
}

/// What is said at a reply: an account's new tokens are passed on.
pub open spec fn send_says(s: SendView, reply: SendReply) -> Seq<SaidView> {
    match (s.stage, reply) {
        (SendStage::Token, SendReply::Token(_, access_token, expiry)) => seq![
            SaidView::Tokens(s.account.email, opt_text(access_token), expiry),
        ],
        _ => Seq::empty(),
    }
}

impl SendJob {
    pub fn new(account: AccountInfo, mail: OutgoingMail) -> (r: SendJob)
        ensures
            r@ == send_start(account@, mail@),
    {
        let stage = if same(account.password.as_str(), "mock_password") {
            SendStage::Done
        } else if account.is_oauth {
            SendStage::Token
        } else {
            SendStage::Read
        };
        let token = account.password.clone();
        SendJob { account, mail, token, stage, message: None, failure: None }
    }

    pub fn step(&self) -> (r: SendStep)
        ensures
            r@ == send_step(self@),
    {
        match self.stage {
            SendStage::Token => SendStep::Token,
            SendStage::Read => SendStep::Read(
                "Sending SMTP mail...".to_owned(),
                copy_texts(&self.mail.attachments),
            ),
            SendStage::Deliver => {
                let e = endpoint(self.account.smtp.as_str(), SMTP_PORT);
                let security = smtp_security(e.port);
                SendStep::Deliver(
                    Delivery {
                        domain: e.domain,
                        port: e.port,
                        security,
                        user: self.account.email.clone(),
                        secret: self.token.clone(),
                        oauth: self.account.is_oauth,
                    },
                )
            },
            SendStage::Done => SendStep::Done,
        }
    }

    /// The message to hand over, once it is built.
    pub fn message(&self) -> (r: &Option<lettre::Message>)
        ensures
            *r == self@.message,
    {
        &self.message
    }

    /// Take in how the step came out. Files are to be as many as were asked
    /// for.
    pub fn take(self, reply: SendReply) -> (r: (SendJob, Vec<Said>))
        requires
            reply matches SendReply::Files(files) ==> files@.len() == self@.mail.attachments.len(),
        ensures
            send_goes_on(self@, reply, r.0@),
            views(r.1@) == send_says(self@, reply),
    {
        match reply {
            SendReply::Token(token, access_token, expiry) => match self.stage {
                SendStage::Token => {
                    let told = copy_opt(&access_token);
                    let email = self.account.email.clone();
                    let SendJob { account, mail, token: _, stage: _, message, failure } = self;
                    let mut account = account;
                    account.access_token = access_token;
                    account.token_expiry = expiry;
                    (
                        SendJob {
                            account,
                            mail,
                            token,
                            stage: SendStage::Read,
                            message,
                            failure,
                        },
                        say_one(Said::Tokens(email, told, expiry)),
                    )
                },
                _ => (self, say_nothing()),
            },
            SendReply::Files(files) => match self.stage {
                SendStage::Read => {
                    match build_outgoing(self.account.email.as_str(), &self.mail, &files) {
                        Ok(m) => (
                            SendJob { stage: SendStage::Deliver, message: Some(m), ..self },
                            say_nothing(),
                        ),
                        Err(e) => (
                            SendJob { stage: SendStage::Done, failure: Some(e), ..self },
                            say_nothing(),
                        ),
                    }
                },
                _ => (self, say_nothing()),
            },
            SendReply::Delivered => match self.stage {
                SendStage::Deliver => (
                    SendJob { stage: SendStage::Done, ..self },
                    say_nothing(),
                ),
                _ => (self, say_nothing()),
            },
            SendReply::Failed(e) => match self.stage {
                SendStage::Token => (
                    SendJob {
                        stage: SendStage::Done,
                        failure: Some(because("OAuth Refresh Failed: ", e.as_str())),
                        ..self
                    },
                    say_nothing(),
                ),
                SendStage::Deliver => (
                    SendJob {
                        stage: SendStage::Done,
                        failure: Some(because("SMTP send failed: ", e.as_str())),
                        ..self
                    },
                    say_nothing(),
                ),
                _ => (self, say_nothing()),
            },
        }
    }

    /// What the client is told in the end.
    pub fn report(self) -> (r: AppMessage)
        ensures
            r matches AppMessage::SendResult(mail, failure) && mail@ == self@.mail && opt_text(
                failure,
            ) == self@.failure,
    {
        AppMessage::SendResult(self.mail, self.failure)
    }
}

// ---------------------------------------------------------------------------
// Laws

/// How many steps a deletion still takes at most.
pub open spec fn delete_left(stage: DeleteStage) -> nat {
    match stage {
        DeleteStage::Select => 6,
        DeleteStage::Copy(i) => if i == 0 {
            5
        } else {
            4
        },
        DeleteStage::Store => 3,
        DeleteStage::Expunge => 2,
        DeleteStage::ExpungeAll => 1,
        DeleteStage::Logout => 0,
    }
}

/// A deletion ends, whatever works or not, and says at most one thing: a
/// failure where it stops short, else that the message is gone.
pub proof fn a_deletion_ends(stage: DeleteStage, problem: Option<Seq<char>>)
    requires
        stage != DeleteStage::Logout,
    ensures
        delete_left(delete_after(stage, problem is None)) < delete_left(stage),
        delete_after(stage, problem is None) == DeleteStage::Logout <==> delete_says(
            stage,
            problem,
        ).len() == 1,
{
}

/// Nothing is removed for good that was not marked as deleted first, and
/// nothing is marked without its mailbox.
pub proof fn removal_follows_the_mark(stage: DeleteStage, worked: bool)
    ensures
        delete_after(stage, worked) == DeleteStage::Expunge ==> stage == DeleteStage::Store
            && worked,
        delete_after(stage, worked) == DeleteStage::ExpungeAll ==> stage == DeleteStage::Expunge,
        delete_after(stage, worked) == DeleteStage::Store ==> stage is Copy,
        delete_after(stage, worked) is Copy ==> stage is Copy || (stage == DeleteStage::Select
            && worked),
{
}

/// A sync reports the inbox first, and the sent folder only under the first
/// name that the server knows; one that could not have the inbox reports
/// nothing.
pub proof fn a_sync_reports_what_it_has(
    email: Seq<char>,
    inbox: Option<FolderSyncView>,
    first: Option<FolderSyncView>,
    second: Option<FolderSyncView>,
)
    ensures
        ({
            let s = SyncView { email, folders: Seq::empty(), stage: SyncStage::Inbox };
            let a = sync_after(s, inbox);
            let b = sync_after(a, first);
            let c = sync_after(b, second);
            match inbox {
                None => a.stage == SyncStage::Over && sync_order(a) is None,
                Some(f) => match first {
                    Some(g) => b.stage == SyncStage::Report && b.folders == seq![f, g]
                        && sync_order(b) is None,
                    None => c.stage == SyncStage::Report && c.folders == match second {
                        Some(g) => seq![f, g],
                        None => seq![f],
                    } && sync_order(c) is None,
                },
            }
        }),
{
    let s = SyncView { email, folders: Seq::empty(), stage: SyncStage::Inbox };
    let a = sync_after(s, inbox);
    let b = sync_after(a, first);
    let c = sync_after(b, second);
    assert(sent_names().len() == 2);
    if let Some(f) = inbox {
        assert(a.folders =~= seq![f]);
        if let Some(g) = first {
            assert(b.folders =~= seq![f, g]);
        } else if let Some(g) = second {
            assert(c.folders =~= seq![f, g]);
        }
    }
}

/// A mail that is being sent stays as it was composed, whatever the outcome.
pub proof fn a_send_keeps_its_mail(s: SendView, reply: SendReply, t: SendView)
    requires
        send_goes_on(s, reply, t),
    ensures
        t.mail == s.mail,
{
}

/// A mail counts as delivered only once the server took it, or at once for
/// the mock account.
pub proof fn only_the_server_delivers(s: SendView, reply: SendReply, t: SendView)
    requires
        send_goes_on(s, reply, t),
        s.stage != SendStage::Done,
        s.failure is None,
    ensures
        t.stage == SendStage::Done && t.failure is None <==> s.stage == SendStage::Deliver
            && reply is Delivered,
{
}

/// Wherever a file is saved, it is below the downloads directory, under a
/// name of one component.
pub proof fn files_are_saved_in_the_downloads(home: Seq<char>, name: Seq<char>, n: u64)
    ensures
        ({
            let s = SaveView { tried: n, ..save_start(Some(home), name) };
            &&& save_path(s) == below(below(home, "Downloads"@), candidate(name, n as nat))
            &&& !crate::net::has_slash(candidate(name, n as nat))
            &&& candidate(name, n as nat).len() > 0
            &&& candidate(name, n as nat) != seq!['.', '.']
        }),
{
    crate::net::downloads_stay_in_their_directory(name, n as nat);
}

/// No file is overwritten: one is written only under the name that was just
/// found to be free.
pub proof fn only_free_names_are_written(s: SaveView, reply: SaveReplyView)
    requires
        s.tried < u64::MAX,
        s.stage != SaveStage::Write,
        save_after(s, reply).stage == SaveStage::Write,
    ensures
        s.stage == SaveStage::Probe,
        !(reply is Taken),
        save_step(save_after(s, reply)) == SaveStepView::Write(save_path(s)),
{
}

} // verus!
