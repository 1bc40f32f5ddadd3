//! What the window shows of the state, and what a click or key in it means.

use vstd::prelude::*;
use crate::accounts::{account_choice, starting_account, AccountChoice};
use crate::model::{
    folder_tag, views, views_push, AccountInfo, Email, EmailView, Folder, RemoteAttachment,
    RemoteAttachmentView,
};
use crate::number::{decimal, decimal_text};
use crate::outgoing::{attachment_name, sent_name};
use crate::scan::{
    contains, ellipsize, ellipsized, join, join_all, split_words, text_contains, words,
};
use crate::state::{AppMessage, AppView, FieldView, MailApp, StatusToast, ToastView};
use crate::text::{opt_text, same, texts, texts_push};
use crate::update::{active, message_at};

verus! {

// ---------------------------------------------------------------------------
// Searching

/// A text in lower case, by the Unicode tables.
pub uninterp spec fn lower_case_of(s: Seq<char>) -> Seq<char>;

/// `str::to_lowercase`. The contract claims no more than that the result
/// depends on the text alone.
#[verifier::external_body]
fn to_lower_case(s: &str) -> (r: String)
    ensures
        r@ == lower_case_of(s@),
{
    s.to_lowercase()
}

/// Whether a search finds a message, all texts being in lower case: an empty
/// search finds every one, another one what has it in sender, subject or body.
pub open spec fn is_hit(from: Seq<char>, subject: Seq<char>, body: Seq<char>, search: Seq<char>) -> bool {
    search.len() == 0 || contains(from, search) || contains(subject, search) || contains(
        body,
        search,
    )
}

pub fn search_hit(from: &str, subject: &str, body: &str, search: &str) -> (r: bool)
    ensures
        r == is_hit(from@, subject@, body@, search@),
{
    search.is_empty() || text_contains(from, search) || text_contains(subject, search)
        || text_contains(body, search)
}

/// Whether the list shows a message: it is in the folder, and the search
/// finds it.
pub open spec fn is_shown(e: EmailView, tag: Seq<char>, search: Seq<char>) -> bool {
    e.folder == tag && is_hit(
        lower_case_of(e.from),
        lower_case_of(e.subject),
        lower_case_of(e.body),
        lower_case_of(search),
    )
}

/// The rows the list shows, in order.
pub open spec fn rows_shown(s: AppView) -> Seq<EmailView> {
    s.emails.filter(|e: EmailView| is_shown(e, folder_tag(s.folder), s.search.value()))
}

impl MailApp {
    /// The rows the list shows, in paint order. A row index means nothing
    /// without this: it is what maps the card under the pointer to its
    /// message.
    pub fn filtered_emails(&self) -> (r: Vec<&Email>)
        ensures
            views(r@) == rows_shown(self@),
    {
        let search = self.search.value();
        let needle = to_lower_case(search.as_str());
        let tag = self.current_folder.tag();
        let ghost all = self@.emails;
        let ghost p = |e: EmailView|
            is_shown(e, folder_tag(self@.folder), self@.search.value());
        let mut out: Vec<&Email> = Vec::new();
        let mut i: usize = 0;
        proof {
            reveal(Seq::filter);
            assert(views(out@) =~= all.take(0).filter(p));
        }
        while i < self.emails.len()
            invariant
                i <= self.emails@.len(),
                all == self@.emails,
                p == (|e: EmailView|
                    is_shown(e, folder_tag(self@.folder), self@.search.value())),
                tag@ == folder_tag(self@.folder),
                needle@ == lower_case_of(self@.search.value()),
                views(out@) == all.take(i as int).filter(p),
            decreases self.emails@.len() - i,
        {
            broadcast use views_push;

            let e = &self.emails[i];
            proof {
                reveal(Seq::filter);
                assert(all.take(i + 1).drop_last() =~= all.take(i as int));
                assert(all[i as int] == e@);
            }
            if same(e.folder.as_str(), tag) {
                let from = to_lower_case(e.from.as_str());
                let subject = to_lower_case(e.subject.as_str());
                let body = to_lower_case(e.body.as_str());
                if search_hit(from.as_str(), subject.as_str(), body.as_str(), needle.as_str()) {
                    out.push(e);
                    assert(views(out@) =~= all.take(i + 1).filter(p));
                }
            }
            i = i + 1;
        }
        assert(all.take(i as int) =~= all);
        out
    }
}

// ---------------------------------------------------------------------------
// Labels

/// The party a row leads with: the recipient on sent mail, which is all from
/// ourselves, else the sender.
pub open spec fn row_head(e: EmailView) -> Seq<char> {
    if e.folder == "sent"@ {
        "To: "@ + e.to
    } else {
        e.from
    }
}

/// The body on one line: line breaks would bleed into the next row.
pub open spec fn snippet(body: Seq<char>) -> Seq<char> {
    join(words(body), " "@)
}

/// What a row shows.
#[derive(Debug, PartialEq)]
pub struct RowLabels {
    pub head: String,
    pub date: String,
    pub subject: String,
    pub snippet: String,
}

/// The labels of a row, each cut to its budget of characters.
pub fn row_labels(e: &Email, head: usize, subject: usize, body: usize) -> (r: RowLabels)
    ensures
        r.head@ == ellipsized(row_head(e@), head as nat),
        r.date@ == e@.date,
        r.subject@ == ellipsized(e@.subject, subject as nat),
        r.snippet@ == ellipsized(snippet(e@.body), body as nat),
{
    let lead = if same(e.folder.as_str(), "sent") {
        let mut t = "To: ".to_owned();
        t.append(e.to.as_str());
        t
    } else {
        e.from.clone()
    };
    let line = join_all(&split_words(e.body.as_str()), " ");
    RowLabels {
        head: ellipsize(lead.as_str(), head),
        date: e.date.clone(),
        subject: ellipsize(e.subject.as_str(), subject),
        snippet: ellipsize(line.as_str(), body),
    }
}

/// What the detail pane shows above the body.
#[derive(Debug, PartialEq)]
pub struct DetailLabels {
    pub subject: String,
    pub from: String,
    pub to: String,
    pub date: String,
}

fn labelled(label: &str, value: &String) -> (r: String)
    ensures
        r@ == label@ + value@,
{
    let mut t = label.to_owned();
    t.append(value.as_str());
    t
}

pub fn detail_labels(e: &Email) -> (r: DetailLabels)
    ensures
        r.subject@ == e@.subject,
        r.from@ == "From: "@ + e@.from,
        r.to@ == "To:   "@ + e@.to,
        r.date@ == "Date: "@ + e@.date,
{
    DetailLabels {
        subject: e.subject.clone(),
        from: labelled("From: ", &e.from),
        to: labelled("To:   ", &e.to),
        date: labelled("Date: ", &e.date),
    }
}

/// The label of a queued attachment: its name, cut, and a cross.
pub fn compose_chip_label(path: &str) -> (r: String)
    ensures
        r@ == ellipsized(sent_name(path@), 22) + " ×"@,
{
    let mut t = ellipsize(attachment_name(path).as_str(), 22);
    t.append(" ×");
    t
}

// ---------------------------------------------------------------------------
// Sizes

/// `n / d`, rounded to the nearest integer, ties to even.
pub open spec fn rounded(n: nat, d: nat) -> nat {
    let q = n / d;
    let r = n % d;
    if 2 * r < d || (2 * r == d && q % 2 == 0) {
        q
    } else {
        q + 1
    }
}

/// The step between neighbouring single-precision numbers from `n` on.
pub open spec fn single_step(n: nat) -> nat {
    if n < 0x100_0000 {
        1
    } else if n < 0x200_0000 {
        2
    } else if n < 0x400_0000 {
        4
    } else if n < 0x800_0000 {
        8
    } else if n < 0x1000_0000 {
        16
    } else if n < 0x2000_0000 {
        32
    } else if n < 0x4000_0000 {
        64
    } else if n < 0x8000_0000 {
        128
    } else {
        256
    }
}

/// A size in tenths of a mebibyte, as single precision gives it.
pub open spec fn tenths_of_mb(size: u32) -> nat {
    let step = single_step(size as nat);
    rounded(rounded(size as nat, step) * step * 10, 1_048_576)
}

/// A humanized size.
pub open spec fn size_text(size: u32) -> Seq<char> {
    if size >= 1_048_576 {
        let t = tenths_of_mb(size);
        decimal(t / 10) + "."@ + decimal(t % 10) + " MB"@
    } else if size >= 1024 {
        decimal((size / 1024) as nat) + " KB"@
    } else {
        decimal(size as nat) + " B"@
    }
}

fn round_even(n: u64, d: u64) -> (r: u64)
    requires
        0 < d < 0x8000_0000_0000_0000,
    ensures
        r == rounded(n as nat, d as nat),
        r <= n / d + 1,
{
    let q: u64 = n / d;
    let r: u64 = n % d;
    if 2 * r < d || (2 * r == d && q % 2 == 0) {
        q
    } else {
        assert(q < u64::MAX) by (nonlinear_arith)
            requires
                q == n / d,
                r == n % d,
                r > 0,
                0 < d,
                n <= u64::MAX,
        ;
        q + 1
    }
}

fn step_of(n: u32) -> (r: u64)
    ensures
        r == single_step(n as nat),
        1 <= r <= 256,
{
    if n < 0x100_0000 {
        1
    } else if n < 0x200_0000 {
        2
    } else if n < 0x400_0000 {
        4
    } else if n < 0x800_0000 {
        8
    } else if n < 0x1000_0000 {
        16
    } else if n < 0x2000_0000 {
        32
    } else if n < 0x4000_0000 {
        64
    } else if n < 0x8000_0000 {
        128
    } else {
        256
    }
}

pub fn human_size(size: u32) -> (r: String)
    ensures
        r@ == size_text(size),
{
    if size >= 1_048_576 {
        let step = step_of(size);
        let m = round_even(size as u64, step);
        proof {
            assert(m <= 0x1_0000_0000) by (nonlinear_arith)
                requires
                    m <= size as u64 / step + 1,
                    step >= 1,
                    size <= 0xffff_ffff,
            ;
            assert(m * step <= 0x1_0000_0000 * 256) by (nonlinear_arith)
                requires
                    m <= 0x1_0000_0000,
                    1 <= step <= 256,
            ;
        }
        let t = round_even(m * step * 10, 1_048_576);
        let mut out = decimal_text(t / 10);
        out.append(".");
        out.append(decimal_text(t % 10).as_str());
        out.append(" MB");
        out
    } else if size >= 1024 {
        let mut out = decimal_text((size / 1024) as u64);
        out.append(" KB");
        out
    } else {
        let mut out = decimal_text(size as u64);
        out.append(" B");
        out
    }
}

/// Chip label for a server attachment: name plus a humanized size.
pub open spec fn chip_text(a: RemoteAttachmentView) -> Seq<char> {
    ellipsized(a.name, 26) + " · "@ + size_text(a.size)
}

pub fn detail_chip_label(att: &RemoteAttachment) -> (r: String)
    ensures
        r@ == chip_text(att@),
{
    let mut out = ellipsize(att.name.as_str(), 26);
    out.append(" · ");
    out.append(human_size(att.size).as_str());
    out
}

// ---------------------------------------------------------------------------
// The bar

/// How many unread messages the inbox holds.
pub open spec fn inbox_unread(emails: Seq<EmailView>) -> nat {
    crate::render::count_in(emails, "inbox"@).1
}

/// The label of the inbox in the folder switcher.
pub open spec fn inbox_text(unread: nat) -> Seq<char> {
    if unread > 0 {
        "Inbox ("@ + decimal(unread) + ")"@
    } else {
        "Inbox"@
    }
}

impl MailApp {
    pub fn inbox_label(&self) -> (r: String)
        ensures
            r@ == inbox_text(inbox_unread(self@.emails)),
    {
        let count = crate::render::count_messages(self.emails.as_slice(), "inbox");
        if count.1 > 0 {
            let mut t = "Inbox (".to_owned();
            t.append(decimal_text(count.1 as u64).as_str());
            t.append(")");
            t
        } else {
            "Inbox".to_owned()
        }
    }
}

pub open spec fn folder_row_of(f: Folder) -> int {
    match f {
        Folder::Inbox => 0,
        Folder::Sent => 1,
        Folder::Drafts => 2,
        Folder::Trash => 3,
    }
}

/// The row of the folder switcher that shows a folder.
pub fn folder_row(f: Folder) -> (r: usize)
    ensures
        r == folder_row_of(f),
{
    match f {
        Folder::Inbox => 0,
        Folder::Sent => 1,
        Folder::Drafts => 2,
        Folder::Trash => 3,
    }
}

/// The folder a row of the folder switcher stands for.
pub fn folder_of_row(row: usize) -> (r: Folder)
    ensures
        row <= 3 ==> folder_row_of(r) == row,
        row > 3 ==> r == Folder::Trash,
{
    match row {
        0 => Folder::Inbox,
        1 => Folder::Sent,
        2 => Folder::Drafts,
        _ => Folder::Trash,
    }
}

/// What a row of the mail menu does.
pub fn mail_menu_message(row: usize) -> (r: AppMessage)
    ensures
        row == 0 ==> r is ComposeNew,
        row == 1 ==> r is SyncNow,
        row > 1 ==> r is Quit,
{
    match row {
        0 => AppMessage::ComposeNew,
        1 => AppMessage::SyncNow,
        _ => AppMessage::Quit,
    }
}

impl MailApp {
    /// A row of the account switcher was chosen. Gives what to do, if
    /// anything; the settings entry is no account, so the switcher goes back
    /// to the one in use.
    pub fn choose_account_row(&mut self, row: usize) -> (r: Option<AppMessage>)
        ensures
            final(self)@ == (AppView {
                account_row: if row < old(self)@.accounts.len() {
                    row
                } else {
                    old(self)@.selected
                },
                ..old(self)@
            }),
            match r {
                Some(AppMessage::SelectAccount(i)) => i == row && row < old(self)@.accounts.len()
                    && row != old(self)@.selected,
                Some(AppMessage::ManageAccounts) => row >= old(self)@.accounts.len(),
                Some(_) => false,
                None => row < old(self)@.accounts.len() && row == old(self)@.selected,
            },
    {
        match account_choice(row, self.accounts.len()) {
            AccountChoice::Select(i) => {
                self.account_row = i;
                if i != self.selected_account_idx {
                    Some(AppMessage::SelectAccount(i))
                } else {
                    None
                }
            },
            AccountChoice::Manage => {
                self.account_row = self.selected_account_idx;
                Some(AppMessage::ManageAccounts)
            },
        }
    }

    /// The stored accounts were read again. The selection is kept by address,
    /// wherever that account stands now; where it is gone, the default one is to
    /// be selected.
    pub fn accounts_reloaded(&mut self, accounts: Vec<AccountInfo>) -> (r: Option<usize>)
        ensures
            ({
                let all = views(accounts@);
                let idx = starting_account(all, active(old(self)@)) as usize;
                let now = if idx < all.len() {
                    Some(all[idx as int].email)
                } else {
                    None
                };
                let kept = now == active(old(self)@);
                &&& final(self)@ == (AppView {
                    accounts: all,
                    account_row: idx,
                    selected: if kept {
                        idx
                    } else {
                        old(self)@.selected
                    },
                    ..old(self)@
                })
                &&& r == if kept {
                    None
                } else {
                    Some(idx)
                }
            }),
            r is None ==> active(final(self)@) == active(old(self)@),
    {
        let before = if self.selected_account_idx < self.accounts.len() {
            assert(self@.accounts[self.selected_account_idx as int]
                == self.accounts@[self.selected_account_idx as int]@);
            Some(self.accounts[self.selected_account_idx].email.clone())
        } else {
            None
        };
        assert(opt_text(before) == active(self@));
        let idx = crate::accounts::initial_account(&accounts, &before);
        let same_account = if idx < accounts.len() {
            assert(views(accounts@)[idx as int] == accounts@[idx as int]@);
            match &before {
                Some(e) => same(e.as_str(), accounts[idx].email.as_str()),
                None => false,
            }
        } else {
            before.is_none()
        };
        self.accounts = accounts;
        self.account_row = idx;
        if same_account {
            self.selected_account_idx = idx;
            None
        } else {
            Some(idx)
        }
    }
}

// ---------------------------------------------------------------------------
// The card menu

/// What a row of a card's menu does.
#[derive(Debug, Clone, Copy, PartialEq, Eq, Structural)]
pub enum CardAction {
    Edit(usize),
    Reply,
    Delete,
    ToggleRead,
}

impl CardAction {
    pub fn message(self) -> (r: AppMessage)
        ensures
            match self {
                CardAction::Edit(id) => r == AppMessage::SelectEmail(id),
                CardAction::Reply => r is Reply,
                CardAction::Delete => r is DeleteSelected,
                CardAction::ToggleRead => r is ToggleUnread,
            },
    {
        match self {
            CardAction::Edit(id) => AppMessage::SelectEmail(id),
            CardAction::Reply => AppMessage::Reply,
            CardAction::Delete => AppMessage::DeleteSelected,
            CardAction::ToggleRead => AppMessage::ToggleUnread,
        }
    }
}

/// A card's menu: its rows, the first of which is an inert header, and what
/// each does.
#[derive(Debug)]
pub struct CardMenu {
    pub labels: Vec<String>,
    pub actions: Vec<Option<CardAction>>,
}

/// A draft is not a message that arrived: there is nobody to reply to and no
/// read state, so it gets Edit.
pub open spec fn menu_labels(e: EmailView) -> Seq<Seq<char>> {
    if e.folder == "drafts"@ {
        seq![ellipsized(e.subject, 28), "Edit"@, "Delete"@]
    } else {
        seq![
            ellipsized(e.subject, 28),
            "Reply"@,
            "Delete"@,
            if e.read {
                "Mark Unread"@
            } else {
                "Mark Read"@
            },
        ]
    }
}

pub open spec fn menu_actions(e: EmailView) -> Seq<Option<CardAction>> {
    if e.folder == "drafts"@ {
        seq![None, Some(CardAction::Edit(e.id)), Some(CardAction::Delete)]
    } else {
        seq![None, Some(CardAction::Reply), Some(CardAction::Delete), Some(CardAction::ToggleRead)]
    }
}

fn card_menu(e: &Email) -> (r: CardMenu)
    ensures
        texts(r.labels@) == menu_labels(e@),
        r.actions@ == menu_actions(e@),
{
    broadcast use texts_push;

    let mut labels: Vec<String> = Vec::new();
    let mut actions: Vec<Option<CardAction>> = Vec::new();
    labels.push(ellipsize(e.subject.as_str(), 28));
    actions.push(None);
    if same(e.folder.as_str(), "drafts") {
        labels.push("Edit".to_owned());
        labels.push("Delete".to_owned());
        actions.push(Some(CardAction::Edit(e.id)));
        actions.push(Some(CardAction::Delete));
    } else {
        labels.push("Reply".to_owned());
        labels.push("Delete".to_owned());
        if e.read {
            labels.push("Mark Unread".to_owned());
        } else {
            labels.push("Mark Read".to_owned());
        }
        actions.push(Some(CardAction::Reply));
        actions.push(Some(CardAction::Delete));
        actions.push(Some(CardAction::ToggleRead));
    }
    assert(texts(labels@) =~= menu_labels(e@));
    assert(actions@ =~= menu_actions(e@));
    CardMenu { labels, actions }
}

impl MailApp {
    /// Open the menu of the card in a row. It selects the card, but without
    /// opening it: that would mark the message read.
    pub fn open_card_menu(&mut self, row: usize) -> (r: Option<CardMenu>)
        ensures
            ({
                let rows = rows_shown(old(self)@);
                match r {
                    Some(m) => {
                        &&& row < rows.len()
                        &&& texts(m.labels@) == menu_labels(rows[row as int])
                        &&& m.actions@ == menu_actions(rows[row as int])
                        &&& final(self)@ == (AppView {
                            selected_id: Some(rows[row as int].id),
                            ..old(self)@
                        })
                    },
                    None => row >= rows.len() && final(self)@ == old(self)@,
                }
            }),
    {
        let rows = self.filtered_emails();
        assert(views(rows@).len() == rows@.len());
        if row < rows.len() {
            assert(views(rows@)[row as int] == rows@[row as int]@);
            let id = rows[row].id;
            let menu = card_menu(rows[row]);
            self.selected_email_id = Some(id);
            Some(menu)
        } else {
            None
        }
    }

    /// A row of the list was clicked.
    pub fn click_row(&self, row: usize) -> (r: Option<AppMessage>)
        ensures
            ({
                let rows = rows_shown(self@);
                match r {
                    Some(m) => row < rows.len() && m == AppMessage::SelectEmail(
                        rows[row as int].id,
                    ),
                    None => row >= rows.len(),
                }
            }),
    {
        let rows = self.filtered_emails();
        assert(views(rows@).len() == rows@.len());
        if row < rows.len() {
            assert(views(rows@)[row as int] == rows@[row as int]@);
            Some(AppMessage::SelectEmail(rows[row].id))
        } else {
            None
        }
    }

    /// An attachment of the message that is shown was clicked.
    pub fn click_attachment(&self, i: usize) -> (r: Option<AppMessage>)
        ensures
            ({
                let k = message_at(self@.emails, self@.selected_id->0);
                match r {
                    Some(m) => self@.selected_id is Some && k < self@.emails.len() && i
                        < self@.emails[k].remote_attachments.len() && m
                        == AppMessage::OpenAttachment(self@.selected_id->0, i),
                    None => self@.selected_id is None || k >= self@.emails.len() || i
                        >= self@.emails[k].remote_attachments.len(),
                }
            }),
    {
        let id = match self.selected_email_id {
            Some(id) => id,
            None => {
                return None;
            },
        };
        let k = self.find_message(id);
        if k < self.emails.len() {
            let e = &self.emails[k];
            assert(self@.emails[k as int] == e@);
            assert(e@.remote_attachments.len() == e.remote_attachments@.len());
            if i < e.remote_attachments.len() {
                return Some(AppMessage::OpenAttachment(id, i));
            }
        }
        None
    }
}

/// What a press on a row of an open menu does: the header and what lies
/// outside the rows do nothing.
pub open spec fn action_at(actions: Seq<Option<CardAction>>, row: int) -> Option<CardAction> {
    if 0 <= row < actions.len() {
        actions[row]
    } else {
        None
    }
}

pub fn menu_action(actions: &Vec<Option<CardAction>>, row: usize) -> (r: Option<CardAction>)
    ensures
        r == action_at(actions@, row as int),
{
    if row < actions.len() {
        actions[row]
    } else {
        None
    }
}

// ---------------------------------------------------------------------------
// Clicks and keys

impl MailApp {
    /// Click an error away. An info expires on its own.
    pub fn dismiss_error(&mut self) -> (r: bool)
        ensures
            r == (old(self)@.status matches Some(ToastView::Error { .. })),
            final(self)@ == if r {
                AppView { status: None, ..old(self)@ }
            } else {
                old(self)@
            },
    {
        let is_error = match &self.status {
            Some(StatusToast::Error { .. }) => true,
            _ => false,
        };
        if is_error {
            self.status = None;
        }
        is_error
    }

    /// Drop a queued attachment.
    pub fn remove_attachment(&mut self, i: usize)
        requires
            i < old(self)@.compose.attachments.len(),
        ensures
            final(self)@ == (AppView {
                compose: crate::state::ComposeView {
                    attachments: old(self)@.compose.attachments.remove(i as int),
                    ..old(self)@.compose
                },
                ..old(self)@
            }),
    {
        let ghost before = texts(self.compose.attachments@);
        self.compose.attachments.remove(i);
        assert(texts(self.compose.attachments@) =~= before.remove(i as int));
    }

    /// A press beside the search box: an empty search collapses the band; one
    /// holding a query stays, as the visible reason why the list is short.
    pub fn click_beside_search(&mut self)
        ensures
            final(self)@ == (AppView {
                search_open: old(self)@.search_open && (old(self)@.search.text.len() > 0 || old(
                    self,
                )@.search.edit_buffer.len() > 0),
                ..old(self)@
            }),
    {
        if self.search_open && self.search.text.as_str().is_empty()
            && self.search.edit_buffer.as_str().is_empty() {
            self.search_open = false;
        }
    }
}

/// A field of the compose dialog.
#[derive(Debug, Clone, Copy, PartialEq, Eq, Structural)]
pub enum ComposeField {
    To,
    Cc,
    Bcc,
    Subject,
    Body,
}

/// The field that is being edited.
pub open spec fn edited_field(s: AppView) -> Option<ComposeField> {
    if s.compose.to.editing {
        Some(ComposeField::To)
    } else if s.compose.cc.editing {
        Some(ComposeField::Cc)
    } else if s.compose.bcc.editing {
        Some(ComposeField::Bcc)
    } else if s.compose.subject.editing {
        Some(ComposeField::Subject)
    } else if s.compose.body.editing {
        Some(ComposeField::Body)
    } else {
        None
    }
}

/// What is known of a key press.
#[derive(Debug, Clone, Copy, PartialEq, Eq, Structural)]
pub struct KeyPress {
    /// It was pressed, not released.
    pub pressed: bool,
    pub escape: bool,
    /// It is the chord that composes.
    pub compose_chord: bool,
    /// It is the chord that opens the search.
    pub search_chord: bool,
}

/// What a key does outside the compose dialog.
#[derive(Debug, Clone, Copy, PartialEq, Eq, Structural)]
pub enum KeyStep {
    /// The search was closed; the list has changed.
    SearchClosed,
    /// Compose a new message.
    Compose,
    /// The search was opened; its box takes the focus.
    SearchOpened,
    /// None of these: the key scrolls or is typed.
    PassOn,
}

pub open spec fn key_step(s: AppView, k: KeyPress) -> KeyStep {
    if k.pressed && s.search_open && k.escape {
        KeyStep::SearchClosed
    } else if k.pressed && k.compose_chord {
        KeyStep::Compose
    } else if k.pressed && k.search_chord && !s.search.editing {
        KeyStep::SearchOpened
    } else {
        KeyStep::PassOn
    }
}

/// Escape closes the search and drops the query with it: a hidden filter left
/// behind would look like mail had gone missing.
pub open spec fn after_key(s: AppView, k: KeyPress) -> AppView {
    match key_step(s, k) {
        KeyStep::SearchClosed => AppView {
            search: FieldView {
                text: Seq::empty(),
                edit_buffer: Seq::empty(),
                editing: false,
            },
            search_open: false,
            ..s
        },
        KeyStep::SearchOpened => AppView {
            search: FieldView { editing: true, ..s.search },
            search_open: true,
            ..s
        },
        _ => s,
    }
}

impl MailApp {
    pub fn editing_field(&self) -> (r: Option<ComposeField>)
        ensures
            r == edited_field(self@),
    {
        if self.compose.to.editing {
            Some(ComposeField::To)
        } else if self.compose.cc.editing {
            Some(ComposeField::Cc)
        } else if self.compose.bcc.editing {
            Some(ComposeField::Bcc)
        } else if self.compose.subject.editing {
            Some(ComposeField::Subject)
        } else if self.compose.body.editing {
            Some(ComposeField::Body)
        } else {
            None
        }
    }

    /// A key outside the compose dialog.
    pub fn press_key(&mut self, k: KeyPress) -> (r: KeyStep)
        ensures
            r == key_step(old(self)@, k),
            final(self)@ == after_key(old(self)@, k),
    {
        if k.pressed && self.search_open && k.escape {
            self.search.text = String::new();
            self.search.edit_buffer = String::new();
            self.search.editing = false;
            self.search_open = false;
            assert(self@.search.text =~= Seq::<char>::empty());
            assert(self@.search.edit_buffer =~= Seq::<char>::empty());
            KeyStep::SearchClosed
        } else if k.pressed && k.compose_chord {
            KeyStep::Compose
        } else if k.pressed && k.search_chord && !self.search.editing {
            self.search_open = true;
            self.search.editing = true;
            KeyStep::SearchOpened
        } else {
            KeyStep::PassOn
        }
    }
}

/// A key in the compose dialog that no field took: Escape puts it down.
pub fn compose_key(k: KeyPress) -> (r: Option<AppMessage>)
    ensures
        match r {
            Some(m) => m is ComposeCancel && k.pressed && k.escape,
            None => !(k.pressed && k.escape),
        },
{
    if k.pressed && k.escape {
        Some(AppMessage::ComposeCancel)
    } else {
        None
    }
}

// ---------------------------------------------------------------------------
// Laws

/// A search never shows mail of another folder, and an empty one shows all of
/// its folder.
pub proof fn a_search_stays_in_its_folder(s: AppView, i: int)
    requires
        0 <= i < s.emails.len(),
    ensures
        rows_shown(s).contains(s.emails[i]) ==> s.emails[i].folder == folder_tag(s.folder),
        s.emails[i].folder == folder_tag(s.folder) && lower_case_of(s.search.value()).len() == 0
            ==> rows_shown(s).contains(s.emails[i]),
{
    lemma_rows(s.emails, |e: EmailView| is_shown(e, folder_tag(s.folder), s.search.value()));
}

pub proof fn lemma_rows(emails: Seq<EmailView>, p: spec_fn(EmailView) -> bool)
    ensures
        forall|i: int|
            0 <= i < emails.len() ==> (emails.filter(p).contains(#[trigger] emails[i]) <==> p(
                emails[i],
            )),
        forall|i: int| 0 <= i < emails.filter(p).len() ==> p(#[trigger] emails.filter(p)[i]),
    decreases emails.len(),
{
    reveal(Seq::filter);
    if emails.len() > 0 {
        let t = emails.drop_last();
        lemma_rows(t, p);
        let r = emails.filter(p);
        let before = t.filter(p);
        assert forall|i: int| 0 <= i < r.len() implies p(#[trigger] r[i]) by {
            if i < before.len() {
                assert(r[i] == before[i]);
            }
        }
        assert forall|i: int| 0 <= i < emails.len() implies (r.contains(#[trigger] emails[i])
            <==> p(emails[i])) by {
            if p(emails[i]) {
                if i < t.len() {
                    assert(t[i] == emails[i]);
                    let k = before.index_of(t[i]);
                    assert(r[k] == emails[i]);
                } else {
                    assert(r[r.len() - 1] == emails[i]);
                }
            }
        }
    }
}

/// A menu's labels and actions line up, its header does nothing, and every
/// other row does something.
pub proof fn menu_rows_line_up(e: EmailView, row: int)
    ensures
        menu_labels(e).len() == menu_actions(e).len(),
        action_at(menu_actions(e), 0) is None,
        1 <= row < menu_actions(e).len() ==> action_at(menu_actions(e), row) is Some,
{
}

/// The folder switcher shows a folder in the row that selects it.
pub proof fn folder_rows_are_distinct(f: Folder, g: Folder)
    ensures
        folder_row_of(f) == folder_row_of(g) ==> f == g,
        0 <= folder_row_of(f) <= 3,
{
}

/// Closing the search leaves nothing filtered.
pub proof fn a_closed_search_filters_nothing(s: AppView, k: KeyPress)
    requires
        key_step(s, k) == KeyStep::SearchClosed,
    ensures
        after_key(s, k).search.value().len() == 0,
        !after_key(s, k).search_open,
{
}

} // verus!
