//! When to sync, and how the client starts.

use std::collections::HashSet;
use vstd::prelude::*;
use crate::accounts::{initial_account, is_mock, is_mock_account, starting_account};
use crate::mailto::{mailto_prefill, parse_mailto, PrefillView};
use crate::merge::{fetched_count, ids_suffice, largest_id};
use crate::model::{
    views, AccountInfo, AccountView, Email, EmailView, Folder, FolderSync, OutgoingMail,
    OutgoingView,
};
use crate::state::{
    closed_dialog, empty_field, mail_is_empty, toast_after, AppMessage, AppView, Compose, MailApp,
    StatusToast, TextField, ToastView,
};
use crate::text::{opt_text, same};
use crate::update::{failure, left_over, names_recipient, ready_for, BACKFILL_DELAY_MILLIS};

verus! {

/// Syncs that were not asked for keep this distance.
pub const MIN_SYNC_GAP_MILLIS: u64 = 30000;

/// How long to wait before the keyring is read again for a password that was
/// missing: short enough that unlocking it feels self-healing, long enough
/// that one left locked costs nothing.
pub const SECRET_RETRY_MILLIS: u64 = 5000;

// ---------------------------------------------------------------------------
// Starting a sync

/// Whether a sync may start: an unforced one keeps its distance, so that
/// hopping between folders does not stack connections.
pub open spec fn sync_due(s: AppView, force: bool, now: u64) -> bool {
    force || s.last_sync is None || now >= s.last_sync->0 + MIN_SYNC_GAP_MILLIS
}

/// The account whose password is missing and may be in the keyring by now.
pub open spec fn secret_wanted(s: AppView) -> Option<usize> {
    if s.selected < s.accounts.len() && s.accounts[s.selected as int].password.len() == 0
        && !is_mock(s.accounts[s.selected as int]) {
        Some(s.selected)
    } else {
        None
    }
}

/// An account without anything to log in with. OAuth accounts carry no
/// password: their token comes from the refresh.
pub open spec fn lacks_login(a: AccountView) -> bool {
    !a.is_oauth && a.password.len() == 0 && !is_mock(a)
}

/// The uids the cache holds of a folder.
pub open spec fn known_uids(emails: Seq<EmailView>, tag: Seq<char>) -> Set<u32> {
    Set::new(
        |u: u32|
            exists|i: int|
                0 <= i < emails.len() && (#[trigger] emails[i]).folder == tag && emails[i].uid
                    == Some(u),
    )
}

/// The state once a sync was begun, or put off for want of a password. The
/// missing password is reported once; the retry runs until it is there.
pub open spec fn sync_begun(s: AppView, now: u64) -> AppView {
    if s.selected >= s.accounts.len() {
        s
    } else {
        let a = s.accounts[s.selected as int];
        if lacks_login(a) {
            AppView {
                status: if s.secret_missing_reported {
                    s.status
                } else {
                    failure("No password for "@ + a.email + " — is the keyring unlocked?"@)
                },
                secret_missing_reported: true,
                secret_retry_at: Some((now + SECRET_RETRY_MILLIS) as u64),
                ..s
            }
        } else {
            AppView {
                secret_retry_at: None,
                secret_missing_reported: false,
                last_sync: Some(now),
                ..s
            }
        }
    }
}

/// Whether beginning a sync starts one.
pub open spec fn sync_starts(s: AppView) -> bool {
    s.selected < s.accounts.len() && !lacks_login(s.accounts[s.selected as int])
}

/// What the cache holds of the folders that are synced.
#[derive(Debug)]
pub struct KnownUids {
    pub inbox: HashSet<u32>,
    pub sent: HashSet<u32>,
}

fn collect_known(emails: &Vec<Email>, tag: &str) -> (r: HashSet<u32>)
    ensures
        r@ == known_uids(views(emails@), tag@),
{
    broadcast use vstd::std_specs::hash::group_hash_axioms;

    let ghost all = views(emails@);
    let mut out: HashSet<u32> = HashSet::new();
    let mut i: usize = 0;
    assert(out@ =~= known_uids(all.take(0), tag@));
    while i < emails.len()
        invariant
            i <= emails@.len(),
            all == views(emails@),
            out@ == known_uids(all.take(i as int), tag@),
        decreases emails@.len() - i,
    {
        broadcast use vstd::std_specs::hash::group_hash_axioms;

        let ghost part = all.take(i as int);
        let ghost more = all.take(i + 1);
        let e = &emails[i];
        if same(e.folder.as_str(), tag) {
            if let Some(u) = e.uid {
                out.insert(u);
            }
        }
        proof {
            assert(more[i as int] == e@);
            assert forall|u: u32| out@.contains(u) == known_uids(more, tag@).contains(u) by {
                if known_uids(part, tag@).contains(u) {
                    let k = choose|k: int|
                        0 <= k < part.len() && (#[trigger] part[k]).folder == tag@ && part[k].uid
                            == Some(u);
                    assert(more[k] == part[k]);
                }
                if known_uids(more, tag@).contains(u) {
                    let k = choose|k: int|
                        0 <= k < more.len() && (#[trigger] more[k]).folder == tag@ && more[k].uid
                            == Some(u);
                    if k < i {
                        assert(part[k] == more[k]);
                    }
                }
            }
            assert(out@ =~= known_uids(more, tag@));
        }
        i = i + 1;
    }
    assert(all.take(i as int) =~= all);
    out
}

impl MailApp {
    /// Whether a sync may start now.
    pub fn may_sync(&self, force: bool, now: u64) -> (r: bool)
        ensures
            r == sync_due(self@, force, now),
    {
        if force {
            return true;
        }
        match self.last_sync_start {
            Some(t) => now >= t && now - t >= MIN_SYNC_GAP_MILLIS,
            None => true,
        }
    }

    /// The account whose secret to resolve before a sync begins.
    pub fn missing_secret(&self) -> (r: Option<usize>)
        ensures
            r == secret_wanted(self@),
    {
        if self.selected_account_idx < self.accounts.len() {
            let a = &self.accounts[self.selected_account_idx];
            assert(self@.accounts[self.selected_account_idx as int] == a@);
            if a.password.as_str().is_empty() && !is_mock_account(a) {
                return Some(self.selected_account_idx);
            }
        }
        None
    }

    /// Begin a sync, once the secret was looked for. Gives what the cache
    /// holds, so that the worker fetches only what is missing; `None` where
    /// there is nothing to log in with.
    pub fn begin_sync(&mut self, now: u64) -> (r: Option<KnownUids>)
        requires
            now + SECRET_RETRY_MILLIS <= u64::MAX,
        ensures
            final(self)@ == sync_begun(old(self)@, now),
            match r {
                Some(k) => sync_starts(old(self)@) && k.inbox@ == known_uids(
                    old(self)@.emails,
                    "inbox"@,
                ) && k.sent@ == known_uids(old(self)@.emails, "sent"@),
                None => !sync_starts(old(self)@),
            },
    {
        if self.selected_account_idx >= self.accounts.len() {
            return None;
        }
        let a = &self.accounts[self.selected_account_idx];
        assert(self@.accounts[self.selected_account_idx as int] == a@);
        if !a.is_oauth && a.password.as_str().is_empty() && !is_mock_account(a) {
            if !self.secret_missing_reported {
                let mut text = "No password for ".to_owned();
                text.append(a.email.as_str());
                text.append(" — is the keyring unlocked?");
                self.secret_missing_reported = true;
                self.status = Some(StatusToast::error(text.as_str()));
            }
            self.secret_retry_at = Some(now + SECRET_RETRY_MILLIS);
            return None;
        }
        self.secret_retry_at = None;
        self.secret_missing_reported = false;
        self.last_sync_start = Some(now);
        Some(
            KnownUids {
                inbox: collect_known(&self.emails, "inbox"),
                sent: collect_known(&self.emails, "sent"),
            },
        )
    }
}

// ---------------------------------------------------------------------------
// Time passing

pub open spec fn is_due(at: Option<u64>, now: u64) -> bool {
    at is Some && now >= at->0
}

/// The state after `elapsed` milliseconds, at time `now`.
pub open spec fn ticked(s: AppView, elapsed: u64, now: u64) -> AppView {
    AppView {
        secret_retry_at: if is_due(s.secret_retry_at, now) {
            None
        } else {
            s.secret_retry_at
        },
        backfill_at: if is_due(s.backfill_at, now) {
            None
        } else {
            s.backfill_at
        },
        status: toast_after(s.status, elapsed as nat),
        ..s
    }
}

/// The syncs that are due: the retry for a missing password, and the next
/// backfill pass.
pub open spec fn due_syncs(s: AppView, now: u64) -> nat {
    (if is_due(s.secret_retry_at, now) {
        1nat
    } else {
        0nat
    }) + (if is_due(s.backfill_at, now) {
        1nat
    } else {
        0nat
    })
}

fn due(at: Option<u64>, now: u64) -> (r: bool)
    ensures
        r == is_due(at, now),
{
    match at {
        Some(t) => now >= t,
        None => false,
    }
}

impl MailApp {
    /// Let time pass. Gives how many forced syncs are due, and whether the
    /// screen changed: only an expired toast changes it.
    pub fn tick(&mut self, elapsed: u64, now: u64) -> (r: (usize, bool))
        ensures
            final(self)@ == ticked(old(self)@, elapsed, now),
            r.0 == due_syncs(old(self)@, now),
            r.1 == (old(self)@.status is Some && final(self)@.status is None),
    {
        let mut syncs: usize = 0;
        if due(self.secret_retry_at, now) {
            self.secret_retry_at = None;
            syncs = syncs + 1;
        }
        if due(self.backfill_at, now) {
            self.backfill_at = None;
            syncs = syncs + 1;
        }
        let mut expired = false;
        let mut left: Option<StatusToast> = None;
        std::mem::swap(&mut left, &mut self.status);
        match left {
            Some(StatusToast::Info { text, millis }) => {
                if millis <= elapsed {
                    expired = true;
                } else {
                    self.status = Some(StatusToast::Info { text, millis: millis - elapsed });
                }
            },
            other => {
                self.status = other;
            },
        }
        (syncs, expired)
    }
}

// ---------------------------------------------------------------------------
// Starting

/// What a URL prefills, as a mail.
pub open spec fn prefilled(p: PrefillView) -> OutgoingView {
    OutgoingView {
        to: p.to,
        cc: p.cc,
        bcc: p.bcc,
        subject: p.subject,
        body: p.body,
        attachments: Seq::empty(),
    }
}

/// The client as it starts: the account used last, else the default one; the
/// compose dialog open where a `mailto:` URL was given.
pub open spec fn started(
    accounts: Seq<AccountView>,
    last: Option<Seq<char>>,
    url: Option<Seq<char>>,
) -> AppView {
    let idx = starting_account(accounts, last) as usize;
    let prefill = match url {
        Some(u) => mailto_prefill(u),
        None => None,
    };
    AppView {
        accounts,
        selected: idx,
        account_row: idx,
        emails: Seq::empty(),
        folder: Folder::Inbox,
        selected_id: None,
        search: empty_field(),
        search_open: false,
        compose: match prefill {
            Some(p) => closed_dialog().filled(prefilled(p), "New Message"@),
            None => closed_dialog(),
        },
        last_sync: None,
        secret_retry_at: None,
        secret_missing_reported: false,
        backfill_at: None,
        status: None,
    }
}

impl MailApp {
    /// Start with these accounts. The mail of the selected one is to be loaded
    /// and a sync to be forced.
    pub fn start(
        accounts: Vec<AccountInfo>,
        last: &Option<String>,
        url: &Option<String>,
    ) -> (r: MailApp)
        ensures
            r@ == started(views(accounts@), opt_text(*last), opt_text(*url)),
    {
        let idx = initial_account(&accounts, last);
        let mut compose = Compose::new();
        let prefill = match url {
            Some(u) => parse_mailto(u.as_str()),
            None => None,
        };
        if let Some(p) = prefill {
            let m = OutgoingMail {
                to: p.to,
                cc: p.cc,
                bcc: p.bcc,
                subject: p.subject,
                body: p.body,
                attachments: Vec::new(),
            };
            assert(m@.attachments =~= Seq::empty());
            compose.fill(&m, "New Message");
        }
        let r = MailApp {
            accounts,
            selected_account_idx: idx,
            account_row: idx,
            emails: Vec::new(),
            current_folder: Folder::Inbox,
            selected_email_id: None,
            search: TextField::new(),
            search_open: false,
            compose,
            last_sync_start: None,
            secret_retry_at: None,
            secret_missing_reported: false,
            backfill_at: None,
            status: None,
        };
        assert(r@.emails =~= Seq::empty());
        r
    }
}

// ---------------------------------------------------------------------------
// Whether a message can be taken in

fn add_or_none(a: Option<usize>, b: usize) -> (r: Option<usize>)
    ensures
        match r {
            Some(n) => a is Some && n == a->0 + b,
            None => a is None || a->0 + b > usize::MAX,
        },
{
    match a {
        Some(n) => n.checked_add(b),
        None => None,
    }
}

fn total_fetched(folders: &Vec<FolderSync>) -> (r: Option<usize>)
    ensures
        match r {
            Some(n) => n == fetched_count(views(folders@)),
            None => fetched_count(views(folders@)) > usize::MAX,
        },
{
    let ghost all = views(folders@);
    let mut n: Option<usize> = Some(0);
    let mut i: usize = 0;
    while i < folders.len()
        invariant
            i <= folders@.len(),
            all == views(folders@),
            match n {
                Some(k) => k == fetched_count(all.take(i as int)),
                None => fetched_count(all.take(i as int)) > usize::MAX,
            },
        decreases folders@.len() - i,
    {
        assert(all.take(i + 1).drop_last() =~= all.take(i as int));
        n = add_or_none(n, folders[i].fetched.len());
        i = i + 1;
    }
    assert(all.take(i as int) =~= all);
    n
}

fn total_left_over(folders: &Vec<FolderSync>) -> (r: Option<usize>)
    ensures
        match r {
            Some(n) => n == left_over(views(folders@)),
            None => left_over(views(folders@)) > usize::MAX,
        },
{
    let ghost all = views(folders@);
    let mut n: Option<usize> = Some(0);
    let mut i: usize = 0;
    while i < folders.len()
        invariant
            i <= folders@.len(),
            all == views(folders@),
            match n {
                Some(k) => k == left_over(all.take(i as int)),
                None => left_over(all.take(i as int)) > usize::MAX,
            },
        decreases folders@.len() - i,
    {
        assert(all.take(i + 1).drop_last() =~= all.take(i as int));
        n = add_or_none(n, folders[i].remaining);
        i = i + 1;
    }
    assert(all.take(i as int) =~= all);
    n
}

/// Whether there are ids left for a merge.
pub fn merge_fits(prior: &Vec<Email>, folders: &Vec<FolderSync>) -> (r: bool)
    ensures
        r == ids_suffice(views(prior@), views(folders@)),
{
    let f = total_fetched(folders);
    let max = largest_id(prior);
    let sum = add_or_none(add_or_none(f, max), prior.len());
    proof {
        crate::merge::lemma_max_id(views(prior@));
    }
    match sum {
        Some(n) => n < usize::MAX,
        None => false,
    }
}

impl MailApp {
    /// Whether a message can be taken in.
    pub fn can_take(&self, msg: &AppMessage, now: u64) -> (r: bool)
        ensures
            r == ready_for(self@, *msg, now),
    {
        match msg {
            AppMessage::ComposeCancel => mail_is_empty(&self.compose.gather()) || largest_id(
                &self.emails,
            ) < usize::MAX,
            AppMessage::ComposeSend => !names_recipient(&self.compose.gather())
                || self.selected_account_idx < self.accounts.len(),
            AppMessage::SendResult(_, _) => largest_id(&self.emails) < usize::MAX,
            AppMessage::EmailsSynced(email, fs) => {
                let shown = match self.active_email() {
                    Some(a) => same(a.as_str(), email.as_str()),
                    None => false,
                };
                let late = now > u64::MAX - BACKFILL_DELAY_MILLIS;
                total_fetched(fs).is_some() && (!shown || merge_fits(&self.emails, fs))
                    && match total_left_over(fs) {
                    Some(n) => n == 0 || !late,
                    None => false,
                }
            },
            _ => true,
        }
    }
}

// ---------------------------------------------------------------------------
// Laws

/// An unforced sync is not started within the gap, a forced one always may.
pub proof fn the_throttle_keeps_its_distance(s: AppView, now: u64)
    ensures
        sync_due(s, true, now),
        s.last_sync matches Some(t) ==> (sync_due(s, false, now) <==> now - t
            >= MIN_SYNC_GAP_MILLIS),
{
}

/// A missing password starts no sync, leaves the throttle alone, and is
/// reported once however often it is retried.
pub proof fn a_missing_password_is_reported_once(s: AppView, now: u64, later: u64)
    requires
        s.selected < s.accounts.len(),
        lacks_login(s.accounts[s.selected as int]),
    ensures
        !sync_starts(s),
        sync_begun(s, now).last_sync == s.last_sync,
        sync_begun(s, now).secret_retry_at is Some,
        ({
            let once = ticked(sync_begun(s, now), 0, later);
            sync_begun(once, later).status == once.status
        }),
{
}

/// Once a sync starts, nothing is left to retry, and the next miss is
/// reported anew.
pub proof fn a_started_sync_clears_the_retry(s: AppView, now: u64)
    requires
        sync_starts(s),
    ensures
        sync_begun(s, now).secret_retry_at is None,
        !sync_begun(s, now).secret_missing_reported,
        sync_begun(s, now).last_sync == Some(now),
{
}

/// Time passing touches neither mail nor accounts, and never an error toast.
pub proof fn time_changes_only_timers(s: AppView, elapsed: u64, now: u64)
    ensures
        ticked(s, elapsed, now) == (AppView {
            secret_retry_at: ticked(s, elapsed, now).secret_retry_at,
            backfill_at: ticked(s, elapsed, now).backfill_at,
            status: ticked(s, elapsed, now).status,
            ..s
        }),
        s.status matches Some(ToastView::Error { .. }) ==> ticked(s, elapsed, now).status
            == s.status,
        due_syncs(ticked(s, elapsed, now), now) == 0,
{
}

} // verus!
