//! Accounts: which one is in use, where its secrets live, what goes to disk.

use vstd::prelude::*;
use crate::model::{views, views_push, AccountInfo, AccountView};
use crate::scan::{replace, replace_text, trim, trim_text};
use crate::text::{opt_text, same, texts, texts_push};

verus! {

// ---------------------------------------------------------------------------
// The list

/// The address of the built-in demo account.
pub const MOCK_EMAIL: &'static str = "lsgalante@cce-ui.org";

/// The password of the built-in demo account.
pub const MOCK_PASSWORD: &'static str = "mock_password";

/// The entry behind the accounts in the switcher; it opens the settings
/// instead of switching.
pub const MANAGE_ACCOUNTS_OPTION: &'static str = "Manage Accounts…";

pub open spec fn is_mock(a: AccountView) -> bool {
    a.password == "mock_password"@ || a.email == "lsgalante@cce-ui.org"@
}

/// True for the built-in demo account: workers skip the network entirely.
pub fn is_mock_account(account: &AccountInfo) -> (r: bool)
    ensures
        r == is_mock(account@),
{
    same(account.password.as_str(), "mock_password") || same(
        account.email.as_str(),
        "lsgalante@cce-ui.org",
    )
}

/// The switcher's options: one row per account, and the settings entry.
pub open spec fn dropdown_options(accounts: Seq<AccountView>) -> Seq<Seq<char>> {
    accounts.map_values(|a: AccountView| a.email).push("Manage Accounts…"@)
}

pub fn account_dropdown_options(accounts: &[AccountInfo]) -> (r: Vec<String>)
    ensures
        texts(r@) == dropdown_options(views(accounts@)),
{
    let mut out: Vec<String> = Vec::new();
    let mut i: usize = 0;
    let ghost all = views(accounts@).map_values(|a: AccountView| a.email);
    while i < accounts.len()
        invariant
            i <= accounts@.len(),
            all == views(accounts@).map_values(|a: AccountView| a.email),
            texts(out@) =~= all.take(i as int),
        decreases accounts@.len() - i,
    {
        broadcast use texts_push;

        out.push(accounts[i].email.clone());
        i = i + 1;
    }
    proof {
        assert(all.take(i as int) =~= all);
    }
    let last = "Manage Accounts…".to_owned();
    proof {
        texts_push(out@, last);
    }
    out.push(last);
    out
}

/// What choosing a row of the switcher means.
#[derive(Debug, Clone, Copy, PartialEq, Eq, Structural)]
pub enum AccountChoice {
    Select(usize),
    Manage,
}

/// A row past the accounts is the settings entry.
pub fn account_choice(row: usize, accounts: usize) -> (r: AccountChoice)
    ensures
        r == if row < accounts {
            AccountChoice::Select(row)
        } else {
            AccountChoice::Manage
        },
{
    if row < accounts {
        AccountChoice::Select(row)
    } else {
        AccountChoice::Manage
    }
}

/// The first account with this address; the number of accounts if there is
/// none.
pub open spec fn account_at(accounts: Seq<AccountView>, email: Seq<char>) -> int
    decreases accounts.len(),
{
    if accounts.len() == 0 || accounts[0].email == email {
        0
    } else {
        1 + account_at(accounts.drop_first(), email)
    }
}

/// The first default account; the number of accounts if there is none.
pub open spec fn default_at(accounts: Seq<AccountView>) -> int
    decreases accounts.len(),
{
    if accounts.len() == 0 || accounts[0].is_default {
        0
    } else {
        1 + default_at(accounts.drop_first())
    }
}

/// Where to start: the account used last, else the default, else the first.
pub open spec fn starting_account(accounts: Seq<AccountView>, last: Option<Seq<char>>) -> int {
    if last is Some && account_at(accounts, last->0) < accounts.len() {
        account_at(accounts, last->0)
    } else if default_at(accounts) < accounts.len() {
        default_at(accounts)
    } else {
        0
    }
}

pub fn find_account(accounts: &Vec<AccountInfo>, email: &str) -> (r: usize)
    ensures
        r == account_at(views(accounts@), email@),
        r <= accounts@.len(),
        r < accounts@.len() ==> accounts@[r as int]@.email == email@,
{
    let ghost all = views(accounts@);
    let mut i: usize = 0;
    assert(all.skip(0) =~= all);
    while i < accounts.len()
        invariant
            i <= accounts@.len(),
            all == views(accounts@),
            account_at(all, email@) == i + account_at(all.skip(i as int), email@),
        decreases accounts@.len() - i,
    {
        assert(all.skip(i as int)[0] == accounts@[i as int]@);
        if same(accounts[i].email.as_str(), email) {
            return i;
        }
        assert(all.skip(i as int).drop_first() =~= all.skip(i + 1));
        i = i + 1;
    }
    i
}

fn find_default(accounts: &Vec<AccountInfo>) -> (r: usize)
    ensures
        r == default_at(views(accounts@)),
        r <= accounts@.len(),
{
    let ghost all = views(accounts@);
    let mut i: usize = 0;
    assert(all.skip(0) =~= all);
    while i < accounts.len()
        invariant
            i <= accounts@.len(),
            all == views(accounts@),
            default_at(all) == i + default_at(all.skip(i as int)),
        decreases accounts@.len() - i,
    {
        assert(all.skip(i as int)[0] == accounts@[i as int]@);
        if accounts[i].is_default {
            return i;
        }
        assert(all.skip(i as int).drop_first() =~= all.skip(i + 1));
        i = i + 1;
    }
    i
}

/// The account to start with, given the address used last.
pub fn initial_account(accounts: &Vec<AccountInfo>, last: &Option<String>) -> (r: usize)
    ensures
        r == starting_account(views(accounts@), opt_text(*last)),
        accounts@.len() > 0 ==> r < accounts@.len(),
{
    if let Some(email) = last {
        let k = find_account(accounts, email.as_str());
        if k < accounts.len() {
            return k;
        }
    }
    let d = find_default(accounts);
    if d < accounts.len() {
        d
    } else {
        0
    }
}

/// The address a sidecar file names, if it names one.
pub open spec fn remembered(content: Seq<char>) -> Option<Seq<char>> {
    if trim(content).len() == 0 {
        None
    } else {
        Some(trim(content))
    }
}

pub fn remembered_email(content: &str) -> (r: Option<String>)
    ensures
        opt_text(r) == remembered(content@),
{
    let t = trim_text(content);
    if t.as_str().is_empty() {
        None
    } else {
        Some(t)
    }
}

/// The name of an account's mail cache.
pub open spec fn cache_name(email: Seq<char>) -> Seq<char> {
    "emails_"@ + replace(replace(email, "@"@, "_"@), "."@, "_"@) + ".json"@
}

pub fn cache_file_name(email: &str) -> (r: String)
    ensures
        r@ == cache_name(email@),
{
    proof {
        reveal_strlit("@");
        reveal_strlit(".");
    }
    let safe = replace_text(replace_text(email, "@", "_").as_str(), ".", "_");
    let mut out = "emails_".to_owned();
    out.append(safe.as_str());
    out.append(".json");
    out
}

/// The accounts to use where none are stored: the demo account.
pub fn default_accounts() -> (r: Vec<AccountInfo>)
    ensures
        views(r@) == seq![
            AccountView {
                email: "lsgalante@cce-ui.org"@,
                imap: "imap.cce-ui.org:993"@,
                smtp: "smtp.cce-ui.org:465"@,
                is_default: true,
                password: "mock_password"@,
                is_oauth: false,
                access_token: None,
                refresh_token: None,
                token_expiry: None,
                client_id: None,
                client_secret: None,
                keyring_backed: false,
            },
        ],
{
    let a = AccountInfo {
        email: "lsgalante@cce-ui.org".to_owned(),
        imap: "imap.cce-ui.org:993".to_owned(),
        smtp: "smtp.cce-ui.org:465".to_owned(),
        is_default: true,
        password: "mock_password".to_owned(),
        is_oauth: false,
        access_token: None,
        refresh_token: None,
        token_expiry: None,
        client_id: None,
        client_secret: None,
        keyring_backed: false,
    };
    let mut out: Vec<AccountInfo> = Vec::new();
    out.push(a);
    assert(views(out@) =~= seq![a@]);
    out
}

// ---------------------------------------------------------------------------
// What goes to disk

/// An account as it is stored: a password that the keyring holds is left out.
pub open spec fn stored(a: AccountView) -> AccountView {
    if a.keyring_backed {
        AccountView { password: Seq::empty(), ..a }
    } else {
        a
    }
}

/// The accounts as they are stored.
pub fn redacted(accounts: &[AccountInfo]) -> (r: Vec<AccountInfo>)
    ensures
        views(r@) == views(accounts@).map_values(|a: AccountView| stored(a)),
{
    let ghost all = views(accounts@).map_values(|a: AccountView| stored(a));
    let mut out: Vec<AccountInfo> = Vec::new();
    let mut i: usize = 0;
    while i < accounts.len()
        invariant
            i <= accounts@.len(),
            all == views(accounts@).map_values(|a: AccountView| stored(a)),
            views(out@) =~= all.take(i as int),
        decreases accounts@.len() - i,
    {
        broadcast use views_push;

        let mut a = accounts[i].clone();
        if a.keyring_backed {
            a.password = String::new();
            assert(a@.password =~= Seq::<char>::empty());
        }
        assert(all[i as int] == a@);
        out.push(a);
        assert(all.take(i + 1) =~= all.take(i as int).push(all[i as int]));
        i = i + 1;
    }
    assert(all.take(i as int) =~= all);
    out
}

/// No password that the keyring holds goes to disk, and nothing else is lost.
pub proof fn keyring_passwords_stay_off_disk(a: AccountView)
    ensures
        a.keyring_backed ==> stored(a).password.len() == 0,
        stored(a) == (AccountView { password: stored(a).password, ..a }),
        !a.keyring_backed ==> stored(a) == a,
        stored(stored(a)) == stored(a),
{
}

// ---------------------------------------------------------------------------
// Secrets

/// Keyring entries are keyed by service and address.
pub const KEYRING_SERVICE: &'static str = "cce-mail";

/// The service name entries were made under before.
pub const KEYRING_SERVICE_LEGACY: &'static str = "cce-email";

/// The next thing to do for an account's secret.
#[derive(Debug, Clone, Copy, PartialEq, Eq, Structural)]
pub enum SecretStep {
    /// Open the account's keyring entry.
    Open,
    /// Read the password from it.
    Read,
    /// Read the password from the legacy entry.
    ReadLegacy,
    /// Write the password, which the legacy entry holds, to the entry.
    Adopt,
    /// Write the password, which the file held, to the entry.
    Migrate,
    /// Delete the legacy entry.
    DropLegacy,
    Done,
}

/// What came of it.
#[derive(Debug, PartialEq)]
pub enum SecretEvent {
    /// An entry was opened or deleted, or a password written; or not.
    Worked(bool),
    /// A password was read, or none.
    Found(Option<String>),
}

pub ghost enum SecretEventView {
    Worked(bool),
    Found(Option<Seq<char>>),
}

impl View for SecretEvent {
    type V = SecretEventView;

    open spec fn view(&self) -> SecretEventView {
        match *self {
            SecretEvent::Worked(b) => SecretEventView::Worked(b),
            SecretEvent::Found(o) => SecretEventView::Found(opt_text(o)),
        }
    }
}

/// An account and the next step for its secret; and whether a password has
/// just moved out of the file.
pub ghost struct SecretState {
    pub account: AccountView,
    pub step: SecretStep,
    pub migrated: bool,
}

/// The demo account never touches the keyring.
pub open spec fn first_secret_step(a: AccountView) -> SecretStep {
    if is_mock(a) {
        SecretStep::Done
    } else {
        SecretStep::Open
    }
}

/// An empty password is filled from the keyring; another one is moved into it.
/// A legacy entry is copied forward first and dropped only once the new one
/// holds it.
pub open spec fn after_event(a: AccountView, step: SecretStep, e: SecretEventView) -> SecretState {
    let done = SecretState { account: a, step: SecretStep::Done, migrated: false };
    match (step, e) {
        (SecretStep::Open, SecretEventView::Worked(true)) => SecretState {
            account: a,
            step: if a.password.len() == 0 {
                SecretStep::Read
            } else {
                SecretStep::Migrate
            },
            migrated: false,
        },
        (SecretStep::Read, SecretEventView::Found(Some(p))) => SecretState {
            account: AccountView { password: p, keyring_backed: true, ..a },
            step: SecretStep::Done,
            migrated: false,
        },
        (SecretStep::Read, SecretEventView::Found(None)) => SecretState {
            account: a,
            step: SecretStep::ReadLegacy,
            migrated: false,
        },
        (SecretStep::ReadLegacy, SecretEventView::Found(Some(p))) => SecretState {
            account: AccountView { password: p, ..a },
            step: SecretStep::Adopt,
            migrated: false,
        },
        (SecretStep::Adopt, SecretEventView::Worked(true)) => SecretState {
            account: AccountView { keyring_backed: true, ..a },
            step: SecretStep::DropLegacy,
            migrated: false,
        },
        (SecretStep::Migrate, SecretEventView::Worked(true)) => SecretState {
            account: AccountView { keyring_backed: true, ..a },
            step: SecretStep::Done,
            migrated: true,
        },
        _ => done,
    }
}

/// Where to begin with an account's secret.
pub fn first_step(account: &AccountInfo) -> (r: SecretStep)
    ensures
        r == first_secret_step(account@),
{
    if is_mock_account(account) {
        SecretStep::Done
    } else {
        SecretStep::Open
    }
}

/// Take in what a step brought. Gives the next step, and whether a password
/// has just moved out of the file, which is then to be rewritten.
pub fn next_step(account: &mut AccountInfo, step: SecretStep, event: SecretEvent) -> (r: (
    SecretStep,
    bool,
))
    ensures
        (SecretState { account: final(account)@, step: r.0, migrated: r.1 }) == after_event(
            old(account)@,
            step,
            event@,
        ),
{
    match (step, event) {
        (SecretStep::Open, SecretEvent::Worked(true)) => {
            if account.password.as_str().is_empty() {
                (SecretStep::Read, false)
            } else {
                (SecretStep::Migrate, false)
            }
        },
        (SecretStep::Read, SecretEvent::Found(Some(p))) => {
            account.password = p;
            account.keyring_backed = true;
            (SecretStep::Done, false)
        },
        (SecretStep::Read, SecretEvent::Found(None)) => (SecretStep::ReadLegacy, false),
        (SecretStep::ReadLegacy, SecretEvent::Found(Some(p))) => {
            account.password = p;
            (SecretStep::Adopt, false)
        },
        (SecretStep::Adopt, SecretEvent::Worked(true)) => {
            account.keyring_backed = true;
            (SecretStep::DropLegacy, false)
        },
        (SecretStep::Migrate, SecretEvent::Worked(true)) => {
            account.keyring_backed = true;
            (SecretStep::Done, true)
        },
        _ => (SecretStep::Done, false),
    }
}

/// The two keyring entries of an account.
pub ghost struct Keyring {
    pub entry: Option<Seq<char>>,
    pub legacy: Option<Seq<char>>,
}

/// What a step does to a keyring that may be shut, and what comes of it.
pub open spec fn performed(k: Keyring, a: AccountView, step: SecretStep, works: bool) -> (
    Keyring,
    SecretEventView,
) {
    match step {
        SecretStep::Read => (k, SecretEventView::Found(if works {
            k.entry
        } else {
            None
        })),
        SecretStep::ReadLegacy => (k, SecretEventView::Found(if works {
            k.legacy
        } else {
            None
        })),
        SecretStep::Adopt | SecretStep::Migrate => (if works {
            Keyring { entry: Some(a.password), ..k }
        } else {
            k
        }, SecretEventView::Worked(works)),
        SecretStep::DropLegacy => (if works {
            Keyring { legacy: None, ..k }
        } else {
            k
        }, SecretEventView::Worked(works)),
        _ => (k, SecretEventView::Worked(works)),
    }
}

/// What holds between the steps: a password to adopt is the legacy one, and
/// the legacy entry is dropped only where the new one holds the same.
pub open spec fn secret_inv(k: Keyring, s: SecretState) -> bool {
    &&& s.step is Adopt ==> k.legacy == Some(s.account.password)
    &&& s.step is DropLegacy ==> k.entry == Some(s.account.password) && k.legacy == Some(
        s.account.password,
    )
}

/// No step loses a secret, whether it works or not: a password that the
/// legacy entry held is held by one of the entries afterwards; an account is
/// marked as backed by the keyring only where the keyring holds its password;
/// and a file's password is reported as moved only then.
pub proof fn no_secret_is_lost(k: Keyring, s: SecretState, works: bool)
    requires
        secret_inv(k, s),
    ensures
        ({
            let (k2, event) = performed(k, s.account, s.step, works);
            let t = after_event(s.account, s.step, event);
            &&& secret_inv(k2, t)
            &&& k.legacy is Some ==> k2.legacy == k.legacy || k2.entry == k.legacy
            &&& t.account.keyring_backed ==> s.account.keyring_backed || k2.entry == Some(
                t.account.password,
            )
            &&& t.migrated ==> t.account.keyring_backed && k2.entry == Some(t.account.password)
            &&& s.account.password.len() > 0 && !(s.step is Read) && !(s.step is ReadLegacy)
                ==> t.account.password == s.account.password
        }),
{
}

/// Resolving a secret takes at most five steps.
pub open spec fn steps_left(step: SecretStep) -> nat {
    match step {
        SecretStep::Open => 5,
        SecretStep::Read => 4,
        SecretStep::ReadLegacy => 3,
        SecretStep::Adopt => 2,
        SecretStep::Migrate => 2,
        SecretStep::DropLegacy => 1,
        SecretStep::Done => 0,
    }
}

/// Every event brings the resolution nearer to its end.
pub proof fn resolving_a_secret_ends(a: AccountView, step: SecretStep, e: SecretEventView)
    requires
        step != SecretStep::Done,
    ensures
        steps_left(after_event(a, step, e).step) < steps_left(step),
{
}

/// A demo account's secret is never resolved.
pub proof fn mock_accounts_skip_the_keyring(a: AccountView)
    ensures
        is_mock(a) <==> first_secret_step(a) == SecretStep::Done,
{
}

} // verus!
