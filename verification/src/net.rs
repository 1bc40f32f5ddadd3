//! Decisions of the workers that talk to servers.

use vstd::prelude::*;
use crate::json::{
    document_text, json_as_number, json_as_text, json_member, json_parse, member_of, number_in,
    string_in,
};
use crate::model::{AccountInfo, AccountView};
use crate::number::{decimal, decimal_text, parse_unsigned, parsed};
use crate::path::{file_name, file_name_of};
use crate::scan::{join, rsplit_once, split, split_at_last, split_text};
use crate::structure::{decimals, section_str};
use crate::text::{opt_text, same, texts};

verus! {

// ---------------------------------------------------------------------------
// Endpoints

/// The port for IMAP where none is given.
pub const IMAP_PORT: u16 = 993;

/// The port for SMTP where none is given; it talks TLS from the start.
pub const SMTP_PORT: u16 = 465;

/// A server to connect to.
#[derive(Debug, Clone, PartialEq)]
pub struct Endpoint {
    pub domain: String,
    pub port: u16,
}

/// What stands before the first colon.
pub open spec fn domain_of(server: Seq<char>) -> Seq<char> {
    split(server, ':')[0]
}

/// The port between the first colon and the next one, where there is one.
pub open spec fn port_of(server: Seq<char>, default: u16) -> nat {
    let parts = split(server, ':');
    if parts.len() > 1 {
        match parsed(parts[1], u16::MAX as nat) {
            Some(p) => p,
            None => default as nat,
        }
    } else {
        default as nat
    }
}

/// Read a `host:port` text.
pub fn endpoint(server: &str, default: u16) -> (r: Endpoint)
    ensures
        r.domain@ == domain_of(server@),
        r.port as nat == port_of(server@, default),
{
    let parts = split_text(server, ':');
    assert(texts(parts@)[0] == parts@[0]@);
    let domain = parts[0].clone();
    let mut port: u16 = default;
    if parts.len() > 1 {
        assert(texts(parts@)[1] == parts@[1]@);
        if let Some(p) = parse_unsigned(parts[1].as_str(), 65535) {
            port = p as u16;
        }
    }
    Endpoint { domain, port }
}

/// How a mail server is talked to.
#[derive(Debug, Clone, Copy, PartialEq, Eq, Structural)]
pub enum Security {
    /// TLS from the first byte.
    Tls,
    /// TLS once the server agreed.
    StartTls,
}

/// Only the default port talks TLS from the start.
pub fn smtp_security(port: u16) -> (r: Security)
    ensures
        r == if port == SMTP_PORT {
            Security::Tls
        } else {
            Security::StartTls
        },
{
    if port == SMTP_PORT {
        Security::Tls
    } else {
        Security::StartTls
    }
}

/// What an OAuth login sends.
pub open spec fn oauth_text(user: Seq<char>, token: Seq<char>) -> Seq<char> {
    "user="@ + user + "\u{1}auth=Bearer "@ + token + "\u{1}\u{1}"@
}

pub fn oauth_response(user: &str, token: &str) -> (r: String)
    ensures
        r@ == oauth_text(user@, token@),
{
    let mut t = "user=".to_owned();
    t.append(user);
    t.append("\u{1}auth=Bearer ");
    t.append(token);
    t.append("\u{1}\u{1}");
    t
}

// ---------------------------------------------------------------------------
// Tokens

/// A token is renewed this long before it expires.
pub const TOKEN_BUFFER_SECS: u64 = 300;

/// How long a token lasts where the server does not say.
pub const TOKEN_LIFETIME_SECS: u64 = 3600;

/// How to come by an access token.
#[derive(Debug, PartialEq)]
pub enum TokenStep {
    /// The token at hand is still good.
    Use(String),
    /// Ask for another one with this refresh token.
    Refresh(String),
    Fail(String),
}

pub ghost enum TokenView {
    Use(Seq<char>),
    Refresh(Seq<char>),
    Fail(Seq<char>),
}

impl View for TokenStep {
    type V = TokenView;

    open spec fn view(&self) -> TokenView {
        match *self {
            TokenStep::Use(t) => TokenView::Use(t@),
            TokenStep::Refresh(t) => TokenView::Refresh(t@),
            TokenStep::Fail(t) => TokenView::Fail(t@),
        }
    }
}

/// Whether an account's token lasts beyond the safety buffer.
pub open spec fn token_is_fresh(a: AccountView, now: u64) -> bool {
    a.access_token is Some && a.token_expiry is Some && a.token_expiry->0 > now
        + TOKEN_BUFFER_SECS
}

pub open spec fn token_step_of(a: AccountView, now: u64) -> TokenView {
    if !a.is_oauth {
        TokenView::Fail("Not an OAuth account"@)
    } else if token_is_fresh(a, now) {
        TokenView::Use(a.access_token->0)
    } else {
        match a.refresh_token {
            Some(t) => TokenView::Refresh(t),
            None => TokenView::Fail("No refresh token"@),
        }
    }
}

/// How to come by an access token at time `now`, in seconds.
pub fn token_step(account: &AccountInfo, now: u64) -> (r: TokenStep)
    ensures
        r@ == token_step_of(account@, now),
{
    if !account.is_oauth {
        return TokenStep::Fail("Not an OAuth account".to_owned());
    }
    if let Some(token) = &account.access_token {
        if let Some(expiry) = account.token_expiry {
            if expiry >= TOKEN_BUFFER_SECS && expiry - TOKEN_BUFFER_SECS > now {
                return TokenStep::Use(token.clone());
            }
        }
    }
    match &account.refresh_token {
        Some(t) => TokenStep::Refresh(t.clone()),
        None => TokenStep::Fail("No refresh token".to_owned()),
    }
}

/// The account's own value, else the configured one.
pub open spec fn own_or(own: Option<Seq<char>>, configured: Seq<char>) -> Seq<char> {
    match own {
        Some(v) => v,
        None => configured,
    }
}

/// The form a refresh request carries, as names and values.
pub fn refresh_form(
    account: &AccountInfo,
    refresh_token: &str,
    client_id: &str,
    client_secret: &str,
) -> (r: Vec<(String, String)>)
    ensures
        r@.len() == 4,
        r@[0].0@ == "client_id"@,
        r@[0].1@ == own_or(account@.client_id, client_id@),
        r@[1].0@ == "client_secret"@,
        r@[1].1@ == own_or(account@.client_secret, client_secret@),
        r@[2].0@ == "refresh_token"@,
        r@[2].1@ == refresh_token@,
        r@[3].0@ == "grant_type"@,
        r@[3].1@ == "refresh_token"@,
{
    let id = match &account.client_id {
        Some(v) => v.clone(),
        None => client_id.to_owned(),
    };
    let secret = match &account.client_secret {
        Some(v) => v.clone(),
        None => client_secret.to_owned(),
    };
    let mut form: Vec<(String, String)> = Vec::new();
    form.push(("client_id".to_owned(), id));
    form.push(("client_secret".to_owned(), secret));
    form.push(("refresh_token".to_owned(), refresh_token.to_owned()));
    form.push(("grant_type".to_owned(), "refresh_token".to_owned()));
    form
}

/// How long the new token lasts.
pub open spec fn lifetime(expires_in: Option<u64>) -> u64 {
    match expires_in {
        Some(n) => n,
        None => TOKEN_LIFETIME_SECS,
    }
}

/// Take in the reply to a refresh request: the new token, empty where the
/// reply had none, and how long it lasts.
pub fn take_token(
    account: &mut AccountInfo,
    access_token: Option<String>,
    expires_in: Option<u64>,
    now: u64,
) -> (r: String)
    requires
        now + lifetime(expires_in) <= u64::MAX,
    ensures
        r@ == own_or(opt_text(access_token), Seq::empty()),
        final(account)@ == (AccountView {
            access_token: Some(r@),
            token_expiry: Some((now + lifetime(expires_in)) as u64),
            ..old(account)@
        }),
{
    let token = match access_token {
        Some(t) => t,
        None => {
            let empty = String::new();
            assert(empty@ =~= Seq::<char>::empty());
            empty
        },
    };
    let lasts: u64 = match expires_in {
        Some(n) => n,
        None => TOKEN_LIFETIME_SECS,
    };
    account.access_token = Some(token.clone());
    account.token_expiry = Some(now + lasts);
    token
}

/// What a refresh request came to.
#[derive(Debug, PartialEq)]
pub enum RefreshReply {
    /// No answer; why.
    Unreachable(String),
    /// An answer other than success: its status and its text.
    Refused(String, String),
    /// A success that could not be read.
    Unreadable,
    /// The new token and how long it lasts, as far as the reply says.
    Granted(Option<String>, Option<u64>),
}

pub ghost enum RefreshView {
    Unreachable(Seq<char>),
    Refused(Seq<char>, Seq<char>),
    Unreadable,
    Granted(Option<Seq<char>>, Option<u64>),
}

impl View for RefreshReply {
    type V = RefreshView;

    open spec fn view(&self) -> RefreshView {
        match *self {
            RefreshReply::Unreachable(e) => RefreshView::Unreachable(e@),
            RefreshReply::Refused(s, t) => RefreshView::Refused(s@, t@),
            RefreshReply::Unreadable => RefreshView::Unreadable,
            RefreshReply::Granted(t, n) => RefreshView::Granted(opt_text(t), n),
        }
    }
}

/// What a document, given by its compact text, grants.
pub open spec fn granted(document: Option<Seq<char>>) -> RefreshView {
    match document {
        None => RefreshView::Unreadable,
        Some(d) => RefreshView::Granted(
            match member_of(d, "access_token"@) {
                Some(t) => string_in(t),
                None => None,
            },
            match member_of(d, "expires_in"@) {
                Some(n) => number_in(n),
                None => None,
            },
        ),
    }
}

/// Read the body of a successful reply.
pub fn read_refresh_reply(body: &[u8]) -> (r: RefreshReply)
    ensures
        r@ == granted(document_text(body@)),
{
    match json_parse(body) {
        None => RefreshReply::Unreadable,
        Some(v) => {
            let token = match json_member(&v, "access_token") {
                Some(t) => json_as_text(&t),
                None => None,
            };
            let lasts = match json_member(&v, "expires_in") {
                Some(n) => json_as_number(&n),
                None => None,
            };
            RefreshReply::Granted(token, lasts)
        },
    }
}

/// The token, or why there is none.
pub open spec fn refresh_outcome(reply: RefreshView) -> Result<Seq<char>, Seq<char>> {
    match reply {
        RefreshView::Unreachable(e) => Err("Refresh request request failed: "@ + e),
        RefreshView::Refused(status, text) => Err(
            "Refresh request failed status: "@ + status + ", error: "@ + text,
        ),
        RefreshView::Unreadable => Err("Failed to parse refresh token JSON response"@),
        RefreshView::Granted(token, lasts) => Ok(own_or(token, Seq::empty())),
    }
}

/// The account once the reply is in.
pub open spec fn after_refresh(a: AccountView, reply: RefreshView, now: u64) -> AccountView {
    match reply {
        RefreshView::Granted(token, lasts) => AccountView {
            access_token: Some(own_or(token, Seq::empty())),
            token_expiry: Some((now + lifetime(lasts)) as u64),
            ..a
        },
        _ => a,
    }
}

/// The texts of an outcome.
pub open spec fn outcome_text(r: Result<String, String>) -> Result<Seq<char>, Seq<char>> {
    match r {
        Ok(t) => Ok(t@),
        Err(e) => Err(e@),
    }
}

/// Take in what a refresh request came to. Gives the token to use, or why
/// there is none.
pub fn refreshed(account: &mut AccountInfo, reply: RefreshReply, now: u64) -> (r: Result<
    String,
    String,
>)
    requires
        reply matches RefreshReply::Granted(_, lasts) ==> now + lifetime(lasts) <= u64::MAX,
    ensures
        outcome_text(r) == refresh_outcome(reply@),
        final(account)@ == after_refresh(old(account)@, reply@, now),
{
    match reply {
        RefreshReply::Unreachable(e) => {
            let mut t = "Refresh request request failed: ".to_owned();
            t.append(e.as_str());
            Err(t)
        },
        RefreshReply::Refused(status, text) => {
            let mut t = "Refresh request failed status: ".to_owned();
            t.append(status.as_str());
            t.append(", error: ");
            t.append(text.as_str());
            Err(t)
        },
        RefreshReply::Unreadable => Err("Failed to parse refresh token JSON response".to_owned()),
        RefreshReply::Granted(token, lasts) => Ok(take_token(account, token, lasts, now)),
    }
}

// ---------------------------------------------------------------------------
// Mailboxes and flags

/// The mailboxes a folder may be called on a server, in the order they are
/// tried.
pub open spec fn mailboxes_of(folder: Seq<char>) -> Seq<Seq<char>> {
    if folder == "sent"@ {
        seq!["[Gmail]/Sent Mail"@, "Sent"@]
    } else {
        seq!["INBOX"@]
    }
}

pub fn mailboxes(folder: &str) -> (r: Vec<String>)
    ensures
        texts(r@) == mailboxes_of(folder@),
{
    let mut out: Vec<String> = Vec::new();
    if same(folder, "sent") {
        out.push("[Gmail]/Sent Mail".to_owned());
        out.push("Sent".to_owned());
    } else {
        out.push("INBOX".to_owned());
    }
    assert(texts(out@) =~= mailboxes_of(folder@));
    out
}

/// The mailboxes a deleted message is copied to, in the order they are tried.
pub fn trash_mailboxes() -> (r: Vec<String>)
    ensures
        texts(r@) == seq!["[Gmail]/Trash"@, "Trash"@],
{
    let mut out: Vec<String> = Vec::new();
    out.push("[Gmail]/Trash".to_owned());
    out.push("Trash".to_owned());
    assert(texts(out@) =~= seq!["[Gmail]/Trash"@, "Trash"@]);
    out
}

/// The flag change that deletes a message.
pub const DELETE_FLAGS: &'static str = "+FLAGS (\\Deleted)";

/// The flag change that marks a message as seen, or as not.
pub fn seen_flags(seen: bool) -> (r: &'static str)
    ensures
        r@ == if seen {
            "+FLAGS (\\Seen)"@
        } else {
            "-FLAGS (\\Seen)"@
        },
{
    if seen {
        "+FLAGS (\\Seen)"
    } else {
        "-FLAGS (\\Seen)"
    }
}

/// What fetches an attachment.
pub fn attachment_query(section: &Vec<u32>) -> (r: String)
    ensures
        r@ == "(BODY.PEEK["@ + join(decimals(section@), "."@) + "])"@,
{
    let mut t = "(BODY.PEEK[".to_owned();
    t.append(section_str(section).as_str());
    t.append("])");
    t
}

// ---------------------------------------------------------------------------
// Saving attachments

/// The file name of an attachment: the last component of what the server
/// said, so that no name escapes the directory.
pub open spec fn download_base(name: Seq<char>) -> Seq<char> {
    match file_name(name) {
        Some(n) => n,
        None => "attachment"@,
    }
}

/// A file name before its extension, and the extension with its dot.
pub open spec fn stem_and_extension(base: Seq<char>) -> (Seq<char>, Seq<char>) {
    match rsplit_once(base, '.') {
        Some(p) => if p.0.len() > 0 {
            (p.0, "."@ + p.1)
        } else {
            (base, Seq::empty())
        },
        None => (base, Seq::empty()),
    }
}

/// The `n`th name to try; the first one is the name itself.
pub open spec fn candidate(name: Seq<char>, n: nat) -> Seq<char> {
    let base = download_base(name);
    let p = stem_and_extension(base);
    if n == 0 {
        base
    } else {
        p.0 + " ("@ + decimal(n) + ")"@ + p.1
    }
}

/// The `n`th name to try for an attachment, until one is free.
pub fn download_name(name: &str, n: u64) -> (r: String)
    ensures
        r@ == candidate(name@, n as nat),
{
    let base = match file_name_of(name) {
        Some(b) => b,
        None => "attachment".to_owned(),
    };
    if n == 0 {
        return base;
    }
    let (stem, ext) = match split_at_last(base.as_str(), '.') {
        Some((s, e)) => {
            if s.as_str().is_empty() {
                let empty = String::new();
                assert(empty@ =~= Seq::<char>::empty());
                (base, empty)
            } else {
                let mut x = ".".to_owned();
                x.append(e.as_str());
                (s, x)
            }
        },
        None => {
            let empty = String::new();
            assert(empty@ =~= Seq::<char>::empty());
            (base, empty)
        },
    };
    let mut out = stem;
    out.append(" (");
    out.append(decimal_text(n).as_str());
    out.append(")");
    out.append(ext.as_str());
    out
}

// ---------------------------------------------------------------------------
// Laws

/// A token is used only while it lasts beyond the buffer, and one that was
/// just taken in for longer than that is used next time.
pub proof fn tokens_are_used_while_fresh(a: AccountView, now: u64, later: u64, token: Seq<char>, lasts: u64)
    requires
        a.is_oauth,
    ensures
        token_step_of(a, now) matches TokenView::Use(t) ==> token_is_fresh(a, now),
        ({
            let b = AccountView {
                access_token: Some(token),
                token_expiry: Some((now + lasts) as u64),
                ..a
            };
            now <= later && now + lasts <= u64::MAX && later + TOKEN_BUFFER_SECS < now + lasts
                ==> token_step_of(b, later) == TokenView::Use(token)
        }),
{
}

pub open spec fn has_slash(s: Seq<char>) -> bool {
    exists|i: int| 0 <= i < s.len() && s[i] == '/'
}

proof fn lemma_no_slash_parts(a: Seq<char>, b: Seq<char>)
    requires
        !has_slash(a),
        !has_slash(b),
    ensures
        !has_slash(a + b),
{
    assert forall|i: int| 0 <= i < (a + b).len() implies (a + b)[i] != '/' by {
        if i < a.len() {
            assert((a + b)[i] == a[i]);
        } else {
            assert((a + b)[i] == b[i - a.len()]);
        }
    }
}

proof fn lemma_decimal_no_slash(n: nat)
    ensures
        !has_slash(decimal(n)),
{
    crate::number::decimal_reads_back(n, n);
}

/// Whatever name a server gives an attachment, it is saved in the directory
/// it is meant for: no name to try holds a slash, is empty, or is `.` or `..`.
pub proof fn downloads_stay_in_their_directory(name: Seq<char>, n: nat)
    ensures
        !has_slash(candidate(name, n)),
        candidate(name, n).len() > 0,
        candidate(name, n) != seq!['.'],
        candidate(name, n) != seq!['.', '.'],
{
    crate::path::file_name_is_one_component(name);
    reveal_strlit("attachment");
    let base = download_base(name);
    assert(!has_slash(base) && base.len() > 0);
    assert(base != seq!['.'] && base != seq!['.', '.']) by {
        if file_name(name) is None {
            assert(base.len() == 10);
        }
    }
    if n > 0 {
        let p = stem_and_extension(base);
        reveal_strlit(".");
        reveal_strlit(" (");
        reveal_strlit(")");
        assert(!has_slash(p.0) && !has_slash(p.1)) by {
            crate::scan::lemma_last_index(base, '.');
            if let Some(k) = crate::scan::last_index(base, '.') {
                let s = base.take(k);
                let e = base.skip(k + 1);
                assert forall|i: int| 0 <= i < s.len() implies s[i] != '/' by {
                    assert(s[i] == base[i]);
                }
                assert forall|i: int| 0 <= i < e.len() implies e[i] != '/' by {
                    assert(e[i] == base[k + 1 + i]);
                }
                lemma_no_slash_parts("."@, e);
            }
        }
        lemma_decimal_no_slash(n);
        crate::number::decimal_reads_back(n, n);
        lemma_no_slash_parts(p.0, " ("@);
        lemma_no_slash_parts(p.0 + " ("@, decimal(n));
        lemma_no_slash_parts(p.0 + " ("@ + decimal(n), ")"@);
        lemma_no_slash_parts(p.0 + " ("@ + decimal(n) + ")"@, p.1);
        assert(candidate(name, n).len() > 3);
    }
}

/// Different numbers give different names, so that a free one is found.
pub proof fn candidates_differ(name: Seq<char>, m: nat, n: nat)
    requires
        0 < m,
        0 < n,
        candidate(name, m) == candidate(name, n),
    ensures
        m == n,
{
    let p = stem_and_extension(download_base(name));
    let a = decimal(m);
    let b = decimal(n);
    let left = p.0 + " ("@;
    let right = ")"@ + p.1;
    let x = candidate(name, m);
    let y = candidate(name, n);
    assert(x =~= left + a + right);
    assert(y =~= left + b + right);
    assert(x.len() == left.len() + a.len() + right.len());
    assert(y.len() == left.len() + b.len() + right.len());
    assert(a.len() == b.len());
    assert(x.subrange(left.len() as int, left.len() as int + a.len()) =~= a);
    assert(y.subrange(left.len() as int, left.len() as int + b.len()) =~= b);
    crate::number::decimal_reads_back(m, m);
    crate::number::decimal_reads_back(n, n);
}

} // verus!
