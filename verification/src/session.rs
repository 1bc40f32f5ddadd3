//! Opening a session with a mail server, step by step.
//!
//! A worker carries out [`Opening::step`], hands the outcome to
//! [`Opening::take`], and goes on until the session is opened or has failed.

use vstd::prelude::*;
use crate::model::{views, AccountInfo, AccountView};
use crate::net::{domain_of, endpoint, oauth_response, oauth_text, port_of, IMAP_PORT};
use crate::state::AppMessage;
use crate::text::{copy_opt, opt_text};

verus! {

// ---------------------------------------------------------------------------
// What a worker says

/// What a worker has to say while it works. All of it but the tokens is
/// logged.
#[derive(Debug, PartialEq)]
pub enum Said {
    /// For the user, unless the worker is a quiet one.
    Note(String),
    /// A failure for the user, unless the worker is a quiet one.
    Error(String),
    /// For the log alone.
    Log(String),
    /// An account's new tokens: its address, its access token, the expiry.
    Tokens(String, Option<String>, Option<u64>),
}

pub ghost enum SaidView {
    Note(Seq<char>),
    Error(Seq<char>),
    Log(Seq<char>),
    Tokens(Seq<char>, Option<Seq<char>>, Option<u64>),
}

impl View for Said {
    type V = SaidView;

    open spec fn view(&self) -> SaidView {
        match *self {
            Said::Note(t) => SaidView::Note(t@),
            Said::Error(t) => SaidView::Error(t@),
            Said::Log(t) => SaidView::Log(t@),
            Said::Tokens(a, t, e) => SaidView::Tokens(a@, opt_text(t), e),
        }
    }
}

/// The message for the client; a quiet worker passes on tokens alone.
pub fn said_message(said: Said, verbose: bool) -> (r: Option<AppMessage>)
    ensures
        match said {
            Said::Note(t) => if verbose {
                r == Some(AppMessage::Status(t))
            } else {
                r is None
            },
            Said::Error(t) => if verbose {
                r == Some(AppMessage::StatusError(t))
            } else {
                r is None
            },
            Said::Log(t) => r is None,
            Said::Tokens(a, t, e) => r == Some(AppMessage::UpdateAccountTokens(a, t, e)),
        },
{
    match said {
        Said::Note(t) => if verbose {
            Some(AppMessage::Status(t))
        } else {
            None
        },
        Said::Error(t) => if verbose {
            Some(AppMessage::StatusError(t))
        } else {
            None
        },
        Said::Log(_) => None,
        Said::Tokens(a, t, e) => Some(AppMessage::UpdateAccountTokens(a, t, e)),
    }
}

/// A text that ends in what went wrong.
pub(crate) fn because(what: &str, why: &str) -> (r: String)
    ensures
        r@ == what@ + why@,
{
    let mut t = what.to_owned();
    t.append(why);
    t
}

pub(crate) fn say_one(s: Said) -> (r: Vec<Said>)
    ensures
        views(r@) == seq![s@],
{
    let mut v: Vec<Said> = Vec::new();
    v.push(s);
    assert(views(v@) =~= seq![s@]);
    v
}

pub(crate) fn say_nothing() -> (r: Vec<Said>)
    ensures
        views(r@) == Seq::<SaidView>::empty(),
{
    let v: Vec<Said> = Vec::new();
    assert(views(v@) =~= Seq::<SaidView>::empty());
    v
}

// ---------------------------------------------------------------------------
// Opening

#[derive(Debug, Clone, Copy, PartialEq, Eq, Structural)]
pub enum OpenStage {
    Token,
    Connect,
    Login,
    Opened,
    Failed,
}

/// A session being opened.
#[derive(Debug)]
pub struct Opening {
    pub account: AccountInfo,
    pub stage: OpenStage,
    /// What the login proves itself with.
    pub token: String,
}

#[verifier::ext_equal]
pub ghost struct OpeningView {
    pub account: AccountView,
    pub stage: OpenStage,
    pub token: Seq<char>,
}

impl View for Opening {
    type V = OpeningView;

    open spec fn view(&self) -> OpeningView {
        OpeningView { account: self.account@, stage: self.stage, token: self.token@ }
    }
}

/// What to do next.
#[derive(Debug, PartialEq)]
pub enum OpenStep {
    /// Come by an access token.
    Token,
    /// Say `note`, and connect over TLS.
    Connect { domain: String, port: u16, note: String },
    /// Log in with an address and a password.
    Login(String, String),
    /// Log in by the `XOAUTH2` mechanism, with this response.
    Authenticate(String),
    /// The session can be used.
    Opened,
    /// There is no session.
    Failed,
}

pub ghost enum OpenStepView {
    Token,
    Connect { domain: Seq<char>, port: nat, note: Seq<char> },
    Login(Seq<char>, Seq<char>),
    Authenticate(Seq<char>),
    Opened,
    Failed,
}

impl View for OpenStep {
    type V = OpenStepView;

    open spec fn view(&self) -> OpenStepView {
        match *self {
            OpenStep::Token => OpenStepView::Token,
            OpenStep::Connect { domain, port, note } => OpenStepView::Connect {
                domain: domain@,
                port: port as nat,
                note: note@,
            },
            OpenStep::Login(a, p) => OpenStepView::Login(a@, p@),
            OpenStep::Authenticate(t) => OpenStepView::Authenticate(t@),
            OpenStep::Opened => OpenStepView::Opened,
            OpenStep::Failed => OpenStepView::Failed,
        }
    }
}

/// How a step came out.
#[derive(Debug, PartialEq)]
pub enum OpenReply {
    /// A token to use, and the account's token and expiry from now on.
    Token(String, Option<String>, Option<u64>),
    /// There is no TLS to connect with.
    NoTls,
    Done,
    /// It did not work; why.
    Failed(String),
}

pub ghost enum OpenReplyView {
    Token(Seq<char>, Option<Seq<char>>, Option<u64>),
    NoTls,
    Done,
    Failed(Seq<char>),
}

impl View for OpenReply {
    type V = OpenReplyView;

    open spec fn view(&self) -> OpenReplyView {
        match *self {
            OpenReply::Token(t, a, e) => OpenReplyView::Token(t@, opt_text(a), e),
            OpenReply::NoTls => OpenReplyView::NoTls,
            OpenReply::Done => OpenReplyView::Done,
            OpenReply::Failed(e) => OpenReplyView::Failed(e@),
        }
    }
}

/// How opening starts: only an OAuth account needs a token.
pub open spec fn opening_of(a: AccountView) -> OpeningView {
    OpeningView {
        account: a,
        stage: if a.is_oauth {
            OpenStage::Token
        } else {
            OpenStage::Connect
        },
        token: a.password,
    }
}

pub open spec fn open_step(o: OpeningView) -> OpenStepView {
    match o.stage {
        OpenStage::Token => OpenStepView::Token,
        OpenStage::Connect => OpenStepView::Connect {
            domain: domain_of(o.account.imap),
            port: port_of(o.account.imap, IMAP_PORT),
            note: "Connecting to "@ + o.account.imap + "..."@,
        },
        OpenStage::Login => if o.account.is_oauth {
            OpenStepView::Authenticate(oauth_text(o.account.email, o.token))
        } else {
            OpenStepView::Login(o.account.email, o.account.password)
        },
        OpenStage::Opened => OpenStepView::Opened,
        OpenStage::Failed => OpenStepView::Failed,
    }
}

/// The opening after a reply. One that answers no question changes nothing.
pub open spec fn opening_after(o: OpeningView, reply: OpenReplyView) -> OpeningView {
    match (o.stage, reply) {
        (OpenStage::Token, OpenReplyView::Token(token, access_token, token_expiry)) => OpeningView {
            account: AccountView { access_token, token_expiry, ..o.account },
            stage: OpenStage::Connect,
            token,
        },
        (OpenStage::Connect, OpenReplyView::Done) => OpeningView { stage: OpenStage::Login, ..o },
        (OpenStage::Login, OpenReplyView::Done) => OpeningView { stage: OpenStage::Opened, ..o },
        (OpenStage::Connect, OpenReplyView::NoTls) => OpeningView { stage: OpenStage::Failed, ..o },
        (OpenStage::Token, OpenReplyView::Failed(_)) => OpeningView {
            stage: OpenStage::Failed,
            ..o
        },
        (OpenStage::Connect, OpenReplyView::Failed(_)) => OpeningView {
            stage: OpenStage::Failed,
            ..o
        },
        (OpenStage::Login, OpenReplyView::Failed(_)) => OpeningView {
            stage: OpenStage::Failed,
            ..o
        },
        _ => o,
    }
}

/// What is said at a reply.
pub open spec fn opening_says(o: OpeningView, reply: OpenReplyView) -> Seq<SaidView> {
    match (o.stage, reply) {
        (OpenStage::Token, OpenReplyView::Token(_, access_token, token_expiry)) => seq![
            SaidView::Tokens(o.account.email, access_token, token_expiry),
        ],
        (OpenStage::Token, OpenReplyView::Failed(e)) => seq![
            SaidView::Error("OAuth Refresh Failed: "@ + e),
        ],
        (OpenStage::Connect, OpenReplyView::NoTls) => seq![
            SaidView::Error("Failed to create TLS connector"@),
        ],
        (OpenStage::Connect, OpenReplyView::Failed(e)) => seq![
            SaidView::Error("IMAP Connection failed: "@ + e),
        ],
        (OpenStage::Login, OpenReplyView::Failed(e)) => seq![
            SaidView::Error(
                (if o.account.is_oauth {
                    "IMAP OAuth Login failed: "@
                } else {
                    "IMAP Login failed: "@
                }) + e,
            ),
        ],
        _ => Seq::empty(),
    }
}

impl Opening {
    pub fn new(account: AccountInfo) -> (r: Self)
        ensures
            r@ == opening_of(account@),
    {
        let token = account.password.clone();
        let stage = if account.is_oauth {
            OpenStage::Token
        } else {
            OpenStage::Connect
        };
        Opening { account, stage, token }
    }

    pub fn step(&self) -> (r: OpenStep)
        ensures
            r@ == open_step(self@),
    {
        match self.stage {
            OpenStage::Token => OpenStep::Token,
            OpenStage::Connect => {
                let e = endpoint(self.account.imap.as_str(), IMAP_PORT);
                let mut note = "Connecting to ".to_owned();
                note.append(self.account.imap.as_str());
                note.append("...");
                OpenStep::Connect { domain: e.domain, port: e.port, note }
            },
            OpenStage::Login => if self.account.is_oauth {
                OpenStep::Authenticate(
                    oauth_response(self.account.email.as_str(), self.token.as_str()),
                )
            } else {
                OpenStep::Login(self.account.email.clone(), self.account.password.clone())
            },
            OpenStage::Opened => OpenStep::Opened,
            OpenStage::Failed => OpenStep::Failed,
        }
    }

    /// Take in how the step came out. Gives what there is to say of it.
    pub fn take(&mut self, reply: OpenReply) -> (r: Vec<Said>)
        ensures
            final(self)@ == opening_after(old(self)@, reply@),
            views(r@) == opening_says(old(self)@, reply@),
    {
        match reply {
            OpenReply::Token(token, access_token, expiry) => match self.stage {
                OpenStage::Token => {
                    let told = copy_opt(&access_token);
                    self.account.access_token = access_token;
                    self.account.token_expiry = expiry;
                    self.token = token;
                    self.stage = OpenStage::Connect;
                    say_one(Said::Tokens(self.account.email.clone(), told, expiry))
                },
                _ => say_nothing(),
            },
            OpenReply::NoTls => match self.stage {
                OpenStage::Connect => {
                    self.stage = OpenStage::Failed;
                    say_one(Said::Error("Failed to create TLS connector".to_owned()))
                },
                _ => say_nothing(),
            },
            OpenReply::Done => {
                match self.stage {
                    OpenStage::Connect => {
                        self.stage = OpenStage::Login;
                    },
                    OpenStage::Login => {
                        self.stage = OpenStage::Opened;
                    },
                    _ => {},
                }
                say_nothing()
            },
            OpenReply::Failed(e) => {
                let said = match self.stage {
                    OpenStage::Token => because("OAuth Refresh Failed: ", e.as_str()),
                    OpenStage::Connect => because("IMAP Connection failed: ", e.as_str()),
                    OpenStage::Login => if self.account.is_oauth {
                        because("IMAP OAuth Login failed: ", e.as_str())
                    } else {
                        because("IMAP Login failed: ", e.as_str())
                    },
                    _ => {
                        return say_nothing();
                    },
                };
                self.stage = OpenStage::Failed;
                say_one(Said::Error(said))
            },
        }
    }
}

// ---------------------------------------------------------------------------
// Laws

/// Whether a reply answers the step that is up.
pub open spec fn answers_opening(stage: OpenStage, reply: OpenReplyView) -> bool {
    match stage {
        OpenStage::Token => reply is Token || reply is Failed,
        OpenStage::Connect => reply is NoTls || reply is Done || reply is Failed,
        OpenStage::Login => reply is Done || reply is Failed,
        _ => false,
    }
}

/// How many answers are still to come at most.
pub open spec fn answers_left(stage: OpenStage) -> nat {
    match stage {
        OpenStage::Token => 3,
        OpenStage::Connect => 2,
        OpenStage::Login => 1,
        _ => 0,
    }
}

/// Opening a session ends: each answer brings it nearer to one of the two
/// ends, after three answers at most.
pub proof fn opening_ends(o: OpeningView, reply: OpenReplyView)
    requires
        answers_opening(o.stage, reply),
    ensures
        answers_left(opening_after(o, reply).stage) < answers_left(o.stage) <= 3,
{
}

/// A session that fails to open says so, once; one that goes on reports no
/// failure.
pub proof fn a_failed_opening_is_reported(o: OpeningView, reply: OpenReplyView)
    requires
        answers_opening(o.stage, reply),
    ensures
        ({
            let says = opening_says(o, reply);
            if opening_after(o, reply).stage == OpenStage::Failed {
                says.len() == 1 && says[0] is Error
            } else {
                forall|i: int| 0 <= i < says.len() ==> !(#[trigger] says[i] is Error)
            }
        }),
{
}

/// Whatever comes back, an opening keeps the account but for its tokens, and
/// new tokens are always passed on.
pub proof fn an_opening_changes_tokens_only(o: OpeningView, reply: OpenReplyView)
    ensures
        ({
            let a = opening_after(o, reply).account;
            &&& a == (AccountView {
                access_token: a.access_token,
                token_expiry: a.token_expiry,
                ..o.account
            })
            &&& a != o.account ==> opening_says(o, reply) == seq![
                SaidView::Tokens(a.email, a.access_token, a.token_expiry),
            ]
        }),
{
}

} // verus!
