//! One pass over a mailbox, step by step.
//!
//! A worker carries out [`FolderPass::step`] on its session, hands the reply
//! to [`FolderPass::take`], and goes on until the pass is finished or given
//! up. Only a mailbox that cannot be selected or listed is given up; any later
//! failure costs the messages it was about, and those are asked for again
//! next time.

use std::collections::HashSet;
use vstd::prelude::*;
use crate::fetch::{
    ascending, fetching_message, fetching_text, finish, finished, held, missing, newest,
    pending_in, pending_mail, plan_sync, round_trips, seen_in_reply, seen_uids, take_text,
    text_requests, text_requests_for, uid_set_text, wanted, with_replies, HeaderReply, Pending,
    PendingView, TextReply, TextRequest, TextRequestView, FETCH_COUNT, FLAGS_QUERY,
    FLAG_REFRESH_WINDOW, HEADER_QUERY,
};
use crate::model::{copy_numbers, opt_view, views, Email, EmailView, FolderSync, FolderSyncView};
use crate::scan::join;
use crate::session::{because, say_nothing, say_one, Said, SaidView};
use crate::structure::decimals;

verus! {

#[derive(Debug, Clone, Copy, PartialEq, Eq, Structural)]
pub enum Stage {
    Select,
    Search,
    /// The headers of a batch are asked for.
    Headers(usize),
    /// A text of a batch is asked for: the batch, the request.
    Texts(usize, usize),
    Flags,
    Finished,
    GivenUp,
}

/// A pass over one mailbox.
#[derive(Debug)]
pub struct FolderPass {
    account: String,
    mailbox: String,
    /// The tag of the folder the mail goes to.
    folder: String,
    /// What the cache holds of the folder.
    known: HashSet<u32>,
    stage: Stage,
    server_uids: Vec<u32>,
    batches: Vec<Vec<u32>>,
    remaining: usize,
    recent_known: Vec<u32>,
    pending: Vec<Pending>,
    requests: Vec<TextRequest>,
    fetched: Vec<Email>,
    seen: Vec<u32>,
}

#[verifier::ext_equal]
pub ghost struct PassView {
    pub account: Seq<char>,
    pub mailbox: Seq<char>,
    pub folder: Seq<char>,
    pub known: Set<u32>,
    pub stage: Stage,
    pub server_uids: Seq<u32>,
    pub batches: Seq<Seq<u32>>,
    pub remaining: usize,
    pub recent_known: Seq<u32>,
    pub pending: Seq<PendingView>,
    pub requests: Seq<TextRequestView>,
    pub fetched: Seq<EmailView>,
    pub seen: Seq<u32>,
}

impl View for FolderPass {
    type V = PassView;

    closed spec fn view(&self) -> PassView {
        PassView {
            account: self.account@,
            mailbox: self.mailbox@,
            folder: self.folder@,
            known: self.known@,
            stage: self.stage,
            server_uids: self.server_uids@,
            batches: views(self.batches@),
            remaining: self.remaining,
            recent_known: self.recent_known@,
            pending: views(self.pending@),
            requests: views(self.requests@),
            fetched: views(self.fetched@),
            seen: self.seen@,
        }
    }
}

/// The batch, and the request, that a stage speaks of exist.
pub open spec fn stage_fits(s: PassView) -> bool {
    match s.stage {
        Stage::Headers(k) => k < s.batches.len(),
        Stage::Texts(k, i) => k < s.batches.len() && i < s.requests.len(),
        _ => true,
    }
}

// ---------------------------------------------------------------------------
// Steps

/// What a fetch asks for.
#[derive(Debug, PartialEq)]
pub enum FetchKind {
    Headers,
    /// The text at a path; `None` for the whole message.
    Text(Option<Vec<u32>>),
    Flags,
}

/// What to do next.
#[derive(Debug, PartialEq)]
pub enum FolderStep {
    Select(String),
    /// List all uids.
    Search,
    Fetch { set: String, query: String, kind: FetchKind },
    /// The pass is complete; see [`FolderPass::result`].
    Finished,
    /// There is nothing to report of this mailbox.
    GivenUp,
}

pub ghost enum KindView {
    Headers,
    Text(Option<Seq<u32>>),
    Flags,
}

pub ghost enum FolderStepView {
    Select(Seq<char>),
    Search,
    Fetch { set: Seq<char>, query: Seq<char>, kind: KindView },
    Finished,
    GivenUp,
}

impl View for FetchKind {
    type V = KindView;

    open spec fn view(&self) -> KindView {
        match *self {
            FetchKind::Headers => KindView::Headers,
            FetchKind::Text(path) => KindView::Text(opt_view(path)),
            FetchKind::Flags => KindView::Flags,
        }
    }
}

impl View for FolderStep {
    type V = FolderStepView;

    open spec fn view(&self) -> FolderStepView {
        match *self {
            FolderStep::Select(m) => FolderStepView::Select(m@),
            FolderStep::Search => FolderStepView::Search,
            FolderStep::Fetch { set, query, kind } => FolderStepView::Fetch {
                set: set@,
                query: query@,
                kind: kind@,
            },
            FolderStep::Finished => FolderStepView::Finished,
            FolderStep::GivenUp => FolderStepView::GivenUp,
        }
    }
}

pub open spec fn folder_step(s: PassView) -> FolderStepView {
    match s.stage {
        Stage::Select => FolderStepView::Select(s.mailbox),
        Stage::Search => FolderStepView::Search,
        Stage::Headers(k) => FolderStepView::Fetch {
            set: join(decimals(s.batches[k as int]), ","@),
            query: HEADER_QUERY@,
            kind: KindView::Headers,
        },
        Stage::Texts(k, i) => FolderStepView::Fetch {
            set: s.requests[i as int].set,
            query: s.requests[i as int].query,
            kind: KindView::Text(s.requests[i as int].path),
        },
        Stage::Flags => FolderStepView::Fetch {
            set: join(decimals(s.recent_known), ","@),
            query: FLAGS_QUERY@,
            kind: KindView::Flags,
        },
        Stage::Finished => FolderStepView::Finished,
        Stage::GivenUp => FolderStepView::GivenUp,
    }
}

// ---------------------------------------------------------------------------
// Replies

/// How a step came out.
#[derive(Debug)]
pub enum FolderReply {
    Selected,
    Uids(Vec<u32>),
    Headers(Vec<HeaderReply>),
    Texts(Vec<TextReply>),
    /// Each message's uid, if it came, and whether it is seen.
    Flags(Vec<(Option<u32>, bool)>),
    /// It did not work; why.
    Failed(String),
}

/// The pass at its `k`th batch, or behind the last one.
pub open spec fn at_batch(s: PassView, k: int) -> PassView {
    let stage = if k < s.batches.len() {
        Stage::Headers(k as usize)
    } else if s.recent_known.len() > 0 {
        Stage::Flags
    } else {
        Stage::Finished
    };
    PassView { stage, pending: Seq::empty(), requests: Seq::empty(), ..s }
}

/// The mail of the batch at hand is complete.
pub open spec fn batch_done(s: PassView, k: int) -> PassView {
    at_batch(
        PassView {
            fetched: s.fetched + s.pending.map_values(|p: PendingView| finished(p, s.folder)),
            ..s
        },
        k + 1,
    )
}

/// The pass at the `i`th text of its `k`th batch, or with the batch complete.
pub open spec fn at_text(s: PassView, k: int, i: int) -> PassView {
    if i < s.requests.len() {
        PassView { stage: Stage::Texts(k as usize, i as usize), ..s }
    } else {
        batch_done(s, k)
    }
}

/// The pass once the mailbox was listed.
pub open spec fn listed(s: PassView, server: Seq<u32>) -> PassView {
    at_batch(
        PassView {
            server_uids: ascending(server),
            batches: round_trips(wanted(server, s.known), FETCH_COUNT as nat),
            remaining: (missing(server, s.known).len() - wanted(
                server,
                s.known,
            ).len()) as usize,
            recent_known: newest(held(server, s.known), FLAG_REFRESH_WINDOW as nat),
            ..s
        },
        0,
    )
}

/// The pass after a reply. One that answers no question changes nothing.
pub open spec fn pass_after(s: PassView, reply: FolderReply) -> PassView {
    match (s.stage, reply) {
        (Stage::Select, FolderReply::Selected) => PassView { stage: Stage::Search, ..s },
        (Stage::Select, FolderReply::Failed(_)) => PassView { stage: Stage::GivenUp, ..s },
        (Stage::Search, FolderReply::Uids(uids)) => listed(s, uids@),
        (Stage::Search, FolderReply::Failed(_)) => PassView { stage: Stage::GivenUp, ..s },
        (Stage::Headers(k), FolderReply::Headers(hs)) => {
            let pending = pending_in(hs@, s.account);
            at_text(
                PassView { pending, requests: text_requests_for(pending), ..s },
                k as int,
                0,
            )
        },
        (Stage::Headers(k), FolderReply::Failed(_)) => at_batch(s, k + 1),
        (Stage::Texts(k, i), FolderReply::Texts(ts)) => at_text(
            PassView {
                pending: with_replies(s.pending, ts@, s.requests[i as int].path is None),
                ..s
            },
            k as int,
            i + 1,
        ),
        (Stage::Texts(k, i), FolderReply::Failed(_)) => at_text(s, k as int, i + 1),
        (Stage::Flags, FolderReply::Flags(fs)) => PassView {
            stage: Stage::Finished,
            seen: seen_in_reply(fs@),
            ..s
        },
        (Stage::Flags, FolderReply::Failed(_)) => PassView { stage: Stage::Finished, ..s },
        _ => s,
    }
}

pub open spec fn note(text: Option<Seq<char>>) -> Seq<SaidView> {
    match text {
        Some(t) => seq![SaidView::Note(t)],
        None => Seq::empty(),
    }
}

/// What is said at a reply.
pub open spec fn pass_says(s: PassView, reply: FolderReply) -> Seq<SaidView> {
    match (s.stage, reply) {
        (Stage::Select, FolderReply::Failed(e)) => seq![
            SaidView::Error("Failed to select "@ + s.mailbox + ": "@ + e@),
        ],
        (Stage::Search, FolderReply::Uids(uids)) => note(
            fetching_text(
                wanted(uids@, s.known).len(),
                (missing(uids@, s.known).len() - wanted(uids@, s.known).len()) as nat,
            ),
        ),
        (Stage::Search, FolderReply::Failed(e)) => seq![
            SaidView::Error("IMAP Search failed: "@ + e@),
        ],
        (Stage::Headers(_), FolderReply::Failed(e)) => seq![
            SaidView::Error("IMAP Fetch failed: "@ + e@),
        ],
        (Stage::Texts(_, i), FolderReply::Failed(e)) => seq![
            SaidView::Error(
                (if s.requests[i as int].path is None {
                    "IMAP fallback fetch failed: "@
                } else {
                    "IMAP part fetch failed: "@
                }) + e@,
            ),
        ],
        (Stage::Flags, FolderReply::Failed(e)) => seq![
            SaidView::Log("IMAP flag refresh failed: "@ + e@),
        ],
        _ => Seq::empty(),
    }
}

/// What a finished pass brings.
pub open spec fn pass_result(s: PassView) -> Option<FolderSyncView> {
    if s.stage == Stage::Finished {
        Some(
            FolderSyncView {
                folder: s.folder,
                fetched: s.fetched,
                server_uids: s.server_uids,
                seen_uids: s.seen,
                remaining: s.remaining,
            },
        )
    } else {
        None
    }
}

/// A pass before its first step.
pub open spec fn fresh_pass(
    account: Seq<char>,
    mailbox: Seq<char>,
    folder: Seq<char>,
    known: Set<u32>,
) -> PassView {
    PassView {
        account,
        mailbox,
        folder,
        known,
        stage: Stage::Select,
        server_uids: Seq::empty(),
        batches: Seq::empty(),
        remaining: 0,
        recent_known: Seq::empty(),
        pending: Seq::empty(),
        requests: Seq::empty(),
        fetched: Seq::empty(),
        seen: Seq::empty(),
    }
}

fn append_mail(to: &mut Vec<Email>, more: Vec<Email>)
    ensures
        views(final(to)@) == views(old(to)@) + views(more@),
{
    let ghost a = to@;
    let ghost b = more@;
    let mut more = more;
    to.append(&mut more);
    assert(views(to@) =~= views(a) + views(b));
}

impl FolderPass {
    #[verifier::type_invariant]
    spec fn fits(self) -> bool {
        stage_fits(self@)
    }

    /// A pass of an account over a mailbox, for the folder with the given
    /// tag, of which the cache holds `known`.
    pub fn new(account: &str, mailbox: &str, folder: &str, known: HashSet<u32>) -> (r: Self)
        ensures
            r@ == fresh_pass(account@, mailbox@, folder@, known@),
    {
        let r = FolderPass {
            account: account.to_owned(),
            mailbox: mailbox.to_owned(),
            folder: folder.to_owned(),
            known,
            stage: Stage::Select,
            server_uids: Vec::new(),
            batches: Vec::new(),
            remaining: 0,
            recent_known: Vec::new(),
            pending: Vec::new(),
            requests: Vec::new(),
            fetched: Vec::new(),
            seen: Vec::new(),
        };
        assert(r@ =~= fresh_pass(account@, mailbox@, folder@, known@));
        r
    }

    /// What to do next.
    pub fn step(&self) -> (r: FolderStep)
        ensures
            r@ == folder_step(self@),
    {
        proof {
            use_type_invariant(self);
        }
        match self.stage {
            Stage::Select => FolderStep::Select(self.mailbox.clone()),
            Stage::Search => FolderStep::Search,
            Stage::Headers(k) => {
                assert(views(self.batches@)[k as int] == self.batches@[k as int]@);
                FolderStep::Fetch {
                    set: uid_set_text(&self.batches[k]),
                    query: HEADER_QUERY.to_owned(),
                    kind: FetchKind::Headers,
                }
            },
            Stage::Texts(_, i) => {
                assert(views(self.requests@)[i as int] == self.requests@[i as int]@);
                let path = match &self.requests[i].path {
                    Some(p) => Some(copy_numbers(p)),
                    None => None,
                };
                FolderStep::Fetch {
                    set: self.requests[i].set.clone(),
                    query: self.requests[i].query.clone(),
                    kind: FetchKind::Text(path),
                }
            },
            Stage::Flags => FolderStep::Fetch {
                set: uid_set_text(&self.recent_known),
                query: FLAGS_QUERY.to_owned(),
                kind: FetchKind::Flags,
            },
            Stage::Finished => FolderStep::Finished,
            Stage::GivenUp => FolderStep::GivenUp,
        }
    }

    /// Take in how the step came out. Gives the pass as it goes on, and what
    /// there is to say.
    pub fn take(self, reply: FolderReply) -> (r: (FolderPass, Vec<Said>))
        ensures
            r.0@ == pass_after(self@, reply),
            views(r.1@) == pass_says(self@, reply),
    {
        proof {
            use_type_invariant(&self);
        }
        match reply {
            FolderReply::Selected => match self.stage {
                Stage::Select => (FolderPass { stage: Stage::Search, ..self }, say_nothing()),
                _ => (self, say_nothing()),
            },
            FolderReply::Uids(uids) => match self.stage {
                Stage::Search => {
                    let plan = plan_sync(uids, &self.known);
                    let said = match fetching_message(plan.count, plan.remaining) {
                        Some(t) => say_one(Said::Note(t)),
                        None => say_nothing(),
                    };
                    let pass = self.with_plan(
                        plan.server_uids,
                        plan.batches,
                        plan.remaining,
                        plan.recent_known,
                    );
                    (pass, said)
                },
                _ => (self, say_nothing()),
            },
            FolderReply::Headers(hs) => match self.stage {
                Stage::Headers(k) => {
                    let pending = pending_mail(&hs, self.account.as_str());
                    let requests = text_requests(&pending);
                    (self.with_pending(k, 0, pending, requests), say_nothing())
                },
                _ => (self, say_nothing()),
            },
            FolderReply::Texts(ts) => match self.stage {
                Stage::Texts(k, i) => {
                    assert(views(self.requests@)[i as int] == self.requests@[i as int]@);
                    let whole = self.requests[i].path.is_none();
                    (self.with_texts(k, i, ts, whole), say_nothing())
                },
                _ => (self, say_nothing()),
            },
            FolderReply::Flags(fs) => match self.stage {
                Stage::Flags => {
                    let seen = seen_uids(&fs);
                    (FolderPass { stage: Stage::Finished, seen, ..self }, say_nothing())
                },
                _ => (self, say_nothing()),
            },
            FolderReply::Failed(e) => match self.stage {
                Stage::Select => {
                    let mut t = "Failed to select ".to_owned();
                    t.append(self.mailbox.as_str());
                    t.append(": ");
                    t.append(e.as_str());
                    (FolderPass { stage: Stage::GivenUp, ..self }, say_one(Said::Error(t)))
                },
                Stage::Search => (
                    FolderPass { stage: Stage::GivenUp, ..self },
                    say_one(Said::Error(because("IMAP Search failed: ", e.as_str()))),
                ),
                Stage::Headers(k) => {
                    let said = say_one(Said::Error(because("IMAP Fetch failed: ", e.as_str())));
                    (self.next_batch(k), said)
                },
                Stage::Texts(k, i) => {
                    assert(views(self.requests@)[i as int] == self.requests@[i as int]@);
                    let t = if self.requests[i].path.is_none() {
                        because("IMAP fallback fetch failed: ", e.as_str())
                    } else {
                        because("IMAP part fetch failed: ", e.as_str())
                    };
                    (self.next_text(k, i), say_one(Said::Error(t)))
                },
                Stage::Flags => (
                    FolderPass { stage: Stage::Finished, ..self },
                    say_one(Said::Log(because("IMAP flag refresh failed: ", e.as_str()))),
                ),
                _ => (self, say_nothing()),
            },
        }
    }

    /// What the pass brings, once it is finished.
    pub fn result(self) -> (r: Option<FolderSync>)
        ensures
            opt_view(r) == pass_result(self@),
    {
        match self.stage {
            Stage::Finished => Some(
                FolderSync {
                    folder: self.folder,
                    fetched: self.fetched,
                    server_uids: self.server_uids,
                    seen_uids: self.seen,
                    remaining: self.remaining,
                },
            ),
            _ => None,
        }
    }

    fn with_plan(
        self,
        server_uids: Vec<u32>,
        batches: Vec<Vec<u32>>,
        remaining: usize,
        recent_known: Vec<u32>,
    ) -> (r: FolderPass)
        ensures
            r@ == at_batch(
                PassView {
                    server_uids: server_uids@,
                    batches: views(batches@),
                    remaining,
                    recent_known: recent_known@,
                    ..self@
                },
                0,
            ),
    {
        let stage = if batches.len() > 0 {
            Stage::Headers(0)
        } else if recent_known.len() > 0 {
            Stage::Flags
        } else {
            Stage::Finished
        };
        let pending: Vec<Pending> = Vec::new();
        let requests: Vec<TextRequest> = Vec::new();
        assert(views(pending@) =~= Seq::<PendingView>::empty());
        assert(views(requests@) =~= Seq::<TextRequestView>::empty());
        FolderPass {
            stage,
            server_uids,
            batches,
            remaining,
            recent_known,
            pending,
            requests,
            ..self
        }
    }

    fn next_batch(self, k: usize) -> (r: FolderPass)
        requires
            k < self@.batches.len(),
        ensures
            r@ == at_batch(self@, k + 1),
    {
        let n: usize = self.batches.len();
        let stage = if k + 1 < n {
            Stage::Headers(k + 1)
        } else if self.recent_known.len() > 0 {
            Stage::Flags
        } else {
            Stage::Finished
        };
        let pending: Vec<Pending> = Vec::new();
        let requests: Vec<TextRequest> = Vec::new();
        assert(views(pending@) =~= Seq::<PendingView>::empty());
        assert(views(requests@) =~= Seq::<TextRequestView>::empty());
        FolderPass { stage, pending, requests, ..self }
    }

    /// The batch's mail goes to what was fetched.
    fn close_batch(self, k: usize) -> (r: FolderPass)
        requires
            k < self@.batches.len(),
        ensures
            r@ == batch_done(self@, k as int),
    {
        let ghost s = self@;
        let FolderPass {
            account,
            mailbox,
            folder,
            known,
            stage: _,
            server_uids,
            batches,
            remaining,
            recent_known,
            pending,
            requests,
            fetched,
            seen,
        } = self;
        let mail = finish(pending, folder.as_str());
        let mut fetched = fetched;
        append_mail(&mut fetched, mail);
        let pass = FolderPass {
            account,
            mailbox,
            folder,
            known,
            stage: Stage::Select,
            server_uids,
            batches,
            remaining,
            recent_known,
            pending: Vec::new(),
            requests,
            fetched,
            seen,
        };
        let r = pass.next_batch(k);
        assert(r@ =~= batch_done(s, k as int));
        r
    }

    fn next_text(self, k: usize, i: usize) -> (r: FolderPass)
        requires
            k < self@.batches.len(),
            i < self@.requests.len(),
        ensures
            r@ == at_text(self@, k as int, i + 1),
    {
        let n: usize = self.requests.len();
        if i + 1 < n {
            FolderPass { stage: Stage::Texts(k, i + 1), ..self }
        } else {
            self.close_batch(k)
        }
    }

    fn with_texts(self, k: usize, i: usize, replies: Vec<TextReply>, whole: bool) -> (r: FolderPass)
        requires
            k < self@.batches.len(),
            i < self@.requests.len(),
        ensures
            r@ == at_text(
                PassView { pending: with_replies(self@.pending, replies@, whole), ..self@ },
                k as int,
                i + 1,
            ),
    {
        let FolderPass {
            account,
            mailbox,
            folder,
            known,
            stage,
            server_uids,
            batches,
            remaining,
            recent_known,
            pending,
            requests,
            fetched,
            seen,
        } = self;
        let mut pending = pending;
        take_text(&mut pending, &replies, whole);
        let pass = FolderPass {
            account,
            mailbox,
            folder,
            known,
            stage: Stage::Select,
            server_uids,
            batches,
            remaining,
            recent_known,
            pending,
            requests,
            fetched,
            seen,
        };
        pass.next_text(k, i)
    }

    fn with_pending(
        self,
        k: usize,
        i: usize,
        pending: Vec<Pending>,
        requests: Vec<TextRequest>,
    ) -> (r: FolderPass)
        requires
            k < self@.batches.len(),
        ensures
            r@ == at_text(
                PassView { pending: views(pending@), requests: views(requests@), ..self@ },
                k as int,
                i as int,
            ),
    {
        if i < requests.len() {
            FolderPass { stage: Stage::Texts(k, i), pending, requests, ..self }
        } else {
            let pass = FolderPass { stage: Stage::Select, pending, requests, ..self };
            pass.close_batch(k)
        }
    }
}

// ---------------------------------------------------------------------------
// Laws

/// Whether a reply answers the step that is up.
pub open spec fn answers_pass(stage: Stage, reply: FolderReply) -> bool {
    reply is Failed || match stage {
        Stage::Select => reply is Selected,
        Stage::Search => reply is Uids,
        Stage::Headers(_) => reply is Headers,
        Stage::Texts(_, _) => reply is Texts,
        Stage::Flags => reply is Flags,
        _ => false,
    }
}

/// How far a pass is from its end: its phase, the batches that are left, the
/// texts that are left of this batch.
pub open spec fn pass_left(s: PassView) -> (int, int, int) {
    match s.stage {
        Stage::Select => (4, 0, 0),
        Stage::Search => (3, 0, 0),
        Stage::Headers(k) => (2, 2 * (s.batches.len() - k), 0),
        Stage::Texts(k, i) => (2, 2 * (s.batches.len() - k) - 1, s.requests.len() - i),
        Stage::Flags => (1, 0, 0),
        _ => (0, 0, 0),
    }
}

pub open spec fn nearer(a: (int, int, int), b: (int, int, int)) -> bool {
    &&& 0 <= a.0 && 0 <= a.1 && 0 <= a.2
    &&& a.0 < b.0 || (a.0 == b.0 && (a.1 < b.1 || (a.1 == b.1 && a.2 < b.2)))
}

/// A pass ends: each answer, be it a failure, brings it nearer to its end.
pub proof fn a_pass_ends(s: PassView, reply: FolderReply)
    requires
        stage_fits(s),
        s.batches.len() <= usize::MAX,
        s.requests.len() <= usize::MAX,
        s.stage != Stage::Finished,
        s.stage != Stage::GivenUp,
        answers_pass(s.stage, reply),
    ensures
        stage_fits(pass_after(s, reply)),
        nearer(pass_left(pass_after(s, reply)), pass_left(s)),
{
}

/// Only a mailbox that cannot be selected or listed is given up.
pub proof fn only_a_closed_mailbox_is_given_up(s: PassView, reply: FolderReply)
    requires
        s.stage != Stage::GivenUp,
    ensures
        pass_after(s, reply).stage == Stage::GivenUp <==> reply is Failed && (s.stage
            == Stage::Select || s.stage == Stage::Search),
{
}

/// Once a mailbox is listed, no reply changes what the server is said to hold
/// or how much is left for later, and nothing that was fetched is lost.
pub proof fn failures_cost_only_their_own_mail(s: PassView, reply: FolderReply)
    requires
        s.stage != Stage::Search,
    ensures
        ({
            let t = pass_after(s, reply);
            &&& t.server_uids == s.server_uids
            &&& t.remaining == s.remaining
            &&& s.fetched.len() <= t.fetched.len()
            &&& t.fetched.take(s.fetched.len() as int) == s.fetched
            &&& reply is Failed && !(s.stage is Texts) ==> t.fetched == s.fetched
        }),
{
    let t = pass_after(s, reply);
    assert(t.fetched.take(s.fetched.len() as int) =~= s.fetched);
}

/// All of the mail is the folder's own, known to the server, and not numbered
/// yet.
pub open spec fn mail_is_of(mail: Seq<EmailView>, folder: Seq<char>) -> bool {
    forall|i: int|
        0 <= i < mail.len() ==> (#[trigger] mail[i]).folder == folder && mail[i].uid is Some
            && mail[i].id == 0
}

/// What a pass fetches is mail of its folder, from its first step to its
/// last.
pub proof fn a_pass_fetches_mail_of_its_folder(s: PassView, reply: FolderReply)
    requires
        mail_is_of(s.fetched, s.folder),
    ensures
        pass_after(s, reply).folder == s.folder,
        mail_is_of(pass_after(s, reply).fetched, s.folder),
        pass_result(s) matches Some(f) ==> f.folder == s.folder && mail_is_of(f.fetched, f.folder),
{
}

} // verus!
