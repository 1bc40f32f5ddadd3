//! Downloading a mailbox: which messages to ask for, in which order, and what
//! the replies make of them.

use std::collections::HashSet;
use vstd::prelude::*;
use crate::message::{
    body_or_empty, headers_read, message_body, part_body, part_mail, read_header, whole_mail,
    HeaderFields, HeaderView,
};
use crate::model::{
    copy_numbers, opt_view, views, views_push, Email, EmailView, RemoteAttachment,
    RemoteAttachmentView,
};
use crate::number::{decimal, decimal_text};
use crate::order::{ranked, reversed, sort_ranked};
use crate::scan::join;
use crate::structure::{
    attachments_in, decimals, find_attachment_parts, find_text_part, join_numbers, leaves,
    section_str, text_part, BodyStructure, TextPartSpec, TextPartView,
};

verus! {

// ---------------------------------------------------------------------------
// Planning a pass

/// Messages asked for in one round trip.
pub const FETCH_COUNT: usize = 50;

/// Ceiling on how much one pass downloads. A mailbox with years of history
/// backfills across passes instead of stalling the first one.
pub const MAX_FETCH_PER_SYNC: usize = 500;

/// How many already-cached messages get their flags refreshed per pass.
pub const FLAG_REFRESH_WINDOW: usize = 200;

/// Smallest first.
pub open spec fn ascending(s: Seq<u32>) -> Seq<u32> {
    ranked(s, |u: u32| u as int).reverse()
}

/// What the server holds and the cache does not, oldest first.
pub open spec fn missing(server: Seq<u32>, known: Set<u32>) -> Seq<u32> {
    ascending(server).filter(|u: u32| !known.contains(u))
}

/// What both hold, oldest first.
pub open spec fn held(server: Seq<u32>, known: Set<u32>) -> Seq<u32> {
    ascending(server).filter(|u: u32| known.contains(u))
}

pub open spec fn least(a: nat, b: nat) -> nat {
    if a <= b {
        a
    } else {
        b
    }
}

/// The last `n` of a list, or all of a shorter one.
pub open spec fn newest(s: Seq<u32>, n: nat) -> Seq<u32> {
    s.skip(s.len() - least(s.len(), n))
}

/// What this pass downloads, oldest first.
pub open spec fn wanted(server: Seq<u32>, known: Set<u32>) -> Seq<u32> {
    newest(missing(server, known), MAX_FETCH_PER_SYNC as nat)
}

/// A list in runs of `n`, taken from its end, each of them turned newest
/// first.
pub open spec fn round_trips(s: Seq<u32>, n: nat) -> Seq<Seq<u32>>
    decreases s.len(),
{
    if s.len() == 0 || n == 0 {
        Seq::empty()
    } else {
        let at = s.len() - least(s.len(), n);
        seq![s.skip(at).reverse()] + round_trips(s.take(at), n)
    }
}

/// One folder's pass.
#[derive(Debug)]
pub struct SyncPlan {
    /// Everything the server holds, oldest first.
    pub server_uids: Vec<u32>,
    /// What to download, by round trip, the newest first: a long backfill
    /// shows recent mail early.
    pub batches: Vec<Vec<u32>>,
    /// How many messages that is.
    pub count: usize,
    /// How many are left for later passes.
    pub remaining: usize,
    /// Cached messages whose flags to refresh.
    pub recent_known: Vec<u32>,
}

fn sort_ascending(v: Vec<u32>) -> (r: Vec<u32>)
    ensures
        r@ == ascending(v@),
{
    proof {
        assert(crate::order::rank_fn::<u32>() =~= (|u: u32| u as int));
    }
    reversed(sort_ranked(v))
}

/// The numbers of `v` that are in `set`, or those that are not.
fn select_uids(v: &Vec<u32>, set: &HashSet<u32>, inside: bool) -> (r: Vec<u32>)
    ensures
        r@ == v@.filter(|u: u32| set@.contains(u) == inside),
{
    broadcast use vstd::std_specs::hash::group_hash_axioms;

    let mut out: Vec<u32> = Vec::new();
    let mut i: usize = 0;
    let ghost p = |u: u32| set@.contains(u) == inside;
    proof {
        reveal(Seq::filter);
    }
    while i < v.len()
        invariant
            i <= v@.len(),
            p == (|u: u32| set@.contains(u) == inside),
            out@ == v@.take(i as int).filter(p),
        decreases v@.len() - i,
    {
        broadcast use vstd::std_specs::hash::group_hash_axioms;

        proof {
            reveal(Seq::filter);
            assert(v@.take(i + 1).drop_last() =~= v@.take(i as int));
        }
        if set.contains(&v[i]) == inside {
            out.push(v[i]);
        }
        i = i + 1;
    }
    proof {
        assert(v@.take(i as int) =~= v@);
    }
    out
}

/// `v[from..to]` back to front.
fn run_reversed(v: &Vec<u32>, from: usize, to: usize) -> (r: Vec<u32>)
    requires
        from <= to <= v@.len(),
    ensures
        r@ == v@.subrange(from as int, to as int).reverse(),
{
    let mut out: Vec<u32> = Vec::new();
    let mut i: usize = to;
    while i > from
        invariant
            from <= i <= to <= v@.len(),
            out@ =~= v@.subrange(i as int, to as int).reverse(),
        decreases i,
    {
        i = i - 1;
        out.push(v[i]);
    }
    out
}

/// The last `n` of a list.
fn last_of(v: Vec<u32>, n: usize) -> (r: Vec<u32>)
    ensures
        r@ == newest(v@, n as nat),
{
    let mut v = v;
    let keep: usize = if v.len() <= n {
        v.len()
    } else {
        n
    };
    let at: usize = v.len() - keep;
    v.split_off(at)
}

fn plan_round_trips(v: &Vec<u32>) -> (r: Vec<Vec<u32>>)
    ensures
        views(r@) == round_trips(v@, FETCH_COUNT as nat),
{
    broadcast use views_push;

    let mut out: Vec<Vec<u32>> = Vec::new();
    let mut i: usize = v.len();
    proof {
        assert(v@.take(i as int) =~= v@);
        assert(views(out@) + round_trips(v@, 50) =~= round_trips(v@, 50));
    }
    while i > 0
        invariant
            i <= v@.len(),
            views(out@) + round_trips(v@.take(i as int), 50) == round_trips(v@, 50),
        decreases i,
    {
        broadcast use views_push;

        let n: usize = if i <= FETCH_COUNT {
            i
        } else {
            FETCH_COUNT
        };
        let ghost rest = v@.take(i as int);
        let ghost before = views(out@);
        let run = run_reversed(v, i - n, i);
        out.push(run);
        proof {
            assert(v@.subrange(i - n, i as int) =~= rest.skip(i - n));
            assert(rest.take(i - n) =~= v@.take(i - n));
            let tail = round_trips(v@.take(i - n), 50);
            assert(before + (seq![run@] + tail) =~= before.push(run@) + tail);
        }
        i = i - n;
    }
    proof {
        assert(v@.take(0) =~= Seq::empty());
        assert(views(out@) + Seq::<Seq<u32>>::empty() =~= views(out@));
    }
    out
}

/// Decide what one pass over a mailbox asks for, given what the server lists
/// and what the cache holds.
pub fn plan_sync(server: Vec<u32>, known: &HashSet<u32>) -> (r: SyncPlan)
    ensures
        r.server_uids@ == ascending(server@),
        views(r.batches@) == round_trips(wanted(server@, known@), FETCH_COUNT as nat),
        r.count == wanted(server@, known@).len(),
        r.remaining == missing(server@, known@).len() - wanted(server@, known@).len(),
        r.recent_known@ == newest(held(server@, known@), FLAG_REFRESH_WINDOW as nat),
{
    let sorted = sort_ascending(server);
    let lacking = select_uids(&sorted, known, false);
    let present = select_uids(&sorted, known, true);
    proof {
        assert((|u: u32| known@.contains(u) == false) =~= (|u: u32| !known@.contains(u)));
        assert((|u: u32| known@.contains(u) == true) =~= (|u: u32| known@.contains(u)));
    }
    let total: usize = lacking.len();
    let batch = last_of(lacking, MAX_FETCH_PER_SYNC);
    let count: usize = batch.len();
    SyncPlan {
        server_uids: sorted,
        batches: plan_round_trips(&batch),
        count,
        remaining: total - count,
        recent_known: last_of(present, FLAG_REFRESH_WINDOW),
    }
}

/// What to tell the user about a pass, if it downloads anything.
pub open spec fn fetching_text(count: nat, remaining: nat) -> Option<Seq<char>> {
    if count == 0 {
        None
    } else if remaining > 0 {
        Some(
            "Fetching "@ + decimal(count) + " messages ("@ + decimal(remaining)
                + " older still to come)..."@,
        )
    } else {
        Some("Fetching "@ + decimal(count) + " messages..."@)
    }
}

pub fn fetching_message(count: usize, remaining: usize) -> (r: Option<String>)
    ensures
        opt_view(r) == fetching_text(count as nat, remaining as nat),
{
    if count == 0 {
        return None;
    }
    let mut out = "Fetching ".to_owned();
    out.append(decimal_text(count as u64).as_str());
    if remaining > 0 {
        out.append(" messages (");
        out.append(decimal_text(remaining as u64).as_str());
        out.append(" older still to come)...");
    } else {
        out.append(" messages...");
    }
    Some(out)
}

// ---------------------------------------------------------------------------
// A batch: headers first

/// What a header fetch asks for: no body bytes, so attachments never ride
/// along.
pub const HEADER_QUERY: &'static str = "(UID FLAGS RFC822.HEADER BODYSTRUCTURE)";

/// What a flag refresh asks for.
pub const FLAGS_QUERY: &'static str = "(UID FLAGS)";

/// Byte cap on a fetched text part, before it is decoded.
pub const PART_FETCH_CAP: u32 = 65536;

/// Byte cap on a message fetched whole.
pub const WHOLE_FETCH_CAP: u32 = 262144;

/// A set of uids as a fetch names it.
pub fn uid_set_text(uids: &Vec<u32>) -> (r: String)
    ensures
        r@ == join(decimals(uids@), ","@),
{
    join_numbers(uids, ",")
}

/// One message of a header reply.
#[derive(Debug)]
pub struct HeaderReply {
    pub uid: Option<u32>,
    pub seen: bool,
    pub header: Option<Vec<u8>>,
    pub structure: Option<BodyStructure>,
}

/// A message whose text is still to come.
#[derive(Debug)]
pub struct Pending {
    pub uid: u32,
    pub read: bool,
    pub headers: HeaderFields,
    pub part: Option<TextPartSpec>,
    pub body: String,
    pub remote: Vec<RemoteAttachment>,
}

#[verifier::ext_equal]
pub ghost struct PendingView {
    pub uid: u32,
    pub read: bool,
    pub headers: HeaderView,
    pub part: Option<TextPartView>,
    pub body: Seq<char>,
    pub remote: Seq<RemoteAttachmentView>,
}

impl View for Pending {
    type V = PendingView;

    open spec fn view(&self) -> PendingView {
        PendingView {
            uid: self.uid,
            read: self.read,
            headers: self.headers@,
            part: opt_view(self.part),
            body: self.body@,
            remote: views(self.remote@),
        }
    }
}

/// What one message of a header reply says; nothing without a uid.
pub open spec fn pending_of(h: HeaderReply, account: Seq<char>) -> Option<PendingView> {
    match h.uid {
        None => None,
        Some(uid) => Some(
            PendingView {
                uid,
                read: h.seen,
                headers: headers_read(opt_view(h.header), account),
                part: match h.structure {
                    Some(bs) => text_part(bs),
                    None => None,
                },
                body: Seq::empty(),
                remote: match h.structure {
                    Some(bs) => attachments_in(leaves(bs, Seq::empty())),
                    None => Seq::empty(),
                },
            },
        ),
    }
}

pub open spec fn pending_in(hs: Seq<HeaderReply>, account: Seq<char>) -> Seq<PendingView>
    decreases hs.len(),
{
    if hs.len() == 0 {
        Seq::empty()
    } else {
        match pending_of(hs.last(), account) {
            Some(p) => pending_in(hs.drop_last(), account).push(p),
            None => pending_in(hs.drop_last(), account),
        }
    }
}

/// The messages of a header reply.
pub fn pending_mail(replies: &Vec<HeaderReply>, account: &str) -> (r: Vec<Pending>)
    ensures
        views(r@) == pending_in(replies@, account@),
{
    let mut out: Vec<Pending> = Vec::new();
    let mut i: usize = 0;
    assert(views(out@) =~= Seq::empty());
    while i < replies.len()
        invariant
            i <= replies@.len(),
            views(out@) == pending_in(replies@.take(i as int), account@),
        decreases replies@.len() - i,
    {
        broadcast use views_push;

        assert(replies@.take(i + 1).drop_last() =~= replies@.take(i as int));
        let h = &replies[i];
        if let Some(uid) = h.uid {
            let raw = match &h.header {
                Some(b) => Some(b.as_slice()),
                None => None,
            };
            let part = match &h.structure {
                Some(bs) => find_text_part(bs),
                None => None,
            };
            let remote = match &h.structure {
                Some(bs) => find_attachment_parts(bs),
                None => Vec::new(),
            };
            let body = String::new();
            proof {
                assert(body@ =~= Seq::<char>::empty());
                if h.structure is None {
                    assert(views(remote@) =~= Seq::empty());
                }
            }
            out.push(
                Pending { uid, read: h.seen, headers: read_header(raw, account), part, body, remote },
            );
        }
        i = i + 1;
    }
    assert(replies@.take(i as int) =~= replies@);
    out
}

// ---------------------------------------------------------------------------
// A batch: the text parts

/// A fetch that brings text.
#[derive(Debug, PartialEq)]
pub struct TextRequest {
    pub set: String,
    pub query: String,
    /// The part asked for; `None` asks for the message whole.
    pub path: Option<Vec<u32>>,
}

#[verifier::ext_equal]
pub ghost struct TextRequestView {
    pub set: Seq<char>,
    pub query: Seq<char>,
    pub path: Option<Seq<u32>>,
}

impl View for TextRequest {
    type V = TextRequestView;

    open spec fn view(&self) -> TextRequestView {
        TextRequestView { set: self.set@, query: self.query@, path: opt_view(self.path) }
    }
}

pub open spec fn has_path(p: PendingView, path: Seq<u32>) -> bool {
    p.part is Some && p.part->0.path == path
}

/// The paths of the text parts, each once, as they first occur.
pub open spec fn part_paths(ps: Seq<PendingView>) -> Seq<Seq<u32>>
    decreases ps.len(),
{
    if ps.len() == 0 {
        Seq::empty()
    } else {
        let before = part_paths(ps.drop_last());
        match ps.last().part {
            Some(t) => if before.contains(t.path) {
                before
            } else {
                before.push(t.path)
            },
            None => before,
        }
    }
}

/// The messages whose text is at `path`.
pub open spec fn uids_at(ps: Seq<PendingView>, path: Seq<u32>) -> Seq<u32>
    decreases ps.len(),
{
    if ps.len() == 0 {
        Seq::empty()
    } else if has_path(ps.last(), path) {
        uids_at(ps.drop_last(), path).push(ps.last().uid)
    } else {
        uids_at(ps.drop_last(), path)
    }
}

/// The messages without a usable text part.
pub open spec fn uids_without_part(ps: Seq<PendingView>) -> Seq<u32>
    decreases ps.len(),
{
    if ps.len() == 0 {
        Seq::empty()
    } else if ps.last().part is None {
        uids_without_part(ps.drop_last()).push(ps.last().uid)
    } else {
        uids_without_part(ps.drop_last())
    }
}

pub open spec fn part_query_text(path: Seq<u32>) -> Seq<char> {
    "(UID BODY.PEEK["@ + join(decimals(path), "."@) + "]<0."@ + decimal(PART_FETCH_CAP as nat)
        + ">)"@
}

pub open spec fn whole_query_text() -> Seq<char> {
    "(UID BODY.PEEK[]<0."@ + decimal(WHOLE_FETCH_CAP as nat) + ">)"@
}

pub open spec fn part_request(ps: Seq<PendingView>, path: Seq<u32>) -> TextRequestView {
    TextRequestView {
        set: join(decimals(uids_at(ps, path)), ","@),
        query: part_query_text(path),
        path: Some(path),
    }
}

/// One fetch for each path, and one for the messages without a part.
pub open spec fn text_requests_for(ps: Seq<PendingView>) -> Seq<TextRequestView> {
    let parts = part_paths(ps).map_values(|path: Seq<u32>| part_request(ps, path));
    let rest = uids_without_part(ps);
    if rest.len() == 0 {
        parts
    } else {
        parts.push(
            TextRequestView {
                set: join(decimals(rest), ","@),
                query: whole_query_text(),
                path: None,
            },
        )
    }
}

/// Whether two lists hold the same numbers.
pub fn same_numbers(a: &Vec<u32>, b: &Vec<u32>) -> (r: bool)
    ensures
        r == (a@ == b@),
{
    if a.len() != b.len() {
        return false;
    }
    let mut i: usize = 0;
    while i < a.len()
        invariant
            i <= a@.len(),
            a@.len() == b@.len(),
            forall|k: int| 0 <= k < i ==> a@[k] == b@[k],
        decreases a@.len() - i,
    {
        if a[i] != b[i] {
            return false;
        }
        i = i + 1;
    }
    assert(a@ =~= b@);
    true
}

fn lists_path(paths: &Vec<Vec<u32>>, path: &Vec<u32>) -> (r: bool)
    ensures
        r == views(paths@).contains(path@),
{
    let mut i: usize = 0;
    while i < paths.len()
        invariant
            i <= paths@.len(),
            forall|k: int| 0 <= k < i ==> (#[trigger] views(paths@)[k]) != path@,
        decreases paths@.len() - i,
    {
        if same_numbers(&paths[i], path) {
            assert(views(paths@)[i as int] == path@);
            return true;
        }
        i = i + 1;
    }
    false
}

fn paths_of(pending: &Vec<Pending>) -> (r: Vec<Vec<u32>>)
    ensures
        views(r@) == part_paths(views(pending@)),
{
    let mut out: Vec<Vec<u32>> = Vec::new();
    let mut i: usize = 0;
    assert(views(out@) =~= Seq::empty());
    while i < pending.len()
        invariant
            i <= pending@.len(),
            views(out@) == part_paths(views(pending@).take(i as int)),
        decreases pending@.len() - i,
    {
        broadcast use views_push;

        assert(views(pending@).take(i + 1).drop_last() =~= views(pending@).take(i as int));
        if let Some(t) = &pending[i].part {
            if !lists_path(&out, &t.path) {
                out.push(copy_numbers(&t.path));
            }
        }
        i = i + 1;
    }
    assert(views(pending@).take(i as int) =~= views(pending@));
    out
}

fn uids_with_path(pending: &Vec<Pending>, path: &Vec<u32>) -> (r: Vec<u32>)
    ensures
        r@ == uids_at(views(pending@), path@),
{
    let mut out: Vec<u32> = Vec::new();
    let mut i: usize = 0;
    while i < pending.len()
        invariant
            i <= pending@.len(),
            out@ == uids_at(views(pending@).take(i as int), path@),
        decreases pending@.len() - i,
    {
        assert(views(pending@).take(i + 1).drop_last() =~= views(pending@).take(i as int));
        if let Some(t) = &pending[i].part {
            if same_numbers(&t.path, path) {
                out.push(pending[i].uid);
            }
        }
        i = i + 1;
    }
    assert(views(pending@).take(i as int) =~= views(pending@));
    out
}

fn uids_left_over(pending: &Vec<Pending>) -> (r: Vec<u32>)
    ensures
        r@ == uids_without_part(views(pending@)),
{
    let mut out: Vec<u32> = Vec::new();
    let mut i: usize = 0;
    while i < pending.len()
        invariant
            i <= pending@.len(),
            out@ == uids_without_part(views(pending@).take(i as int)),
        decreases pending@.len() - i,
    {
        assert(views(pending@).take(i + 1).drop_last() =~= views(pending@).take(i as int));
        if pending[i].part.is_none() {
            out.push(pending[i].uid);
        }
        i = i + 1;
    }
    assert(views(pending@).take(i as int) =~= views(pending@));
    out
}

/// The fetches that bring the text of a batch.
pub fn text_requests(pending: &Vec<Pending>) -> (r: Vec<TextRequest>)
    ensures
        views(r@) == text_requests_for(views(pending@)),
{
    broadcast use views_push;

    let ghost ps = views(pending@);
    let paths = paths_of(pending);
    let ghost made = part_paths(ps).map_values(|path: Seq<u32>| part_request(ps, path));
    let mut out: Vec<TextRequest> = Vec::new();
    let mut i: usize = 0;
    while i < paths.len()
        invariant
            i <= paths@.len(),
            ps == views(pending@),
            views(paths@) == part_paths(ps),
            made == part_paths(ps).map_values(|path: Seq<u32>| part_request(ps, path)),
            views(out@) =~= made.take(i as int),
        decreases paths@.len() - i,
    {
        broadcast use views_push;

        let uids = uids_with_path(pending, &paths[i]);
        let mut query = "(UID BODY.PEEK[".to_owned();
        query.append(section_str(&paths[i]).as_str());
        query.append("]<0.");
        query.append(decimal_text(PART_FETCH_CAP as u64).as_str());
        query.append(">)");
        assert(views(paths@)[i as int] == paths@[i as int]@);
        out.push(
            TextRequest { set: uid_set_text(&uids), query, path: Some(copy_numbers(&paths[i])) },
        );
        assert(made.take(i + 1) =~= made.take(i as int).push(made[i as int]));
        i = i + 1;
    }
    assert(made.take(i as int) =~= made);
    let rest = uids_left_over(pending);
    if rest.len() > 0 {
        let mut query = "(UID BODY.PEEK[]<0.".to_owned();
        query.append(decimal_text(WHOLE_FETCH_CAP as u64).as_str());
        query.append(">)");
        out.push(TextRequest { set: uid_set_text(&rest), query, path: None });
    }
    out
}

/// One message of a text reply.
#[derive(Debug)]
pub struct TextReply {
    pub uid: Option<u32>,
    pub bytes: Option<Vec<u8>>,
}

/// Where a message stands in a batch; its length if it does not.
pub open spec fn pending_at(ps: Seq<PendingView>, uid: u32) -> int
    decreases ps.len(),
{
    if ps.len() == 0 || ps[0].uid == uid {
        0
    } else {
        1 + pending_at(ps.drop_first(), uid)
    }
}

/// The text a reply gives a message: a part is decoded as its structure said,
/// a whole message by itself. A message without a text part takes no part.
pub open spec fn with_text(p: PendingView, bytes: Seq<u8>, whole: bool) -> PendingView {
    if whole {
        PendingView { body: body_or_empty(whole_mail(bytes)), ..p }
    } else {
        match p.part {
            Some(t) => PendingView { body: body_or_empty(part_mail(t, bytes)), ..p },
            None => p,
        }
    }
}

pub open spec fn with_reply(ps: Seq<PendingView>, reply: TextReply, whole: bool) -> Seq<
    PendingView,
> {
    match (reply.uid, reply.bytes) {
        (Some(uid), Some(bytes)) => {
            let k = pending_at(ps, uid);
            if k < ps.len() {
                ps.update(k, with_text(ps[k], bytes@, whole))
            } else {
                ps
            }
        },
        _ => ps,
    }
}

pub open spec fn with_replies(ps: Seq<PendingView>, replies: Seq<TextReply>, whole: bool) -> Seq<
    PendingView,
>
    decreases replies.len(),
{
    if replies.len() == 0 {
        ps
    } else {
        with_reply(with_replies(ps, replies.drop_last(), whole), replies.last(), whole)
    }
}

fn find_pending(pending: &Vec<Pending>, uid: u32) -> (r: usize)
    ensures
        r == pending_at(views(pending@), uid),
        r <= pending@.len(),
{
    let ghost ps = views(pending@);
    let mut i: usize = 0;
    assert(ps.skip(0) =~= ps);
    while i < pending.len()
        invariant
            i <= pending@.len(),
            ps == views(pending@),
            pending_at(ps, uid) == i + pending_at(ps.skip(i as int), uid),
        decreases pending@.len() - i,
    {
        assert(ps.skip(i as int)[0] == pending@[i as int]@);
        if pending[i].uid == uid {
            return i;
        }
        assert(ps.skip(i as int).drop_first() =~= ps.skip(i + 1));
        i = i + 1;
    }
    i
}

/// Take the replies to one text fetch. `whole` says that it asked for whole
/// messages.
pub fn take_text(pending: &mut Vec<Pending>, replies: &Vec<TextReply>, whole: bool)
    ensures
        views(final(pending)@) == with_replies(views(old(pending)@), replies@, whole),
{
    let ghost start = views(pending@);
    let mut i: usize = 0;
    while i < replies.len()
        invariant
            i <= replies@.len(),
            views(pending@) == with_replies(start, replies@.take(i as int), whole),
        decreases replies@.len() - i,
    {
        assert(replies@.take(i + 1).drop_last() =~= replies@.take(i as int));
        let ghost before = views(pending@);
        if let Some(uid) = replies[i].uid {
            if let Some(bytes) = &replies[i].bytes {
                let k = find_pending(pending, uid);
                if k < pending.len() {
                    let text = if whole {
                        Some(message_body(bytes.as_slice()))
                    } else {
                        match &pending[k].part {
                            Some(t) => Some(part_body(t, bytes.as_slice())),
                            None => None,
                        }
                    };
                    if let Some(body) = text {
                        pending[k].body = body;
                    }
                    assert(views(pending@) =~= before.update(
                        k as int,
                        with_text(before[k as int], bytes@, whole),
                    ));
                }
            }
        }
        i = i + 1;
    }
    assert(replies@.take(i as int) =~= replies@);
}

// ---------------------------------------------------------------------------
// A batch: the mail

/// The message as the cache keeps it. Its id is assigned by the merge.
pub open spec fn finished(p: PendingView, folder: Seq<char>) -> EmailView {
    EmailView {
        id: 0,
        from: p.headers.from,
        to: p.headers.to,
        subject: p.headers.subject,
        body: p.body,
        date: p.headers.date,
        read: p.read,
        folder,
        cc: Seq::empty(),
        bcc: Seq::empty(),
        attachments: Seq::empty(),
        remote_attachments: p.remote,
        uid: Some(p.uid),
        ts: None,
        origin_folder: None,
    }
}

/// The mail of a batch.
pub fn finish(pending: Vec<Pending>, folder: &str) -> (r: Vec<Email>)
    ensures
        views(r@) == views(pending@).map_values(|p: PendingView| finished(p, folder@)),
{
    let ghost ps = views(pending@);
    let ghost all = ps.map_values(|p: PendingView| finished(p, folder@));
    let ghost mut k: int = 0;
    let mut rest = reversed(pending);
    let mut out: Vec<Email> = Vec::new();
    while rest.len() > 0
        invariant
            0 <= k <= pending@.len(),
            rest@ == pending@.skip(k).reverse(),
            ps == views(pending@),
            all == ps.map_values(|p: PendingView| finished(p, folder@)),
            views(out@) =~= all.take(k),
        decreases rest@.len(),
    {
        broadcast use views_push;

        if let Some(p) = rest.pop() {
            proof {
                assert(p == pending@[k]);
                assert(ps[k] == p@);
                assert(rest@ =~= pending@.skip(k + 1).reverse());
                assert(all.take(k + 1) =~= all.take(k).push(all[k]));
                k = k + 1;
            }
            let e = Email {
                id: 0,
                uid: Some(p.uid),
                from: p.headers.from,
                to: p.headers.to,
                subject: p.headers.subject,
                body: p.body,
                date: p.headers.date,
                read: p.read,
                folder: folder.to_owned(),
                cc: String::new(),
                bcc: String::new(),
                attachments: Vec::new(),
                remote_attachments: p.remote,
                ts: None,
                origin_folder: None,
            };
            proof {
                assert(e@.cc =~= Seq::<char>::empty());
                assert(e@.bcc =~= Seq::<char>::empty());
                assert(e@.attachments =~= Seq::<Seq<char>>::empty());
                assert(e@ == all[k - 1]);
            }
            out.push(e);
        }
    }
    assert(all.take(k) =~= all);
    out
}

// ---------------------------------------------------------------------------
// Flags

/// The messages a flag reply marks as seen.
pub open spec fn seen_in_reply(flags: Seq<(Option<u32>, bool)>) -> Seq<u32>
    decreases flags.len(),
{
    if flags.len() == 0 {
        Seq::empty()
    } else if flags.last().0 is Some && flags.last().1 {
        seen_in_reply(flags.drop_last()).push(flags.last().0->0)
    } else {
        seen_in_reply(flags.drop_last())
    }
}

/// The uids that a flag reply marks as seen. Each entry is a message's uid, if
/// it came, and whether it is seen.
pub fn seen_uids(flags: &Vec<(Option<u32>, bool)>) -> (r: Vec<u32>)
    ensures
        r@ == seen_in_reply(flags@),
{
    let mut out: Vec<u32> = Vec::new();
    let mut i: usize = 0;
    while i < flags.len()
        invariant
            i <= flags@.len(),
            out@ == seen_in_reply(flags@.take(i as int)),
        decreases flags@.len() - i,
    {
        assert(flags@.take(i + 1).drop_last() =~= flags@.take(i as int));
        if let Some(u) = flags[i].0 {
            if flags[i].1 {
                out.push(u);
            }
        }
        i = i + 1;
    }
    assert(flags@.take(i as int) =~= flags@);
    out
}

} // verus!
