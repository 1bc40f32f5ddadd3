//! Folding a sync pass into the cached mail.
//!
//! Prior mail survives a pass, and a message is identified by its folder and
//! uid. Only folders the pass brought are reconciled.

use std::collections::HashSet;
use vstd::prelude::*;
use crate::model::{views, views_push, Email, EmailView, FolderSync, FolderSyncView};
use crate::order::{ranked, reversed, sort_ranked, Ranked};

verus! {

// ---------------------------------------------------------------------------
// What a pass does to the cache

/// Not deleted on the server: a message of another folder, one that never was
/// on the server, or one the server still lists.
pub open spec fn still_there(e: EmailView, f: FolderSyncView) -> bool {
    e.folder != f.folder || e.uid is None || f.server_uids.contains(e.uid->0)
}

/// Seen on the server, or as it was.
pub open spec fn with_seen(e: EmailView, f: FolderSyncView) -> EmailView {
    if e.folder == f.folder && e.uid is Some && f.seen_uids.contains(e.uid->0) {
        EmailView { read: true, ..e }
    } else {
        e
    }
}

pub open spec fn is_held(e: EmailView, folder: Seq<char>, uid: u32) -> bool {
    e.folder == folder && e.uid == Some(uid)
}

/// Where the cache first holds a message; its length if it does not.
pub open spec fn held_at(s: Seq<EmailView>, folder: Seq<char>, uid: u32) -> int
    decreases s.len(),
{
    if s.len() == 0 || is_held(s[0], folder, uid) {
        0
    } else {
        1 + held_at(s.drop_first(), folder, uid)
    }
}

/// The cache and the next free id after one downloaded message. One already
/// held is replaced, but keeps its id and stays read; a new one is appended.
pub open spec fn absorb_one(
    s: Seq<EmailView>,
    next: int,
    folder: Seq<char>,
    fresh: EmailView,
) -> (Seq<EmailView>, int) {
    match fresh.uid {
        None => (s, next),
        Some(uid) => {
            let k = held_at(s, folder, uid);
            if k < s.len() {
                let kept = EmailView { id: s[k].id, read: fresh.read || s[k].read, ..fresh };
                (s.update(k, kept), next)
            } else {
                (s.push(EmailView { id: next as usize, ..fresh }), next + 1)
            }
        },
    }
}

pub open spec fn absorb(
    s: Seq<EmailView>,
    next: int,
    folder: Seq<char>,
    fetched: Seq<EmailView>,
) -> (Seq<EmailView>, int)
    decreases fetched.len(),
{
    if fetched.len() == 0 {
        (s, next)
    } else {
        let before = absorb(s, next, folder, fetched.drop_last());
        absorb_one(before.0, before.1, folder, fetched.last())
    }
}

/// The largest id in use, 0 for none.
pub open spec fn max_id(s: Seq<EmailView>) -> int
    decreases s.len(),
{
    if s.len() == 0 {
        0
    } else {
        let m = max_id(s.drop_last());
        if m < s.last().id {
            s.last().id as int
        } else {
            m
        }
    }
}

/// A locally appended sent copy that the server now has.
pub open spec fn is_filed(e: EmailView, f: FolderSyncView) -> bool {
    e.folder == "sent"@ && e.uid is None && exists|i: int|
        0 <= i < f.fetched.len() && (#[trigger] f.fetched[i]).subject == e.subject
}

/// One folder's pass, up to what it downloaded.
pub open spec fn with_fetched(s: Seq<EmailView>, f: FolderSyncView) -> Seq<EmailView> {
    let kept = s.filter(|e: EmailView| still_there(e, f)).map_values(
        |e: EmailView| with_seen(e, f),
    );
    absorb(kept, max_id(kept) + 1, f.folder, f.fetched).0
}

/// One folder's pass.
pub open spec fn merge_folder(s: Seq<EmailView>, f: FolderSyncView) -> Seq<EmailView> {
    let r = with_fetched(s, f);
    if f.folder == "sent"@ {
        r.filter(|e: EmailView| !is_filed(e, f))
    } else {
        r
    }
}

pub open spec fn merge_folders(s: Seq<EmailView>, folders: Seq<FolderSyncView>) -> Seq<EmailView>
    decreases folders.len(),
{
    if folders.len() == 0 {
        s
    } else {
        merge_folder(merge_folders(s, folders.drop_last()), folders.last())
    }
}

/// Server mail ranks by uid; mail without one is the most recent thing the
/// user did and goes on top.
pub open spec fn recency(e: EmailView) -> int {
    match e.uid {
        Some(u) => u as int,
        None => u32::MAX as int,
    }
}

pub open spec fn newest_first(s: Seq<EmailView>) -> Seq<EmailView> {
    ranked(s, |e: EmailView| recency(e))
}

pub open spec fn takes_id(s: Seq<EmailView>, id: usize) -> bool {
    exists|i: int| 0 <= i < s.len() && (#[trigger] s[i]).id == id
}

/// `s` with an id of its own for each message that has none, or one that an
/// earlier message has; and the next free id.
pub open spec fn rekey(s: Seq<EmailView>, next: int) -> (Seq<EmailView>, int)
    decreases s.len(),
{
    if s.len() == 0 {
        (s, next)
    } else {
        let before = rekey(s.drop_last(), next);
        let e = s.last();
        if e.id == 0 || takes_id(before.0, e.id) {
            (before.0.push(EmailView { id: before.1 as usize, ..e }), before.1 + 1)
        } else {
            (before.0.push(e), before.1)
        }
    }
}

/// The cache after a pass.
pub open spec fn merged_mail(prior: Seq<EmailView>, folders: Seq<FolderSyncView>) -> Seq<
    EmailView,
> {
    let all = newest_first(merge_folders(prior, folders));
    rekey(all, max_id(all) + 1).0
}

/// How many messages a pass downloaded.
pub open spec fn fetched_count(folders: Seq<FolderSyncView>) -> nat
    decreases folders.len(),
{
    if folders.len() == 0 {
        0
    } else {
        fetched_count(folders.drop_last()) + folders.last().fetched.len()
    }
}

/// There are ids left for every message that may need one: each that was
/// brought, and each of the cache that has none of its own.
pub open spec fn ids_suffice(prior: Seq<EmailView>, folders: Seq<FolderSyncView>) -> bool {
    max_id(prior) + prior.len() + fetched_count(folders) < usize::MAX
}

// ---------------------------------------------------------------------------
// Facts about the steps

pub open spec fn ids_below(s: Seq<EmailView>, n: int) -> bool {
    forall|i: int| 0 <= i < s.len() ==> (#[trigger] s[i]).id < n
}

pub proof fn lemma_max_id(s: Seq<EmailView>)
    ensures
        ids_below(s, max_id(s) + 1),
        max_id(s) >= 0,
    decreases s.len(),
{
    if s.len() > 0 {
        lemma_max_id(s.drop_last());
        assert forall|i: int| 0 <= i < s.len() implies (#[trigger] s[i]).id < max_id(s) + 1 by {
            if i < s.len() - 1 {
                assert(s[i] == s.drop_last()[i]);
            }
        }
    }
}

pub proof fn lemma_max_id_bound(s: Seq<EmailView>, n: int)
    requires
        ids_below(s, n),
        n >= 1,
    ensures
        max_id(s) < n,
    decreases s.len(),
{
    if s.len() > 0 {
        assert(ids_below(s.drop_last(), n)) by {
            assert forall|i: int| 0 <= i < s.len() - 1 implies (#[trigger] s.drop_last()[i]).id
                < n by {
                assert(s.drop_last()[i] == s[i]);
            }
        }
        lemma_max_id_bound(s.drop_last(), n);
        assert(s.last().id < n);
    }
}

pub proof fn lemma_held_at(s: Seq<EmailView>, folder: Seq<char>, uid: u32)
    ensures
        0 <= held_at(s, folder, uid) <= s.len(),
        forall|i: int|
            0 <= i < held_at(s, folder, uid) ==> !is_held(#[trigger] s[i], folder, uid),
        held_at(s, folder, uid) < s.len() ==> is_held(
            s[held_at(s, folder, uid)],
            folder,
            uid,
        ),
    decreases s.len(),
{
    if s.len() > 0 && !is_held(s[0], folder, uid) {
        lemma_held_at(s.drop_first(), folder, uid);
        assert forall|i: int| 0 <= i < held_at(s, folder, uid) implies !is_held(
            #[trigger] s[i],
            folder,
            uid,
        ) by {
            if i > 0 {
                assert(s[i] == s.drop_first()[i - 1]);
            }
        }
    }
}

proof fn lemma_held_at_is(s: Seq<EmailView>, folder: Seq<char>, uid: u32, k: int)
    requires
        0 <= k <= s.len(),
        forall|i: int| 0 <= i < k ==> !is_held(#[trigger] s[i], folder, uid),
        k < s.len() ==> is_held(s[k], folder, uid),
    ensures
        held_at(s, folder, uid) == k,
{
    lemma_held_at(s, folder, uid);
    let h = held_at(s, folder, uid);
    if h < k {
        assert(!is_held(s[h], folder, uid));
    }
    if k < h {
        assert(!is_held(s[k], folder, uid));
    }
}

proof fn lemma_filter_len<A>(s: Seq<A>, p: spec_fn(A) -> bool)
    ensures
        s.filter(p).len() <= s.len(),
        forall|i: int| 0 <= i < s.filter(p).len() ==> s.contains(#[trigger] s.filter(p)[i]) && p(
            s.filter(p)[i],
        ),
    decreases s.len(),
{
    reveal(Seq::filter);
    if s.len() > 0 {
        lemma_filter_len(s.drop_last(), p);
        let before = s.drop_last().filter(p);
        let r = s.filter(p);
        assert forall|i: int| 0 <= i < r.len() implies s.contains(#[trigger] r[i]) && p(r[i]) by {
            if i < before.len() {
                assert(r[i] == before[i]);
                let k = s.drop_last().index_of(before[i]);
                assert(s[k] == r[i]);
            } else {
                assert(s[s.len() - 1] == r[i]);
            }
        }
    }
}

/// The ids in use.
pub open spec fn own_ids(s: Seq<EmailView>) -> Set<usize> {
    Set::new(|id: usize| id != 0 && takes_id(s, id))
}

/// How many messages have no id of their own.
pub open spec fn surplus(s: Seq<EmailView>) -> int {
    s.len() - own_ids(s).len()
}

/// One more message is one more in want of an id, unless it has a new one.
proof fn lemma_surplus_push(s: Seq<EmailView>, e: EmailView)
    requires
        own_ids(s).finite(),
    ensures
        own_ids(s.push(e)).finite(),
        surplus(s.push(e)) == surplus(s) + if e.id == 0 || takes_id(s, e.id) {
            1int
        } else {
            0int
        },
{
    let r = s.push(e);
    assert forall|id: usize| #[trigger] takes_id(r, id) == (takes_id(s, id) || id == e.id) by {
        if takes_id(s, id) {
            let k = choose|k: int| 0 <= k < s.len() && (#[trigger] s[k]).id == id;
            assert(r[k].id == id);
        }
        assert(r[s.len() as int].id == e.id);
        if takes_id(r, id) && id != e.id {
            let k = choose|k: int| 0 <= k < r.len() && (#[trigger] r[k]).id == id;
            assert(s[k].id == id);
        }
    }
    if e.id == 0 || takes_id(s, e.id) {
        assert(own_ids(r) =~= own_ids(s));
    } else {
        assert(own_ids(r) =~= own_ids(s).insert(e.id));
    }
}

proof fn lemma_surplus(s: Seq<EmailView>)
    ensures
        own_ids(s).finite(),
        0 <= surplus(s) <= s.len(),
    decreases s.len(),
{
    if s.len() == 0 {
        assert(own_ids(s) =~= Set::empty());
    } else {
        lemma_surplus(s.drop_last());
        lemma_surplus_push(s.drop_last(), s.last());
        assert(s.drop_last().push(s.last()) =~= s);
    }
}

/// The last message changes the surplus by itself alone.
pub proof fn lemma_surplus_last(s: Seq<EmailView>)
    requires
        s.len() > 0,
    ensures
        surplus(s) == surplus(s.drop_last()) + if s.last().id == 0 || takes_id(
            s.drop_last(),
            s.last().id,
        ) {
            1int
        } else {
            0int
        },
{
    lemma_surplus(s.drop_last());
    lemma_surplus_push(s.drop_last(), s.last());
    assert(s.drop_last().push(s.last()) =~= s);
}

proof fn lemma_surplus_take(s: Seq<EmailView>, k: int)
    requires
        0 <= k <= s.len(),
    ensures
        surplus(s.take(k)) <= surplus(s),
    decreases s.len(),
{
    if k < s.len() {
        lemma_surplus_last(s);
        lemma_surplus_take(s.drop_last(), k);
        assert(s.drop_last().take(k) =~= s.take(k));
    } else {
        assert(s.take(k) =~= s);
    }
}

/// Only the ids count.
proof fn lemma_surplus_same_ids(s: Seq<EmailView>, t: Seq<EmailView>)
    requires
        s.len() == t.len(),
        forall|i: int| 0 <= i < s.len() ==> (#[trigger] s[i]).id == t[i].id,
    ensures
        surplus(s) == surplus(t),
{
    assert forall|id: usize| #[trigger] takes_id(s, id) == takes_id(t, id) by {
        if takes_id(s, id) {
            let k = choose|k: int| 0 <= k < s.len() && (#[trigger] s[k]).id == id;
            assert(t[k].id == id);
        }
        if takes_id(t, id) {
            let k = choose|k: int| 0 <= k < t.len() && (#[trigger] t[k]).id == id;
            assert(s[k].id == id);
        }
    }
    assert(own_ids(s) =~= own_ids(t));
}

/// Dropping messages leaves no more in want of an id.
proof fn lemma_surplus_filter(s: Seq<EmailView>, p: spec_fn(EmailView) -> bool)
    ensures
        surplus(s.filter(p)) <= surplus(s),
        forall|id: usize| takes_id(s.filter(p), id) ==> takes_id(s, id),
    decreases s.len(),
{
    reveal(Seq::filter);
    lemma_filter_len(s, p);
    assert forall|id: usize| takes_id(s.filter(p), id) implies takes_id(s, id) by {
        let r = s.filter(p);
        let k = choose|k: int| 0 <= k < r.len() && (#[trigger] r[k]).id == id;
        assert(s.contains(r[k]));
        assert(s[s.index_of(r[k])].id == id);
    }
    if s.len() > 0 {
        let t = s.drop_last();
        lemma_surplus_filter(t, p);
        lemma_surplus_last(s);
        lemma_surplus(t.filter(p));
        lemma_surplus_push(t.filter(p), s.last());
    }
}

/// Taking in downloads leaves no more in want of an id.
proof fn lemma_surplus_absorb(
    s: Seq<EmailView>,
    next: int,
    folder: Seq<char>,
    fetched: Seq<EmailView>,
)
    requires
        ids_below(s, next),
        1 <= next,
        next + fetched.len() <= usize::MAX,
    ensures
        surplus(absorb(s, next, folder, fetched).0) == surplus(s),
    decreases fetched.len(),
{
    if fetched.len() > 0 {
        let t = fetched.drop_last();
        lemma_surplus_absorb(s, next, folder, t);
        lemma_absorb_bound(s, next, folder, t);
        let before = absorb(s, next, folder, t);
        let fresh = fetched.last();
        let r = absorb(s, next, folder, fetched).0;
        if let Some(uid) = fresh.uid {
            lemma_held_at(before.0, folder, uid);
            let k = held_at(before.0, folder, uid);
            if k < before.0.len() {
                lemma_surplus_same_ids(before.0, r);
            } else {
                let e = EmailView { id: before.1 as usize, ..fresh };
                lemma_surplus(before.0);
                lemma_surplus_push(before.0, e);
                if takes_id(before.0, e.id) {
                    let j = choose|j: int|
                        0 <= j < before.0.len() && (#[trigger] before.0[j]).id == e.id;
                    assert(before.0[j].id < before.1);
                }
            }
        }
    }
}

/// A pass leaves no more in want of an id.
proof fn lemma_surplus_folders(s: Seq<EmailView>, folders: Seq<FolderSyncView>)
    requires
        max_id(s) + fetched_count(folders) < usize::MAX,
    ensures
        surplus(merge_folders(s, folders)) <= surplus(s),
    decreases folders.len(),
{
    if folders.len() > 0 {
        let f = folders.last();
        lemma_surplus_folders(s, folders.drop_last());
        lemma_folders_bound(s, folders.drop_last());
        let m = merge_folders(s, folders.drop_last());
        let t = m.filter(|e: EmailView| still_there(e, f));
        let kept = kept_part(m, f);
        lemma_folder_bound(m, f);
        lemma_surplus_filter(m, |e: EmailView| still_there(e, f));
        lemma_surplus_same_ids(t, kept);
        lemma_max_id(kept);
        lemma_surplus_absorb(kept, max_id(kept) + 1, f.folder, f.fetched);
        lemma_surplus_filter(with_fetched(m, f), |e: EmailView| !is_filed(e, f));
    }
}

/// Once a pass is in order, the ids suffice for every message in want of one.
pub proof fn lemma_rekey_room(prior: Seq<EmailView>, folders: Seq<FolderSyncView>)
    requires
        ids_suffice(prior, folders),
    ensures
        ({
            let all = newest_first(merge_folders(prior, folders));
            max_id(all) + surplus(all) < usize::MAX
        }),
{
    broadcast use vstd::seq_lib::group_to_multiset_ensures;

    let m = merge_folders(prior, folders);
    let all = newest_first(m);
    lemma_surplus(prior);
    lemma_surplus_folders(prior, folders);
    lemma_folders_bound(prior, folders);
    lemma_max_id_newest_first(m);
    crate::order::ranked_is_an_ordering(m, |e: EmailView| recency(e));
    assert forall|id: usize| #[trigger] takes_id(all, id) == takes_id(m, id) by {
        if takes_id(all, id) {
            let k = choose|k: int| 0 <= k < all.len() && (#[trigger] all[k]).id == id;
            assert(all.to_multiset().contains(all[k]));
            assert(m.contains(all[k]));
            assert(m[m.index_of(all[k])].id == id);
        }
        if takes_id(m, id) {
            let k = choose|k: int| 0 <= k < m.len() && (#[trigger] m[k]).id == id;
            assert(m.to_multiset().contains(m[k]));
            assert(all.contains(m[k]));
            assert(all[all.index_of(m[k])].id == id);
        }
    }
    assert(own_ids(all) =~= own_ids(m));
}

/// Absorbing keeps ids below the counter, which moves by at most one for each
/// message.
proof fn lemma_absorb_bound(
    s: Seq<EmailView>,
    next: int,
    folder: Seq<char>,
    fetched: Seq<EmailView>,
)
    requires
        ids_below(s, next),
        1 <= next,
        next + fetched.len() <= usize::MAX,
    ensures
        ({
            let r = absorb(s, next, folder, fetched);
            &&& ids_below(r.0, r.1)
            &&& next <= r.1 <= next + fetched.len()
            &&& s.len() <= r.0.len() <= s.len() + fetched.len()
        }),
    decreases fetched.len(),
{
    if fetched.len() > 0 {
        lemma_absorb_bound(s, next, folder, fetched.drop_last());
        let before = absorb(s, next, folder, fetched.drop_last());
        let fresh = fetched.last();
        if let Some(uid) = fresh.uid {
            lemma_held_at(before.0, folder, uid);
        }
    }
}

/// A folder's pass takes at most one new id for each message it brought.
pub proof fn lemma_folder_bound(s: Seq<EmailView>, f: FolderSyncView)
    requires
        max_id(s) + 1 + f.fetched.len() <= usize::MAX,
    ensures
        max_id(merge_folder(s, f)) <= max_id(s) + f.fetched.len(),
        merge_folder(s, f).len() <= s.len() + f.fetched.len(),
        max_id(kept_part(s, f)) <= max_id(s),
{
    let kept = kept_part(s, f);
    lemma_max_id(s);
    lemma_filter_len(s, |e: EmailView| still_there(e, f));
    let t = s.filter(|e: EmailView| still_there(e, f));
    assert(ids_below(kept, max_id(s) + 1)) by {
        assert forall|i: int| 0 <= i < kept.len() implies (#[trigger] kept[i]).id < max_id(s)
            + 1 by {
            assert(s.contains(t[i]));
            let k = s.index_of(t[i]);
            assert(s[k].id < max_id(s) + 1);
        }
    }
    lemma_max_id_bound(kept, max_id(s) + 1);
    lemma_max_id(kept);
    lemma_absorb_bound(kept, max_id(kept) + 1, f.folder, f.fetched);
    let r = with_fetched(s, f);
    lemma_max_id_bound(r, max_id(kept) + 1 + f.fetched.len());
    lemma_filter_len(r, |e: EmailView| !is_filed(e, f));
    let u = r.filter(|e: EmailView| !is_filed(e, f));
    let n = max_id(kept) + 1 + f.fetched.len();
    assert(ids_below(u, n)) by {
        assert forall|i: int| 0 <= i < u.len() implies (#[trigger] u[i]).id < n by {
            assert(r.contains(u[i]));
            let k = r.index_of(u[i]);
            assert(r[k].id < n);
        }
    }
    lemma_max_id_bound(u, n);
}

/// What a folder's pass starts from.
pub open spec fn kept_part(s: Seq<EmailView>, f: FolderSyncView) -> Seq<EmailView> {
    s.filter(|e: EmailView| still_there(e, f)).map_values(|e: EmailView| with_seen(e, f))
}

/// A whole pass stays within the ids there are.
pub proof fn lemma_folders_bound(s: Seq<EmailView>, folders: Seq<FolderSyncView>)
    requires
        max_id(s) + fetched_count(folders) < usize::MAX,
    ensures
        max_id(merge_folders(s, folders)) <= max_id(s) + fetched_count(folders),
        merge_folders(s, folders).len() <= s.len() + fetched_count(folders),
    decreases folders.len(),
{
    if folders.len() > 0 {
        lemma_folders_bound(s, folders.drop_last());
        lemma_folder_bound(merge_folders(s, folders.drop_last()), folders.last());
    }
}

pub proof fn lemma_fetched_count(folders: Seq<FolderSyncView>, k: int)
    requires
        0 <= k <= folders.len(),
    ensures
        fetched_count(folders.take(k)) <= fetched_count(folders),
    decreases folders.len(),
{
    if k < folders.len() {
        lemma_fetched_count(folders.drop_last(), k);
        assert(folders.drop_last().take(k) =~= folders.take(k));
    } else {
        assert(folders.take(k) =~= folders);
    }
}

// ---------------------------------------------------------------------------
// The merge

impl Ranked for Email {
    open spec fn rank(self) -> int {
        recency(self@)
    }

    fn ranks_at_least(&self, other: &Email) -> (r: bool) {
        let a: u32 = match self.uid {
            Some(u) => u,
            None => u32::MAX,
        };
        let b: u32 = match other.uid {
            Some(u) => u,
            None => u32::MAX,
        };
        a >= b
    }
}

/// The numbers of a list, for looking them up.
pub fn uid_set(v: &Vec<u32>) -> (r: HashSet<u32>)
    ensures
        forall|u: u32| r@.contains(u) == v@.contains(u),
{
    broadcast use vstd::std_specs::hash::group_hash_axioms;

    let mut out: HashSet<u32> = HashSet::new();
    let mut i: usize = 0;
    while i < v.len()
        invariant
            i <= v@.len(),
            forall|u: u32| #[trigger] out@.contains(u) == v@.take(i as int).contains(u),
        decreases v@.len() - i,
    {
        broadcast use vstd::std_specs::hash::group_hash_axioms;

        out.insert(v[i]);
        proof {
            let s = v@.take(i as int);
            let t = v@.take(i + 1);
            assert(t =~= s.push(v@[i as int]));
            assert forall|u: u32| #[trigger] out@.contains(u) == t.contains(u) by {
                if s.contains(u) {
                    let k = s.index_of(u);
                    assert(t[k] == u);
                }
                if t.contains(u) && u != v@[i as int] {
                    let k = t.index_of(u);
                    assert(s[k] == u);
                }
                assert(t[i as int] == v@[i as int]);
            }
        }
        i = i + 1;
    }
    proof {
        assert(v@.take(i as int) =~= v@);
    }
    out
}

/// Drop what was deleted from another client.
fn drop_deleted(emails: Vec<Email>, f: &FolderSync) -> (r: Vec<Email>)
    ensures
        views(r@) == views(emails@).filter(|e: EmailView| still_there(e, f@)),
{
    broadcast use {views_push, vstd::std_specs::hash::group_hash_axioms};

    let server = uid_set(&f.server_uids);
    let ghost all = views(emails@);
    let ghost p = |e: EmailView| still_there(e, f@);
    let ghost mut k: int = 0;
    let mut rest = reversed(emails);
    let mut out: Vec<Email> = Vec::new();
    proof {
        reveal(Seq::filter);
        assert(all.take(0).filter(p) =~= Seq::empty());
    }
    while rest.len() > 0
        invariant
            0 <= k <= emails@.len(),
            rest@ == emails@.skip(k).reverse(),
            all == views(emails@),
            p == (|e: EmailView| still_there(e, f@)),
            views(out@) == all.take(k).filter(p),
            forall|u: u32| server@.contains(u) == f.server_uids@.contains(u),
        decreases rest@.len(),
    {
        broadcast use {views_push, vstd::std_specs::hash::group_hash_axioms};

        if let Some(e) = rest.pop() {
            proof {
                assert(e == emails@[k]);
                assert(all[k] == e@);
                assert(rest@ =~= emails@.skip(k + 1).reverse());
                reveal(Seq::filter);
                assert(all.take(k + 1).drop_last() =~= all.take(k));
                k = k + 1;
            }
            let keep = if e.folder == f.folder {
                match e.uid {
                    Some(u) => server.contains(&u),
                    None => true,
                }
            } else {
                true
            };
            if keep {
                out.push(e);
            }
        }
    }
    proof {
        assert(all.take(k) =~= all);
    }
    out
}

/// Mark what was read from another client.
fn mark_seen(emails: &mut Vec<Email>, f: &FolderSync)
    ensures
        views(final(emails)@) == views(old(emails)@).map_values(
            |e: EmailView| with_seen(e, f@),
        ),
{
    broadcast use vstd::std_specs::hash::group_hash_axioms;

    let seen = uid_set(&f.seen_uids);
    let ghost start = emails@;
    let mut i: usize = 0;
    while i < emails.len()
        invariant
            i <= emails@.len(),
            emails@.len() == start.len(),
            forall|j: int| 0 <= j < i ==> (#[trigger] emails@[j])@ == with_seen(start[j]@, f@),
            forall|j: int| i <= j < start.len() ==> emails@[j] == #[trigger] start[j],
            forall|u: u32| seen@.contains(u) == f.seen_uids@.contains(u),
        decreases emails@.len() - i,
    {
        broadcast use vstd::std_specs::hash::group_hash_axioms;

        if emails[i].folder == f.folder {
            if let Some(u) = emails[i].uid {
                if seen.contains(&u) {
                    emails[i].read = true;
                }
            }
        }
        i = i + 1;
    }
    proof {
        assert(views(emails@) =~= views(start).map_values(|e: EmailView| with_seen(e, f@)));
    }
}

/// The largest id in use.
pub fn largest_id(emails: &Vec<Email>) -> (r: usize)
    ensures
        r == max_id(views(emails@)),
{
    let ghost all = views(emails@);
    let mut m: usize = 0;
    let mut i: usize = 0;
    while i < emails.len()
        invariant
            i <= emails@.len(),
            all == views(emails@),
            m == max_id(all.take(i as int)),
        decreases emails@.len() - i,
    {
        proof {
            assert(all.take(i + 1).drop_last() =~= all.take(i as int));
        }
        if m < emails[i].id {
            m = emails[i].id;
        }
        i = i + 1;
    }
    proof {
        assert(all.take(i as int) =~= all);
    }
    m
}

/// Where the cache first holds a message.
fn find_held(emails: &Vec<Email>, folder: &String, uid: u32) -> (r: usize)
    ensures
        r == held_at(views(emails@), folder@, uid),
        r <= emails@.len(),
{
    let mut i: usize = 0;
    while i < emails.len()
        invariant
            i <= emails@.len(),
            forall|j: int|
                0 <= j < i ==> !is_held(#[trigger] views(emails@)[j], folder@, uid),
        decreases emails@.len() - i,
    {
        let here = match emails[i].uid {
            Some(u) => u == uid && emails[i].folder == *folder,
            None => false,
        };
        if here {
            proof {
                lemma_held_at_is(views(emails@), folder@, uid, i as int);
            }
            return i;
        }
        i = i + 1;
    }
    proof {
        lemma_held_at_is(views(emails@), folder@, uid, i as int);
    }
    i
}

/// Take in what was downloaded.
fn absorb_fetched(emails: &mut Vec<Email>, first: usize, folder: &String, fetched: &Vec<Email>)
    requires
        ids_below(views(old(emails)@), first as int),
        1 <= first,
        first + fetched@.len() <= usize::MAX,
    ensures
        views(final(emails)@) == absorb(
            views(old(emails)@),
            first as int,
            folder@,
            views(fetched@),
        ).0,
{
    let ghost start = views(emails@);
    let ghost all = views(fetched@);
    let mut next: usize = first;
    let mut i: usize = 0;
    while i < fetched.len()
        invariant
            i <= fetched@.len(),
            all == views(fetched@),
            ids_below(start, first as int),
            1 <= first,
            first + fetched@.len() <= usize::MAX,
            (views(emails@), next as int) == absorb(
                start,
                first as int,
                folder@,
                all.take(i as int),
            ),
        decreases fetched@.len() - i,
    {
        broadcast use views_push;

        proof {
            assert(all.take(i + 1).drop_last() =~= all.take(i as int));
            lemma_absorb_bound(start, first as int, folder@, all.take(i as int));
        }
        if let Some(uid) = fetched[i].uid {
            let mut fresh = fetched[i].clone();
            let k = find_held(emails, folder, uid);
            let ghost before = views(emails@);
            if k < emails.len() {
                fresh.id = emails[k].id;
                fresh.read = fresh.read || emails[k].read;
                emails[k] = fresh;
                proof {
                    assert(views(emails@) =~= before.update(k as int, emails@[k as int]@));
                }
            } else {
                fresh.id = next;
                next = next + 1;
                emails.push(fresh);
            }
        }
        i = i + 1;
    }
    proof {
        assert(all.take(i as int) =~= all);
    }
}

/// Drop the local copies of sent mail that the server now has.
fn drop_filed(emails: Vec<Email>, f: &FolderSync) -> (r: Vec<Email>)
    ensures
        views(r@) == views(emails@).filter(|e: EmailView| !is_filed(e, f@)),
{
    let ghost all = views(emails@);
    let ghost p = |e: EmailView| !is_filed(e, f@);
    let ghost mut k: int = 0;
    let mut rest = reversed(emails);
    let mut out: Vec<Email> = Vec::new();
    proof {
        reveal(Seq::filter);
        assert(all.take(0).filter(p) =~= Seq::empty());
    }
    while rest.len() > 0
        invariant
            0 <= k <= emails@.len(),
            rest@ == emails@.skip(k).reverse(),
            all == views(emails@),
            p == (|e: EmailView| !is_filed(e, f@)),
            views(out@) == all.take(k).filter(p),
        decreases rest@.len(),
    {
        broadcast use views_push;

        if let Some(e) = rest.pop() {
            proof {
                assert(e == emails@[k]);
                assert(all[k] == e@);
                assert(rest@ =~= emails@.skip(k + 1).reverse());
                reveal(Seq::filter);
                assert(all.take(k + 1).drop_last() =~= all.take(k));
                k = k + 1;
            }
            let filed = if e.uid.is_none() && crate::text::same(e.folder.as_str(), "sent") {
                has_subject(&f.fetched, &e.subject)
            } else {
                false
            };
            proof {
                assert(forall|i: int|
                    0 <= i < f.fetched@.len() ==> #[trigger] f@.fetched[i] == f.fetched@[i]@);
            }
            if !filed {
                out.push(e);
            }
        }
    }
    proof {
        assert(all.take(k) =~= all);
    }
    out
}

fn has_subject(emails: &Vec<Email>, subject: &String) -> (r: bool)
    ensures
        r == exists|i: int|
            0 <= i < emails@.len() && (#[trigger] views(emails@)[i]).subject == subject@,
{
    let mut i: usize = 0;
    while i < emails.len()
        invariant
            i <= emails@.len(),
            forall|j: int|
                0 <= j < i ==> (#[trigger] views(emails@)[j]).subject != subject@,
        decreases emails@.len() - i,
    {
        if emails[i].subject == *subject {
            assert(views(emails@)[i as int].subject == subject@);
            return true;
        }
        i = i + 1;
    }
    false
}

/// Ordering the messages orders their views.
proof fn lemma_newest_first(s: Seq<Email>)
    ensures
        views(ranked(s, crate::order::rank_fn::<Email>())) == newest_first(views(s)),
    decreases s.len(),
{
    let rank = crate::order::rank_fn::<Email>();
    if s.len() == 0 {
        assert(views(s) =~= Seq::empty());
        assert(views(ranked(s, rank)) =~= newest_first(views(s)));
    } else {
        let t = s.drop_first();
        lemma_newest_first(t);
        assert(views(s).drop_first() =~= views(t));
        lemma_insert_views(s[0], ranked(t, rank));
    }
}

proof fn lemma_insert_views(x: Email, s: Seq<Email>)
    ensures
        views(crate::order::insert_ranked(x, s, crate::order::rank_fn::<Email>()))
            == crate::order::insert_ranked(x@, views(s), |e: EmailView| recency(e)),
    decreases s.len(),
{
    let rank = crate::order::rank_fn::<Email>();
    let r = crate::order::insert_ranked(x, s, rank);
    if s.len() == 0 || rank(s[0]) <= rank(x) {
        assert(views(r) =~= seq![x@] + views(s));
    } else {
        lemma_insert_views(x, s.drop_first());
        assert(views(s).drop_first() =~= views(s.drop_first()));
        assert(views(r) =~= seq![s[0]@] + views(
            crate::order::insert_ranked(x, s.drop_first(), rank),
        ));
    }
}

/// Rekeying takes one new id for each message in want of one, all of them
/// fresh.
pub proof fn lemma_rekey_bound(s: Seq<EmailView>, next: int)
    requires
        ids_below(s, next),
        1 <= next,
        next + surplus(s) <= usize::MAX,
    ensures
        rekey(s, next).0.len() == s.len(),
        rekey(s, next).1 == next + surplus(s),
        next <= rekey(s, next).1,
        ids_below(rekey(s, next).0, rekey(s, next).1),
        forall|i: int|
            0 <= i < s.len() ==> (#[trigger] rekey(s, next).0[i]).id == s[i].id || rekey(
                s,
                next,
            ).0[i].id >= next,
        forall|id: usize|
            0 < id < next ==> #[trigger] takes_id(rekey(s, next).0, id) == takes_id(s, id),
    decreases s.len(),
{
    lemma_surplus(s);
    let r = rekey(s, next).0;
    if s.len() > 0 {
        let t = s.drop_last();
        let e = s.last();
        assert(ids_below(t, next)) by {
            assert forall|i: int| 0 <= i < t.len() implies (#[trigger] t[i]).id < next by {
                assert(t[i] == s[i]);
            }
        }
        lemma_surplus_last(s);
        lemma_rekey_bound(t, next);
        let b = rekey(t, next).0;
        assert(s[s.len() - 1].id < next);
        assert forall|id: usize| 0 < id < next implies #[trigger] takes_id(r, id) == takes_id(
            s,
            id,
        ) by {
            assert(takes_id(b, id) == takes_id(t, id));
            if takes_id(r, id) {
                let k = choose|k: int| 0 <= k < r.len() && (#[trigger] r[k]).id == id;
                assert(s[k].id == id);
            }
            if takes_id(s, id) {
                let k = choose|k: int| 0 <= k < s.len() && (#[trigger] s[k]).id == id;
                if k < t.len() {
                    assert(t[k].id == id);
                }
                if takes_id(b, id) {
                    let j = choose|j: int| 0 <= j < b.len() && (#[trigger] b[j]).id == id;
                    assert(r[j].id == id);
                } else {
                    assert(r[k].id == id);
                }
            }
        }
    } else {
        assert(r =~= s);
    }
}

/// Give every message an id of its own.
fn rekey_mail(emails: &mut Vec<Email>)
    requires
        max_id(views(old(emails)@)) + surplus(views(old(emails)@)) < usize::MAX,
    ensures
        views(final(emails)@) == rekey(
            views(old(emails)@),
            max_id(views(old(emails)@)) + 1,
        ).0,
{
    broadcast use vstd::std_specs::hash::group_hash_axioms;

    let ghost start = views(emails@);
    proof {
        lemma_max_id(start);
        lemma_surplus(start);
    }
    let first: usize = largest_id(emails) + 1;
    let mut next: usize = first;
    let mut used: HashSet<usize> = HashSet::new();
    let mut i: usize = 0;
    proof {
        assert(views(emails@).take(0) =~= start.take(0));
    }
    while i < emails.len()
        invariant
            i <= emails@.len(),
            emails@.len() == start.len(),
            first == max_id(start) + 1,
            first + surplus(start) <= usize::MAX,
            ids_below(start, first as int),
            rekey(start.take(i as int), first as int) == (
                views(emails@).take(i as int),
                next as int,
            ),
            views(emails@).skip(i as int) == start.skip(i as int),
            forall|id: usize|
                used@.contains(id) == takes_id(views(emails@).take(i as int), id),
        decreases emails@.len() - i,
    {
        broadcast use vstd::std_specs::hash::group_hash_axioms;

        let ghost done = views(emails@).take(i as int);
        proof {
            let part = start.take(i + 1);
            assert(part.drop_last() =~= start.take(i as int));
            assert(views(emails@).skip(i as int)[0] == start.skip(i as int)[0]);
            assert(part.last() == emails@[i as int]@);
            assert(ids_below(part, first as int)) by {
                assert forall|j: int| 0 <= j <= i implies (#[trigger] part[j]).id < first by {
                    assert(part[j] == start[j]);
                }
            }
            lemma_surplus_take(start, i + 1);
            lemma_rekey_bound(part, first as int);
        }
        let ghost before = views(emails@);
        let id: usize = emails[i].id;
        let mut id_now: usize = id;
        if id == 0 || used.contains(&id) {
            emails[i].id = next;
            id_now = next;
            next = next + 1;
        }
        used.insert(id_now);
        proof {
            let now = views(emails@);
            assert(now.take(i + 1) =~= done.push(now[i as int]));
            assert(now.skip(i + 1) =~= start.skip(i + 1)) by {
                assert(before.skip(i as int) == start.skip(i as int));
                assert forall|j: int| i + 1 <= j < start.len() implies now[j] == start[j] by {
                    assert(before.skip(i as int)[j - i] == start.skip(i as int)[j - i]);
                }
            }
            let r = now.take(i + 1);
            assert forall|x: usize| used@.contains(x) == takes_id(r, x) by {
                if takes_id(done, x) {
                    let k = choose|k: int| 0 <= k < done.len() && (#[trigger] done[k]).id == x;
                    assert(r[k].id == x);
                }
                assert(r[i as int].id == id_now);
                if takes_id(r, x) {
                    let k = choose|k: int| 0 <= k < r.len() && (#[trigger] r[k]).id == x;
                    if k < i {
                        assert(done[k].id == x);
                    }
                }
            }
        }
        i = i + 1;
    }
    proof {
        assert(start.take(i as int) =~= start);
        assert(views(emails@).take(i as int) =~= views(emails@));
    }
}

/// Fold one sync pass into the cached mail.
pub fn merge_sync(prior: Vec<Email>, folders: &[FolderSync]) -> (r: Vec<Email>)
    requires
        ids_suffice(views(prior@), views(folders@)),
    ensures
        views(r@) == merged_mail(views(prior@), views(folders@)),
{
    let ghost start = views(prior@);
    let ghost fs = views(folders@);
    let mut out = prior;
    let mut i: usize = 0;
    while i < folders.len()
        invariant
            i <= folders@.len(),
            start == views(prior@),
            fs == views(folders@),
            ids_suffice(start, fs),
            views(out@) == merge_folders(start, fs.take(i as int)),
        decreases folders@.len() - i,
    {
        let f = &folders[i];
        proof {
            lemma_fetched_count(fs, i as int);
            lemma_fetched_count(fs, i + 1);
            assert(fs.take(i + 1).drop_last() =~= fs.take(i as int));
            lemma_folders_bound(start, fs.take(i as int));
            lemma_folder_bound(views(out@), f@);
            lemma_max_id(views(out@));
        }
        out = drop_deleted(out, f);
        mark_seen(&mut out, f);
        proof {
            lemma_max_id(views(out@));
        }
        let first: usize = largest_id(&out) + 1;
        absorb_fetched(&mut out, first, &f.folder, &f.fetched);
        if crate::text::same(f.folder.as_str(), "sent") {
            out = drop_filed(out, f);
        }
        i = i + 1;
    }
    proof {
        assert(fs.take(i as int) =~= fs);
        lemma_folders_bound(start, fs);
        lemma_newest_first(out@);
        crate::order::ranked_is_an_ordering(
            views(out@),
            |e: EmailView| recency(e),
        );
        lemma_rekey_room(start, fs);
    }
    let mut out = sort_ranked(out);
    rekey_mail(&mut out);
    out
}

pub proof fn lemma_max_id_newest_first(s: Seq<EmailView>)
    ensures
        max_id(newest_first(s)) <= max_id(s),
{
    let r = newest_first(s);
    crate::order::ranked_is_an_ordering(s, |e: EmailView| recency(e));
    lemma_max_id(s);
    assert(ids_below(r, max_id(s) + 1)) by {
        broadcast use vstd::seq_lib::group_to_multiset_ensures;

        assert forall|i: int| 0 <= i < r.len() implies (#[trigger] r[i]).id < max_id(s) + 1 by {
            assert(r.to_multiset().contains(r[i]));
            assert(s.contains(r[i]));
            let k = s.index_of(r[i]);
            assert(s[k].id < max_id(s) + 1);
        }
    }
    lemma_max_id_bound(r, max_id(s) + 1);
}

} // verus!
