//! What holds of every merge.

use vstd::prelude::*;
use crate::merge::{
    absorb, absorb_one, held_at, ids_below, ids_suffice, is_filed, is_held, kept_part, lemma_held_at,
    lemma_max_id, lemma_rekey_bound, lemma_rekey_room, lemma_surplus_last, max_id, merge_folder,
    merge_folders, merged_mail, newest_first, recency, rekey, still_there, surplus, takes_id, with_fetched, with_seen,
};
use crate::model::{EmailView, FolderSyncView};
use crate::order::{descending, insert_ranked, ranked, ranked_is_an_ordering};

verus! {

// ---------------------------------------------------------------------------
// Vocabulary

/// No message has id 0 and no two share one.
pub open spec fn ids_unique(s: Seq<EmailView>) -> bool {
    &&& forall|i: int| 0 <= i < s.len() ==> (#[trigger] s[i]).id != 0
    &&& forall|i: int, j: int|
        0 <= i < j < s.len() ==> (#[trigger] s[i]).id != (#[trigger] s[j]).id
}

/// No server message is held twice.
pub open spec fn no_twins(s: Seq<EmailView>) -> bool {
    forall|i: int, j: int|
        0 <= i < j < s.len() && (#[trigger] s[i]).uid is Some && s[i].folder == (
        #[trigger] s[j]).folder ==> s[i].uid != s[j].uid
}

/// A pass over a folder brings server messages of that folder.
pub open spec fn brings_own(f: FolderSyncView) -> bool {
    forall|i: int|
        0 <= i < f.fetched.len() ==> (#[trigger] f.fetched[i]).folder == f.folder
            && f.fetched[i].uid is Some
}

/// ... and none that the server does not list.
pub open spec fn brings_listed(f: FolderSyncView) -> bool {
    forall|i: int|
        0 <= i < f.fetched.len() && (#[trigger] f.fetched[i]).uid is Some
            ==> f.server_uids.contains(f.fetched[i].uid->0)
}

pub open spec fn all_bring_own(folders: Seq<FolderSyncView>) -> bool {
    forall|i: int| 0 <= i < folders.len() ==> brings_own(#[trigger] folders[i])
}

/// No folder is reconciled twice in one pass.
pub open spec fn tags_distinct(folders: Seq<FolderSyncView>) -> bool {
    forall|i: int, j: int|
        0 <= i < j < folders.len() ==> (#[trigger] folders[i]).folder != (
        #[trigger] folders[j]).folder
}

pub open spec fn reconciles(folders: Seq<FolderSyncView>, tag: Seq<char>) -> bool {
    exists|i: int| 0 <= i < folders.len() && (#[trigger] folders[i]).folder == tag
}

pub open spec fn of_folder(s: Seq<EmailView>, tag: Seq<char>) -> Seq<EmailView> {
    s.filter(|e: EmailView| e.folder == tag)
}

pub open spec fn without_ids(s: Seq<EmailView>) -> Seq<EmailView> {
    s.map_values(|e: EmailView| EmailView { id: 0, ..e })
}

/// The message of `folder` with `uid`, under `id`, read if it was.
pub open spec fn has_message(
    s: Seq<EmailView>,
    folder: Seq<char>,
    uid: u32,
    id: usize,
    read: bool,
) -> bool {
    exists|k: int|
        0 <= k < s.len() && is_held(#[trigger] s[k], folder, uid) && s[k].id == id && (read
            ==> s[k].read)
}

/// What a download shows, under whatever id, read if it is.
pub open spec fn is_copy(e: EmailView, fresh: EmailView) -> bool {
    &&& e == EmailView { id: e.id, read: e.read, ..fresh }
    &&& fresh.read ==> e.read
}

pub open spec fn has_copy(s: Seq<EmailView>, fresh: EmailView) -> bool {
    exists|k: int| 0 <= k < s.len() && is_copy(#[trigger] s[k], fresh)
}

/// No later download is of the same message.
pub open spec fn is_latest(fetched: Seq<EmailView>, i: int) -> bool {
    forall|n: int| i < n < fetched.len() ==> (#[trigger] fetched[n]).uid != fetched[i].uid
}

// ---------------------------------------------------------------------------
// Ids

/// What rekeying changes: ids, and only of messages without one of their own.
proof fn lemma_rekey(s: Seq<EmailView>, next: int)
    requires
        ids_below(s, next),
        1 <= next,
        next + surplus(s) <= usize::MAX,
    ensures
        rekey(s, next).0.len() == s.len(),
        next <= rekey(s, next).1 <= usize::MAX,
        ids_below(rekey(s, next).0, rekey(s, next).1),
        ids_unique(rekey(s, next).0),
        forall|i: int|
            0 <= i < s.len() ==> (#[trigger] rekey(s, next).0[i]).id == s[i].id || rekey(
                s,
                next,
            ).0[i].id >= next,
        forall|i: int|
            0 <= i < s.len() && s[i].id != 0 && (forall|j: int|
                0 <= j < i ==> (#[trigger] s[j]).id != s[i].id) ==> (#[trigger] rekey(
                s,
                next,
            ).0[i]).id == s[i].id,
    decreases s.len(),
{
    lemma_rekey_bound(s, next);
    if s.len() > 0 {
        let t = s.drop_last();
        assert(ids_below(t, next)) by {
            assert forall|i: int| 0 <= i < t.len() implies (#[trigger] t[i]).id < next by {
                assert(t[i] == s[i]);
            }
        }
        lemma_surplus_last(s);
        lemma_rekey(t, next);
        lemma_rekey_bound(t, next);
        let before = rekey(t, next);
        let r = rekey(s, next).0;
        let e = s.last();
        assert(s[s.len() - 1].id < next);
        assert forall|i: int, j: int| 0 <= i < j < r.len() implies (#[trigger] r[i]).id != (
        #[trigger] r[j]).id by {
            assert(r[i] == before.0[i]);
            if j < t.len() {
                assert(r[j] == before.0[j]);
            } else if r[j].id == e.id {
                if before.0[i].id == e.id {
                    assert(takes_id(before.0, e.id));
                }
            }
        }
        assert forall|i: int|
            0 <= i < s.len() && s[i].id != 0 && (forall|j: int|
                0 <= j < i ==> (#[trigger] s[j]).id != s[i].id) implies (#[trigger] r[i]).id
            == s[i].id by {
            if i < t.len() {
                assert(t[i] == s[i]);
                assert forall|j: int| 0 <= j < i implies (#[trigger] t[j]).id != t[i].id by {
                    assert(s[j].id != s[i].id);
                }
                assert(before.0[i].id == t[i].id);
                assert(r[i] == before.0[i]);
            } else if takes_id(before.0, e.id) {
                let k = choose|k: int|
                    0 <= k < before.0.len() && (#[trigger] before.0[k]).id == e.id;
                assert(before.0[k].id == t[k].id);
                assert(s[k].id != s[i].id);
            }
        }
    }
}

proof fn lemma_rekey_shape(s: Seq<EmailView>, next: int)
    ensures
        rekey(s, next).0.len() == s.len(),
        forall|i: int|
            0 <= i < s.len() ==> (#[trigger] rekey(s, next).0[i]) == (EmailView {
                id: rekey(s, next).0[i].id,
                ..s[i]
            }),
    decreases s.len(),
{
    if s.len() > 0 {
        lemma_rekey_shape(s.drop_last(), next);
    }
}

/// The merge stays within the ids there are.
proof fn lemma_merge_room(prior: Seq<EmailView>, folders: Seq<FolderSyncView>)
    requires
        ids_suffice(prior, folders),
    ensures
        ({
            let all = newest_first(merge_folders(prior, folders));
            &&& ids_below(all, max_id(all) + 1)
            &&& 0 <= max_id(all)
            &&& max_id(all) + 1 + surplus(all) <= usize::MAX
        }),
{
    let m = merge_folders(prior, folders);
    lemma_rekey_room(prior, folders);
    lemma_max_id(newest_first(m));
}

/// After a merge every message has an id, and no two share one.
pub proof fn merge_makes_ids_unique(prior: Seq<EmailView>, folders: Seq<FolderSyncView>)
    requires
        ids_suffice(prior, folders),
    ensures
        ids_unique(merged_mail(prior, folders)),
{
    lemma_merge_room(prior, folders);
    let all = newest_first(merge_folders(prior, folders));
    lemma_rekey(all, max_id(all) + 1);
}

/// Of messages that share an id, the first in display order keeps it.
pub proof fn merge_keeps_the_first_id(
    prior: Seq<EmailView>,
    folders: Seq<FolderSyncView>,
    i: int,
)
    requires
        ids_suffice(prior, folders),
        0 <= i < merge_folders(prior, folders).len(),
        newest_first(merge_folders(prior, folders))[i].id != 0,
        forall|j: int|
            0 <= j < i ==> (#[trigger] newest_first(merge_folders(prior, folders))[j]).id
                != newest_first(merge_folders(prior, folders))[i].id,
    ensures
        merged_mail(prior, folders)[i].id == newest_first(merge_folders(prior, folders))[i].id,
{
    lemma_merge_room(prior, folders);
    let m = merge_folders(prior, folders);
    let all = newest_first(m);
    ranked_is_an_ordering(m, |e: EmailView| recency(e));
    lemma_rekey(all, max_id(all) + 1);
}

/// A merged list is ordered newest first, mail without a uid on top.
pub proof fn merge_orders_newest_first(prior: Seq<EmailView>, folders: Seq<FolderSyncView>)
    ensures
        descending(merged_mail(prior, folders), |e: EmailView| recency(e)),
{
    let m = merge_folders(prior, folders);
    let all = newest_first(m);
    let rank = |e: EmailView| recency(e);
    ranked_is_an_ordering(m, rank);
    lemma_rekey_shape(all, max_id(all) + 1);
    let r = merged_mail(prior, folders);
    assert forall|i: int, j: int| 0 <= i <= j < r.len() implies rank(#[trigger] r[i]) >= rank(
        #[trigger] r[j],
    ) by {
        assert(rank(all[i]) >= rank(all[j]));
    }
}

// ---------------------------------------------------------------------------
// Steps of a pass

/// What filtering leaves.
proof fn lemma_filter<A>(s: Seq<A>, p: spec_fn(A) -> bool)
    ensures
        forall|i: int|
            0 <= i < s.filter(p).len() ==> p(#[trigger] s.filter(p)[i]) && s.contains(
                s.filter(p)[i],
            ),
        forall|i: int| 0 <= i < s.len() && p(#[trigger] s[i]) ==> s.filter(p).contains(s[i]),
    decreases s.len(),
{
    reveal(Seq::filter);
    if s.len() > 0 {
        let t = s.drop_last();
        lemma_filter(t, p);
        let r = s.filter(p);
        let before = t.filter(p);
        assert forall|i: int| 0 <= i < r.len() implies p(#[trigger] r[i]) && s.contains(r[i]) by {
            if i < before.len() {
                assert(r[i] == before[i]);
                let k = t.index_of(before[i]);
                assert(s[k] == r[i]);
            } else {
                assert(s[s.len() - 1] == r[i]);
            }
        }
        assert forall|i: int| 0 <= i < s.len() && p(#[trigger] s[i]) implies r.contains(s[i]) by {
            if i < t.len() {
                assert(t[i] == s[i]);
                let k = before.index_of(t[i]);
                assert(r[k] == s[i]);
            } else {
                assert(r[r.len() - 1] == s[i]);
            }
        }
    }
}

proof fn lemma_filter_twins(s: Seq<EmailView>, p: spec_fn(EmailView) -> bool)
    requires
        no_twins(s),
    ensures
        no_twins(s.filter(p)),
    decreases s.len(),
{
    reveal(Seq::filter);
    if s.len() > 0 {
        let t = s.drop_last();
        assert(no_twins(t)) by {
            assert forall|i: int, j: int|
                0 <= i < j < t.len() && (#[trigger] t[i]).uid is Some && t[i].folder == (
                #[trigger] t[j]).folder implies t[i].uid != t[j].uid by {
                assert(t[i] == s[i] && t[j] == s[j]);
            }
        }
        lemma_filter_twins(t, p);
        lemma_filter(t, p);
        let before = t.filter(p);
        let r = s.filter(p);
        assert forall|i: int, j: int|
            0 <= i < j < r.len() && (#[trigger] r[i]).uid is Some && r[i].folder == (
            #[trigger] r[j]).folder implies r[i].uid != r[j].uid by {
            assert(r[i] == before[i]);
            if j < before.len() {
                assert(r[j] == before[j]);
            } else {
                let k = t.index_of(before[i]);
                assert(s[k] == r[i]);
                assert(s[s.len() - 1] == r[j]);
            }
        }
    }
}

proof fn lemma_filter_ids(s: Seq<EmailView>, p: spec_fn(EmailView) -> bool)
    requires
        ids_unique(s),
    ensures
        ids_unique(s.filter(p)),
    decreases s.len(),
{
    reveal(Seq::filter);
    if s.len() > 0 {
        let t = s.drop_last();
        assert(ids_unique(t)) by {
            assert forall|i: int| 0 <= i < t.len() implies (#[trigger] t[i]).id != 0 by {
                assert(t[i] == s[i]);
            }
            assert forall|i: int, j: int| 0 <= i < j < t.len() implies (#[trigger] t[i]).id != (
            #[trigger] t[j]).id by {
                assert(t[i] == s[i] && t[j] == s[j]);
            }
        }
        lemma_filter_ids(t, p);
        lemma_filter(t, p);
        let before = t.filter(p);
        let r = s.filter(p);
        assert(s[s.len() - 1].id != 0);
        assert forall|i: int| 0 <= i < r.len() implies (#[trigger] r[i]).id != 0 by {
            if i < before.len() {
                assert(r[i] == before[i]);
            }
        }
        assert forall|i: int, j: int| 0 <= i < j < r.len() implies (#[trigger] r[i]).id != (
        #[trigger] r[j]).id by {
            assert(r[i] == before[i]);
            if j < before.len() {
                assert(r[j] == before[j]);
            } else {
                let k = t.index_of(before[i]);
                assert(s[k] == r[i]);
                assert(s[s.len() - 1] == r[j]);
            }
        }
    }
}

/// `e` is a message of `s` that the server did not delete.
pub open spec fn was_kept(s: Seq<EmailView>, f: FolderSyncView, e: EmailView) -> bool {
    exists|j: int|
        0 <= j < s.len() && still_there(#[trigger] s[j], f) && e == with_seen(s[j], f)
}

/// The messages a pass starts from.
proof fn lemma_kept_part(s: Seq<EmailView>, f: FolderSyncView)
    ensures
        no_twins(s) ==> no_twins(kept_part(s, f)),
        ids_unique(s) ==> ids_unique(kept_part(s, f)),
        forall|k: int|
            0 <= k < s.len() && still_there(#[trigger] s[k], f) ==> kept_part(s, f).contains(
                with_seen(s[k], f),
            ),
        forall|k: int|
            0 <= k < kept_part(s, f).len() ==> was_kept(s, f, #[trigger] kept_part(s, f)[k]),
{
    let p = |e: EmailView| still_there(e, f);
    let t = s.filter(p);
    let r = kept_part(s, f);
    lemma_filter(s, p);
    if no_twins(s) {
        lemma_filter_twins(s, p);
        assert forall|i: int, j: int|
            0 <= i < j < r.len() && (#[trigger] r[i]).uid is Some && r[i].folder == (
            #[trigger] r[j]).folder implies r[i].uid != r[j].uid by {
            assert(r[i] == with_seen(t[i], f) && r[j] == with_seen(t[j], f));
        }
    }
    if ids_unique(s) {
        lemma_filter_ids(s, p);
        assert forall|i: int| 0 <= i < r.len() implies (#[trigger] r[i]).id != 0 by {
            assert(r[i] == with_seen(t[i], f));
        }
        assert forall|i: int, j: int| 0 <= i < j < r.len() implies (#[trigger] r[i]).id != (
        #[trigger] r[j]).id by {
            assert(r[i] == with_seen(t[i], f) && r[j] == with_seen(t[j], f));
        }
    }
    assert forall|k: int| 0 <= k < s.len() && still_there(#[trigger] s[k], f) implies r.contains(
        with_seen(s[k], f),
    ) by {
        let m = t.index_of(s[k]);
        assert(r[m] == with_seen(s[k], f));
    }
    assert forall|k: int| 0 <= k < r.len() implies was_kept(s, f, #[trigger] r[k]) by {
        assert(s.contains(t[k]));
        let j = s.index_of(t[k]);
        assert(r[k] == with_seen(s[j], f));
        assert(p(t[k]));
    }
}

/// One downloaded message adds at most itself and drops nothing.
proof fn lemma_absorb_one(
    s: Seq<EmailView>,
    next: int,
    folder: Seq<char>,
    fresh: EmailView,
)
    requires
        no_twins(s),
        fresh.folder == folder,
        fresh.uid is Some,
        ids_below(s, next),
        1 <= next <= usize::MAX,
    ensures
        ({
            let r = absorb_one(s, next, folder, fresh).0;
            &&& no_twins(r)
            &&& ids_unique(s) ==> ids_unique(r)
            &&& r.len() >= s.len()
            &&& forall|k: int|
                0 <= k < s.len() ==> r[k] == (#[trigger] s[k]) || (is_held(
                    s[k],
                    folder,
                    fresh.uid->0,
                ) && is_held(r[k], folder, fresh.uid->0) && r[k].id == s[k].id && (s[k].read
                    ==> r[k].read))
            &&& exists|k: int|
                0 <= k < r.len() && is_held(#[trigger] r[k], folder, fresh.uid->0) && is_copy(
                    r[k],
                    fresh,
                )
            &&& forall|k: int|
                0 <= k < r.len() ==> s.contains(#[trigger] r[k]) || is_held(
                    r[k],
                    folder,
                    fresh.uid->0,
                )
        }),
{
    let uid = fresh.uid->0;
    lemma_held_at(s, folder, uid);
    let h = held_at(s, folder, uid);
    let r = absorb_one(s, next, folder, fresh).0;
    assert(is_held(r[h], folder, uid));
    assert forall|k: int| 0 <= k < r.len() implies s.contains(#[trigger] r[k]) || is_held(
        r[k],
        folder,
        uid,
    ) by {
        if k != h {
            assert(r[k] == s[k]);
        }
    }
    assert forall|i: int, j: int|
        0 <= i < j < r.len() && (#[trigger] r[i]).uid is Some && r[i].folder == (
        #[trigger] r[j]).folder implies r[i].uid != r[j].uid by {
        if i != h && j != h {
            assert(r[i] == s[i] && r[j] == s[j]);
        } else if h < s.len() {
            assert(is_held(s[h], folder, uid));
            if i == h {
                assert(r[j] == s[j]);
            } else {
                assert(r[i] == s[i]);
            }
        } else {
            assert(j == h && r[i] == s[i]);
            assert(!is_held(s[i], folder, uid));
        }
    }
    if ids_unique(s) {
        assert forall|i: int| 0 <= i < r.len() implies (#[trigger] r[i]).id != 0 by {
            if i < s.len() {
                assert(r[i].id == s[i].id);
            }
        }
        assert forall|i: int, j: int| 0 <= i < j < r.len() implies (#[trigger] r[i]).id != (
        #[trigger] r[j]).id by {
            assert(r[i].id == s[i].id);
            if j < s.len() {
                assert(r[j].id == s[j].id);
            }
        }
    }
}

/// What taking in the downloads keeps and brings.
proof fn lemma_absorb(
    s: Seq<EmailView>,
    next: int,
    folder: Seq<char>,
    fetched: Seq<EmailView>,
)
    requires
        no_twins(s),
        forall|i: int|
            0 <= i < fetched.len() ==> (#[trigger] fetched[i]).folder == folder && fetched[i].uid
                is Some,
        ids_below(s, next),
        1 <= next,
        next + fetched.len() <= usize::MAX,
    ensures
        ({
            let a = absorb(s, next, folder, fetched);
            let r = a.0;
            &&& no_twins(r)
            &&& ids_unique(s) ==> ids_unique(r)
            &&& ids_below(r, a.1)
            &&& next <= a.1 <= next + fetched.len()
            &&& r.len() >= s.len()
            &&& forall|k: int|
                0 <= k < s.len() ==> r[k] == (#[trigger] s[k]) || (s[k].uid is Some && is_held(
                    s[k],
                    folder,
                    s[k].uid->0,
                ) && is_held(r[k], folder, s[k].uid->0) && r[k].id == s[k].id && (s[k].read
                    ==> r[k].read))
            &&& forall|i: int|
                0 <= i < fetched.len() ==> has_read(
                    r,
                    folder,
                    (#[trigger] fetched[i]).uid->0,
                    fetched[i].read,
                )
            &&& forall|i: int|
                0 <= i < fetched.len() && is_latest(fetched, i) ==> has_copy(
                    r,
                    #[trigger] fetched[i],
                )
            &&& forall|k: int|
                0 <= k < r.len() ==> s.contains(#[trigger] r[k]) || (r[k].folder == folder
                    && exists|i: int|
                    0 <= i < fetched.len() && r[k].uid == (#[trigger] fetched[i]).uid && r[k].uid
                        is Some)
        }),
    decreases fetched.len(),
{
    if fetched.len() > 0 {
        let t = fetched.drop_last();
        let fresh = fetched.last();
        let uid = fresh.uid->0;
        assert(fetched[fetched.len() - 1] == fresh);
        assert forall|i: int| 0 <= i < t.len() implies (#[trigger] t[i]).folder == folder
            && t[i].uid is Some by {
            assert(t[i] == fetched[i]);
        }
        lemma_absorb(s, next, folder, t);
        let before = absorb(s, next, folder, t);
        lemma_absorb_one(before.0, before.1, folder, fresh);
        lemma_held_at(before.0, folder, uid);
        let b = before.0;
        let r = absorb(s, next, folder, fetched).0;
        assert forall|k: int| 0 <= k < s.len() implies r[k] == (#[trigger] s[k]) || (s[k].uid
            is Some && is_held(s[k], folder, s[k].uid->0) && is_held(r[k], folder, s[k].uid->0)
            && r[k].id == s[k].id && (s[k].read ==> r[k].read)) by {
            assert(b[k] == b[k]);
        }
        assert forall|i: int| 0 <= i < fetched.len() implies has_read(
            r,
            folder,
            (#[trigger] fetched[i]).uid->0,
            fetched[i].read,
        ) by {
            if i < t.len() {
                assert(t[i] == fetched[i]);
                let k = choose|k: int|
                    0 <= k < b.len() && is_held(#[trigger] b[k], folder, t[i].uid->0) && (
                    t[i].read ==> b[k].read);
                assert(is_held(r[k], folder, t[i].uid->0));
            }
        }
        assert forall|i: int| 0 <= i < fetched.len() && is_latest(fetched, i) implies has_copy(
            r,
            #[trigger] fetched[i],
        ) by {
            if i < t.len() {
                assert(t[i] == fetched[i]);
                assert(is_latest(t, i)) by {
                    assert forall|n: int| i < n < t.len() implies (#[trigger] t[n]).uid
                        != t[i].uid by {
                        assert(t[n] == fetched[n]);
                    }
                }
                let k = choose|k: int| 0 <= k < b.len() && is_copy(#[trigger] b[k], t[i]);
                assert(fetched[fetched.len() - 1].uid != fetched[i].uid);
                assert(r[k] == b[k]);
            }
        }
        assert forall|k: int| 0 <= k < r.len() implies s.contains(#[trigger] r[k]) || (
        r[k].folder == folder && exists|i: int|
            0 <= i < fetched.len() && r[k].uid == (#[trigger] fetched[i]).uid && r[k].uid
                is Some) by {
            if is_held(r[k], folder, uid) {
                assert(r[k].uid == fetched[fetched.len() - 1].uid);
            } else {
                let j = b.index_of(r[k]);
                assert(b[j] == r[k]);
                if !s.contains(b[j]) {
                    let i = choose|i: int|
                        0 <= i < t.len() && b[j].uid == (#[trigger] t[i]).uid && b[j].uid is Some;
                    assert(t[i] == fetched[i]);
                }
            }
        }
    }
}

/// The message of `folder` with `uid` is there, and read if it was.
pub open spec fn has_read(s: Seq<EmailView>, folder: Seq<char>, uid: u32, read: bool) -> bool {
    exists|k: int|
        0 <= k < s.len() && is_held(#[trigger] s[k], folder, uid) && (read ==> s[k].read)
}

// ---------------------------------------------------------------------------
// One folder

/// There is an id for everything a folder's pass brought.
pub open spec fn folder_fits(s: Seq<EmailView>, f: FolderSyncView) -> bool {
    max_id(s) + 1 + f.fetched.len() <= usize::MAX
}

proof fn lemma_folder(s: Seq<EmailView>, f: FolderSyncView)
    requires
        no_twins(s),
        brings_own(f),
        folder_fits(s, f),
    ensures
        no_twins(merge_folder(s, f)),
        ids_unique(s) ==> ids_unique(merge_folder(s, f)),
        // Whatever is still there stays, under its id, read if it was or if
        // the server says so.
        forall|k: int|
            0 <= k < s.len() && still_there(#[trigger] s[k], f) && s[k].uid is Some
                ==> has_message(
                merge_folder(s, f),
                s[k].folder,
                s[k].uid->0,
                s[k].id,
                with_seen(s[k], f).read,
            ),
        forall|k: int|
            0 <= k < s.len() && (#[trigger] s[k]).uid is None && !(f.folder == "sent"@ && is_filed(
                s[k],
                f,
            )) ==> merge_folder(s, f).contains(s[k]),
        forall|k: int|
            0 <= k < s.len() && (#[trigger] s[k]).folder != f.folder ==> merge_folder(
                s,
                f,
            ).contains(s[k]),
        // What was brought is there.
        forall|i: int|
            0 <= i < f.fetched.len() ==> has_read(
                merge_folder(s, f),
                f.folder,
                (#[trigger] f.fetched[i]).uid->0,
                f.fetched[i].read,
            ),
        // Mail of other folders is only what was there.
        forall|k: int|
            0 <= k < merge_folder(s, f).len() && (#[trigger] merge_folder(s, f)[k]).folder
                != f.folder ==> s.contains(merge_folder(s, f)[k]),
        // Mail of the folder is listed or local.
        brings_listed(f) ==> forall|k: int|
            0 <= k < merge_folder(s, f).len() ==> still_there(
                #[trigger] merge_folder(s, f)[k],
                f,
            ),
        // No filed copy is left.
        f.folder == "sent"@ ==> forall|k: int|
            0 <= k < merge_folder(s, f).len() ==> !is_filed(#[trigger] merge_folder(s, f)[k], f),
{
    let kept = kept_part(s, f);
    lemma_kept_part(s, f);
    lemma_max_id(kept);
    crate::merge::lemma_folder_bound(s, f);
    lemma_absorb(kept, max_id(kept) + 1, f.folder, f.fetched);
    let r = with_fetched(s, f);
    let p = |e: EmailView| !is_filed(e, f);
    lemma_filter(r, p);
    if no_twins(r) {
        lemma_filter_twins(r, p);
    }
    if ids_unique(r) {
        lemma_filter_ids(r, p);
    }
    let m = merge_folder(s, f);
    // Whatever `r` holds and is not filed, `m` holds.
    assert forall|k: int| 0 <= k < r.len() && p(#[trigger] r[k]) implies m.contains(r[k]) by {
        if f.folder != "sent"@ {
            assert(m[k] == r[k]);
        }
    }
    assert forall|k: int| 0 <= k < m.len() implies r.contains(#[trigger] m[k]) by {
        if f.folder != "sent"@ {
            assert(m[k] == r[k]);
        }
    }
    assert forall|k: int|
        0 <= k < s.len() && still_there(#[trigger] s[k], f) && s[k].uid is Some implies has_message(
        m,
        s[k].folder,
        s[k].uid->0,
        s[k].id,
        with_seen(s[k], f).read,
    ) by {
        let e = with_seen(s[k], f);
        let j = kept.index_of(e);
        assert(kept[j] == e);
        assert(p(r[j]));
        let i = m.index_of(r[j]);
        assert(is_held(m[i], s[k].folder, s[k].uid->0));
    }
    assert forall|k: int|
        0 <= k < s.len() && (#[trigger] s[k]).uid is None && !(f.folder == "sent"@ && is_filed(
            s[k],
            f,
        )) implies m.contains(s[k]) by {
        assert(still_there(s[k], f));
        let j = kept.index_of(with_seen(s[k], f));
        assert(kept[j] == s[k]);
        assert(r[j] == s[k]);
        if f.folder != "sent"@ {
            assert(m[j] == s[k]);
        }
    }
    assert forall|k: int| 0 <= k < s.len() && (#[trigger] s[k]).folder != f.folder implies m.contains(
        s[k],
    ) by {
        assert(still_there(s[k], f));
        let j = kept.index_of(with_seen(s[k], f));
        assert(kept[j] == s[k]);
        assert(r[j] == s[k]);
        if f.folder != "sent"@ {
            assert(m[j] == s[k]);
        }
    }
    assert forall|i: int| 0 <= i < f.fetched.len() implies has_read(
        m,
        f.folder,
        (#[trigger] f.fetched[i]).uid->0,
        f.fetched[i].read,
    ) by {
        let uid = f.fetched[i].uid->0;
        let k = choose|k: int|
            0 <= k < r.len() && is_held(#[trigger] r[k], f.folder, uid) && (f.fetched[i].read
                ==> r[k].read);
        assert(p(r[k]));
        let j = m.index_of(r[k]);
        assert(is_held(m[j], f.folder, uid));
    }
    assert forall|k: int| 0 <= k < m.len() && (#[trigger] m[k]).folder != f.folder implies s.contains(
        m[k],
    ) by {
        let j = r.index_of(m[k]);
        assert(r[j] == m[k]);
        assert(kept.contains(r[j]));
        let i = kept.index_of(r[j]);
        assert(was_kept(s, f, kept[i]));
    }
    if brings_listed(f) {
        assert forall|k: int| 0 <= k < m.len() implies still_there(#[trigger] m[k], f) by {
            let j = r.index_of(m[k]);
            assert(r[j] == m[k]);
            if kept.contains(r[j]) {
                let i = kept.index_of(r[j]);
                assert(was_kept(s, f, kept[i]));
            }
        }
    }
}

/// What a folder's pass brought is there as it was brought last.
proof fn lemma_folder_copy(s: Seq<EmailView>, f: FolderSyncView, i: int)
    requires
        no_twins(s),
        brings_own(f),
        folder_fits(s, f),
        0 <= i < f.fetched.len(),
        is_latest(f.fetched, i),
    ensures
        has_copy(merge_folder(s, f), f.fetched[i]),
{
    let kept = kept_part(s, f);
    lemma_kept_part(s, f);
    lemma_max_id(kept);
    crate::merge::lemma_folder_bound(s, f);
    lemma_absorb(kept, max_id(kept) + 1, f.folder, f.fetched);
    let r = with_fetched(s, f);
    let p = |e: EmailView| !is_filed(e, f);
    lemma_filter(r, p);
    let m = merge_folder(s, f);
    let k = choose|k: int| 0 <= k < r.len() && is_copy(#[trigger] r[k], f.fetched[i]);
    assert(p(r[k]));
    if f.folder != "sent"@ {
        assert(m[k] == r[k]);
    }
    assert(is_copy(m[m.index_of(r[k])], f.fetched[i]));
}

// ---------------------------------------------------------------------------
// A whole pass

/// Marked as seen by some folder's pass.
pub open spec fn seen_in(folders: Seq<FolderSyncView>, folder: Seq<char>, uid: u32) -> bool {
    exists|j: int|
        0 <= j < folders.len() && (#[trigger] folders[j]).folder == folder
            && folders[j].seen_uids.contains(uid)
}

/// Every pass over its folder lists it.
pub open spec fn listed_in(folders: Seq<FolderSyncView>, folder: Seq<char>, uid: u32) -> bool {
    forall|j: int|
        0 <= j < folders.len() && (#[trigger] folders[j]).folder == folder
            ==> folders[j].server_uids.contains(uid)
}

/// A sent copy that some pass over the sent folder brought.
pub open spec fn filed_in(folders: Seq<FolderSyncView>, e: EmailView) -> bool {
    exists|j: int|
        0 <= j < folders.len() && (#[trigger] folders[j]).folder == "sent"@ && is_filed(
            e,
            folders[j],
        )
}

proof fn lemma_pass_fits(prior: Seq<EmailView>, folders: Seq<FolderSyncView>)
    requires
        max_id(prior) + crate::merge::fetched_count(folders) < usize::MAX,
        folders.len() > 0,
    ensures
        folder_fits(merge_folders(prior, folders.drop_last()), folders.last()),
        max_id(prior) + crate::merge::fetched_count(folders.drop_last()) < usize::MAX,
{
    crate::merge::lemma_folders_bound(prior, folders.drop_last());
}

proof fn lemma_own_prefix(folders: Seq<FolderSyncView>)
    requires
        all_bring_own(folders),
        folders.len() > 0,
    ensures
        all_bring_own(folders.drop_last()),
        brings_own(folders.last()),
{
    assert(brings_own(folders[folders.len() - 1]));
    assert forall|i: int| 0 <= i < folders.len() - 1 implies brings_own(
        #[trigger] folders.drop_last()[i],
    ) by {
        assert(folders.drop_last()[i] == folders[i]);
    }
}

proof fn lemma_pass(prior: Seq<EmailView>, folders: Seq<FolderSyncView>)
    requires
        no_twins(prior),
        all_bring_own(folders),
        max_id(prior) + crate::merge::fetched_count(folders) < usize::MAX,
    ensures
        no_twins(merge_folders(prior, folders)),
        ids_unique(prior) ==> ids_unique(merge_folders(prior, folders)),
    decreases folders.len(),
{
    if folders.len() > 0 {
        lemma_pass_fits(prior, folders);
        lemma_own_prefix(folders);
        lemma_pass(prior, folders.drop_last());
        lemma_folder(merge_folders(prior, folders.drop_last()), folders.last());
    }
}

proof fn lemma_track(
    prior: Seq<EmailView>,
    folders: Seq<FolderSyncView>,
    folder: Seq<char>,
    uid: u32,
    id: usize,
    read: bool,
)
    requires
        no_twins(prior),
        all_bring_own(folders),
        max_id(prior) + crate::merge::fetched_count(folders) < usize::MAX,
        has_message(prior, folder, uid, id, read),
        listed_in(folders, folder, uid),
    ensures
        has_message(
            merge_folders(prior, folders),
            folder,
            uid,
            id,
            read || seen_in(folders, folder, uid),
        ),
    decreases folders.len(),
{
    if folders.len() > 0 {
        let t = folders.drop_last();
        let f = folders.last();
        lemma_pass_fits(prior, folders);
        lemma_own_prefix(folders);
        lemma_pass(prior, t);
        assert(folders[folders.len() - 1] == f);
        assert forall|j: int| 0 <= j < t.len() && (#[trigger] t[j]).folder == folder implies t[j].server_uids.contains(
        uid) by {
            assert(t[j] == folders[j]);
        }
        lemma_track(prior, t, folder, uid, id, read);
        let s = merge_folders(prior, t);
        let before = read || seen_in(t, folder, uid);
        let k = choose|k: int|
            0 <= k < s.len() && is_held(#[trigger] s[k], folder, uid) && s[k].id == id && (before
                ==> s[k].read);
        lemma_folder(s, f);
        assert(still_there(s[k], f));
        if seen_in(folders, folder, uid) && !(f.folder == folder && f.seen_uids.contains(uid)) {
            let j = choose|j: int|
                0 <= j < folders.len() && (#[trigger] folders[j]).folder == folder
                    && folders[j].seen_uids.contains(uid);
            assert(t[j] == folders[j]);
            assert(seen_in(t, folder, uid));
        }
        let m = merge_folder(s, f);
        let i = choose|i: int|
            0 <= i < m.len() && is_held(#[trigger] m[i], folder, uid) && m[i].id == id && (
            with_seen(s[k], f).read ==> m[i].read);
        assert(is_held(m[i], folder, uid));
    }
}

proof fn lemma_insert_ids(x: EmailView, s: Seq<EmailView>, rank: spec_fn(EmailView) -> int)
    requires
        ids_unique(s),
        x.id != 0,
        forall|i: int| 0 <= i < s.len() ==> (#[trigger] s[i]).id != x.id,
    ensures
        ids_unique(insert_ranked(x, s, rank)),
        forall|i: int|
            0 <= i < insert_ranked(x, s, rank).len() ==> (#[trigger] insert_ranked(
                x,
                s,
                rank,
            )[i]) == x || s.contains(insert_ranked(x, s, rank)[i]),
        forall|i: int|
            0 <= i < s.len() ==> insert_ranked(x, s, rank).contains(#[trigger] s[i]),
        insert_ranked(x, s, rank).contains(x),
    decreases s.len(),
{
    let r = insert_ranked(x, s, rank);
    if s.len() == 0 || rank(s[0]) <= rank(x) {
        assert forall|i: int| 0 < i < r.len() implies r[i] == s[i - 1] by {}
        assert forall|i: int| 0 <= i < s.len() implies r.contains(#[trigger] s[i]) by {
            assert(r[i + 1] == s[i]);
        }
        assert(r[0] == x);
    } else {
        let t = s.drop_first();
        assert forall|i: int| 0 <= i < t.len() implies t[i] == s[i + 1] by {}
        lemma_insert_ids(x, t, rank);
        let u = insert_ranked(x, t, rank);
        assert forall|i: int| 0 < i < r.len() implies r[i] == u[i - 1] by {}
        assert(r[0] == s[0]);
        assert forall|i: int| 0 <= i < u.len() implies (#[trigger] u[i]).id != s[0].id by {
            if u[i] != x {
                let k = t.index_of(u[i]);
                assert(s[k + 1] == u[i]);
            }
        }
        assert forall|i: int| 0 <= i < r.len() implies (#[trigger] r[i]) == x || s.contains(
            r[i],
        ) by {
            if i > 0 && u[i - 1] != x {
                let k = t.index_of(u[i - 1]);
                assert(s[k + 1] == r[i]);
            }
        }
        assert forall|i: int| 0 <= i < s.len() implies r.contains(#[trigger] s[i]) by {
            if i > 0 {
                assert(t[i - 1] == s[i]);
                let k = u.index_of(s[i]);
                assert(r[k + 1] == s[i]);
            }
        }
        let k = u.index_of(x);
        assert(r[k + 1] == x);
    }
}

proof fn lemma_newest_first_ids(s: Seq<EmailView>)
    requires
        ids_unique(s),
    ensures
        ids_unique(newest_first(s)),
        forall|i: int| 0 <= i < s.len() ==> newest_first(s).contains(#[trigger] s[i]),
        forall|i: int|
            0 <= i < newest_first(s).len() ==> s.contains(#[trigger] newest_first(s)[i]),
    decreases s.len(),
{
    let rank = |e: EmailView| recency(e);
    if s.len() > 0 {
        let t = s.drop_first();
        assert forall|i: int| 0 <= i < t.len() implies t[i] == s[i + 1] by {}
        lemma_newest_first_ids(t);
        let u = newest_first(t);
        assert forall|i: int| 0 <= i < u.len() implies (#[trigger] u[i]).id != s[0].id by {
            let k = t.index_of(u[i]);
            assert(s[k + 1] == u[i]);
        }
        lemma_insert_ids(s[0], u, rank);
        let r = newest_first(s);
        assert forall|i: int| 0 <= i < s.len() implies r.contains(#[trigger] s[i]) by {
            if i > 0 {
                assert(t[i - 1] == s[i]);
                let k = u.index_of(s[i]);
                assert(r.contains(u[k]));
            }
        }
        assert forall|i: int| 0 <= i < r.len() implies s.contains(#[trigger] r[i]) by {
            if r[i] != s[0] {
                let k = u.index_of(r[i]);
                assert(t.contains(u[k]));
                let j = t.index_of(r[i]);
                assert(s[j + 1] == r[i]);
            }
        }
    }
}

proof fn lemma_rekey_unique(s: Seq<EmailView>, next: int)
    requires
        ids_unique(s),
    ensures
        rekey(s, next).0 == s,
    decreases s.len(),
{
    if s.len() > 0 {
        let t = s.drop_last();
        assert forall|i: int| 0 <= i < t.len() implies t[i] == s[i] by {}
        lemma_rekey_unique(t, next);
        assert(s[s.len() - 1].id != 0);
        assert(!takes_id(t, s.last().id)) by {
            if takes_id(t, s.last().id) {
                let k = choose|k: int| 0 <= k < t.len() && (#[trigger] t[k]).id == s.last().id;
                assert(s[k].id == s[s.len() - 1].id);
            }
        }
        assert(t.push(s.last()) =~= s);
    }
}

/// Once ids are unique a merge changes none of them.
pub proof fn merge_keeps_unique_ids(prior: Seq<EmailView>, folders: Seq<FolderSyncView>)
    requires
        ids_suffice(prior, folders),
        ids_unique(prior),
        no_twins(prior),
        all_bring_own(folders),
    ensures
        merged_mail(prior, folders) == newest_first(merge_folders(prior, folders)),
        no_twins(merge_folders(prior, folders)),
{
    lemma_pass(prior, folders);
    let m = merge_folders(prior, folders);
    lemma_newest_first_ids(m);
    lemma_rekey_unique(newest_first(m), max_id(newest_first(m)) + 1);
}

/// Both are the same server message.
pub open spec fn are_twins(a: EmailView, b: EmailView) -> bool {
    a.uid is Some && a.folder == b.folder && a.uid == b.uid
}

proof fn lemma_insert_twins(x: EmailView, s: Seq<EmailView>, rank: spec_fn(EmailView) -> int)
    requires
        no_twins(s),
        forall|i: int| 0 <= i < s.len() ==> !are_twins(x, #[trigger] s[i]),
    ensures
        no_twins(insert_ranked(x, s, rank)),
        forall|i: int|
            0 <= i < insert_ranked(x, s, rank).len() ==> (#[trigger] insert_ranked(
                x,
                s,
                rank,
            )[i]) == x || s.contains(insert_ranked(x, s, rank)[i]),
    decreases s.len(),
{
    let r = insert_ranked(x, s, rank);
    if s.len() == 0 || rank(s[0]) <= rank(x) {
        assert forall|i: int| 0 < i < r.len() implies r[i] == s[i - 1] by {}
        assert(r[0] == x);
        assert forall|i: int, j: int|
            0 <= i < j < r.len() && (#[trigger] r[i]).uid is Some && r[i].folder == (
            #[trigger] r[j]).folder implies r[i].uid != r[j].uid by {
            assert(!are_twins(x, s[j - 1]));
            if i > 0 {
                assert(s[i - 1].folder == s[j - 1].folder);
            }
        }
    } else {
        let t = s.drop_first();
        assert forall|i: int| 0 <= i < t.len() implies t[i] == s[i + 1] by {}
        lemma_insert_twins(x, t, rank);
        let u = insert_ranked(x, t, rank);
        assert forall|i: int| 0 < i < r.len() implies r[i] == u[i - 1] by {}
        assert(r[0] == s[0]);
        assert forall|i: int| 0 <= i < u.len() implies u[i] == x || exists|k: int|
            0 < k < s.len() && (#[trigger] s[k]) == u[i] by {
            if u[i] != x {
                let k = t.index_of(u[i]);
                assert(s[k + 1] == u[i]);
            }
        }
        assert(!are_twins(x, s[0]));
        assert forall|i: int, j: int|
            0 <= i < j < r.len() && (#[trigger] r[i]).uid is Some && r[i].folder == (
            #[trigger] r[j]).folder implies r[i].uid != r[j].uid by {
            assert(r[j] == u[j - 1]);
            if i > 0 {
                assert(u[i - 1].folder == u[j - 1].folder);
            } else if u[j - 1] != x {
                let k = choose|k: int| 0 < k < s.len() && (#[trigger] s[k]) == u[j - 1];
                assert(s[0].folder == s[k].folder);
            }
        }
    }
}

proof fn lemma_newest_first_twins(s: Seq<EmailView>)
    requires
        no_twins(s),
    ensures
        no_twins(newest_first(s)),
        newest_first(s).len() == s.len(),
    decreases s.len(),
{
    let rank = |e: EmailView| recency(e);
    ranked_is_an_ordering(s, rank);
    if s.len() > 0 {
        broadcast use vstd::seq_lib::group_to_multiset_ensures;

        let t = s.drop_first();
        assert forall|i: int| 0 <= i < t.len() implies t[i] == s[i + 1] by {}
        lemma_newest_first_twins(t);
        ranked_is_an_ordering(t, rank);
        let u = newest_first(t);
        assert forall|i: int| 0 <= i < u.len() implies !are_twins(s[0], #[trigger] u[i]) by {
            assert(u.to_multiset().contains(u[i]));
            assert(t.contains(u[i]));
            let k = t.index_of(u[i]);
            assert(s[k + 1] == u[i]);
        }
        lemma_insert_twins(s[0], u, rank);
    }
}

/// A merge never leaves the cache holding a server message twice.
pub proof fn merge_holds_no_message_twice(prior: Seq<EmailView>, folders: Seq<FolderSyncView>)
    requires
        ids_suffice(prior, folders),
        no_twins(prior),
        all_bring_own(folders),
    ensures
        no_twins(merged_mail(prior, folders)),
{
    let m = merge_folders(prior, folders);
    lemma_pass(prior, folders);
    let all = newest_first(m);
    lemma_newest_first_twins(m);
    lemma_rekey_shape(all, max_id(all) + 1);
    let r = merged_mail(prior, folders);
    assert forall|i: int, j: int|
        0 <= i < j < r.len() && (#[trigger] r[i]).uid is Some && r[i].folder == (
        #[trigger] r[j]).folder implies r[i].uid != r[j].uid by {
        assert(all[i].folder == all[j].folder);
    }
}

/// A message that the server still lists survives the pass: once, under its
/// id, read if it was read here or is marked as seen there.
pub proof fn merge_keeps_history(
    prior: Seq<EmailView>,
    folders: Seq<FolderSyncView>,
    i: int,
)
    requires
        ids_suffice(prior, folders),
        ids_unique(prior),
        no_twins(prior),
        all_bring_own(folders),
        0 <= i < prior.len(),
        prior[i].uid is Some,
        listed_in(folders, prior[i].folder, prior[i].uid->0),
    ensures
        has_message(
            merged_mail(prior, folders),
            prior[i].folder,
            prior[i].uid->0,
            prior[i].id,
            prior[i].read || seen_in(folders, prior[i].folder, prior[i].uid->0),
        ),
{
    let folder = prior[i].folder;
    let uid = prior[i].uid->0;
    let id = prior[i].id;
    let read = prior[i].read;
    assert(is_held(prior[i], folder, uid));
    assert(has_message(prior, folder, uid, id, read));
    lemma_track(prior, folders, folder, uid, id, read);
    merge_keeps_unique_ids(prior, folders);
    lemma_pass(prior, folders);
    let m = merge_folders(prior, folders);
    lemma_newest_first_ids(m);
    let want = read || seen_in(folders, folder, uid);
    let k = choose|k: int|
        0 <= k < m.len() && is_held(#[trigger] m[k], folder, uid) && m[k].id == id && (want
            ==> m[k].read);
    let r = merged_mail(prior, folders);
    assert(r.contains(m[k]));
    let j = r.index_of(m[k]);
    assert(is_held(r[j], folder, uid));
}

proof fn lemma_local_mail(prior: Seq<EmailView>, folders: Seq<FolderSyncView>, e: EmailView)
    requires
        no_twins(prior),
        all_bring_own(folders),
        max_id(prior) + crate::merge::fetched_count(folders) < usize::MAX,
        prior.contains(e),
        e.uid is None,
        !filed_in(folders, e),
    ensures
        merge_folders(prior, folders).contains(e),
    decreases folders.len(),
{
    if folders.len() > 0 {
        let t = folders.drop_last();
        let f = folders.last();
        assert(folders[folders.len() - 1] == f);
        lemma_pass_fits(prior, folders);
        lemma_own_prefix(folders);
        lemma_pass(prior, t);
        assert(!filed_in(t, e)) by {
            if filed_in(t, e) {
                let j = choose|j: int|
                    0 <= j < t.len() && (#[trigger] t[j]).folder == "sent"@ && is_filed(e, t[j]);
                assert(folders[j] == t[j]);
            }
        }
        lemma_local_mail(prior, t, e);
        let s = merge_folders(prior, t);
        lemma_folder(s, f);
        let k = s.index_of(e);
        assert(s[k] == e);
    }
}

/// Mail that never was on the server survives the pass unchanged, but for a
/// sent copy that the pass brought.
pub proof fn merge_keeps_local_mail(
    prior: Seq<EmailView>,
    folders: Seq<FolderSyncView>,
    i: int,
)
    requires
        ids_suffice(prior, folders),
        ids_unique(prior),
        no_twins(prior),
        all_bring_own(folders),
        0 <= i < prior.len(),
        prior[i].uid is None,
        !filed_in(folders, prior[i]),
    ensures
        merged_mail(prior, folders).contains(prior[i]),
{
    lemma_local_mail(prior, folders, prior[i]);
    merge_keeps_unique_ids(prior, folders);
    lemma_pass(prior, folders);
    let m = merge_folders(prior, folders);
    lemma_newest_first_ids(m);
    let k = m.index_of(prior[i]);
    assert(merged_mail(prior, folders).contains(m[k]));
}

proof fn lemma_arrivals(
    prior: Seq<EmailView>,
    folders: Seq<FolderSyncView>,
    j: int,
    i: int,
)
    requires
        no_twins(prior),
        all_bring_own(folders),
        tags_distinct(folders),
        max_id(prior) + crate::merge::fetched_count(folders) < usize::MAX,
        0 <= j < folders.len(),
        0 <= i < folders[j].fetched.len(),
    ensures
        has_read(
            merge_folders(prior, folders),
            folders[j].folder,
            folders[j].fetched[i].uid->0,
            folders[j].fetched[i].read,
        ),
        is_latest(folders[j].fetched, i) ==> has_copy(
            merge_folders(prior, folders),
            folders[j].fetched[i],
        ),
    decreases folders.len(),
{
    let t = folders.drop_last();
    let f = folders.last();
    assert(folders[folders.len() - 1] == f);
    lemma_pass_fits(prior, folders);
    lemma_own_prefix(folders);
    lemma_pass(prior, t);
    let s = merge_folders(prior, t);
    lemma_folder(s, f);
    if j == t.len() && is_latest(f.fetched, i) {
        lemma_folder_copy(s, f, i);
    }
    if j < t.len() {
        assert(t[j] == folders[j]);
        assert(tags_distinct(t)) by {
            assert forall|a: int, b: int| 0 <= a < b < t.len() implies (#[trigger] t[a]).folder
                != (#[trigger] t[b]).folder by {
                assert(folders[a].folder != folders[b].folder);
            }
        }
        lemma_arrivals(prior, t, j, i);
        let uid = folders[j].fetched[i].uid->0;
        let read = folders[j].fetched[i].read;
        let k = choose|k: int|
            0 <= k < s.len() && is_held(#[trigger] s[k], folders[j].folder, uid) && (read
                ==> s[k].read);
        assert(folders[j].folder != folders[folders.len() - 1].folder);
        let m = merge_folder(s, f);
        assert(m.contains(s[k]));
        let x = m.index_of(s[k]);
        assert(is_held(m[x], folders[j].folder, uid));
        if is_latest(folders[j].fetched, i) {
            let fresh = folders[j].fetched[i];
            assert(brings_own(folders[j]));
            let k = choose|k: int| 0 <= k < s.len() && is_copy(#[trigger] s[k], fresh);
            assert(m.contains(s[k]));
            assert(is_copy(m[m.index_of(s[k])], fresh));
        }
    }
}

/// Whatever a pass downloaded is in the cache afterwards, as it was last
/// downloaded, and read if the server says so.
pub proof fn merge_adds_the_new(
    prior: Seq<EmailView>,
    folders: Seq<FolderSyncView>,
    j: int,
    i: int,
)
    requires
        ids_suffice(prior, folders),
        no_twins(prior),
        all_bring_own(folders),
        tags_distinct(folders),
        0 <= j < folders.len(),
        0 <= i < folders[j].fetched.len(),
    ensures
        has_read(
            merged_mail(prior, folders),
            folders[j].folder,
            folders[j].fetched[i].uid->0,
            folders[j].fetched[i].read,
        ),
        is_latest(folders[j].fetched, i) ==> has_copy(
            merged_mail(prior, folders),
            folders[j].fetched[i],
        ),
{
    let folder = folders[j].folder;
    let uid = folders[j].fetched[i].uid->0;
    let read = folders[j].fetched[i].read;
    lemma_arrivals(prior, folders, j, i);
    let m = merge_folders(prior, folders);
    let k = choose|k: int|
        0 <= k < m.len() && is_held(#[trigger] m[k], folder, uid) && (read ==> m[k].read);
    let x = lemma_shown(prior, folders, k);
    assert(is_held(merged_mail(prior, folders)[x], folder, uid));
    if is_latest(folders[j].fetched, i) {
        let fresh = folders[j].fetched[i];
        let k = choose|k: int| 0 <= k < m.len() && is_copy(#[trigger] m[k], fresh);
        let x = lemma_shown(prior, folders, k);
        assert(is_copy(merged_mail(prior, folders)[x], fresh));
    }
}

/// Every message of the reconciled cache is shown, under whatever id.
proof fn lemma_shown(prior: Seq<EmailView>, folders: Seq<FolderSyncView>, k: int) -> (x: int)
    requires
        0 <= k < merge_folders(prior, folders).len(),
    ensures
        0 <= x < merged_mail(prior, folders).len(),
        merged_mail(prior, folders)[x] == (EmailView {
            id: merged_mail(prior, folders)[x].id,
            ..merge_folders(prior, folders)[k]
        }),
{
    broadcast use vstd::seq_lib::group_to_multiset_ensures;

    let m = merge_folders(prior, folders);
    let all = newest_first(m);
    ranked_is_an_ordering(m, |e: EmailView| recency(e));
    lemma_rekey_shape(all, max_id(all) + 1);
    assert(m.to_multiset().contains(m[k]));
    assert(all.contains(m[k]));
    all.index_of(m[k])
}

/// ... and nothing else is.
proof fn lemma_shown_back(prior: Seq<EmailView>, folders: Seq<FolderSyncView>, x: int) -> (k: int)
    requires
        0 <= x < merged_mail(prior, folders).len(),
    ensures
        0 <= k < merge_folders(prior, folders).len(),
        merged_mail(prior, folders)[x] == (EmailView {
            id: merged_mail(prior, folders)[x].id,
            ..merge_folders(prior, folders)[k]
        }),
{
    broadcast use vstd::seq_lib::group_to_multiset_ensures;

    let m = merge_folders(prior, folders);
    let all = newest_first(m);
    ranked_is_an_ordering(m, |e: EmailView| recency(e));
    lemma_rekey_shape(all, max_id(all) + 1);
    assert(all.to_multiset().contains(all[x]));
    assert(m.contains(all[x]));
    m.index_of(all[x])
}

proof fn lemma_gone(prior: Seq<EmailView>, folders: Seq<FolderSyncView>, j: int)
    requires
        no_twins(prior),
        all_bring_own(folders),
        tags_distinct(folders),
        max_id(prior) + crate::merge::fetched_count(folders) < usize::MAX,
        0 <= j < folders.len(),
    ensures
        brings_listed(folders[j]) ==> forall|k: int|
            0 <= k < merge_folders(prior, folders).len() ==> still_there(
                #[trigger] merge_folders(prior, folders)[k],
                folders[j],
            ),
        folders[j].folder == "sent"@ ==> forall|k: int|
            0 <= k < merge_folders(prior, folders).len() ==> !is_filed(
                #[trigger] merge_folders(prior, folders)[k],
                folders[j],
            ),
    decreases folders.len(),
{
    let t = folders.drop_last();
    let f = folders.last();
    assert(folders[folders.len() - 1] == f);
    lemma_pass_fits(prior, folders);
    lemma_own_prefix(folders);
    lemma_pass(prior, t);
    let s = merge_folders(prior, t);
    lemma_folder(s, f);
    if j < t.len() {
        assert(t[j] == folders[j]);
        assert(tags_distinct(t)) by {
            assert forall|a: int, b: int| 0 <= a < b < t.len() implies (#[trigger] t[a]).folder
                != (#[trigger] t[b]).folder by {
                assert(folders[a].folder != folders[b].folder);
            }
        }
        lemma_gone(prior, t, j);
        assert(folders[j].folder != folders[folders.len() - 1].folder);
        let m = merge_folders(prior, folders);
        if brings_listed(folders[j]) {
            assert forall|k: int| 0 <= k < m.len() implies still_there(
                #[trigger] m[k],
                folders[j],
            ) by {
                if m[k].folder == folders[j].folder {
                    let x = s.index_of(m[k]);
                    assert(still_there(s[x], t[j]));
                }
            }
        }
        if folders[j].folder == "sent"@ {
            assert forall|k: int| 0 <= k < m.len() implies !is_filed(
                #[trigger] m[k],
                folders[j],
            ) by {
                if m[k].folder == folders[j].folder {
                    let x = s.index_of(m[k]);
                    assert(!is_filed(s[x], t[j]));
                }
            }
        }
    }
}

/// No message stays that its server no longer lists.
pub proof fn merge_drops_the_deleted(
    prior: Seq<EmailView>,
    folders: Seq<FolderSyncView>,
    j: int,
    x: int,
)
    requires
        ids_suffice(prior, folders),
        no_twins(prior),
        all_bring_own(folders),
        tags_distinct(folders),
        0 <= j < folders.len(),
        brings_listed(folders[j]),
        0 <= x < merged_mail(prior, folders).len(),
        merged_mail(prior, folders)[x].folder == folders[j].folder,
        merged_mail(prior, folders)[x].uid is Some,
    ensures
        folders[j].server_uids.contains(merged_mail(prior, folders)[x].uid->0),
{
    lemma_gone(prior, folders, j);
    let k = lemma_shown_back(prior, folders, x);
    assert(still_there(merge_folders(prior, folders)[k], folders[j]));
}

/// No local sent copy stays beside the message that the server filed.
pub proof fn merge_shows_sent_mail_once(
    prior: Seq<EmailView>,
    folders: Seq<FolderSyncView>,
    j: int,
    x: int,
)
    requires
        ids_suffice(prior, folders),
        no_twins(prior),
        all_bring_own(folders),
        tags_distinct(folders),
        0 <= j < folders.len(),
        folders[j].folder == "sent"@,
        0 <= x < merged_mail(prior, folders).len(),
    ensures
        !is_filed(merged_mail(prior, folders)[x], folders[j]),
{
    lemma_gone(prior, folders, j);
    let k = lemma_shown_back(prior, folders, x);
    assert(!is_filed(merge_folders(prior, folders)[k], folders[j]));
}

// ---------------------------------------------------------------------------
// Other folders

proof fn lemma_filter_twice<A>(s: Seq<A>, p: spec_fn(A) -> bool, q: spec_fn(A) -> bool)
    requires
        forall|e: A| #[trigger] q(e) ==> p(e),
    ensures
        s.filter(p).filter(q) == s.filter(q),
    decreases s.len(),
{
    reveal(Seq::filter);
    if s.len() > 0 {
        let t = s.drop_last();
        lemma_filter_twice(t, p, q);
        let x = s.last();
        if p(x) {
            assert(t.filter(p).push(x).drop_last() =~= t.filter(p));
        }
        assert(q(x) ==> p(x));
    }
}

proof fn lemma_filter_map<A>(s: Seq<A>, g: spec_fn(A) -> A, q: spec_fn(A) -> bool)
    requires
        forall|e: A| #[trigger] q(e) ==> g(e) == e,
        forall|e: A| q(#[trigger] g(e)) ==> q(e),
    ensures
        s.map_values(g).filter(q) == s.filter(q),
    decreases s.len(),
{
    reveal(Seq::filter);
    if s.len() > 0 {
        let t = s.drop_last();
        lemma_filter_map(t, g, q);
        assert(s.map_values(g).drop_last() =~= t.map_values(g));
        let x = s.last();
        assert(s.map_values(g).last() == g(x));
        assert(q(x) ==> g(x) == x);
        assert(q(g(x)) ==> q(x));
    } else {
        assert(s.map_values(g) =~= s);
    }
}

proof fn lemma_filter_update<A>(s: Seq<A>, k: int, x: A, q: spec_fn(A) -> bool)
    requires
        0 <= k < s.len(),
        !q(s[k]),
        !q(x),
    ensures
        s.update(k, x).filter(q) == s.filter(q),
    decreases s.len(),
{
    reveal(Seq::filter);
    let t = s.drop_last();
    let u = s.update(k, x);
    if k < t.len() {
        lemma_filter_update(t, k, x, q);
        assert(u.drop_last() =~= t.update(k, x));
    } else {
        assert(u.drop_last() =~= t);
    }
}

proof fn lemma_absorb_elsewhere(
    s: Seq<EmailView>,
    next: int,
    folder: Seq<char>,
    fetched: Seq<EmailView>,
    tag: Seq<char>,
)
    requires
        tag != folder,
        forall|i: int| 0 <= i < fetched.len() ==> (#[trigger] fetched[i]).folder == folder,
    ensures
        of_folder(absorb(s, next, folder, fetched).0, tag) == of_folder(s, tag),
    decreases fetched.len(),
{
    if fetched.len() > 0 {
        let t = fetched.drop_last();
        let q = |e: EmailView| e.folder == tag;
        assert forall|i: int| 0 <= i < t.len() implies (#[trigger] t[i]).folder == folder by {
            assert(t[i] == fetched[i]);
        }
        assert(fetched[fetched.len() - 1].folder == folder);
        lemma_absorb_elsewhere(s, next, folder, t, tag);
        let before = absorb(s, next, folder, t);
        let fresh = fetched.last();
        if let Some(uid) = fresh.uid {
            lemma_held_at(before.0, folder, uid);
            let k = held_at(before.0, folder, uid);
            if k < before.0.len() {
                let kept = EmailView {
                    id: before.0[k].id,
                    read: fresh.read || before.0[k].read,
                    ..fresh
                };
                lemma_filter_update(before.0, k, kept, q);
            } else {
                reveal(Seq::filter);
                let added = EmailView { id: before.1 as usize, ..fresh };
                assert(before.0.push(added).drop_last() =~= before.0);
            }
        }
    }
}

proof fn lemma_folder_elsewhere(s: Seq<EmailView>, f: FolderSyncView, tag: Seq<char>)
    requires
        tag != f.folder,
        brings_own(f),
    ensures
        of_folder(merge_folder(s, f), tag) == of_folder(s, tag),
{
    let q = |e: EmailView| e.folder == tag;
    let p = |e: EmailView| still_there(e, f);
    let g = |e: EmailView| with_seen(e, f);
    lemma_filter_twice(s, p, q);
    lemma_filter_map(s.filter(p), g, q);
    let kept = kept_part(s, f);
    lemma_absorb_elsewhere(kept, max_id(kept) + 1, f.folder, f.fetched, tag);
    if f.folder == "sent"@ {
        lemma_filter_twice(with_fetched(s, f), |e: EmailView| !is_filed(e, f), q);
    }
}

proof fn lemma_pass_elsewhere(
    prior: Seq<EmailView>,
    folders: Seq<FolderSyncView>,
    tag: Seq<char>,
)
    requires
        !reconciles(folders, tag),
        all_bring_own(folders),
    ensures
        of_folder(merge_folders(prior, folders), tag) == of_folder(prior, tag),
    decreases folders.len(),
{
    if folders.len() > 0 {
        let t = folders.drop_last();
        lemma_own_prefix(folders);
        assert(folders[folders.len() - 1].folder != tag);
        assert(!reconciles(t, tag)) by {
            if reconciles(t, tag) {
                let i = choose|i: int| 0 <= i < t.len() && (#[trigger] t[i]).folder == tag;
                assert(folders[i].folder == tag);
            }
        }
        lemma_pass_elsewhere(prior, t, tag);
        lemma_folder_elsewhere(merge_folders(prior, t), folders.last(), tag);
    }
}

proof fn lemma_insert_filter<A>(
    x: A,
    s: Seq<A>,
    rank: spec_fn(A) -> int,
    q: spec_fn(A) -> bool,
)
    requires
        descending(s, rank),
    ensures
        insert_ranked(x, s, rank).filter(q) == if q(x) {
            insert_ranked(x, s.filter(q), rank)
        } else {
            s.filter(q)
        },
    decreases s.len(),
{
    reveal(Seq::filter);
    let one = seq![x];
    assert(one.drop_last() =~= Seq::empty());
    assert(one.filter(q) =~= if q(x) {
        one
    } else {
        Seq::empty()
    }) by {
        assert(Seq::<A>::empty().filter(q) =~= Seq::empty());
        assert(Seq::<A>::empty().push(x) =~= one);
    }
    if s.len() == 0 || rank(s[0]) <= rank(x) {
        Seq::filter_distributes_over_add(one, s, q);
        assert(Seq::<A>::empty() + s.filter(q) =~= s.filter(q));
        lemma_filter(s, q);
        let u = s.filter(q);
        if u.len() > 0 {
            assert(s.contains(u[0]));
            let k = s.index_of(u[0]);
            assert(rank(s[0]) >= rank(s[k]));
        }
    } else {
        let head = seq![s[0]];
        let t = s.drop_first();
        assert forall|i: int, j: int| 0 <= i <= j < t.len() implies rank(#[trigger] t[i]) >= rank(
            #[trigger] t[j],
        ) by {
            assert(rank(s[i + 1]) >= rank(s[j + 1]));
        }
        lemma_insert_filter(x, t, rank, q);
        let u = insert_ranked(x, t, rank);
        Seq::filter_distributes_over_add(head, u, q);
        Seq::filter_distributes_over_add(head, t, q);
        assert(head + t =~= s);
        assert(head.drop_last() =~= Seq::empty());
        assert(head.filter(q) =~= if q(s[0]) {
            head
        } else {
            Seq::empty()
        }) by {
            assert(Seq::<A>::empty().filter(q) =~= Seq::empty());
            assert(Seq::<A>::empty().push(s[0]) =~= head);
        }
        if q(s[0]) {
            assert((head + t.filter(q)).drop_first() =~= t.filter(q));
        } else {
            assert(Seq::<A>::empty() + t.filter(q) =~= t.filter(q));
            assert(Seq::<A>::empty() + u.filter(q) =~= u.filter(q));
        }
    }
}

proof fn lemma_ranked_filter<A>(s: Seq<A>, rank: spec_fn(A) -> int, q: spec_fn(A) -> bool)
    ensures
        ranked(s, rank).filter(q) == ranked(s.filter(q), rank),
    decreases s.len(),
{
    reveal(Seq::filter);
    if s.len() > 0 {
        let t = s.drop_first();
        let head = seq![s[0]];
        lemma_ranked_filter(t, rank, q);
        ranked_is_an_ordering(t, rank);
        lemma_insert_filter(s[0], ranked(t, rank), rank, q);
        Seq::filter_distributes_over_add(head, t, q);
        assert(head + t =~= s);
        assert(head.drop_last() =~= Seq::empty());
        assert(Seq::<A>::empty().filter(q) =~= Seq::empty());
        assert(Seq::<A>::empty().push(s[0]) =~= head);
        if q(s[0]) {
            assert(s.filter(q) =~= head + t.filter(q));
            assert(s.filter(q).drop_first() =~= t.filter(q));
        } else {
            assert(s.filter(q) =~= t.filter(q));
        }
    } else {
        assert(s.filter(q) =~= s);
    }
}

proof fn lemma_filter_up_to_id(r: Seq<EmailView>, s: Seq<EmailView>, tag: Seq<char>)
    requires
        r.len() == s.len(),
        forall|i: int|
            0 <= i < s.len() ==> (#[trigger] r[i]) == (EmailView { id: r[i].id, ..s[i] }),
    ensures
        without_ids(of_folder(r, tag)) == without_ids(of_folder(s, tag)),
    decreases s.len(),
{
    reveal(Seq::filter);
    if s.len() > 0 {
        let a = r.drop_last();
        let b = s.drop_last();
        assert forall|i: int| 0 <= i < b.len() implies (#[trigger] a[i]) == (EmailView {
            id: a[i].id,
            ..b[i]
        }) by {
            assert(a[i] == r[i] && b[i] == s[i]);
        }
        lemma_filter_up_to_id(a, b, tag);
        let x = r[r.len() - 1];
        let y = s[s.len() - 1];
        assert(x == (EmailView { id: x.id, ..y }));
        if y.folder == tag {
            assert(without_ids(of_folder(r, tag)) =~= without_ids(of_folder(a, tag)).push(
                EmailView { id: 0, ..x },
            ));
            assert(without_ids(of_folder(s, tag)) =~= without_ids(of_folder(b, tag)).push(
                EmailView { id: 0, ..y },
            ));
        }
    } else {
        assert(r =~= s);
    }
}

/// A folder the pass did not reconcile holds the same mail as before, in
/// display order.
pub proof fn merge_leaves_other_folders_alone(
    prior: Seq<EmailView>,
    folders: Seq<FolderSyncView>,
    tag: Seq<char>,
)
    requires
        !reconciles(folders, tag),
        all_bring_own(folders),
    ensures
        without_ids(of_folder(merged_mail(prior, folders), tag)) == without_ids(
            newest_first(of_folder(prior, tag)),
        ),
{
    let m = merge_folders(prior, folders);
    let all = newest_first(m);
    lemma_pass_elsewhere(prior, folders, tag);
    lemma_ranked_filter(m, |e: EmailView| recency(e), |e: EmailView| e.folder == tag);
    lemma_rekey_shape(all, max_id(all) + 1);
    lemma_filter_up_to_id(merged_mail(prior, folders), all, tag);
}

// ---------------------------------------------------------------------------
// The same pass again

/// A pass says itself what it knows to be read.
pub open spec fn brings_seen(f: FolderSyncView) -> bool {
    forall|i: int|
        0 <= i < f.fetched.len() && (#[trigger] f.fetched[i]).uid is Some && f.seen_uids.contains(
            f.fetched[i].uid->0,
        ) ==> f.fetched[i].read
}

/// A pass over a folder brings its own mail, none that the server does not
/// list, and none unread that it says was seen.
pub open spec fn is_sound(f: FolderSyncView) -> bool {
    brings_own(f) && brings_listed(f) && brings_seen(f)
}

pub open spec fn all_sound(folders: Seq<FolderSyncView>) -> bool {
    forall|i: int| 0 <= i < folders.len() ==> is_sound(#[trigger] folders[i])
}

/// A message that a folder's pass neither drops nor marks.
pub open spec fn is_settled(e: EmailView, f: FolderSyncView) -> bool {
    still_there(e, f) && with_seen(e, f) == e
}

/// What was downloaded `i`th is there as it was downloaded last.
pub open spec fn is_absorbed(
    s: Seq<EmailView>,
    folder: Seq<char>,
    fetched: Seq<EmailView>,
    i: int,
) -> bool {
    let k = held_at(s, folder, fetched[i].uid->0);
    &&& k < s.len()
    &&& fetched[i].read ==> s[k].read
    &&& is_latest(fetched, i) ==> is_copy(s[k], fetched[i])
}

pub open spec fn all_absorbed(
    s: Seq<EmailView>,
    folder: Seq<char>,
    fetched: Seq<EmailView>,
) -> bool {
    forall|i: int|
        #![trigger fetched[i]]
        0 <= i < fetched.len() ==> is_absorbed(s, folder, fetched, i)
}

/// A cache that a folder's pass has nothing to change in.
pub open spec fn in_step(s: Seq<EmailView>, f: FolderSyncView) -> bool {
    &&& forall|k: int| 0 <= k < s.len() ==> is_settled(#[trigger] s[k], f)
    &&& forall|k: int|
        0 <= k < s.len() && f.folder == "sent"@ ==> !is_filed(#[trigger] s[k], f)
    &&& all_absorbed(s, f.folder, f.fetched)
}

/// Those that hold a message.
pub open spec fn holders(s: Seq<EmailView>, folder: Seq<char>, uid: u32) -> Seq<EmailView> {
    s.filter(|e: EmailView| is_held(e, folder, uid))
}

/// The first that holds a message is the first of those that hold it.
proof fn lemma_first_held(s: Seq<EmailView>, folder: Seq<char>, uid: u32)
    ensures
        ({
            let k = held_at(s, folder, uid);
            &&& 0 <= k <= s.len()
            &&& k < s.len() <==> holders(s, folder, uid).len() > 0
            &&& k < s.len() ==> s[k] == holders(s, folder, uid)[0]
        }),
    decreases s.len(),
{
    reveal(Seq::filter);
    lemma_held_at(s, folder, uid);
    if s.len() > 0 {
        let t = s.drop_last();
        let q = |e: EmailView| is_held(e, folder, uid);
        lemma_first_held(t, folder, uid);
        lemma_held_at(t, folder, uid);
        let k = held_at(s, folder, uid);
        let h = held_at(t, folder, uid);
        if h < t.len() {
            assert(is_held(t[h], folder, uid) && t[h] == s[h]);
            if k < h {
                assert(t[k] == s[k]);
            }
            assert(k == h);
        } else {
            if k < t.len() {
                assert(t[k] == s[k]);
            }
            if q(s.last()) {
                assert(s[s.len() - 1] == s.last());
            }
        }
    }
}

/// What is absorbed stays so as long as those that hold a message do.
proof fn lemma_absorbed_as(
    s: Seq<EmailView>,
    t: Seq<EmailView>,
    folder: Seq<char>,
    fetched: Seq<EmailView>,
)
    requires
        all_absorbed(s, folder, fetched),
        forall|uid: u32| #[trigger] holders(s, folder, uid) == holders(t, folder, uid),
    ensures
        all_absorbed(t, folder, fetched),
{
    assert forall|i: int| #![trigger fetched[i]] 0 <= i < fetched.len() implies is_absorbed(
        t,
        folder,
        fetched,
        i,
    ) by {
        assert(is_absorbed(s, folder, fetched, i));
        let uid = fetched[i].uid->0;
        lemma_first_held(s, folder, uid);
        lemma_first_held(t, folder, uid);
    }
}

/// Downloads are there once they were taken in.
proof fn lemma_absorb_absorbs(
    s: Seq<EmailView>,
    next: int,
    folder: Seq<char>,
    fetched: Seq<EmailView>,
)
    requires
        forall|i: int|
            0 <= i < fetched.len() ==> (#[trigger] fetched[i]).folder == folder && fetched[i].uid
                is Some,
    ensures
        all_absorbed(absorb(s, next, folder, fetched).0, folder, fetched),
    decreases fetched.len(),
{
    if fetched.len() > 0 {
        let t = fetched.drop_last();
        let fresh = fetched.last();
        let last = fetched.len() - 1;
        assert(fetched[last] == fresh);
        assert forall|i: int| 0 <= i < t.len() implies (#[trigger] t[i]).folder == folder
            && t[i].uid is Some by {
            assert(t[i] == fetched[i]);
        }
        lemma_absorb_absorbs(s, next, folder, t);
        let b = absorb(s, next, folder, t).0;
        let r = absorb(s, next, folder, fetched).0;
        let uid = fresh.uid->0;
        lemma_held_at(b, folder, uid);
        lemma_held_at(r, folder, uid);
        let k = held_at(b, folder, uid);
        assert(is_held(r[k], folder, uid));
        assert(held_at(r, folder, uid) == k) by {
            let h = held_at(r, folder, uid);
            if h < k {
                assert(r[h] == b[h]);
            }
        }
        assert forall|i: int| #![trigger fetched[i]] 0 <= i < fetched.len() implies is_absorbed(
            r,
            folder,
            fetched,
            i,
        ) by {
            if i < last {
                assert(t[i] == fetched[i]);
                assert(is_absorbed(b, folder, t, i));
                let u = t[i].uid->0;
                if u == uid {
                    assert(fetched[last].uid == fetched[i].uid);
                } else {
                    lemma_held_at(b, folder, u);
                    lemma_held_at(r, folder, u);
                    let h = held_at(b, folder, u);
                    assert(h != k);
                    assert(r[h] == b[h]);
                    let g = held_at(r, folder, u);
                    assert(g == h) by {
                        if g < h {
                            assert(g != k);
                            assert(r[g] == b[g]);
                        }
                    }
                    if is_latest(fetched, i) {
                        assert forall|n: int| i < n < t.len() implies (#[trigger] t[n]).uid
                            != t[i].uid by {
                            assert(t[n] == fetched[n]);
                        }
                    }
                }
            }
        }
    }
}

/// What is absorbed is left alone by what is downloaded again.
proof fn lemma_absorbed_again(
    s: Seq<EmailView>,
    next: int,
    folder: Seq<char>,
    fetched: Seq<EmailView>,
    n: int,
)
    requires
        all_absorbed(s, folder, fetched),
        forall|i: int|
            0 <= i < fetched.len() ==> (#[trigger] fetched[i]).folder == folder && fetched[i].uid
                is Some,
        0 <= n <= fetched.len(),
    ensures
        ({
            let x = absorb(s, next, folder, fetched.take(n)).0;
            &&& x.len() == s.len()
            &&& forall|m: int|
                0 <= m < s.len() ==> (#[trigger] x[m]).id == s[m].id && x[m].read == s[m].read
                    && x[m].folder == s[m].folder && x[m].uid == s[m].uid
            &&& forall|m: int|
                0 <= m < s.len() && #[trigger] x[m] != s[m] ==> m == held_at(
                    s,
                    folder,
                    s[m].uid->0,
                ) && exists|i: int|
                    n <= i < fetched.len() && (#[trigger] fetched[i]).uid == s[m].uid
        }),
    decreases n,
{
    if n > 0 {
        let j = n - 1;
        lemma_absorbed_again(s, next, folder, fetched, j);
        assert(fetched.take(n).drop_last() =~= fetched.take(j));
        let b = absorb(s, next, folder, fetched.take(j)).0;
        let x = absorb(s, next, folder, fetched.take(n)).0;
        let fresh = fetched[j];
        assert(fetched.take(n).last() == fresh);
        let uid = fresh.uid->0;
        assert(is_absorbed(s, folder, fetched, j));
        lemma_held_at(s, folder, uid);
        lemma_held_at(b, folder, uid);
        let k = held_at(s, folder, uid);
        let h = held_at(b, folder, uid);
        assert(h == k) by {
            if h < k {
                assert(is_held(b[h], folder, uid));
                assert(is_held(s[h], folder, uid));
            }
            if k < h {
                assert(!is_held(b[k], folder, uid));
            }
        }
        assert(b[k].read == s[k].read && b[k].id == s[k].id);
        let kept = EmailView { id: b[k].id, read: fresh.read || b[k].read, ..fresh };
        assert(x == b.update(k, kept));
        assert forall|m: int| 0 <= m < s.len() && #[trigger] x[m] != s[m] implies m == held_at(
            s,
            folder,
            s[m].uid->0,
        ) && exists|i: int| n <= i < fetched.len() && (#[trigger] fetched[i]).uid == s[m].uid by {
            if m == k {
                if is_latest(fetched, j) {
                    assert(is_copy(s[k], fresh));
                } else {
                    let i = choose|i: int|
                        j < i < fetched.len() && (#[trigger] fetched[i]).uid == fetched[j].uid;
                    assert(fetched[i].uid == s[m].uid);
                }
            } else {
                assert(b[m] == x[m]);
                let i = choose|i: int|
                    j <= i < fetched.len() && (#[trigger] fetched[i]).uid == s[m].uid;
                if i == j {
                    assert(held_at(s, folder, s[m].uid->0) == k);
                }
                assert(n <= i);
            }
        }
    } else {
        assert(fetched.take(0) =~= Seq::empty());
    }
}

proof fn lemma_filter_all<A>(s: Seq<A>, p: spec_fn(A) -> bool)
    requires
        forall|i: int| 0 <= i < s.len() ==> p(#[trigger] s[i]),
    ensures
        s.filter(p) == s,
    decreases s.len(),
{
    reveal(Seq::filter);
    if s.len() > 0 {
        let t = s.drop_last();
        assert forall|i: int| 0 <= i < t.len() implies p(#[trigger] t[i]) by {
            assert(t[i] == s[i]);
        }
        lemma_filter_all(t, p);
        assert(p(s[s.len() - 1]));
        assert(t.push(s.last()) =~= s);
    } else {
        assert(s =~= Seq::empty());
    }
}

/// A cache in step with a folder's pass is left alone by it.
proof fn lemma_in_step(s: Seq<EmailView>, f: FolderSyncView)
    requires
        brings_own(f),
        in_step(s, f),
    ensures
        merge_folder(s, f) == s,
{
    let kept = kept_part(s, f);
    assert(kept == s) by {
        assert forall|k: int| 0 <= k < s.len() implies (|e: EmailView| still_there(e, f))(
            #[trigger] s[k],
        ) by {
            assert(is_settled(s[k], f));
        }
        lemma_filter_all(s, |e: EmailView| still_there(e, f));
        assert forall|k: int| 0 <= k < s.len() implies with_seen(#[trigger] s[k], f) == s[k] by {
            assert(is_settled(s[k], f));
        }
        assert(kept =~= s);
    }
    let r = with_fetched(s, f);
    lemma_absorbed_again(s, max_id(kept) + 1, f.folder, f.fetched, f.fetched.len() as int);
    assert(f.fetched.take(f.fetched.len() as int) =~= f.fetched);
    assert forall|m: int| 0 <= m < s.len() implies r[m] == s[m] by {}
    assert(r =~= s);
    if f.folder == "sent"@ {
        lemma_filter_all(s, |e: EmailView| !is_filed(e, f));
    }
}

/// Taking in downloads leaves everything settled.
proof fn lemma_absorb_settles(
    s: Seq<EmailView>,
    next: int,
    f: FolderSyncView,
    fetched: Seq<EmailView>,
)
    requires
        forall|k: int| 0 <= k < s.len() ==> is_settled(#[trigger] s[k], f),
        forall|i: int|
            0 <= i < fetched.len() ==> (#[trigger] fetched[i]).folder == f.folder && fetched[i].uid
                is Some && f.server_uids.contains(fetched[i].uid->0) && (f.seen_uids.contains(
                fetched[i].uid->0,
            ) ==> fetched[i].read),
    ensures
        forall|k: int|
            0 <= k < absorb(s, next, f.folder, fetched).0.len() ==> is_settled(
                #[trigger] absorb(s, next, f.folder, fetched).0[k],
                f,
            ),
    decreases fetched.len(),
{
    if fetched.len() > 0 {
        let t = fetched.drop_last();
        let fresh = fetched.last();
        assert(fetched[fetched.len() - 1] == fresh);
        assert forall|i: int| 0 <= i < t.len() implies (#[trigger] t[i]).folder == f.folder
            && t[i].uid is Some && f.server_uids.contains(t[i].uid->0) && (f.seen_uids.contains(
            t[i].uid->0,
        ) ==> t[i].read) by {
            assert(t[i] == fetched[i]);
        }
        lemma_absorb_settles(s, next, f, t);
        let b = absorb(s, next, f.folder, t).0;
        let r = absorb(s, next, f.folder, fetched).0;
        lemma_held_at(b, f.folder, fresh.uid->0);
        let h = held_at(b, f.folder, fresh.uid->0);
        assert forall|k: int| 0 <= k < r.len() implies is_settled(#[trigger] r[k], f) by {
            if k != h {
                assert(r[k] == b[k]);
            }
        }
    }
}

/// A folder's pass leaves the cache in step with it.
proof fn lemma_folder_in_step(s: Seq<EmailView>, f: FolderSyncView)
    requires
        is_sound(f),
    ensures
        in_step(merge_folder(s, f), f),
{
    let p = |e: EmailView| still_there(e, f);
    let kept = kept_part(s, f);
    lemma_filter(s, p);
    assert forall|k: int| 0 <= k < kept.len() implies is_settled(#[trigger] kept[k], f) by {
        assert(p(s.filter(p)[k]));
    }
    lemma_absorb_settles(kept, max_id(kept) + 1, f, f.fetched);
    lemma_absorb_absorbs(kept, max_id(kept) + 1, f.folder, f.fetched);
    if f.folder == "sent"@ {
        let r = with_fetched(s, f);
        let m = merge_folder(s, f);
        let n = |e: EmailView| !is_filed(e, f);
        lemma_filter(r, n);
        assert forall|k: int| 0 <= k < m.len() implies is_settled(#[trigger] m[k], f) && !is_filed(
            m[k],
            f,
        ) by {
            assert(n(m[k]) && r.contains(m[k]));
            assert(is_settled(r[r.index_of(m[k])], f));
        }
        assert forall|uid: u32| #[trigger] holders(r, f.folder, uid) == holders(m, f.folder, uid) by {
            lemma_filter_twice(r, n, |e: EmailView| is_held(e, f.folder, uid));
        }
        lemma_absorbed_as(r, m, f.folder, f.fetched);
    }
}

/// A pass over another folder changes nothing about that.
proof fn lemma_stays_in_step(s: Seq<EmailView>, f: FolderSyncView, other: FolderSyncView)
    requires
        in_step(s, f),
        brings_own(other),
        other.folder != f.folder,
    ensures
        in_step(merge_folder(s, other), f),
{
    let tag = f.folder;
    let q = |e: EmailView| e.folder == tag;
    let m = merge_folder(s, other);
    lemma_folder_elsewhere(s, other, tag);
    lemma_filter(s, q);
    lemma_filter(m, q);
    assert forall|k: int| 0 <= k < m.len() implies is_settled(#[trigger] m[k], f) && (f.folder
        == "sent"@ ==> !is_filed(m[k], f)) by {
        if m[k].folder == tag {
            let y = of_folder(m, tag);
            assert(q(m[k]) && y.contains(m[k]));
            assert(s.contains(y[y.index_of(m[k])]));
            assert(is_settled(s[s.index_of(m[k])], f));
        }
    }
    assert forall|uid: u32| #[trigger] holders(s, tag, uid) == holders(m, tag, uid) by {
        lemma_filter_twice(s, q, |e: EmailView| is_held(e, tag, uid));
        lemma_filter_twice(m, q, |e: EmailView| is_held(e, tag, uid));
    }
    lemma_absorbed_as(s, m, tag, f.fetched);
}

/// A list of equal ranks, or one in order, is left in its order.
proof fn lemma_ranked_in_order<A>(s: Seq<A>, rank: spec_fn(A) -> int)
    requires
        descending(s, rank),
    ensures
        ranked(s, rank) == s,
    decreases s.len(),
{
    if s.len() > 0 {
        let t = s.drop_first();
        assert forall|i: int, j: int| 0 <= i <= j < t.len() implies rank(#[trigger] t[i]) >= rank(
            #[trigger] t[j],
        ) by {
            assert(t[i] == s[i + 1] && t[j] == s[j + 1]);
        }
        lemma_ranked_in_order(t, rank);
        if t.len() > 0 {
            assert(rank(s[0]) >= rank(s[1]));
            assert(t[0] == s[1]);
        }
        assert(seq![s[0]] + t =~= s);
    }
}

/// Ordering and rekeying keep a cache in step.
proof fn lemma_shown_in_step(m: Seq<EmailView>, f: FolderSyncView, next: int)
    requires
        in_step(m, f),
    ensures
        in_step(rekey(newest_first(m), next).0, f),
{
    broadcast use vstd::seq_lib::group_to_multiset_ensures;

    let rank = |e: EmailView| recency(e);
    let all = newest_first(m);
    ranked_is_an_ordering(m, rank);
    assert forall|k: int| 0 <= k < all.len() implies is_settled(#[trigger] all[k], f) && (f.folder
        == "sent"@ ==> !is_filed(all[k], f)) by {
        assert(all.to_multiset().contains(all[k]));
        assert(m.contains(all[k]));
        assert(is_settled(m[m.index_of(all[k])], f));
    }
    assert forall|uid: u32| #[trigger] holders(m, f.folder, uid) == holders(all, f.folder, uid) by {
        let q = |e: EmailView| is_held(e, f.folder, uid);
        lemma_ranked_filter(m, rank, q);
        lemma_filter(m, q);
        let y = m.filter(q);
        assert forall|i: int, j: int| 0 <= i <= j < y.len() implies rank(#[trigger] y[i]) >= rank(
            #[trigger] y[j],
        ) by {
            assert(q(y[i]) && q(y[j]));
        }
        lemma_ranked_in_order(y, rank);
    }
    lemma_absorbed_as(m, all, f.folder, f.fetched);
    let r = rekey(all, next).0;
    lemma_rekey_shape(all, next);
    assert forall|k: int| 0 <= k < r.len() implies is_settled(#[trigger] r[k], f) && (f.folder
        == "sent"@ ==> !is_filed(r[k], f)) by {
        assert(is_settled(all[k], f));
    }
    assert forall|i: int| #![trigger f.fetched[i]] 0 <= i < f.fetched.len() implies is_absorbed(
        r,
        f.folder,
        f.fetched,
        i,
    ) by {
        assert(is_absorbed(all, f.folder, f.fetched, i));
        let uid = f.fetched[i].uid->0;
        lemma_held_at(all, f.folder, uid);
        lemma_held_at(r, f.folder, uid);
        let k = held_at(all, f.folder, uid);
        let h = held_at(r, f.folder, uid);
        assert(h == k) by {
            if h < k {
                assert(is_held(r[h], f.folder, uid));
                assert(is_held(all[h], f.folder, uid));
            }
            if k < h {
                assert(!is_held(r[k], f.folder, uid));
            }
        }
        assert(r[k] == (EmailView { id: r[k].id, ..all[k] }));
    }
}

/// A whole pass leaves the cache in step with each of its folders.
proof fn lemma_pass_in_step(prior: Seq<EmailView>, folders: Seq<FolderSyncView>, j: int)
    requires
        all_sound(folders),
        tags_distinct(folders),
        0 <= j < folders.len(),
    ensures
        in_step(merge_folders(prior, folders), folders[j]),
    decreases folders.len(),
{
    let t = folders.drop_last();
    let f = folders.last();
    assert(folders[folders.len() - 1] == f);
    if j < t.len() {
        assert(tags_distinct(t)) by {
            assert forall|a: int, b: int| 0 <= a < b < t.len() implies (#[trigger] t[a]).folder
                != (#[trigger] t[b]).folder by {
                assert(folders[a].folder != folders[b].folder);
            }
        }
        assert forall|i: int| 0 <= i < t.len() implies is_sound(#[trigger] t[i]) by {
            assert(t[i] == folders[i]);
        }
        lemma_pass_in_step(prior, t, j);
        assert(t[j] == folders[j]);
        assert(folders[j].folder != folders[folders.len() - 1].folder);
        lemma_stays_in_step(merge_folders(prior, t), folders[j], f);
    } else {
        lemma_folder_in_step(merge_folders(prior, t), f);
    }
}

proof fn lemma_pass_again(s: Seq<EmailView>, folders: Seq<FolderSyncView>)
    requires
        all_sound(folders),
        forall|j: int| 0 <= j < folders.len() ==> in_step(s, #[trigger] folders[j]),
    ensures
        merge_folders(s, folders) == s,
    decreases folders.len(),
{
    if folders.len() > 0 {
        let t = folders.drop_last();
        assert forall|i: int| 0 <= i < t.len() implies is_sound(#[trigger] t[i]) && in_step(
            s,
            t[i],
        ) by {
            assert(t[i] == folders[i]);
        }
        lemma_pass_again(s, t);
        assert(in_step(s, folders[folders.len() - 1]));
        lemma_in_step(s, folders.last());
    }
}

/// Merging the same pass a second time changes nothing: it neither duplicates
/// nor rekeys nor reorders anything.
pub proof fn merging_again_changes_nothing(prior: Seq<EmailView>, folders: Seq<FolderSyncView>)
    requires
        ids_suffice(prior, folders),
        tags_distinct(folders),
        all_sound(folders),
    ensures
        merged_mail(merged_mail(prior, folders), folders) == merged_mail(prior, folders),
{
    let m = merge_folders(prior, folders);
    let next = max_id(newest_first(m)) + 1;
    let r = merged_mail(prior, folders);
    assert forall|j: int| 0 <= j < folders.len() implies in_step(r, #[trigger] folders[j]) by {
        lemma_pass_in_step(prior, folders, j);
        lemma_shown_in_step(m, folders[j], next);
    }
    lemma_pass_again(r, folders);
    merge_orders_newest_first(prior, folders);
    lemma_ranked_in_order(r, |e: EmailView| recency(e));
    merge_makes_ids_unique(prior, folders);
    lemma_rekey_unique(r, max_id(r) + 1);
}

// ---------------------------------------------------------------------------
// Local copies and what the server files

/// What a folder's pass leaves without a uid was there before, and is no sent
/// copy that the pass brought.
proof fn lemma_folder_local(s: Seq<EmailView>, f: FolderSyncView, e: EmailView)
    requires
        no_twins(s),
        brings_own(f),
        folder_fits(s, f),
        merge_folder(s, f).contains(e),
        e.uid is None,
    ensures
        s.contains(e),
        f.folder == "sent"@ && e.folder == "sent"@ ==> forall|n: int|
            0 <= n < f.fetched.len() ==> (#[trigger] f.fetched[n]).subject != e.subject,
{
    let kept = kept_part(s, f);
    lemma_kept_part(s, f);
    lemma_max_id(kept);
    crate::merge::lemma_folder_bound(s, f);
    lemma_absorb(kept, max_id(kept) + 1, f.folder, f.fetched);
    let r = with_fetched(s, f);
    lemma_filter(r, |e: EmailView| !is_filed(e, f));
    let m = merge_folder(s, f);
    assert(m[m.index_of(e)] == e);
    assert(r.contains(e));
    assert(kept.contains(r[r.index_of(e)]));
    let q = |e: EmailView| still_there(e, f);
    lemma_filter(s, q);
    let k = kept.index_of(e);
    assert(kept[k] == with_seen(s.filter(q)[k], f));
    assert(s.contains(s.filter(q)[k]));
    if f.folder == "sent"@ && e.folder == "sent"@ {
        assert(!is_filed(e, f));
        assert forall|n: int| 0 <= n < f.fetched.len() implies (#[trigger] f.fetched[n]).subject
            != e.subject by {
            if f.fetched[n].subject == e.subject {
                assert(is_filed(e, f));
            }
        }
    }
}

proof fn lemma_pass_local(prior: Seq<EmailView>, folders: Seq<FolderSyncView>, e: EmailView)
    requires
        no_twins(prior),
        all_bring_own(folders),
        max_id(prior) + crate::merge::fetched_count(folders) < usize::MAX,
        merge_folders(prior, folders).contains(e),
        e.uid is None,
    ensures
        prior.contains(e),
        e.folder == "sent"@ ==> forall|j: int, n: int|
            0 <= j < folders.len() && (#[trigger] folders[j]).folder == "sent"@ && 0 <= n
                < folders[j].fetched.len() ==> (#[trigger] folders[j].fetched[n]).subject
                != e.subject,
    decreases folders.len(),
{
    if folders.len() > 0 {
        let t = folders.drop_last();
        lemma_pass_fits(prior, folders);
        lemma_own_prefix(folders);
        lemma_pass(prior, t);
        lemma_folder_local(merge_folders(prior, t), folders.last(), e);
        lemma_pass_local(prior, t, e);
        if e.folder == "sent"@ {
            assert forall|j: int, n: int|
                0 <= j < folders.len() && (#[trigger] folders[j]).folder == "sent"@ && 0 <= n
                    < folders[j].fetched.len() implies (#[trigger] folders[j].fetched[n]).subject
                != e.subject by {
                if j < t.len() {
                    assert(t[j].fetched[n].subject != e.subject);
                } else {
                    assert(folders.last().fetched[n].subject != e.subject);
                }
            }
        }
    }
}

/// A local sent copy goes exactly where a sent folder of the pass brought a
/// message of the same subject. One whose subject none of them brought stays as
/// it was; so two mails sent in a row are both shown until both are filed.
pub proof fn a_sent_copy_goes_by_its_subject(
    prior: Seq<EmailView>,
    folders: Seq<FolderSyncView>,
    i: int,
)
    requires
        ids_suffice(prior, folders),
        ids_unique(prior),
        no_twins(prior),
        all_bring_own(folders),
        0 <= i < prior.len(),
        prior[i].uid is None,
        prior[i].folder == "sent"@,
    ensures
        (forall|j: int, n: int|
            0 <= j < folders.len() && (#[trigger] folders[j]).folder == "sent"@ && 0 <= n
                < folders[j].fetched.len() ==> (#[trigger] folders[j].fetched[n]).subject
                != prior[i].subject) ==> merged_mail(prior, folders).contains(prior[i]),
        (exists|j: int, n: int|
            0 <= j < folders.len() && (#[trigger] folders[j]).folder == "sent"@ && 0 <= n
                < folders[j].fetched.len() && (#[trigger] folders[j].fetched[n]).subject
                == prior[i].subject) ==> !merged_mail(prior, folders).contains(prior[i]),
{
    let e = prior[i];
    let m = merge_folders(prior, folders);
    merge_keeps_unique_ids(prior, folders);
    lemma_pass(prior, folders);
    lemma_newest_first_ids(m);
    if forall|j: int, n: int|
        0 <= j < folders.len() && (#[trigger] folders[j]).folder == "sent"@ && 0 <= n
            < folders[j].fetched.len() ==> (#[trigger] folders[j].fetched[n]).subject
            != e.subject {
        assert(!filed_in(folders, e)) by {
            if filed_in(folders, e) {
                let j = choose|j: int|
                    0 <= j < folders.len() && (#[trigger] folders[j]).folder == "sent"@
                        && is_filed(e, folders[j]);
                let n = choose|n: int|
                    0 <= n < folders[j].fetched.len() && (#[trigger] folders[j].fetched[n]).subject
                        == e.subject;
                assert(folders[j].fetched[n].subject != e.subject);
            }
        }
        merge_keeps_local_mail(prior, folders, i);
    }
    if merged_mail(prior, folders).contains(e) {
        let x = merged_mail(prior, folders).index_of(e);
        let k = lemma_shown_back(prior, folders, x);
        assert(merged_mail(prior, folders)[x] == newest_first(m)[x]);
        ranked_is_an_ordering(m, |e: EmailView| recency(e));
        assert(m.contains(e)) by {
            broadcast use vstd::seq_lib::group_to_multiset_ensures;

            assert(newest_first(m).to_multiset().contains(e));
        }
        lemma_pass_local(prior, folders, e);
    }
}

/// Mail that never was on a server and is not filed as sent, a draft above all,
/// survives every pass unchanged.
pub proof fn drafts_survive_every_pass(
    prior: Seq<EmailView>,
    folders: Seq<FolderSyncView>,
    i: int,
)
    requires
        ids_suffice(prior, folders),
        ids_unique(prior),
        no_twins(prior),
        all_bring_own(folders),
        0 <= i < prior.len(),
        prior[i].uid is None,
        prior[i].folder != "sent"@,
    ensures
        merged_mail(prior, folders).contains(prior[i]),
{
    assert(!filed_in(folders, prior[i]));
    merge_keeps_local_mail(prior, folders, i);
}

// ---------------------------------------------------------------------------
// What every message comes from

/// A download of this message, in this order of downloads.
proof fn lemma_absorb_origins(
    s: Seq<EmailView>,
    next: int,
    folder: Seq<char>,
    fetched: Seq<EmailView>,
)
    ensures
        ({
            let r = absorb(s, next, folder, fetched).0;
            &&& r.len() >= s.len()
            &&& forall|k: int|
                0 <= k < s.len() && ((#[trigger] s[k]).folder != folder || forall|i: int|
                    0 <= i < fetched.len() ==> (#[trigger] fetched[i]).uid != s[k].uid) ==> r[k]
                    == s[k]
            &&& forall|k: int|
                0 <= k < r.len() ==> (k < s.len() && #[trigger] r[k] == s[k]) || exists|i: int|
                    0 <= i < fetched.len() && r[k] == (EmailView {
                        id: r[k].id,
                        read: r[k].read,
                        ..#[trigger] fetched[i]
                    })
            &&& forall|k: int|
                0 <= k < r.len() && (#[trigger] r[k]).read ==> (k < s.len() && s[k].read) || exists|
                    i: int|
                    0 <= i < fetched.len() && (#[trigger] fetched[i]).uid == r[k].uid
                        && fetched[i].read
            &&& forall|k: int| 0 <= k < s.len() && (#[trigger] s[k]).uid is None ==> r[k] == s[k]
        }),
    decreases fetched.len(),
{
    if fetched.len() > 0 {
        let t = fetched.drop_last();
        let fresh = fetched.last();
        lemma_absorb_origins(s, next, folder, t);
        let before = absorb(s, next, folder, t);
        let b = before.0;
        let r = absorb(s, next, folder, fetched).0;
        assert(fetched[fetched.len() - 1] == fresh);
        if fresh.uid is Some {
            lemma_held_at(b, folder, fresh.uid->0);
        }
        assert forall|k: int|
            0 <= k < s.len() && ((#[trigger] s[k]).folder != folder || forall|i: int|
                0 <= i < fetched.len() ==> (#[trigger] fetched[i]).uid != s[k].uid) implies r[k]
            == s[k] by {
            if s[k].folder == folder {
                assert forall|i: int| 0 <= i < t.len() implies (#[trigger] t[i]).uid
                    != s[k].uid by {
                    assert(t[i] == fetched[i]);
                }
            }
            assert(b[k] == s[k]);
        }
        assert forall|k: int| 0 <= k < r.len() implies (k < s.len() && #[trigger] r[k] == s[k])
            || exists|i: int|
            0 <= i < fetched.len() && r[k] == (EmailView {
                id: r[k].id,
                read: r[k].read,
                ..#[trigger] fetched[i]
            }) by {
            if k < b.len() && r[k] == b[k] {
                if !(k < s.len() && b[k] == s[k]) {
                    let i = choose|i: int|
                        0 <= i < t.len() && b[k] == (EmailView {
                            id: b[k].id,
                            read: b[k].read,
                            ..#[trigger] t[i]
                        });
                    assert(fetched[i] == t[i]);
                }
            } else {
                assert(r[k] == (EmailView {
                    id: r[k].id,
                    read: r[k].read,
                    ..fetched[fetched.len() - 1]
                }));
            }
        }
        assert forall|k: int| 0 <= k < r.len() && (#[trigger] r[k]).read implies (k < s.len()
            && s[k].read) || exists|i: int|
            0 <= i < fetched.len() && (#[trigger] fetched[i]).uid == r[k].uid
                && fetched[i].read by {
            if k < b.len() && b[k].read && b[k].uid == r[k].uid {
                if !(k < s.len() && s[k].read) {
                    let i = choose|i: int|
                        0 <= i < t.len() && (#[trigger] t[i]).uid == b[k].uid && t[i].read;
                    assert(fetched[i] == t[i]);
                }
            } else {
                assert(fetched[fetched.len() - 1].uid == r[k].uid);
            }
        }
        assert forall|k: int| 0 <= k < s.len() && (#[trigger] s[k]).uid is None implies r[k]
            == s[k] by {
            assert(b[k] == s[k]);
        }
    }
}

/// What a folder's pass makes of each message, and where each of its messages
/// comes from.
proof fn lemma_folder_origins(s: Seq<EmailView>, f: FolderSyncView)
    ensures
        forall|k: int|
            0 <= k < s.len() && (#[trigger] s[k]).uid is Some && s[k].folder != f.folder
                ==> merge_folder(s, f).contains(s[k]),
        forall|k: int|
            0 <= k < s.len() && (#[trigger] s[k]).uid is Some && s[k].folder == f.folder
                && f.server_uids.contains(s[k].uid->0) && (forall|i: int|
                0 <= i < f.fetched.len() ==> (#[trigger] f.fetched[i]).uid != s[k].uid)
                ==> merge_folder(s, f).contains(
                EmailView { read: s[k].read || f.seen_uids.contains(s[k].uid->0), ..s[k] },
            ),
        forall|x: int|
            0 <= x < merge_folder(s, f).len() ==> comes_from(
                #[trigger] merge_folder(s, f)[x],
                s,
                f,
            ),
{
    let q = |e: EmailView| still_there(e, f);
    let kept = kept_part(s, f);
    lemma_filter(s, q);
    lemma_absorb_origins(kept, max_id(kept) + 1, f.folder, f.fetched);
    let r = with_fetched(s, f);
    let p = |e: EmailView| !is_filed(e, f);
    lemma_filter(r, p);
    let m = merge_folder(s, f);
    assert forall|k: int| 0 <= k < r.len() && r[k].uid is Some implies m.contains(
        #[trigger] r[k],
    ) by {
        assert(p(r[k]));
        if f.folder != "sent"@ {
            assert(m[k] == r[k]);
        }
    }
    assert forall|k: int|
        0 <= k < s.len() && (#[trigger] s[k]).uid is Some && s[k].folder != f.folder implies m.contains(
    s[k]) by {
        assert(q(s[k]));
        let x = s.filter(q).index_of(s[k]);
        assert(kept[x] == s[k]);
        assert(r[x] == s[k]);
    }
    assert forall|k: int|
        0 <= k < s.len() && (#[trigger] s[k]).uid is Some && s[k].folder == f.folder
            && f.server_uids.contains(s[k].uid->0) && (forall|i: int|
            0 <= i < f.fetched.len() ==> (#[trigger] f.fetched[i]).uid
                != s[k].uid) implies m.contains(
        EmailView { read: s[k].read || f.seen_uids.contains(s[k].uid->0), ..s[k] },
    ) by {
        assert(q(s[k]));
        let x = s.filter(q).index_of(s[k]);
        let e = EmailView { read: s[k].read || f.seen_uids.contains(s[k].uid->0), ..s[k] };
        assert(kept[x] == e);
        assert(r[x] == e);
        assert(m.contains(r[x]));
    }
    assert forall|x: int| 0 <= x < m.len() implies comes_from(#[trigger] m[x], s, f) by {
        assert(r.contains(m[x])) by {
            if f.folder != "sent"@ {
                assert(r[x] == m[x]);
            }
        }
        let k = r.index_of(m[x]);
        assert(r[k] == m[x]);
        if k < kept.len() {
            assert(kept[k] == with_seen(s.filter(q)[k], f));
            assert(s.contains(s.filter(q)[k]));
            let j = s.index_of(s.filter(q)[k]);
            assert(s[j] == s.filter(q)[k]);
            if r[k] == kept[k] {
                assert(is_same_mail(m[x], s[j]));
            }
        }
    }
}

/// The same message, under whatever id, read or not.
pub open spec fn is_same_mail(a: EmailView, b: EmailView) -> bool {
    a == EmailView { id: a.id, read: a.read, ..b }
}

/// A message of the cache or a download.
pub open spec fn comes_from(e: EmailView, s: Seq<EmailView>, f: FolderSyncView) -> bool {
    ||| exists|k: int| 0 <= k < s.len() && is_same_mail(e, #[trigger] s[k])
    ||| exists|i: int| 0 <= i < f.fetched.len() && is_same_mail(e, #[trigger] f.fetched[i])
}

proof fn lemma_pass_origins(prior: Seq<EmailView>, folders: Seq<FolderSyncView>, x: int)
    requires
        0 <= x < merge_folders(prior, folders).len(),
    ensures
        (exists|k: int|
            0 <= k < prior.len() && is_same_mail(
                merge_folders(prior, folders)[x],
                #[trigger] prior[k],
            )) || (exists|j: int, i: int|
            0 <= j < folders.len() && 0 <= i < folders[j].fetched.len() && is_same_mail(
                merge_folders(prior, folders)[x],
                #[trigger] folders[j].fetched[i],
            )),
    decreases folders.len(),
{
    let m = merge_folders(prior, folders);
    if folders.len() == 0 {
        assert(is_same_mail(m[x], prior[x]));
    } else {
        let t = folders.drop_last();
        let f = folders.last();
        let s = merge_folders(prior, t);
        lemma_folder_origins(s, f);
        assert(comes_from(m[x], s, f));
        if exists|k: int| 0 <= k < s.len() && is_same_mail(m[x], #[trigger] s[k]) {
            let k = choose|k: int| 0 <= k < s.len() && is_same_mail(m[x], #[trigger] s[k]);
            lemma_pass_origins(prior, t, k);
            if exists|n: int| 0 <= n < prior.len() && is_same_mail(s[k], #[trigger] prior[n]) {
                let n = choose|n: int|
                    0 <= n < prior.len() && is_same_mail(s[k], #[trigger] prior[n]);
                assert(is_same_mail(m[x], prior[n]));
            } else {
                let (j, i) = choose|j: int, i: int|
                    0 <= j < t.len() && 0 <= i < t[j].fetched.len() && is_same_mail(
                        s[k],
                        #[trigger] t[j].fetched[i],
                    );
                assert(t[j] == folders[j]);
                assert(is_same_mail(m[x], folders[j].fetched[i]));
            }
        } else {
            let i = choose|i: int|
                0 <= i < f.fetched.len() && is_same_mail(m[x], #[trigger] f.fetched[i]);
            assert(is_same_mail(m[x], folders[folders.len() - 1].fetched[i]));
        }
    }
}

/// A merge invents nothing: whatever it shows was in the cache or was
/// downloaded, with the same sender, recipient, subject, text, date, folder,
/// attachments and uid.
pub proof fn a_merge_invents_nothing(
    prior: Seq<EmailView>,
    folders: Seq<FolderSyncView>,
    x: int,
)
    requires
        0 <= x < merged_mail(prior, folders).len(),
    ensures
        ({
            let e = merged_mail(prior, folders)[x];
            ||| exists|k: int|
                0 <= k < prior.len() && e == (EmailView {
                    id: e.id,
                    read: e.read,
                    ..#[trigger] prior[k]
                })
            ||| exists|j: int, i: int|
                0 <= j < folders.len() && 0 <= i < folders[j].fetched.len() && e == (EmailView {
                    id: e.id,
                    read: e.read,
                    ..#[trigger] folders[j].fetched[i]
                })
        }),
{
    let e = merged_mail(prior, folders)[x];
    let k = lemma_shown_back(prior, folders, x);
    lemma_pass_origins(prior, folders, k);
    let m = merge_folders(prior, folders);
    if exists|n: int| 0 <= n < prior.len() && is_same_mail(m[k], #[trigger] prior[n]) {
        let n = choose|n: int| 0 <= n < prior.len() && is_same_mail(m[k], #[trigger] prior[n]);
        assert(e == (EmailView { id: e.id, read: e.read, ..prior[n] }));
    } else {
        let (j, i) = choose|j: int, i: int|
            0 <= j < folders.len() && 0 <= i < folders[j].fetched.len() && is_same_mail(
                m[k],
                #[trigger] folders[j].fetched[i],
            );
        assert(e == (EmailView { id: e.id, read: e.read, ..folders[j].fetched[i] }));
    }
}

/// Some folder of a pass lists this message as seen.
pub open spec fn marked_seen(folders: Seq<FolderSyncView>, e: EmailView) -> bool {
    exists|j: int|
        0 <= j < folders.len() && (#[trigger] folders[j]).folder == e.folder
            && folders[j].seen_uids.contains(e.uid->0)
}

proof fn lemma_pass_settled(prior: Seq<EmailView>, folders: Seq<FolderSyncView>, e: EmailView)
    requires
        prior.contains(e),
        e.uid is Some,
        forall|j: int|
            0 <= j < folders.len() && (#[trigger] folders[j]).folder == e.folder
                ==> folders[j].server_uids.contains(e.uid->0),
        forall|j: int, i: int|
            0 <= j < folders.len() && (#[trigger] folders[j]).folder == e.folder && 0 <= i
                < folders[j].fetched.len() ==> (#[trigger] folders[j].fetched[i]).uid != e.uid,
    ensures
        merge_folders(prior, folders).contains(
            EmailView { read: e.read || marked_seen(folders, e), ..e },
        ),
    decreases folders.len(),
{
    if folders.len() == 0 {
        assert(!marked_seen(folders, e));
        assert(EmailView { read: e.read || marked_seen(folders, e), ..e } == e);
    } else {
        let t = folders.drop_last();
        let f = folders.last();
        assert(folders[folders.len() - 1] == f);
        assert forall|j: int| 0 <= j < t.len() && (#[trigger] t[j]).folder
            == e.folder implies t[j].server_uids.contains(e.uid->0) by {
            assert(t[j] == folders[j]);
        }
        assert forall|j: int, i: int|
            0 <= j < t.len() && (#[trigger] t[j]).folder == e.folder && 0 <= i
                < t[j].fetched.len() implies (#[trigger] t[j].fetched[i]).uid != e.uid by {
            assert(t[j] == folders[j]);
            assert(folders[j].fetched[i].uid != e.uid);
        }
        lemma_pass_settled(prior, t, e);
        let s = merge_folders(prior, t);
        let d = EmailView { read: e.read || marked_seen(t, e), ..e };
        let k = s.index_of(d);
        lemma_folder_origins(s, f);
        assert(marked_seen(folders, e) == (marked_seen(t, e) || (f.folder == e.folder
            && f.seen_uids.contains(e.uid->0)))) by {
            if marked_seen(folders, e) {
                let j = choose|j: int|
                    0 <= j < folders.len() && (#[trigger] folders[j]).folder == e.folder
                        && folders[j].seen_uids.contains(e.uid->0);
                if j < t.len() {
                    assert(t[j] == folders[j]);
                }
            }
            if marked_seen(t, e) {
                let j = choose|j: int|
                    0 <= j < t.len() && (#[trigger] t[j]).folder == e.folder
                        && t[j].seen_uids.contains(e.uid->0);
                assert(t[j] == folders[j]);
            }
        }
        assert(s[k] == d);
        if f.folder == e.folder {
            assert forall|i: int| 0 <= i < f.fetched.len() implies (#[trigger] f.fetched[i]).uid
                != d.uid by {
                assert(folders[folders.len() - 1].fetched[i].uid != e.uid);
            }
            assert(EmailView { read: d.read || f.seen_uids.contains(d.uid->0), ..d }
                == EmailView { read: e.read || marked_seen(folders, e), ..e });
        }
    }
}

/// A cached message that its folder's server still lists, and that was not
/// downloaded again, stays just as it is; it is read exactly where it was read
/// before or its folder's pass lists it as seen.
pub proof fn a_listed_message_stays_as_it_is(
    prior: Seq<EmailView>,
    folders: Seq<FolderSyncView>,
    i: int,
)
    requires
        ids_suffice(prior, folders),
        ids_unique(prior),
        no_twins(prior),
        all_bring_own(folders),
        0 <= i < prior.len(),
        prior[i].uid is Some,
        forall|j: int|
            0 <= j < folders.len() && (#[trigger] folders[j]).folder == prior[i].folder
                ==> folders[j].server_uids.contains(prior[i].uid->0),
        forall|j: int, n: int|
            0 <= j < folders.len() && (#[trigger] folders[j]).folder == prior[i].folder && 0 <= n
                < folders[j].fetched.len() ==> (#[trigger] folders[j].fetched[n]).uid
                != prior[i].uid,
    ensures
        merged_mail(prior, folders).contains(
            EmailView {
                read: prior[i].read || exists|j: int|
                    0 <= j < folders.len() && (#[trigger] folders[j]).folder == prior[i].folder
                        && folders[j].seen_uids.contains(prior[i].uid->0),
                ..prior[i]
            },
        ),
{
    let m = merge_folders(prior, folders);
    lemma_pass_settled(prior, folders, prior[i]);
    merge_keeps_unique_ids(prior, folders);
    lemma_pass(prior, folders);
    lemma_newest_first_ids(m);
    let d = EmailView { read: prior[i].read || marked_seen(folders, prior[i]), ..prior[i] };
    let k = m.index_of(d);
    assert(merged_mail(prior, folders).contains(m[k]));
}

/// Newest first: server messages by falling uid, and no server message above
/// one that has no uid, unless its uid is the largest there can be.
pub proof fn merged_mail_falls_by_uid(
    prior: Seq<EmailView>,
    folders: Seq<FolderSyncView>,
    i: int,
    j: int,
)
    requires
        0 <= i < j < merged_mail(prior, folders).len(),
    ensures
        ({
            let a = merged_mail(prior, folders)[i].uid;
            let b = merged_mail(prior, folders)[j].uid;
            &&& a is Some && b is Some ==> a->0 >= b->0
            &&& a is Some && b is None ==> a->0 == u32::MAX
        }),
{
    merge_orders_newest_first(prior, folders);
    let rank = |e: EmailView| recency(e);
    let r = merged_mail(prior, folders);
    assert(rank(r[i]) >= rank(r[j]));
}

/// Someone said that a message is read: the cache, a download of it, or the
/// flags of its folder.
pub open spec fn said_read(
    prior: Seq<EmailView>,
    folders: Seq<FolderSyncView>,
    folder: Seq<char>,
    uid: u32,
) -> bool {
    ||| exists|k: int|
        0 <= k < prior.len() && (#[trigger] prior[k]).folder == folder && prior[k].uid == Some(uid)
            && prior[k].read
    ||| exists|j: int|
        0 <= j < folders.len() && (#[trigger] folders[j]).folder == folder
            && folders[j].seen_uids.contains(uid)
    ||| exists|j: int, i: int|
        0 <= j < folders.len() && folders[j].folder == folder && 0 <= i < folders[j].fetched.len()
            && (#[trigger] folders[j].fetched[i]).uid == Some(uid) && folders[j].fetched[i].read
}

proof fn lemma_absorb_reads(
    s: Seq<EmailView>,
    next: int,
    folder: Seq<char>,
    fetched: Seq<EmailView>,
)
    requires
        forall|i: int| 0 <= i < fetched.len() ==> (#[trigger] fetched[i]).folder == folder,
    ensures
        ({
            let r = absorb(s, next, folder, fetched).0;
            forall|k: int|
                0 <= k < r.len() && (#[trigger] r[k]).read ==> (k < s.len() && s[k].read
                    && s[k].uid == r[k].uid && s[k].folder == r[k].folder) || (r[k].folder == folder
                    && exists|i: int|
                    0 <= i < fetched.len() && (#[trigger] fetched[i]).uid == r[k].uid
                        && fetched[i].read)
        }),
    decreases fetched.len(),
{
    if fetched.len() > 0 {
        let t = fetched.drop_last();
        let fresh = fetched.last();
        assert forall|i: int| 0 <= i < t.len() implies (#[trigger] t[i]).folder == folder by {
            assert(t[i] == fetched[i]);
        }
        lemma_absorb_reads(s, next, folder, t);
        let b = absorb(s, next, folder, t).0;
        let r = absorb(s, next, folder, fetched).0;
        assert(fetched[fetched.len() - 1] == fresh);
        if fresh.uid is Some {
            lemma_held_at(b, folder, fresh.uid->0);
        }
        assert forall|k: int| 0 <= k < r.len() && (#[trigger] r[k]).read implies (k < s.len()
            && s[k].read && s[k].uid == r[k].uid && s[k].folder == r[k].folder) || (r[k].folder
            == folder && exists|i: int|
            0 <= i < fetched.len() && (#[trigger] fetched[i]).uid == r[k].uid
                && fetched[i].read) by {
            if k < b.len() && b[k].read && b[k].uid == r[k].uid && b[k].folder == r[k].folder {
                if !(k < s.len() && s[k].read && s[k].uid == b[k].uid && s[k].folder
                    == b[k].folder) {
                    let i = choose|i: int|
                        0 <= i < t.len() && (#[trigger] t[i]).uid == b[k].uid && t[i].read;
                    assert(fetched[i] == t[i]);
                }
            } else {
                assert(fetched[fetched.len() - 1].uid == r[k].uid);
            }
        }
    }
}

proof fn lemma_pass_reads(prior: Seq<EmailView>, folders: Seq<FolderSyncView>, x: int)
    requires
        all_bring_own(folders),
        0 <= x < merge_folders(prior, folders).len(),
        merge_folders(prior, folders)[x].uid is Some,
        merge_folders(prior, folders)[x].read,
    ensures
        said_read(
            prior,
            folders,
            merge_folders(prior, folders)[x].folder,
            merge_folders(prior, folders)[x].uid->0,
        ),
    decreases folders.len(),
{
    let m = merge_folders(prior, folders);
    let folder = m[x].folder;
    let uid = m[x].uid->0;
    if folders.len() == 0 {
        assert(prior[x].folder == folder);
    } else {
        let t = folders.drop_last();
        let f = folders.last();
        let s = merge_folders(prior, t);
        lemma_own_prefix(folders);
        assert(folders[folders.len() - 1] == f);
        let q = |e: EmailView| still_there(e, f);
        let kept = kept_part(s, f);
        lemma_filter(s, q);
        lemma_absorb_reads(kept, max_id(kept) + 1, f.folder, f.fetched);
        let r = with_fetched(s, f);
        lemma_filter(r, |e: EmailView| !is_filed(e, f));
        assert(r.contains(m[x])) by {
            if f.folder != "sent"@ {
                assert(r[x] == m[x]);
            }
        }
        let k = r.index_of(m[x]);
        assert(r[k] == m[x]);
        if k < kept.len() && kept[k].read && kept[k].uid == m[x].uid && kept[k].folder == folder {
            assert(kept[k] == with_seen(s.filter(q)[k], f));
            assert(s.contains(s.filter(q)[k]));
            let n = s.index_of(s.filter(q)[k]);
            assert(s[n] == s.filter(q)[k]);
            if s[n].read {
                lemma_pass_reads(prior, t, n);
                lemma_said_read_grows(prior, folders, folder, uid);
            }
        } else {
            let i = choose|i: int|
                0 <= i < f.fetched.len() && (#[trigger] f.fetched[i]).uid == m[x].uid
                    && f.fetched[i].read;
            assert(folders[folders.len() - 1].fetched[i].uid == Some(uid));
        }
    }
}

proof fn lemma_said_read_grows(
    prior: Seq<EmailView>,
    folders: Seq<FolderSyncView>,
    folder: Seq<char>,
    uid: u32,
)
    requires
        folders.len() > 0,
        said_read(prior, folders.drop_last(), folder, uid),
    ensures
        said_read(prior, folders, folder, uid),
{
    let t = folders.drop_last();
    if exists|j: int|
        0 <= j < t.len() && (#[trigger] t[j]).folder == folder && t[j].seen_uids.contains(uid) {
        let j = choose|j: int|
            0 <= j < t.len() && (#[trigger] t[j]).folder == folder && t[j].seen_uids.contains(uid);
        assert(folders[j] == t[j]);
    } else if exists|j: int, i: int|
        0 <= j < t.len() && t[j].folder == folder && 0 <= i < t[j].fetched.len() && (
        #[trigger] t[j].fetched[i]).uid == Some(uid) && t[j].fetched[i].read {
        let (j, i) = choose|j: int, i: int|
            0 <= j < t.len() && t[j].folder == folder && 0 <= i < t[j].fetched.len() && (
            #[trigger] t[j].fetched[i]).uid == Some(uid) && t[j].fetched[i].read;
        assert(folders[j] == t[j]);
        assert(folders[j].fetched[i].uid == Some(uid));
    }
}

/// No server message shows as read unless it was read here before, or was
/// downloaded as read, or is listed as seen.
pub proof fn a_merge_marks_nothing_read_by_itself(
    prior: Seq<EmailView>,
    folders: Seq<FolderSyncView>,
    x: int,
)
    requires
        all_bring_own(folders),
        0 <= x < merged_mail(prior, folders).len(),
        merged_mail(prior, folders)[x].uid is Some,
        merged_mail(prior, folders)[x].read,
    ensures
        said_read(
            prior,
            folders,
            merged_mail(prior, folders)[x].folder,
            merged_mail(prior, folders)[x].uid->0,
        ),
{
    let k = lemma_shown_back(prior, folders, x);
    lemma_pass_reads(prior, folders, k);
}

} // verus!
