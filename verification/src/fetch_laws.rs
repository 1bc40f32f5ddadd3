//! What holds of every download.

use vstd::prelude::*;
use crate::fetch::{
    ascending, finished, least, missing, part_paths, round_trips, uids_at, uids_without_part,
    wanted, PendingView, FETCH_COUNT, MAX_FETCH_PER_SYNC,
};
use crate::merge_laws::brings_own;
use crate::model::FolderSyncView;
use crate::order::{ranked, ranked_is_an_ordering};

verus! {

pub open spec fn is_ascending(s: Seq<u32>) -> bool {
    forall|i: int, j: int| 0 <= i <= j < s.len() ==> (#[trigger] s[i]) <= (#[trigger] s[j])
}

/// Sorting keeps every uid, as often as it occurs, smallest first.
pub proof fn ascending_is_sorted(s: Seq<u32>)
    ensures
        is_ascending(ascending(s)),
        ascending(s).len() == s.len(),
        ascending(s).to_multiset() == s.to_multiset(),
{
    let rank = |u: u32| u as int;
    ranked_is_an_ordering(s, rank);
    let d = ranked(s, rank);
    let r = ascending(s);
    assert forall|i: int, j: int| 0 <= i <= j < r.len() implies (#[trigger] r[i]) <= (
    #[trigger] r[j]) by {
        assert(r[i] == d[d.len() - 1 - i] && r[j] == d[d.len() - 1 - j]);
        assert(rank(d[d.len() - 1 - j]) >= rank(d[d.len() - 1 - i]));
    }
    lemma_reverse_multiset(d);
}

proof fn lemma_reverse_multiset(s: Seq<u32>)
    ensures
        s.reverse().to_multiset() == s.to_multiset(),
    decreases s.len(),
{
    broadcast use vstd::seq_lib::group_to_multiset_ensures;

    if s.len() > 0 {
        let t = s.drop_first();
        lemma_reverse_multiset(t);
        assert(s.reverse() =~= t.reverse().push(s[0]));
        assert(s =~= t.insert(0, s[0]));
        vstd::seq_lib::to_multiset_insert(t, 0, s[0]);
    } else {
        assert(s.reverse() =~= s);
    }
}

proof fn lemma_filter_ascending(s: Seq<u32>, p: spec_fn(u32) -> bool)
    requires
        is_ascending(s),
    ensures
        is_ascending(s.filter(p)),
        forall|i: int| 0 <= i < s.filter(p).len() ==> s.contains(#[trigger] s.filter(p)[i]) && p(
            s.filter(p)[i],
        ),
        s.no_duplicates() ==> s.filter(p).no_duplicates(),
    decreases s.len(),
{
    reveal(Seq::filter);
    if s.len() > 0 {
        let t = s.drop_last();
        assert forall|i: int| 0 <= i < t.len() implies t[i] == s[i] by {}
        lemma_filter_ascending(t, p);
        let before = t.filter(p);
        let r = s.filter(p);
        assert forall|i: int| 0 <= i < r.len() implies s.contains(#[trigger] r[i]) && p(r[i]) by {
            if i < before.len() {
                assert(r[i] == before[i]);
                let k = t.index_of(before[i]);
                assert(s[k] == r[i]);
            } else {
                assert(s[s.len() - 1] == r[i]);
            }
        }
        assert forall|i: int, j: int| 0 <= i <= j < r.len() implies (#[trigger] r[i]) <= (
        #[trigger] r[j]) by {
            if j < before.len() {
                assert(r[i] == before[i] && r[j] == before[j]);
            } else if i < before.len() {
                assert(r[i] == before[i]);
                let k = t.index_of(before[i]);
                assert(s[k] <= s[s.len() - 1]);
            }
        }
        if s.no_duplicates() {
            assert(t.no_duplicates());
            assert forall|i: int, j: int|
                0 <= i < r.len() && 0 <= j < r.len() && i != j implies r[i] != r[j] by {
                if i < before.len() && j < before.len() {
                    assert(r[i] == before[i] && r[j] == before[j]);
                } else {
                    let (a, b) = if i < j {
                        (i, j)
                    } else {
                        (j, i)
                    };
                    assert(r[a] == before[a]);
                    let k = t.index_of(before[a]);
                    assert(s[k] != s[s.len() - 1]);
                }
            }
        }
    }
}

/// A pass downloads only messages the cache lacks, and of those the newest;
/// what it leaves for later is older than all it takes.
pub proof fn a_pass_takes_the_newest(server: Seq<u32>, known: Set<u32>)
    ensures
        ({
            let m = missing(server, known);
            let w = wanted(server, known);
            &&& w.len() == least(m.len(), MAX_FETCH_PER_SYNC as nat)
            &&& m == m.take(m.len() - w.len()) + w
            &&& forall|i: int| 0 <= i < w.len() ==> !known.contains(#[trigger] w[i])
            &&& forall|i: int, j: int|
                0 <= i < m.len() - w.len() && 0 <= j < w.len() ==> (#[trigger] m[i]) <= (
                #[trigger] w[j])
        }),
{
    let m = missing(server, known);
    let w = wanted(server, known);
    ascending_is_sorted(server);
    lemma_filter_ascending(ascending(server), |u: u32| !known.contains(u));
    assert(m =~= m.take(m.len() - w.len()) + w);
    assert forall|i: int| 0 <= i < w.len() implies !known.contains(#[trigger] w[i]) by {
        assert(w[i] == m[m.len() - w.len() + i]);
    }
    assert forall|i: int, j: int|
        0 <= i < m.len() - w.len() && 0 <= j < w.len() implies (#[trigger] m[i]) <= (
    #[trigger] w[j]) by {
        assert(w[j] == m[m.len() - w.len() + j]);
    }
}

/// The messages of all round trips, oldest first.
pub open spec fn asked_for(trips: Seq<Seq<u32>>) -> Seq<u32>
    decreases trips.len(),
{
    if trips.len() == 0 {
        Seq::empty()
    } else {
        asked_for(trips.drop_first()) + trips[0].reverse()
    }
}

/// The round trips of a pass ask for each message once, at most
/// `n` at a time.
pub proof fn round_trips_cover(s: Seq<u32>, n: nat)
    requires
        n > 0,
    ensures
        asked_for(round_trips(s, n)) == s,
        forall|i: int|
            0 <= i < round_trips(s, n).len() ==> 0 < (#[trigger] round_trips(s, n)[i]).len() <= n,
    decreases s.len(),
{
    if s.len() > 0 {
        let at = s.len() - least(s.len(), n);
        let rest = s.take(at);
        round_trips_cover(rest, n);
        let r = round_trips(s, n);
        let t = round_trips(rest, n);
        assert(r.drop_first() =~= t);
        assert(r[0].reverse() =~= s.skip(at));
        assert(rest + s.skip(at) =~= s);
        assert forall|i: int| 0 <= i < r.len() implies 0 < (#[trigger] r[i]).len() <= n by {
            if i > 0 {
                assert(r[i] == t[i - 1]);
            }
        }
    }
}

/// Every round trip holds members of the list alone.
proof fn lemma_trips_within(s: Seq<u32>, n: nat, b: int, j: int)
    requires
        n > 0,
        0 <= b < round_trips(s, n).len(),
        0 <= j < round_trips(s, n)[b].len(),
    ensures
        s.contains(round_trips(s, n)[b][j]),
    decreases s.len(),
{
    let at = s.len() - least(s.len(), n);
    let rest = s.take(at);
    let r = round_trips(s, n);
    if b == 0 {
        assert(r[0] =~= s.skip(at).reverse());
        assert(r[0][j] == s[s.len() - 1 - j]);
    } else {
        assert(r[b] == round_trips(rest, n)[b - 1]);
        lemma_trips_within(rest, n, b - 1, j);
        let k = rest.index_of(r[b][j]);
        assert(s[k] == r[b][j]);
    }
}

proof fn lemma_newest_trip_first(s: Seq<u32>, n: nat, a: int, i: int, b: int, j: int)
    requires
        n > 0,
        is_ascending(s),
        0 <= a < b < round_trips(s, n).len(),
        0 <= i < round_trips(s, n)[a].len(),
        0 <= j < round_trips(s, n)[b].len(),
    ensures
        round_trips(s, n)[a][i] >= round_trips(s, n)[b][j],
        s.no_duplicates() ==> round_trips(s, n)[a][i] > round_trips(s, n)[b][j],
    decreases s.len(),
{
    let at = s.len() - least(s.len(), n);
    let rest = s.take(at);
    let r = round_trips(s, n);
    let t = round_trips(rest, n);
    assert(r[b] == t[b - 1]);
    if a == 0 {
        assert(r[0] =~= s.skip(at).reverse());
        let x = s.len() - 1 - i;
        assert(r[0][i] == s[x]);
        lemma_trips_within(rest, n, b - 1, j);
        let k = rest.index_of(r[b][j]);
        assert(s[k] == r[b][j]);
        assert(k < at <= x);
    } else {
        assert(r[a] == t[a - 1]);
        assert forall|x: int, y: int| 0 <= x < y < rest.len() implies (#[trigger] rest[x]) <= (
        #[trigger] rest[y]) by {
            assert(s[x] <= s[y]);
        }
        if s.no_duplicates() {
            assert forall|x: int, y: int| 0 <= x < rest.len() && 0 <= y < rest.len() && x
                != y implies rest[x] != rest[y] by {
                assert(s[x] != s[y]);
            }
        }
        lemma_newest_trip_first(rest, n, a - 1, i, b - 1, j);
    }
}

/// A pass downloads newest first: whatever an earlier round trip asks for is
/// newer than all that a later one asks for.
pub proof fn newest_round_trips_come_first(
    server: Seq<u32>,
    known: Set<u32>,
    a: int,
    i: int,
    b: int,
    j: int,
)
    requires
        server.no_duplicates(),
        0 <= a < b < round_trips(wanted(server, known), FETCH_COUNT as nat).len(),
        0 <= i < round_trips(wanted(server, known), FETCH_COUNT as nat)[a].len(),
        0 <= j < round_trips(wanted(server, known), FETCH_COUNT as nat)[b].len(),
    ensures
        round_trips(wanted(server, known), FETCH_COUNT as nat)[a][i] > round_trips(
            wanted(server, known),
            FETCH_COUNT as nat,
        )[b][j],
{
    let all = ascending(server);
    let m = missing(server, known);
    let w = wanted(server, known);
    let p = |u: u32| !known.contains(u);
    ascending_is_sorted(server);
    lemma_no_duplicates(server, all);
    lemma_filter_ascending(all, p);
    let from = m.len() - w.len();
    assert forall|x: int, y: int| 0 <= x < y < w.len() implies (#[trigger] w[x]) <= (
    #[trigger] w[y]) by {
        assert(w[x] == m[from + x] && w[y] == m[from + y]);
    }
    assert forall|x: int, y: int| 0 <= x < w.len() && 0 <= y < w.len() && x != y implies w[x]
        != w[y] by {
        assert(w[x] == m[from + x] && w[y] == m[from + y]);
    }
    lemma_newest_trip_first(w, FETCH_COUNT as nat, a, i, b, j);
}

proof fn lemma_filter_apart(s: Seq<u32>, p: spec_fn(u32) -> bool, keep: bool)
    requires
        forall|i: int| 0 <= i < s.len() ==> p(#[trigger] s[i]) == keep,
    ensures
        s.filter(p) == if keep {
            s
        } else {
            Seq::empty()
        },
    decreases s.len(),
{
    reveal(Seq::filter);
    if s.len() > 0 {
        let t = s.drop_last();
        assert forall|i: int| 0 <= i < t.len() implies p(#[trigger] t[i]) == keep by {
            assert(t[i] == s[i]);
        }
        lemma_filter_apart(t, p, keep);
        assert(p(s[s.len() - 1]) == keep);
        assert(t.push(s.last()) =~= s);
    } else {
        assert(s =~= Seq::empty());
    }
}

proof fn lemma_filter_both<A>(
    s: Seq<A>,
    p: spec_fn(A) -> bool,
    q: spec_fn(A) -> bool,
    both: spec_fn(A) -> bool,
)
    requires
        forall|a: A| #[trigger] both(a) == (p(a) && q(a)),
    ensures
        s.filter(p).filter(q) == s.filter(both),
    decreases s.len(),
{
    reveal(Seq::filter);
    if s.len() > 0 {
        let t = s.drop_last();
        lemma_filter_both(t, p, q, both);
        let x = s.last();
        assert(both(x) == (p(x) && q(x)));
        if p(x) {
            assert(t.filter(p).push(x).drop_last() =~= t.filter(p));
        }
    }
}

/// Backfill makes progress: once a pass is in the cache, the next one is left
/// with what the pass left, so that a mailbox is complete after finitely many.
pub proof fn backfill_progresses(server: Seq<u32>, known: Set<u32>)
    requires
        server.no_duplicates(),
    ensures
        ({
            let m = missing(server, known);
            let w = wanted(server, known);
            missing(server, known.union(w.to_set())) == m.take(m.len() - w.len())
        }),
        missing(server, known).len() > 0 ==> wanted(server, known).len() > 0,
{
    let m = missing(server, known);
    let w = wanted(server, known);
    let older = m.take(m.len() - w.len());
    let all = ascending(server);
    let p = |u: u32| !known.contains(u);
    let q = |u: u32| !w.contains(u);
    let both = |u: u32| !known.union(w.to_set()).contains(u);
    ascending_is_sorted(server);
    lemma_no_duplicates(server, all);
    lemma_filter_ascending(all, p);
    lemma_filter_both(all, p, q, both);
    a_pass_takes_the_newest(server, known);
    assert forall|i: int| 0 <= i < older.len() implies q(#[trigger] older[i]) == true by {
        if w.contains(older[i]) {
            let k = w.index_of(older[i]);
            assert(m[i] == m[m.len() - w.len() + k]);
        }
    }
    assert forall|i: int| 0 <= i < w.len() implies q(#[trigger] w[i]) == false by {}
    lemma_filter_apart(older, q, true);
    lemma_filter_apart(w, q, false);
    Seq::filter_distributes_over_add(older, w, q);
    assert(older + Seq::<u32>::empty() =~= older);
}

proof fn lemma_no_duplicates(a: Seq<u32>, b: Seq<u32>)
    requires
        a.no_duplicates(),
        a.to_multiset() == b.to_multiset(),
    ensures
        b.no_duplicates(),
{
    broadcast use vstd::seq_lib::group_to_multiset_ensures;

    a.lemma_multiset_has_no_duplicates();
    assert forall|x: u32| #[trigger] b.to_multiset().contains(x) implies b.to_multiset().count(x)
        == 1 by {
        assert(a.to_multiset().contains(x));
    }
    b.lemma_multiset_has_no_duplicates_conv();
}

/// Every message of a batch is asked for: one with a text part in the fetch
/// for that part's path, any other in the fetch for whole messages.
pub proof fn every_message_is_asked_for(ps: Seq<PendingView>, i: int)
    requires
        0 <= i < ps.len(),
    ensures
        match ps[i].part {
            Some(t) => part_paths(ps).contains(t.path) && uids_at(ps, t.path).contains(ps[i].uid),
            None => uids_without_part(ps).contains(ps[i].uid),
        },
    decreases ps.len(),
{
    let t = ps.drop_last();
    if i < t.len() {
        every_message_is_asked_for(t, i);
        assert(t[i] == ps[i]);
        match ps[i].part {
            Some(part) => {
                let k = part_paths(t).index_of(part.path);
                assert(part_paths(ps)[k] == part.path);
                let j = uids_at(t, part.path).index_of(ps[i].uid);
                assert(uids_at(ps, part.path)[j] == ps[i].uid);
            },
            None => {
                let j = uids_without_part(t).index_of(ps[i].uid);
                assert(uids_without_part(ps)[j] == ps[i].uid);
            },
        }
    } else {
        match ps[i].part {
            Some(part) => {
                let paths = part_paths(ps);
                if !part_paths(t).contains(part.path) {
                    assert(paths[paths.len() - 1] == part.path);
                }
                let u = uids_at(ps, part.path);
                assert(u[u.len() - 1] == ps[i].uid);
            },
            None => {
                let u = uids_without_part(ps);
                assert(u[u.len() - 1] == ps[i].uid);
            },
        }
    }
}

/// No path is fetched twice.
pub proof fn part_paths_are_distinct(ps: Seq<PendingView>)
    ensures
        part_paths(ps).no_duplicates(),
    decreases ps.len(),
{
    if ps.len() > 0 {
        part_paths_are_distinct(ps.drop_last());
        let before = part_paths(ps.drop_last());
        let r = part_paths(ps);
        assert forall|i: int, j: int|
            0 <= i < r.len() && 0 <= j < r.len() && i != j implies r[i] != r[j] by {
            if i < before.len() && j < before.len() {
                assert(before[i] != before[j]);
            } else if i < before.len() {
                assert(before.contains(before[i]));
            } else if j < before.len() {
                assert(before.contains(before[j]));
            }
        }
    }
}

/// A finished batch is mail of its folder that the server knows by uid, as
/// the merge expects it.
pub proof fn finished_mail_belongs_to_its_folder(ps: Seq<PendingView>, f: FolderSyncView)
    requires
        f.fetched == ps.map_values(|p: PendingView| finished(p, f.folder)),
    ensures
        brings_own(f),
{
}

} // verus!
