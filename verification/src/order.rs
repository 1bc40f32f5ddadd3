//! Ordering lists by rank, highest first, equal ranks in their old order.

use vstd::prelude::*;

verus! {

// ---------------------------------------------------------------------------
// The order

/// `s` with `x` put before everything that ranks no higher.
pub open spec fn insert_ranked<A>(x: A, s: Seq<A>, rank: spec_fn(A) -> int) -> Seq<A>
    decreases s.len(),
{
    if s.len() == 0 || rank(s[0]) <= rank(x) {
        seq![x] + s
    } else {
        seq![s[0]] + insert_ranked(x, s.drop_first(), rank)
    }
}

/// `s` ordered by rank, highest first; items of equal rank stay in order.
pub open spec fn ranked<A>(s: Seq<A>, rank: spec_fn(A) -> int) -> Seq<A>
    decreases s.len(),
{
    if s.len() == 0 {
        s
    } else {
        insert_ranked(s[0], ranked(s.drop_first(), rank), rank)
    }
}

/// Two ordered lists as one; of equal ranks the left list's come first.
pub open spec fn merged<A>(x: Seq<A>, y: Seq<A>, rank: spec_fn(A) -> int) -> Seq<A>
    decreases x.len() + y.len(),
{
    if x.len() == 0 {
        y
    } else if y.len() == 0 {
        x
    } else if rank(x[0]) >= rank(y[0]) {
        seq![x[0]] + merged(x.drop_first(), y, rank)
    } else {
        seq![y[0]] + merged(x, y.drop_first(), rank)
    }
}

/// Highest first.
pub open spec fn descending<A>(s: Seq<A>, rank: spec_fn(A) -> int) -> bool {
    forall|i: int, j: int| 0 <= i <= j < s.len() ==> rank(#[trigger] s[i]) >= rank(#[trigger] s[j])
}

proof fn lemma_insert<A>(x: A, s: Seq<A>, rank: spec_fn(A) -> int)
    requires
        descending(s, rank),
    ensures
        descending(insert_ranked(x, s, rank), rank),
        insert_ranked(x, s, rank).len() == s.len() + 1,
        insert_ranked(x, s, rank).to_multiset() == s.to_multiset().insert(x),
    decreases s.len(),
{
    broadcast use vstd::seq_lib::group_to_multiset_ensures;

    let r = insert_ranked(x, s, rank);
    if s.len() == 0 || rank(s[0]) <= rank(x) {
        assert(r =~= s.insert(0, x));
        assert forall|i: int, j: int| 0 <= i <= j < r.len() implies rank(#[trigger] r[i]) >= rank(
            #[trigger] r[j],
        ) by {
            if j > 0 {
                assert(r[j] == s[j - 1]);
                assert(rank(s[0]) >= rank(s[j - 1]));
                if i > 0 {
                    assert(r[i] == s[i - 1]);
                }
            }
        }
        vstd::seq_lib::to_multiset_insert(s, 0, x);
    } else {
        let t = s.drop_first();
        assert forall|i: int, j: int| 0 <= i <= j < t.len() implies rank(#[trigger] t[i]) >= rank(
            #[trigger] t[j],
        ) by {
            assert(rank(s[i + 1]) >= rank(s[j + 1]));
        }
        lemma_insert(x, t, rank);
        let u = insert_ranked(x, t, rank);
        assert(r =~= u.insert(0, s[0]));
        vstd::seq_lib::to_multiset_insert(u, 0, s[0]);
        assert(s =~= t.insert(0, s[0]));
        vstd::seq_lib::to_multiset_insert(t, 0, s[0]);
        assert forall|j: int| 0 <= j < u.len() implies rank(s[0]) >= rank(#[trigger] u[j]) by {
            assert(u.to_multiset().contains(u[j]));
            if u[j] != x {
                assert(t.to_multiset().contains(u[j]));
                assert(t.contains(u[j]));
                let k = t.index_of(u[j]);
                assert(rank(s[0]) >= rank(s[k + 1]));
            }
        }
        assert forall|i: int, j: int| 0 <= i <= j < r.len() implies rank(#[trigger] r[i]) >= rank(
            #[trigger] r[j],
        ) by {
            if j > 0 {
                assert(r[j] == u[j - 1]);
                if i > 0 {
                    assert(r[i] == u[i - 1]);
                }
            }
        }
    }
}

/// Ordering keeps every item, as often as it occurs, and puts the highest
/// ranks first.
pub proof fn ranked_is_an_ordering<A>(s: Seq<A>, rank: spec_fn(A) -> int)
    ensures
        descending(ranked(s, rank), rank),
        ranked(s, rank).len() == s.len(),
        ranked(s, rank).to_multiset() == s.to_multiset(),
    decreases s.len(),
{
    broadcast use vstd::seq_lib::group_to_multiset_ensures;

    if s.len() > 0 {
        let t = s.drop_first();
        ranked_is_an_ordering(t, rank);
        lemma_insert(s[0], ranked(t, rank), rank);
        assert(s =~= t.insert(0, s[0]));
        vstd::seq_lib::to_multiset_insert(t, 0, s[0]);
    }
}

/// The items of one rank.
pub open spec fn of_rank<A>(s: Seq<A>, rank: spec_fn(A) -> int, r: int) -> Seq<A>
    decreases s.len(),
{
    if s.len() == 0 {
        s
    } else if rank(s[0]) == r {
        seq![s[0]] + of_rank(s.drop_first(), rank, r)
    } else {
        of_rank(s.drop_first(), rank, r)
    }
}

/// Ordering does not swap items of equal rank.
pub proof fn ranked_is_stable<A>(s: Seq<A>, rank: spec_fn(A) -> int, r: int)
    ensures
        of_rank(ranked(s, rank), rank, r) == of_rank(s, rank, r),
    decreases s.len(),
{
    if s.len() > 0 {
        ranked_is_stable(s.drop_first(), rank, r);
        lemma_insert_of_rank(s[0], ranked(s.drop_first(), rank), rank, r);
    }
}

proof fn lemma_insert_of_rank<A>(x: A, s: Seq<A>, rank: spec_fn(A) -> int, r: int)
    ensures
        of_rank(insert_ranked(x, s, rank), rank, r) == if rank(x) == r {
            seq![x] + of_rank(s, rank, r)
        } else {
            of_rank(s, rank, r)
        },
    decreases s.len(),
{
    let i = insert_ranked(x, s, rank);
    if s.len() == 0 || rank(s[0]) <= rank(x) {
        assert(i.drop_first() =~= s);
    } else {
        lemma_insert_of_rank(x, s.drop_first(), rank, r);
        assert(i.drop_first() =~= insert_ranked(x, s.drop_first(), rank));
    }
}

proof fn lemma_insert_into_merged<A>(e: A, x: Seq<A>, y: Seq<A>, rank: spec_fn(A) -> int)
    ensures
        insert_ranked(e, merged(x, y, rank), rank) == merged(insert_ranked(e, x, rank), y, rank),
    decreases x.len() + y.len(),
{
    let m = merged(x, y, rank);
    let ex = insert_ranked(e, x, rank);
    if x.len() == 0 {
        assert(ex =~= seq![e]);
        assert(ex.drop_first() =~= x);
        assert(seq![e] + Seq::<A>::empty() =~= seq![e]);
        if y.len() > 0 && rank(y[0]) > rank(e) {
            lemma_insert_into_merged(e, x, y.drop_first(), rank);
        }
    } else if y.len() > 0 {
        if rank(x[0]) >= rank(y[0]) {
            assert(m.drop_first() =~= merged(x.drop_first(), y, rank));
            if rank(e) >= rank(x[0]) {
                assert(ex.drop_first() =~= x);
            } else {
                assert(ex.drop_first() =~= insert_ranked(e, x.drop_first(), rank));
                lemma_insert_into_merged(e, x.drop_first(), y, rank);
            }
        } else {
            assert(m.drop_first() =~= merged(x, y.drop_first(), rank));
            if rank(e) >= rank(y[0]) {
                assert(ex.drop_first() =~= x);
            } else {
                lemma_insert_into_merged(e, x, y.drop_first(), rank);
            }
        }
    }
}

proof fn lemma_ranked_halves<A>(x: Seq<A>, y: Seq<A>, rank: spec_fn(A) -> int)
    ensures
        merged(ranked(x, rank), ranked(y, rank), rank) == ranked(x + y, rank),
    decreases x.len(),
{
    if x.len() == 0 {
        assert(x + y =~= y);
    } else {
        lemma_ranked_halves(x.drop_first(), y, rank);
        lemma_insert_into_merged(x[0], ranked(x.drop_first(), rank), ranked(y, rank), rank);
        assert((x + y).drop_first() =~= x.drop_first() + y);
    }
}

// ---------------------------------------------------------------------------
// Ordering a list

/// Something with a rank.
pub trait Ranked: Sized {
    spec fn rank(self) -> int;

    fn ranks_at_least(&self, other: &Self) -> (r: bool)
        ensures
            r == (self.rank() >= other.rank()),
    ;
}

/// The rank of an item, as a function.
pub open spec fn rank_fn<A: Ranked>() -> spec_fn(A) -> int {
    |x: A| x.rank()
}

impl Ranked for u32 {
    open spec fn rank(self) -> int {
        self as int
    }

    fn ranks_at_least(&self, other: &u32) -> (r: bool) {
        *self >= *other
    }
}

/// `v` back to front.
pub fn reversed<A>(v: Vec<A>) -> (r: Vec<A>)
    ensures
        r@ == v@.reverse(),
{
    let mut rest = v;
    let mut out: Vec<A> = Vec::new();
    while rest.len() > 0
        invariant
            rest@.len() <= v@.len(),
            rest@ == v@.take(rest@.len() as int),
            out@ =~= v@.skip(rest@.len() as int).reverse(),
        decreases rest@.len(),
    {
        if let Some(x) = rest.pop() {
            out.push(x);
        }
    }
    out
}

fn merge<A: Ranked>(x: Vec<A>, y: Vec<A>) -> (r: Vec<A>)
    ensures
        r@ == merged(x@, y@, rank_fn::<A>()),
{
    let ghost rank = rank_fn::<A>();
    let mut a = reversed(x);
    let mut b = reversed(y);
    let mut out: Vec<A> = Vec::new();
    proof {
        assert(a@.reverse() =~= x@);
        assert(b@.reverse() =~= y@);
        assert(out@ + merged(x@, y@, rank) =~= merged(x@, y@, rank));
    }
    while a.len() > 0 && b.len() > 0
        invariant
            rank == rank_fn::<A>(),
            out@ + merged(a@.reverse(), b@.reverse(), rank) == merged(x@, y@, rank),
        decreases a@.len() + b@.len(),
    {
        let ghost before = out@;
        let ghost fa = a@.reverse();
        let ghost fb = b@.reverse();
        let left = a[a.len() - 1].ranks_at_least(&b[b.len() - 1]);
        assert(fa[0] == a@.last() && fb[0] == b@.last());
        if left {
            if let Some(e) = a.pop() {
                out.push(e);
            }
            assert(a@.reverse() =~= fa.drop_first());
            assert(before + (seq![fa[0]] + merged(fa.drop_first(), fb, rank)) =~= before.push(fa[0])
                + merged(fa.drop_first(), fb, rank));
        } else {
            if let Some(e) = b.pop() {
                out.push(e);
            }
            assert(b@.reverse() =~= fb.drop_first());
            assert(before + (seq![fb[0]] + merged(fa, fb.drop_first(), rank)) =~= before.push(fb[0])
                + merged(fa, fb.drop_first(), rank));
        }
    }
    let mut tail = if a.len() > 0 {
        reversed(a)
    } else {
        reversed(b)
    };
    out.append(&mut tail);
    out
}

/// Order `v` by rank, highest first; items of equal rank stay in order.
pub fn sort_ranked<A: Ranked>(v: Vec<A>) -> (r: Vec<A>)
    ensures
        r@ == ranked(v@, rank_fn::<A>()),
    decreases v@.len(),
{
    let ghost rank = rank_fn::<A>();
    if v.len() < 2 {
        proof {
            if v@.len() == 1 {
                assert(v@.drop_first() =~= Seq::empty());
                assert(ranked(v@.drop_first(), rank) =~= Seq::empty());
                assert(seq![v@[0]] + Seq::<A>::empty() =~= v@);
            }
        }
        return v;
    }
    let mut x = v;
    let half: usize = x.len() / 2;
    let y = x.split_off(half);
    proof {
        lemma_ranked_halves(x@, y@, rank);
        assert(x@ + y@ =~= v@);
    }
    let a = sort_ranked(x);
    let b = sort_ranked(y);
    merge(a, b)
}

} // verus!
