//! Keeping an epoll set in step with what a GLib context wants polled.

use vstd::prelude::*;

verus! {

/// What to be woken up for on one descriptor.
#[derive(Debug, Clone, Copy, PartialEq, Eq, Structural)]
pub struct Interest {
    pub readable: bool,
    pub writable: bool,
    pub error: bool,
    pub hangup: bool,
}

/// The bits of `poll(2)`: in is 1, out is 4, error is 8 and hangup is 16.
pub open spec fn interest_of(events: u16) -> Interest {
    Interest {
        readable: events & 0x001 != 0,
        writable: events & 0x004 != 0,
        error: events & 0x008 != 0,
        hangup: events & 0x010 != 0,
    }
}

pub fn flags_of(events: u16) -> (r: Interest)
    ensures
        r == interest_of(events),
{
    Interest {
        readable: events & 0x001 != 0,
        writable: events & 0x004 != 0,
        error: events & 0x008 != 0,
        hangup: events & 0x010 != 0,
    }
}

/// One change to the epoll set.
#[derive(Debug, Clone, Copy, PartialEq, Eq, Structural)]
pub enum PollOp {
    Add(i32, Interest),
    Modify(i32, Interest),
    Delete(i32),
}

/// One watched descriptor and what it is watched for.
pub type Watch = (i32, Interest);

/// What `watches` has for `fd`: its first entry.
pub open spec fn watched(watches: Seq<Watch>, fd: i32) -> Option<Interest>
    decreases watches.len(),
{
    if watches.len() == 0 {
        None
    } else if watches[0].0 == fd {
        Some(watches[0].1)
    } else {
        watched(watches.skip(1), fd)
    }
}

/// The change that one wanted descriptor takes. The same descriptor with
/// other flags is modified, not deleted and added again.
pub open spec fn change_for(registered: Seq<Watch>, want: Watch) -> Seq<PollOp> {
    match watched(registered, want.0) {
        Some(old) => if old == want.1 {
            Seq::empty()
        } else {
            seq![PollOp::Modify(want.0, want.1)]
        },
        None => seq![PollOp::Add(want.0, want.1)],
    }
}

/// The changes that all wanted descriptors take, in order.
pub open spec fn changes_for(registered: Seq<Watch>, want: Seq<Watch>) -> Seq<PollOp>
    decreases want.len(),
{
    if want.len() == 0 {
        Seq::empty()
    } else {
        changes_for(registered, want.drop_last()) + change_for(registered, want.last())
    }
}

/// The registered descriptors that nobody wants any more, in order.
pub open spec fn deletions(registered: Seq<Watch>, want: Seq<Watch>) -> Seq<PollOp>
    decreases registered.len(),
{
    if registered.len() == 0 {
        Seq::empty()
    } else {
        let rest = deletions(registered.drop_last(), want);
        if watched(want, registered.last().0) is None {
            rest.push(PollOp::Delete(registered.last().0))
        } else {
            rest
        }
    }
}

proof fn lemma_watched(watches: Seq<Watch>, fd: i32)
    ensures
        watched(watches, fd) is None <==> forall|i: int|
            0 <= i < watches.len() ==> watches[i].0 != fd,
        watched(watches, fd) matches Some(f) ==> exists|i: int|
            0 <= i < watches.len() && #[trigger] watches[i] == (fd, f),
    decreases watches.len(),
{
    if watches.len() > 0 {
        let rest = watches.skip(1);
        lemma_watched(rest, fd);
        assert forall|i: int| 0 <= i < rest.len() implies rest[i] == #[trigger] watches[i + 1] by {}
        if watches[0].0 == fd {
            assert(watches[0] == (fd, watches[0].1));
        } else {
            if let Some(f) = watched(rest, fd) {
                let i = choose|i: int| 0 <= i < rest.len() && #[trigger] rest[i] == (fd, f);
                assert(watches[i + 1] == (fd, f));
            } else {
                assert forall|i: int| 0 <= i < watches.len() implies watches[i].0 != fd by {
                    if i > 0 {
                        assert(rest[i - 1].0 != fd);
                    }
                }
            }
        }
    }
}

fn find_watch(watches: &Vec<Watch>, fd: i32) -> (r: Option<Interest>)
    ensures
        r == watched(watches@, fd),
{
    let mut i: usize = 0;
    assert(watches@.skip(0) =~= watches@);
    while i < watches.len()
        invariant
            i <= watches@.len(),
            watched(watches@, fd) == watched(watches@.skip(i as int), fd),
        decreases watches@.len() - i,
    {
        let w = watches[i];
        if w.0 == fd {
            return Some(w.1);
        }
        assert(watches@.skip(i as int).skip(1) =~= watches@.skip(i + 1));
        i = i + 1;
    }
    None
}

/// The descriptors a GLib context asked for last, mirrored in one epoll set.
#[derive(Debug, Clone)]
pub struct GlibPoll {
    /// What is registered, so that a change is a difference and not a
    /// rebuild.
    pub registered: Vec<Watch>,
    /// GLib's requested timeout in milliseconds; `None` means that no timer is
    /// needed.
    pub timeout: Option<u32>,
}

/// What GLib reports, as watches.
pub open spec fn wanted(fds: Seq<(i32, u16)>) -> Seq<Watch> {
    fds.map_values(|p: (i32, u16)| (p.0, interest_of(p.1)))
}

impl GlibPoll {
    /// An empty set with no timer.
    pub fn new() -> (r: Self)
        ensures
            r.registered@ == Seq::<Watch>::empty(),
            r.timeout is None,
    {
        GlibPoll { registered: Vec::new(), timeout: None }
    }

    /// Take in what GLib wants polled and how long it lets the loop sleep
    /// (negative: for ever). Gives the changes that bring the epoll set in
    /// step.
    pub fn sync(&mut self, fds: &Vec<(i32, u16)>, timeout: i32) -> (r: Vec<PollOp>)
        ensures
            final(self).registered@ == wanted(fds@),
            final(self).timeout == if timeout >= 0 {
                Some(timeout as u32)
            } else {
                None::<u32>
            },
            r@ == changes_for(old(self).registered@, wanted(fds@)) + deletions(
                old(self).registered@,
                wanted(fds@),
            ),
    {
        let ghost registered = self.registered@;
        let mut want: Vec<Watch> = Vec::new();
        let mut ops: Vec<PollOp> = Vec::new();
        let mut i: usize = 0;
        while i < fds.len()
            invariant
                i <= fds@.len(),
                self.registered@ == registered,
                want@ =~= wanted(fds@).take(i as int),
                ops@ == changes_for(registered, want@),
            decreases fds@.len() - i,
        {
            let w: Watch = (fds[i].0, flags_of(fds[i].1));
            let ghost before = want@;
            match find_watch(&self.registered, w.0) {
                Some(old_flags) => {
                    if old_flags != w.1 {
                        ops.push(PollOp::Modify(w.0, w.1));
                    }
                },
                None => {
                    ops.push(PollOp::Add(w.0, w.1));
                },
            }
            want.push(w);
            i = i + 1;
            proof {
                assert(want@.drop_last() =~= before);
                assert(ops@ =~= changes_for(registered, before) + change_for(registered, w));
            }
        }
        assert(want@ =~= wanted(fds@));
        let ghost changes = ops@;
        let mut k: usize = 0;
        while k < self.registered.len()
            invariant
                k <= registered.len(),
                self.registered@ == registered,
                ops@ =~= changes + deletions(registered.take(k as int), want@),
            decreases registered.len() - k,
        {
            let fd = self.registered[k].0;
            if find_watch(&want, fd).is_none() {
                ops.push(PollOp::Delete(fd));
            }
            k = k + 1;
            proof {
                assert(registered.take(k as int).drop_last() =~= registered.take(k as int - 1));
            }
        }
        assert(registered.take(k as int) =~= registered);
        self.registered = want;
        self.timeout = if timeout >= 0 {
            Some(timeout as u32)
        } else {
            None
        };
        ops
    }

    /// How long the loop may sleep before it has to pump anyway, in
    /// milliseconds.
    pub fn poll_timeout(&self) -> (r: Option<u64>)
        ensures
            r == match self.timeout {
                Some(ms) => Some(ms as u64),
                None => None::<u64>,
            },
    {
        match self.timeout {
            Some(ms) => Some(ms as u64),
            None => None,
        }
    }
}

// ---------------------------------------------------------------------------
// What the changes come to

/// An epoll set. It refuses to add what it has, and to change or delete what
/// it has not.
pub open spec fn applied(set: Map<i32, Interest>, op: PollOp) -> Option<Map<i32, Interest>> {
    match op {
        PollOp::Add(fd, f) => if set.dom().contains(fd) {
            None
        } else {
            Some(set.insert(fd, f))
        },
        PollOp::Modify(fd, f) => if set.dom().contains(fd) {
            Some(set.insert(fd, f))
        } else {
            None
        },
        PollOp::Delete(fd) => if set.dom().contains(fd) {
            Some(set.remove(fd))
        } else {
            None
        },
    }
}

/// The set after all of `ops`; `None` if it refused one.
pub open spec fn applied_all(set: Map<i32, Interest>, ops: Seq<PollOp>) -> Option<
    Map<i32, Interest>,
>
    decreases ops.len(),
{
    if ops.len() == 0 {
        Some(set)
    } else {
        match applied_all(set, ops.drop_last()) {
            Some(m) => applied(m, ops.last()),
            None => None,
        }
    }
}

/// The epoll set that holds exactly `watches`.
pub open spec fn set_of(watches: Seq<Watch>) -> Map<i32, Interest> {
    Map::new(|fd: i32| watched(watches, fd) is Some, |fd: i32| watched(watches, fd)->0)
}

/// No descriptor is named twice.
pub open spec fn distinct(watches: Seq<Watch>) -> bool {
    forall|i: int, j: int| 0 <= i < j < watches.len() ==> watches[i].0 != watches[j].0
}

proof fn lemma_watched_push(watches: Seq<Watch>, w: Watch, fd: i32)
    ensures
        watched(watches.push(w), fd) == match watched(watches, fd) {
            Some(f) => Some(f),
            None => if w.0 == fd {
                Some(w.1)
            } else {
                None
            },
        },
    decreases watches.len(),
{
    reveal_with_fuel(watched, 2);
    let all = watches.push(w);
    if watches.len() == 0 {
        assert(all.skip(1) =~= Seq::<Watch>::empty());
    } else {
        lemma_watched_push(watches.skip(1), w, fd);
        assert(all.skip(1) =~= watches.skip(1).push(w));
    }
}

proof fn lemma_applied_push(set: Map<i32, Interest>, ops: Seq<PollOp>, op: PollOp)
    ensures
        applied_all(set, ops.push(op)) == match applied_all(set, ops) {
            Some(m) => applied(m, op),
            None => None,
        },
{
    assert(ops.push(op).drop_last() =~= ops);
}

/// After the wanted descriptors went in, the set has those, and of the
/// others what it had before.
proof fn lemma_changes(registered: Seq<Watch>, want: Seq<Watch>)
    requires
        distinct(want),
    ensures
        applied_all(set_of(registered), changes_for(registered, want)) == Some(
            set_of(registered).union_prefer_right(set_of(want)),
        ),
    decreases want.len(),
{
    let start = set_of(registered);
    if want.len() == 0 {
        assert(start.union_prefer_right(set_of(want)) =~= start);
    } else {
        let w = want.last();
        let before = want.drop_last();
        lemma_changes(registered, before);
        let mid = start.union_prefer_right(set_of(before));
        let after = start.union_prefer_right(set_of(want));
        assert(before.push(w) =~= want);
        assert forall|fd: i32| #[trigger]
            watched(want, fd) == match watched(before, fd) {
                Some(f) => Some(f),
                None => if w.0 == fd {
                    Some(w.1)
                } else {
                    None
                },
            } by {
            lemma_watched_push(before, w, fd);
        }
        lemma_watched(before, w.0);
        assert(watched(before, w.0) is None);
        let change = change_for(registered, w);
        let ops = changes_for(registered, before);
        match watched(registered, w.0) {
            Some(f) => {
                if f == w.1 {
                    assert(ops + change =~= ops);
                    assert(after =~= mid);
                } else {
                    assert(ops + change =~= ops.push(PollOp::Modify(w.0, w.1)));
                    lemma_applied_push(start, ops, PollOp::Modify(w.0, w.1));
                    assert(after =~= mid.insert(w.0, w.1));
                }
            },
            None => {
                assert(ops + change =~= ops.push(PollOp::Add(w.0, w.1)));
                lemma_applied_push(start, ops, PollOp::Add(w.0, w.1));
                assert(after =~= mid.insert(w.0, w.1));
            },
        }
    }
}

/// The set without the descriptors of `registered` that `want` lacks.
spec fn trimmed(set: Map<i32, Interest>, registered: Seq<Watch>, want: Seq<Watch>) -> Map<
    i32,
    Interest,
> {
    set.remove_keys(
        Set::new(|fd: i32| watched(registered, fd) is Some && watched(want, fd) is None),
    )
}

proof fn lemma_deletions(
    start: Map<i32, Interest>,
    ops: Seq<PollOp>,
    set: Map<i32, Interest>,
    registered: Seq<Watch>,
    want: Seq<Watch>,
)
    requires
        applied_all(start, ops) == Some(set),
        distinct(registered),
        forall|i: int| 0 <= i < registered.len() ==> set.dom().contains(#[trigger] registered[i].0),
    ensures
        applied_all(start, ops + deletions(registered, want)) == Some(
            trimmed(set, registered, want),
        ),
    decreases registered.len(),
{
    if registered.len() == 0 {
        assert(ops + deletions(registered, want) =~= ops);
        assert(trimmed(set, registered, want) =~= set);
    } else {
        let w = registered.last();
        let before = registered.drop_last();
        assert forall|i: int| 0 <= i < before.len() implies set.dom().contains(
            #[trigger] before[i].0,
        ) by {
            assert(before[i] == registered[i]);
        }
        lemma_deletions(start, ops, set, before, want);
        assert(before.push(w) =~= registered);
        lemma_watched(before, w.0);
        assert(watched(before, w.0) is None);
        assert forall|fd: i32| #[trigger]
            watched(registered, fd) == match watched(before, fd) {
                Some(f) => Some(f),
                None => if w.0 == fd {
                    Some(w.1)
                } else {
                    None
                },
            } by {
            lemma_watched_push(before, w, fd);
        }
        let rest = deletions(before, want);
        let mid = trimmed(set, before, want);
        if watched(want, w.0) is None {
            let op = PollOp::Delete(w.0);
            assert(ops + rest.push(op) =~= (ops + rest).push(op));
            lemma_applied_push(start, ops + rest, op);
            assert(set.dom().contains(registered[registered.len() - 1].0));
            assert(mid.dom().contains(w.0));
            assert(trimmed(set, registered, want) =~= mid.remove(w.0));
        } else {
            assert(trimmed(set, registered, want) =~= mid);
        }
    }
}

/// The changes turn a set that holds what is registered into one that holds
/// exactly what is wanted, and none of them is refused.
pub proof fn the_set_follows(registered: Seq<Watch>, want: Seq<Watch>)
    requires
        distinct(registered),
        distinct(want),
    ensures
        applied_all(
            set_of(registered),
            changes_for(registered, want) + deletions(registered, want),
        ) == Some(set_of(want)),
{
    let start = set_of(registered);
    let set = start.union_prefer_right(set_of(want));
    lemma_changes(registered, want);
    assert forall|i: int| 0 <= i < registered.len() implies set.dom().contains(
        #[trigger] registered[i].0,
    ) by {
        lemma_watched(registered, registered[i].0);
    }
    lemma_deletions(start, changes_for(registered, want), set, registered, want);
    assert(trimmed(set, registered, want) =~= set_of(want));
}

proof fn lemma_changes_unchanged(registered: Seq<Watch>, n: int)
    requires
        distinct(registered),
        0 <= n <= registered.len(),
    ensures
        changes_for(registered, registered.take(n)) == Seq::<PollOp>::empty(),
    decreases n,
{
    if n > 0 {
        let w = registered[n - 1];
        lemma_changes_unchanged(registered, n - 1);
        assert(registered.take(n).drop_last() =~= registered.take(n - 1));
        lemma_watched(registered, w.0);
        let f = watched(registered, w.0)->0;
        let i = choose|i: int| 0 <= i < registered.len() && #[trigger] registered[i] == (w.0, f);
        assert(i == n - 1);
    }
}

proof fn lemma_nothing_deleted(registered: Seq<Watch>, want: Seq<Watch>)
    requires
        forall|i: int|
            0 <= i < registered.len() ==> watched(want, #[trigger] registered[i].0) is Some,
    ensures
        deletions(registered, want) == Seq::<PollOp>::empty(),
    decreases registered.len(),
{
    if registered.len() > 0 {
        let before = registered.drop_last();
        assert forall|i: int| 0 <= i < before.len() implies watched(
            want,
            #[trigger] before[i].0,
        ) is Some by {
            assert(before[i] == registered[i]);
        }
        assert(watched(want, registered[registered.len() - 1].0) is Some);
        lemma_nothing_deleted(before, want);
    }
}

/// As long as GLib asks for the same, nothing is changed: a busy descriptor
/// is not churned.
pub proof fn an_unchanged_set_is_left_alone(registered: Seq<Watch>)
    requires
        distinct(registered),
    ensures
        changes_for(registered, registered) + deletions(registered, registered) == Seq::<
            PollOp,
        >::empty(),
{
    assert(registered.take(registered.len() as int) =~= registered);
    lemma_changes_unchanged(registered, registered.len() as int);
    assert forall|i: int| 0 <= i < registered.len() implies watched(
        registered,
        #[trigger] registered[i].0,
    ) is Some by {
        lemma_watched(registered, registered[i].0);
    }
    lemma_nothing_deleted(registered, registered);
}

} // verus!
