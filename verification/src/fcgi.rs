//! Backend dispatch: worker-group selection and the bounded connection pool.
//!
//! A dispatcher routes each rendering request to one of several parallel
//! worker-process groups by a stable hash of the request key. Each group owns
//! a bounded pool of reusable protocol connections: callers acquire a
//! connection, use it, and either release it back or evict it permanently
//! after a communication error. Waiting for a free connection is cooperative:
//! an acquire against an exhausted pool with a zero timeout fails immediately
//! with a typed timeout, otherwise the caller enters a FIFO waiter queue and
//! a released connection is handed to exactly one waiter. A caller whose wait
//! times out cancels its queue entry and can never be handed a connection
//! afterwards.

use vstd::prelude::*;

use vstd::string::StringExecFns;

verus! {

/// A non-blocking snapshot of a pool.
#[derive(Clone, Copy, PartialEq, Eq, Structural, Debug)]
pub struct PoolStatus {
    pub available: usize,
    pub in_use: usize,
}

/// What an acquire attempt did.
#[derive(Clone, Copy, PartialEq, Eq, Structural, Debug)]
pub enum AcquireOutcome {
    /// A free connection was leased to the caller.
    Acquired(usize),
    /// The pool was exhausted and the timeout was zero: fail immediately.
    Timeout,
    /// The pool was exhausted; the caller waits under this ticket until a
    /// release hands it a connection or it cancels on timeout.
    Enqueued(u64),
}

/// The 32-bit FNV-1a hash of a byte string.
pub open spec fn fnv1a(s: Seq<u8>) -> int
    decreases s.len(),
{
    if s.len() == 0 {
        0x811c9dc5
    } else {
        ((((fnv1a(s.drop_last()) as u64) ^ (s.last() as u64)) * 0x01000193) % 0x1_0000_0000) as int
    }
}

/// The selection policy: the group that serves a request key, among `n`
/// groups. A stable hash of the key: the same key against the same
/// configuration always selects the same group.
pub open spec fn spec_select(key: Seq<u8>, n: int) -> int {
    fnv1a(key) % n
}

/// `select` is stable: two calls with the same request key against the same
/// group count select the same group.
pub proof fn lemma_select_stable(key1: Seq<u8>, key2: Seq<u8>, n1: int, n2: int)
    requires
        key1 == key2,
        n1 == n2,
    ensures
        spec_select(key1, n1) == spec_select(key2, n2),
{
}

/// A backend: a named set of identically configured worker-process groups.
/// The pools of the groups live beside it, one per group index.
pub struct FcgiDispatcher {
    pub backend_name: String,
    pub num_groups: usize,
}

impl FcgiDispatcher {
    /// Choose the worker group that handles a request key: a stable hash of
    /// the key modulo the number of groups.
    pub fn select(&self, key: &[u8]) -> (r: usize)
        requires
            self.num_groups > 0,
        ensures
            r < self.num_groups,
            r as int == spec_select(key@, self.num_groups as int),
    {
        let mut h: u64 = 0x811c9dc5;
        let mut i: usize = 0;
        while i < key.len()
            invariant
                i <= key@.len(),
                h as int == fnv1a(key@.take(i as int)),
                h < 0x1_0000_0000,
            decreases key@.len() - i,
        {
            let b = key[i];
            proof {
                assert(key@.take(i + 1).drop_last() =~= key@.take(i as int));
                assert(key@.take(i + 1).last() == key@[i as int]);
                assert((h ^ (b as u64)) < 0x1_0000_0000) by (bit_vector)
                    requires
                        h < 0x1_0000_0000,
                        b < 0x100,
                ;
            }
            h = ((h ^ (b as u64)) * 0x01000193) % 0x1_0000_0000;
            i = i + 1;
        }
        proof {
            assert(key@.take(key@.len() as int) =~= key@);
        }
        (h % (self.num_groups as u64)) as usize
    }
}

/// The query string handed to a worker process for a map request:
/// "map=" then the project and file suffix, then the request's query string
/// and body.
pub fn fcgi_query(project: &str, suffix: &str, query_string: &str, body: &str) -> (r: String)
    ensures
        r@ == "map="@ + project@ + "."@ + suffix@ + "&"@ + query_string@ + body@,
{
    let mut q = String::from_str("map=");
    q.append(project);
    q.append(".");
    q.append(suffix);
    q.append("&");
    q.append(query_string);
    q.append(body);
    proof {
        assert(q@ =~= "map="@ + project@ + "."@ + suffix@ + "&"@ + query_string@ + body@);
    }
    q
}

/// A bounded pool of reusable connections to one worker-process group.
///
/// Connections are identified by their slot number. A connection has exactly
/// one borrower at a time: the available and leased lists are disjoint and
/// free of duplicates, so no connection can be claimed by two callers.
/// Eviction removes a connection permanently; the capacity shrinks until the
/// process is restarted, which is outside this pool.
pub struct FcgiPool {
    available: Vec<usize>,
    leased: Vec<usize>,
    waiters: Vec<u64>,
    total: usize,
    next_waiter: u64,
}

impl FcgiPool {
    pub closed spec fn spec_available(&self) -> Seq<usize> {
        self.available@
    }

    pub closed spec fn spec_leased(&self) -> Seq<usize> {
        self.leased@
    }

    pub closed spec fn spec_waiters(&self) -> Seq<u64> {
        self.waiters@
    }

    pub closed spec fn spec_total(&self) -> int {
        self.total as int
    }

    pub closed spec fn spec_next_waiter(&self) -> u64 {
        self.next_waiter
    }

    /// The pool's invariant: no connection is listed twice, none is both
    /// available and leased, the connections never exceed the initial
    /// capacity, and waiter tickets are distinct.
    pub closed spec fn wf(&self) -> bool {
        &&& self.available@.len() + self.leased@.len() <= self.total
        &&& forall|i: int, j: int|
            0 <= i < j < self.available@.len() ==> (#[trigger] self.available@[i]) != (
            #[trigger] self.available@[j])
        &&& forall|i: int, j: int|
            0 <= i < j < self.leased@.len() ==> (#[trigger] self.leased@[i]) != (
            #[trigger] self.leased@[j])
        &&& forall|i: int, j: int|
            0 <= i < self.available@.len() && 0 <= j < self.leased@.len() ==> (
            #[trigger] self.available@[i]) != (#[trigger] self.leased@[j])
        &&& forall|i: int, j: int|
            0 <= i < j < self.waiters@.len() ==> (#[trigger] self.waiters@[i]) != (
            #[trigger] self.waiters@[j])
        &&& forall|i: int|
            0 <= i < self.waiters@.len() ==> (#[trigger] self.waiters@[i]) < self.next_waiter
    }

    /// A fresh pool of `size` connections, all available.
    pub fn new(size: usize) -> (s: Self)
        ensures
            s.wf(),
            s.spec_available().len() == size,
            s.spec_leased().len() == 0,
            s.spec_waiters().len() == 0,
            s.spec_total() == size,
            s.spec_next_waiter() == 0,
    {
        let mut available: Vec<usize> = Vec::new();
        let mut i: usize = 0;
        while i < size
            invariant
                i <= size,
                available@.len() == i,
                forall|k: int| 0 <= k < i ==> (#[trigger] available@[k]) == k,
            decreases size - i,
        {
            available.push(i);
            i = i + 1;
        }
        FcgiPool { available, leased: Vec::new(), waiters: Vec::new(), total: size, next_waiter: 0 }
    }

    /// A non-blocking snapshot: how many connections are free and how many
    /// are leased out.
    pub fn status(&self) -> (r: PoolStatus)
        ensures
            r.available == self.spec_available().len(),
            r.in_use == self.spec_leased().len(),
    {
        PoolStatus { available: self.available.len(), in_use: self.leased.len() }
    }

    /// Try to lease a connection. A free connection is leased at once. When
    /// the pool is exhausted, a zero timeout fails immediately with the typed
    /// timeout and changes nothing — it never blocks and never leases; a
    /// nonzero timeout enqueues the caller as the newest FIFO waiter.
    pub fn acquire(&mut self, timeout_ms: u64) -> (r: AcquireOutcome)
        requires
            old(self).wf(),
            old(self).spec_next_waiter() < u64::MAX,
        ensures
            final(self).wf(),
            final(self).spec_total() == old(self).spec_total(),
            match r {
                AcquireOutcome::Acquired(c) => old(self).spec_available().len() > 0 && c == old(self).spec_available().last() && final(self).spec_available() == old(self).spec_available().drop_last() && final(self).spec_leased() == old(self).spec_leased().push(c) && final(self).spec_waiters() == old(self).spec_waiters()
                    && final(self).spec_next_waiter() == old(self).spec_next_waiter(),
                AcquireOutcome::Timeout => old(self).spec_available().len() == 0 && timeout_ms == 0
                    && *final(self) == *old(self),
                AcquireOutcome::Enqueued(w) => old(self).spec_available().len() == 0 && timeout_ms
                    > 0 && w == old(self).spec_next_waiter() && final(self).spec_waiters() == old(self).spec_waiters().push(w) && final(self).spec_next_waiter() == w + 1 && final(self).spec_available() == old(self).spec_available() && final(self).spec_leased()
                    == old(self).spec_leased(),
            },
    {
        if self.available.len() > 0 {
            let c = self.available.pop().unwrap();
            self.leased.push(c);
            proof {
                let av = old(self).available@;
                let ls = old(self).leased@;
                assert(self.available@ =~= av.drop_last());
                assert forall|i: int, j: int|
                    0 <= i < self.available@.len() && 0 <= j
                        < self.leased@.len() implies (#[trigger] self.available@[i]) != (
                #[trigger] self.leased@[j]) by {
                    assert(self.available@[i] == av[i]);
                    if j < ls.len() {
                        assert(self.leased@[j] == ls[j]);
                    } else {
                        assert(self.leased@[j] == av[av.len() - 1]);
                    }
                }
                assert forall|i: int, j: int|
                    0 <= i < j < self.leased@.len() implies (#[trigger] self.leased@[i]) != (
                #[trigger] self.leased@[j]) by {
                    if j == self.leased@.len() - 1 {
                        assert(self.leased@[j] == av[av.len() - 1]);
                        assert(self.leased@[i] == ls[i]);
                    }
                }
            }
            AcquireOutcome::Acquired(c)
        } else if timeout_ms == 0 {
            AcquireOutcome::Timeout
        } else {
            let w = self.next_waiter;
            self.waiters.push(w);
            self.next_waiter = w + 1;
            proof {
                let ws = old(self).waiters@;
                assert forall|i: int, j: int|
                    0 <= i < j < self.waiters@.len() implies (#[trigger] self.waiters@[i]) != (
                #[trigger] self.waiters@[j]) by {
                    if j == self.waiters@.len() - 1 {
                        assert(ws[i] < w);
                    }
                }
            }
            AcquireOutcome::Enqueued(w)
        }
    }

    /// Return a healthy connection. If callers are waiting, the connection is
    /// handed to the oldest waiter (FIFO, exactly one is woken) and stays
    /// leased; otherwise it becomes available again.
    pub fn release(&mut self, conn: usize) -> (r: Option<u64>)
        requires
            old(self).wf(),
            old(self).spec_leased().contains(conn),
        ensures
            final(self).wf(),
            final(self).spec_total() == old(self).spec_total(),
            final(self).spec_next_waiter() == old(self).spec_next_waiter(),
            match r {
                Some(w) => old(self).spec_waiters().len() > 0 && w == old(self).spec_waiters()[0]
                    && final(self).spec_waiters() == old(self).spec_waiters().remove(0) && final(self).spec_leased() == old(self).spec_leased() && final(self).spec_available() == old(self).spec_available(),
                None => old(self).spec_waiters().len() == 0 && final(self).spec_waiters() == old(self).spec_waiters() && (exists|i: int|
                    0 <= i < old(self).spec_leased().len() && old(self).spec_leased()[i] == conn
                        && final(self).spec_leased() == old(self).spec_leased().remove(i)) && final(self).spec_available() == old(self).spec_available().push(conn),
            },
    {
        if self.waiters.len() > 0 {
            let w = self.waiters.remove(0);
            proof {
                old(self).waiters@.remove_ensures(0);
            }
            Some(w)
        } else {
            let mut i: usize = 0;
            let n = self.leased.len();
            while i < n
                invariant
                    *self == *old(self),
                    old(self).wf(),
                    old(self).spec_waiters().len() == 0,
                    old(self).spec_leased().contains(conn),
                    i <= n == self.leased@.len(),
                    forall|j: int| 0 <= j < i ==> (#[trigger] self.leased@[j]) != conn,
                decreases n - i,
            {
                if self.leased[i] == conn {
                    let ghost ii = i as int;
                    let ghost ls = self.leased@;
                    self.leased.remove(i);
                    self.available.push(conn);
                    proof {
                        ls.remove_ensures(ii);
                        let av = old(self).available@;
                        assert forall|a: int, b: int|
                            0 <= a < b < self.leased@.len() implies (#[trigger] self.leased@[a])
                                != (#[trigger] self.leased@[b]) by {
                            let a0: int = if a < ii {
                                a
                            } else {
                                a + 1
                            };
                            let b0: int = if b < ii {
                                b
                            } else {
                                b + 1
                            };
                            assert(self.leased@[a] == ls[a0]);
                            assert(self.leased@[b] == ls[b0]);
                        }
                        assert forall|a: int, b: int|
                            0 <= a < self.available@.len() && 0 <= b
                                < self.leased@.len() implies (#[trigger] self.available@[a]) != (
                        #[trigger] self.leased@[b]) by {
                            let b0: int = if b < ii {
                                b
                            } else {
                                b + 1
                            };
                            assert(self.leased@[b] == ls[b0]);
                            if a < av.len() {
                                assert(self.available@[a] == av[a]);
                            } else {
                                assert(self.available@[a] == conn);
                                assert(ls[b0] != conn);
                            }
                        }
                        assert forall|a: int, b: int|
                            0 <= a < b < self.available@.len() implies (
                        #[trigger] self.available@[a]) != (#[trigger] self.available@[b]) by {
                            if b == self.available@.len() - 1 {
                                assert(self.available@[a] == av[a]);
                                assert(av[a] != ls[ii]);
                            }
                        }
                        assert(ls == old(self).spec_leased());
                        assert(ls[ii] == conn && self.leased@ == ls.remove(ii));
                    }
                    return None;
                }
                i = i + 1;
            }
            proof {
                let ls = self.leased@;
                let j = choose|j: int| 0 <= j < ls.len() && ls[j] == conn;
                assert(false);
            }
            None
        }
    }

    /// Permanently discard a connection that errored during use: the pool's
    /// capacity shrinks and the connection is never resurrected.
    pub fn evict(&mut self, conn: usize)
        requires
            old(self).wf(),
            old(self).spec_leased().contains(conn),
        ensures
            final(self).wf(),
            final(self).spec_total() == old(self).spec_total(),
            final(self).spec_next_waiter() == old(self).spec_next_waiter(),
            final(self).spec_available() == old(self).spec_available(),
            final(self).spec_waiters() == old(self).spec_waiters(),
            exists|i: int|
                0 <= i < old(self).spec_leased().len() && old(self).spec_leased()[i] == conn
                    && final(self).spec_leased() == old(self).spec_leased().remove(i),
            !final(self).spec_leased().contains(conn),
    {
        let mut i: usize = 0;
        let n = self.leased.len();
        while i < n
            invariant
                *self == *old(self),
                old(self).wf(),
                old(self).spec_leased().contains(conn),
                i <= n == self.leased@.len(),
                forall|j: int| 0 <= j < i ==> (#[trigger] self.leased@[j]) != conn,
            decreases n - i,
        {
            if self.leased[i] == conn {
                let ghost ii = i as int;
                let ghost ls = self.leased@;
                self.leased.remove(i);
                proof {
                    ls.remove_ensures(ii);
                    assert forall|a: int, b: int|
                        0 <= a < b < self.leased@.len() implies (#[trigger] self.leased@[a]) != (
                    #[trigger] self.leased@[b]) by {
                        let a0: int = if a < ii {
                            a
                        } else {
                            a + 1
                        };
                        let b0: int = if b < ii {
                            b
                        } else {
                            b + 1
                        };
                        assert(self.leased@[a] == ls[a0]);
                        assert(self.leased@[b] == ls[b0]);
                    }
                    assert forall|a: int, b: int|
                        0 <= a < self.available@.len() && 0 <= b
                            < self.leased@.len() implies (#[trigger] self.available@[a]) != (
                    #[trigger] self.leased@[b]) by {
                        let b0: int = if b < ii {
                            b
                        } else {
                            b + 1
                        };
                        assert(self.leased@[b] == ls[b0]);
                    }
                    assert forall|a: int|
                        0 <= a < self.leased@.len() implies (#[trigger] self.leased@[a])
                            != conn by {
                        let a0: int = if a < ii {
                            a
                        } else {
                            a + 1
                        };
                        assert(self.leased@[a] == ls[a0]);
                        if a0 > ii {
                            assert(ls[a0] != ls[ii]);
                        }
                    }
                }
                return ;
            }
            i = i + 1;
        }
        proof {
            let ls = self.leased@;
            let j = choose|j: int| 0 <= j < ls.len() && ls[j] == conn;
            assert(false);
        }
    }

    /// Withdraw a waiting caller whose timeout elapsed. Afterwards the ticket
    /// is no longer in the queue, so no released connection can ever be
    /// handed to it: the timeout races safely against acquisition.
    pub fn cancel_waiter(&mut self, w: u64) -> (r: bool)
        requires
            old(self).wf(),
        ensures
            final(self).wf(),
            final(self).spec_total() == old(self).spec_total(),
            final(self).spec_next_waiter() == old(self).spec_next_waiter(),
            final(self).spec_available() == old(self).spec_available(),
            final(self).spec_leased() == old(self).spec_leased(),
            !final(self).spec_waiters().contains(w),
            r ==> exists|i: int|
                0 <= i < old(self).spec_waiters().len() && old(self).spec_waiters()[i] == w
                    && final(self).spec_waiters() == old(self).spec_waiters().remove(i),
            !r ==> *final(self) == *old(self) && !old(self).spec_waiters().contains(w),
    {
        let mut i: usize = 0;
        let n = self.waiters.len();
        while i < n
            invariant
                *self == *old(self),
                old(self).wf(),
                i <= n == self.waiters@.len(),
                forall|j: int| 0 <= j < i ==> (#[trigger] self.waiters@[j]) != w,
            decreases n - i,
        {
            if self.waiters[i] == w {
                let ghost ii = i as int;
                let ghost ws = self.waiters@;
                self.waiters.remove(i);
                proof {
                    ws.remove_ensures(ii);
                    assert forall|a: int, b: int|
                        0 <= a < b < self.waiters@.len() implies (#[trigger] self.waiters@[a]) != (
                    #[trigger] self.waiters@[b]) by {
                        let a0: int = if a < ii {
                            a
                        } else {
                            a + 1
                        };
                        let b0: int = if b < ii {
                            b
                        } else {
                            b + 1
                        };
                        assert(self.waiters@[a] == ws[a0]);
                        assert(self.waiters@[b] == ws[b0]);
                    }
                    assert forall|a: int|
                        0 <= a < self.waiters@.len() implies (#[trigger] self.waiters@[a])
                            != w by {
                        let a0: int = if a < ii {
                            a
                        } else {
                            a + 1
                        };
                        assert(self.waiters@[a] == ws[a0]);
                        if a0 > ii {
                            assert(ws[a0] != ws[ii]);
                        }
                    }
                    assert(ws == old(self).spec_waiters());
                    assert(ws[ii] == w && self.waiters@ == ws.remove(ii));
                }
                return true;
            }
            i = i + 1;
        }
        false
    }
}

/// A caller that cancelled its wait is never woken: a release hands the
/// connection only to the oldest ticket still in the queue, and a cancelled
/// ticket is in the queue no longer, so the timeout races safely against
/// acquisition.
pub proof fn lemma_cancelled_waiter_not_woken(p: FcgiPool, w: u64)
    requires
        p.wf(),
        !p.spec_waiters().contains(w),
        p.spec_waiters().len() > 0,
    ensures
        p.spec_waiters()[0] != w,
{
    assert(p.spec_waiters().contains(p.spec_waiters()[0]));
}

/// No double lease: in a well-formed pool every connection has at most one
/// borrower — the leased slots are pairwise distinct and disjoint from the
/// available ones, so a connection returned by one acquire can never be
/// claimed by a second caller until it is released.
pub proof fn lemma_no_double_lease(p: FcgiPool)
    requires
        p.wf(),
    ensures
        forall|i: int, j: int|
            0 <= i < j < p.spec_leased().len() ==> (#[trigger] p.spec_leased()[i]) != (
            #[trigger] p.spec_leased()[j]),
        forall|i: int, j: int|
            0 <= i < p.spec_available().len() && 0 <= j < p.spec_leased().len() ==> (
            #[trigger] p.spec_available()[i]) != (#[trigger] p.spec_leased()[j]),
{
}

} // verus!
