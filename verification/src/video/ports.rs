//! The pool of ports for the live streams.
//!
//! Every session that logs in takes a port of its own from the pool, and serves
//! its streams there. A candidate is handed out only if it can be bound, so that
//! a port that another process holds is passed over.

use std::collections::HashSet;

use vstd::prelude::*;
use vstd::std_specs::hash::group_hash_axioms;

use crate::config::{setting, u16_setting};

verus! {

broadcast use group_hash_axioms;

/// First port of the pool, if nothing else is set.
pub const DEFAULT_BASE: u16 = 20000;

/// Number of ports of the pool, if nothing else is set.
pub const DEFAULT_COUNT: u16 = 6000;

/// Pool of ports.
///
/// A counter walks round the ports and is never set back, so that a port that
/// was given back comes again only when the walk comes round to it.
#[derive(Debug)]
pub struct PortPool {
    base: u16,
    count: u16,
    next: u16,
    in_use: HashSet<u16>,
}

/// What a `PortPool` holds.
#[verifier::ext_equal]
pub struct PoolView {
    /// First port.
    pub base: int,
    /// Number of ports.
    pub count: int,
    /// How many ports of this round the walk has behind it.
    pub next: int,
    /// Ports that are handed out.
    pub in_use: Set<u16>,
}

impl View for PortPool {
    type V = PoolView;

    closed spec fn view(&self) -> PoolView {
        PoolView {
            base: self.base as int,
            count: self.count as int,
            next: self.next as int,
            in_use: self.in_use@,
        }
    }
}

/// The ports from `base` on, `n` of them.
pub open spec fn ports(base: int, n: int) -> Set<u16> {
    Set::new(|p: u16| base <= p < base + n)
}

impl PoolView {
    /// The pool of the `count` ports from `base` on, with none handed out: at
    /// least one port, and none past the last that there is.
    pub open spec fn fresh(base: int, count: int) -> PoolView {
        PoolView {
            base,
            count: if count == 0 {
                1
            } else if base + count > 0x1_0000 {
                0x1_0000 - base
            } else {
                count
            },
            next: 0,
            in_use: Set::empty(),
        }
    }

    /// What holds of every pool: its ports exist, and those that are handed out
    /// are of the pool.
    pub open spec fn wf(self) -> bool {
        &&& 0 <= self.base
        &&& 1 <= self.count < 0x1_0000
        &&& self.base + self.count <= 0x1_0000
        &&& 0 <= self.next < self.count
        &&& self.in_use.subset_of(ports(self.base, self.count))
    }

    /// The candidate that comes after `k` others in the walk.
    pub open spec fn candidate(self, k: int) -> u16 {
        (self.base + (self.next + k) % self.count) as u16
    }

    /// The pool with the walk `k` candidates further.
    pub open spec fn walked(self, k: int) -> PoolView {
        PoolView { next: (self.next + k) % self.count, ..self }
    }

    /// Whether the candidate after `k` others is handed out already, or the
    /// probe `probe` may refuse it.
    pub open spec fn passed_over<F: Fn(u16) -> bool>(self, probe: F, k: int) -> bool {
        let port = self.candidate(k);
        self.in_use.contains(port) || call_ensures(probe, (port,), false)
    }
}

impl PortPool {
    /// What holds of every pool.
    pub open spec fn wf(self) -> bool {
        self@.wf()
    }

    /// Creates the pool of the `count` ports from `base` on: at least one, and
    /// none past the last port that there is.
    pub fn new(base: u16, count: u16) -> (p: PortPool)
        ensures
            p.wf(),
            p@ == PoolView::fresh(base as int, count as int),
    {
        let room: u32 = 0x1_0000 - base as u32;
        PortPool {
            base,
            count: if count == 0 {
                1
            } else if count as u32 > room {
                room as u16
            } else {
                count
            },
            next: 0,
            in_use: HashSet::new(),
        }
    }

    /// Creates the pool that the two settings ask for. A setting that is not
    /// there, or is no number of 16 bits, has its default.
    pub fn from_env(base: Option<&str>, count: Option<&str>) -> (p: PortPool)
        ensures
            p.wf(),
            p@ == PoolView::fresh(
                setting(base, DEFAULT_BASE as nat) as int,
                setting(count, DEFAULT_COUNT as nat) as int,
            ),
    {
        PortPool::new(u16_setting(base, DEFAULT_BASE), u16_setting(count, DEFAULT_COUNT))
    }

    /// The first and the last port of the pool.
    pub fn range(&self) -> (r: (u16, u16))
        requires
            self.wf(),
        ensures
            r.0 == self@.base,
            r.1 == self@.base + self@.count - 1,
    {
        (self.base, self.base + (self.count - 1))
    }

    /// Hands out a port, or none if the pool is exhausted.
    ///
    /// Walks through as many candidates as the pool has ports, passes over
    /// those that are handed out, and takes the first that `probe` accepts.
    pub fn allocate<F: Fn(u16) -> bool>(&mut self, probe: F) -> (r: Option<u16>)
        requires
            old(self).wf(),
            forall|port: u16| #[trigger] call_requires(probe, (port,)),
        ensures
            final(self).wf(),
            match r {
                Some(port) => exists|k: int|
                    {
                        &&& 0 <= k < old(self)@.count
                        &&& port == #[trigger] old(self)@.candidate(k)
                        &&& !old(self)@.in_use.contains(port)
                        &&& call_ensures(probe, (port,), true)
                        &&& forall|j: int|
                            0 <= j < k ==> #[trigger] old(self)@.passed_over(probe, j)
                        &&& final(self)@ == (PoolView {
                            in_use: old(self)@.in_use.insert(port),
                            ..old(self)@.walked(k + 1)
                        })
                    },
                None => {
                    &&& forall|j: int|
                        0 <= j < old(self)@.count ==> #[trigger] old(self)@.passed_over(probe, j)
                    &&& final(self)@ == old(self)@
                },
            },
    {
        let mut k: u16 = 0;
        let ghost start = self@;
        proof {
            lemma_round(start.next, 0, start.count);
        }
        while k < self.count
            invariant
                0 <= k <= start.count,
                start == old(self)@,
                start.wf(),
                self@ == start.walked(k as int),
                forall|port: u16| #[trigger] call_requires(probe, (port,)),
                forall|j: int| 0 <= j < k ==> #[trigger] start.passed_over(probe, j),
            decreases start.count - k,
        {
            proof {
                lemma_round(start.next, k as int, start.count);
                lemma_round(start.next, k + 1, start.count);
            }
            let candidate: u16 = self.base + self.next;
            self.next = if self.next == self.count - 1 {
                0
            } else {
                self.next + 1
            };
            assert(candidate == start.candidate(k as int));
            assert(self@ =~= start.walked(k + 1));
            if !self.in_use.contains(&candidate) {
                if probe(candidate) {
                    self.in_use.insert(candidate);
                    assert(self@ =~= (PoolView {
                        in_use: start.in_use.insert(candidate),
                        ..start.walked(k + 1)
                    }));
                    return Some(candidate);
                }
            }
            assert(start.passed_over(probe, k as int));
            k += 1;
        }
        proof {
            lemma_round(start.next, start.count, start.count);
            assert(self@ =~= start);
        }
        None
    }

    /// Takes a port back.
    pub fn release(&mut self, port: u16)
        requires
            old(self).wf(),
        ensures
            final(self).wf(),
            final(self)@ == (PoolView {
                in_use: old(self)@.in_use.remove(port),
                ..old(self)@
            }),
    {
        self.in_use.remove(&port);
        assert(self@ =~= (PoolView { in_use: old(self)@.in_use.remove(port), ..old(self)@ }));
    }

    /// Number of ports that are handed out.
    pub fn in_use_count(&self) -> (r: usize)
        ensures
            r == self@.in_use.len(),
    {
        self.in_use.len()
    }

    /// The ports that are handed out.
    pub fn in_use(&self) -> (r: &HashSet<u16>)
        ensures
            r@ == self@.in_use,
    {
        &self.in_use
    }
}

/// The remainder of a sum that goes round at most once.
proof fn lemma_round(next: int, k: int, count: int)
    requires
        0 <= next < count,
        0 <= k <= count,
    ensures
        (next + k) % count == if next + k < count {
            next + k
        } else {
            next + k - count
        },
{
    if next + k < count {
        vstd::arithmetic::div_mod::lemma_small_mod((next + k) as nat, count as nat);
    } else {
        vstd::arithmetic::div_mod::lemma_mod_sub_multiples_vanish(next + k, count);
        vstd::arithmetic::div_mod::lemma_small_mod((next + k - count) as nat, count as nat);
    }
}

proof fn lemma_ports(base: int, n: int)
    requires
        0 <= base,
        0 <= n,
        base + n <= 0x1_0000,
    ensures
        ports(base, n).finite(),
        ports(base, n).len() == n,
    decreases n,
{
    if n == 0 {
        assert(ports(base, n) =~= Set::empty());
    } else {
        lemma_ports(base, n - 1);
        let last = (base + n - 1) as u16;
        assert(ports(base, n) =~= ports(base, n - 1).insert(last));
    }
}

// ---------------------------------------------------------------------------
// Laws
// ---------------------------------------------------------------------------

/// Every candidate is a port of the pool, between the first and the last one
/// that `range` tells.
pub proof fn law_candidates_are_of_the_pool(p: PoolView, k: int)
    requires
        p.wf(),
    ensures
        p.base <= p.candidate(k) <= p.base + p.count - 1,
{
    vstd::arithmetic::div_mod::lemma_mod_bound(p.next + k, p.count);
}

/// The pool is exhausted only when it is: a walk that passes over all of its
/// candidates has met every port of the pool, and each is handed out or was
/// refused.
pub proof fn law_exhausted_means_nothing_free<F: Fn(u16) -> bool>(
    p: PoolView,
    probe: F,
    port: u16,
)
    requires
        p.wf(),
        forall|j: int| 0 <= j < p.count ==> #[trigger] p.passed_over(probe, j),
        p.base <= port < p.base + p.count,
    ensures
        p.in_use.contains(port) || call_ensures(probe, (port,), false),
{
    let d = port - p.base;
    let k = if p.next <= d {
        d - p.next
    } else {
        d - p.next + p.count
    };
    lemma_round(p.next, k, p.count);
    assert(p.candidate(k) == port);
    assert(p.passed_over(probe, k));
}

/// No more ports are handed out than the pool has.
pub proof fn law_no_more_ports_than_the_pool_has(p: PoolView)
    requires
        p.wf(),
    ensures
        p.in_use.len() <= p.count,
{
    lemma_ports(p.base, p.count);
    vstd::set_lib::lemma_len_subset(p.in_use, ports(p.base, p.count));
}

/// Giving a port back undoes its handing out: the pool has the ports in use
/// that it had before.
pub proof fn law_release_undoes_allocation(p: PoolView, port: u16)
    requires
        !p.in_use.contains(port),
    ensures
        p.in_use.insert(port).remove(port) == p.in_use,
{
    assert(p.in_use.insert(port).remove(port) =~= p.in_use);
}

/// A new pool has the ports that were asked for, from the first one on, and none
/// of them handed out: at least one, and none past 65535.
pub proof fn law_new_pool_has_its_ports(base: u16, count: u16)
    ensures
        ({
            let p = PoolView::fresh(base as int, count as int);
            &&& p.base == base
            &&& p.count >= 1
            &&& p.base + p.count <= 65536
            &&& 1 <= count && base + count <= 65536 ==> p.count == count
            &&& count >= 1 && base + count > 65536 ==> p.base + p.count == 65536
            &&& count == 0 ==> p.count == 1
            &&& p.in_use == Set::<u16>::empty()
            &&& p.candidate(0) == base
            &&& p.wf()
        }),
{
    let p = PoolView::fresh(base as int, count as int);
    vstd::arithmetic::div_mod::lemma_small_mod(0, p.count as nat);
}

/// The walk goes from port to port and round at the end, and goes on where it
/// stopped: the next candidate is the next port, behind the last one the first.
pub proof fn law_walk_goes_round(p: PoolView, k: int)
    requires
        p.wf(),
        0 <= k < p.count,
    ensures
        p.candidate(0) == p.base + p.next,
        p.next + k < p.count ==> p.candidate(k) == p.base + p.next + k,
        p.next + k >= p.count ==> p.candidate(k) == p.base + p.next + k - p.count,
        p.walked(k).candidate(0) == p.candidate(k),
        p.walked(k).in_use == p.in_use,
        p.walked(k).base == p.base,
        p.walked(k).count == p.count,
{
    lemma_round(p.next, 0, p.count);
    lemma_round(p.next, k, p.count);
    lemma_round(p.walked(k).next, 0, p.count);
}

} // verus!
