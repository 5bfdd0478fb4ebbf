//! Concurrent-connection limiter: per-address and global caps.
//!
//! A permit is given back when the connection ends. Per-address caps are
//! meaningful for direct exposure; behind a reverse proxy the peer is the proxy
//! and the global cap governs.

use std::collections::HashMap;
use vstd::multiset::Multiset;
use vstd::prelude::*;
use vstd::std_specs::hash::*;

verus! {

/// The address of a peer.
#[derive(Clone, Copy, Debug, PartialEq, Eq, Structural)]
pub enum PeerAddr {
    V4(u32),
    V6(u128),
}

/// Counts open connections against the caps.
pub struct ConnLimiter {
    v4: HashMap<u32, u32>,
    v6: HashMap<u128, u32>,
    total: usize,
    max_per_ip: u32,
    max_global: usize,
    held: Ghost<Multiset<PeerAddr>>,
}

/// The right to one connection from an address.
#[derive(Debug, PartialEq, Eq)]
pub struct ConnPermit {
    pub ip: PeerAddr,
}

/// Whether the caps refuse another connection from `ip` beside the open ones. A
/// cap of 0 stands for no cap.
pub open spec fn refused(
    held: Multiset<PeerAddr>,
    max_per_ip: int,
    max_global: int,
    ip: PeerAddr,
) -> bool {
    ||| max_global != 0 && held.len() >= max_global
    ||| max_per_ip != 0 && held.count(ip) >= max_per_ip
}

/// Whether the open connections are within the caps.
pub open spec fn within_caps(
    held: Multiset<PeerAddr>,
    max_per_ip: int,
    max_global: int,
) -> bool {
    &&& max_global != 0 ==> held.len() <= max_global
    &&& max_per_ip != 0 ==> forall|ip: PeerAddr| #[trigger] held.count(ip) <= max_per_ip
}

/// The open connections, one element for each.
impl View for ConnLimiter {
    type V = Multiset<PeerAddr>;

    closed spec fn view(&self) -> Multiset<PeerAddr> {
        self.held@
    }
}

impl ConnLimiter {
    /// The cap per address, 0 for none.
    pub closed spec fn per_ip_cap(&self) -> int {
        self.max_per_ip as int
    }

    /// The cap on all connections, 0 for none.
    pub closed spec fn global_cap(&self) -> int {
        self.max_global as int
    }

    /// Whether the counters agree with the open connections: there is an entry
    /// for each address with an open connection and for no other, and the total
    /// is the number of connections, which is within the caps.
    #[verifier::type_invariant]
    spec fn inv(self) -> bool {
        &&& forall|a: u32| #[trigger] self.v4@.dom().contains(a) <==> self@.count(PeerAddr::V4(a)) > 0
        &&& forall|a: u32| #[trigger] self.v4@.dom().contains(a) ==> self.v4@[a] == self@.count(
            PeerAddr::V4(a),
        )
        &&& forall|a: u128| #[trigger] self.v6@.dom().contains(a) <==> self@.count(PeerAddr::V6(a)) > 0
        &&& forall|a: u128| #[trigger] self.v6@.dom().contains(a) ==> self.v6@[a] == self@.count(
            PeerAddr::V6(a),
        )
        &&& self.total == self@.len()
        &&& within_caps(self@, self.per_ip_cap(), self.global_cap())
    }

    pub fn new(max_per_ip: u32, max_global: usize) -> (r: Self)
        ensures
            r@ == Multiset::<PeerAddr>::empty(),
            r.per_ip_cap() == max_per_ip,
            r.global_cap() == max_global,
    {
        broadcast use group_hash_axioms;

        ConnLimiter {
            v4: HashMap::new(),
            v6: HashMap::new(),
            total: 0,
            max_per_ip,
            max_global,
            held: Ghost(Multiset::empty()),
        }
    }

    /// The number of open connections, which are within the caps.
    pub fn total(&self) -> (r: usize)
        ensures
            r == self@.len(),
            within_caps(self@, self.per_ip_cap(), self.global_cap()),
    {
        proof {
            use_type_invariant(self);
        }
        self.total
    }

    /// The number of open connections from `ip`.
    pub fn count(&self, ip: PeerAddr) -> (r: u32)
        ensures
            r == self@.count(ip),
    {
        broadcast use group_hash_axioms;

        proof {
            use_type_invariant(self);
        }
        match ip {
            PeerAddr::V4(a) => {
                assert(self.v4@.dom().contains(a) || self@.count(ip) == 0);
                match self.v4.get(&a) {
                    Some(n) => *n,
                    None => 0,
                }
            },
            PeerAddr::V6(a) => {
                assert(self.v6@.dom().contains(a) || self@.count(ip) == 0);
                match self.v6.get(&a) {
                    Some(n) => *n,
                    None => 0,
                }
            },
        }
    }

    /// Makes `held` the open connections, where they differ from those before in
    /// the number from `ip` only. A counter that reaches 0 is removed.
    fn recount(&mut self, ip: PeerAddr, n: u32, total: usize, held: Ghost<Multiset<PeerAddr>>)
        requires
            n == held@.count(ip),
            forall|other: PeerAddr|
                other != ip ==> #[trigger] held@.count(other) == old(self)@.count(other),
            total == held@.len(),
            within_caps(held@, old(self).per_ip_cap(), old(self).global_cap()),
        ensures
            final(self)@ == held@,
            final(self).per_ip_cap() == old(self).per_ip_cap(),
            final(self).global_cap() == old(self).global_cap(),
    {
        broadcast use group_hash_axioms;

        proof {
            use_type_invariant(&*self);
        }
        let (max_per_ip, max_global) = (self.max_per_ip, self.max_global);
        let mut taken = ConnLimiter::new(max_per_ip, max_global);
        std::mem::swap(self, &mut taken);
        let mut v4 = taken.v4;
        let mut v6 = taken.v6;
        match ip {
            PeerAddr::V4(a) => {
                if n == 0 {
                    v4.remove(&a);
                } else {
                    v4.insert(a, n);
                }
            },
            PeerAddr::V6(a) => {
                if n == 0 {
                    v6.remove(&a);
                } else {
                    v6.insert(a, n);
                }
            },
        }
        *self = ConnLimiter { v4, v6, total, max_per_ip, max_global, held };
    }

    /// Returns a permit if both caps allow another connection from `ip`, else
    /// `None`, and the caller must drop the socket.
    ///
    /// A cap of 0 means that there is none: an operator opts out rather than
    /// locking everybody out.
    pub fn try_acquire(&mut self, ip: PeerAddr) -> (r: Option<ConnPermit>)
        requires
            !refused(old(self)@, old(self).per_ip_cap(), old(self).global_cap(), ip) ==> old(
                self,
            )@.len() < usize::MAX && old(self)@.count(ip) < u32::MAX,
        ensures
            final(self).per_ip_cap() == old(self).per_ip_cap(),
            final(self).global_cap() == old(self).global_cap(),
            r is None <==> refused(old(self)@, old(self).per_ip_cap(), old(self).global_cap(), ip),
            r is None ==> final(self)@ == old(self)@,
            r is Some ==> r->Some_0.ip == ip && final(self)@ == old(self)@.insert(ip),
    {
        proof {
            use_type_invariant(&*self);
        }
        if self.max_global != 0 && self.total >= self.max_global {
            return None;
        }
        let n: u32 = self.count(ip);
        if self.max_per_ip != 0 && n >= self.max_per_ip {
            return None;
        }
        let ghost held = self@.insert(ip);
        self.recount(ip, n + 1, self.total + 1, Ghost(held));
        Some(ConnPermit { ip })
    }

    /// Gives a permit back. The address's counter is removed when it reaches
    /// zero.
    pub fn release(&mut self, permit: ConnPermit)
        requires
            old(self)@.count(permit.ip) > 0,
        ensures
            final(self).per_ip_cap() == old(self).per_ip_cap(),
            final(self).global_cap() == old(self).global_cap(),
            final(self)@ == old(self)@.remove(permit.ip),
    {
        let ip = permit.ip;
        let n: u32 = self.count(ip);
        proof {
            use_type_invariant(&*self);
            assert(self@.len() > 0) by {
                if self@.len() == 0 {
                    vstd::multiset::lemma_multiset_empty_len(self@);
                }
            }
        }
        let ghost held = self@.remove(ip);
        self.recount(ip, n - 1, self.total - 1, Ghost(held));
    }

    /// Whether no connection is open.
    pub fn is_empty(&self) -> (r: bool)
        ensures
            r <==> self@.len() == 0,
    {
        proof {
            use_type_invariant(self);
        }
        self.total == 0
    }
}

/// Giving a permit back undoes its acquisition.
pub proof fn law_release_undoes_acquire(held: Multiset<PeerAddr>, ip: PeerAddr)
    ensures
        held.insert(ip).remove(ip) == held,
{
    assert(held.insert(ip).remove(ip) =~= held);
}

/// Whether a connection is refused depends on the number of open connections
/// and on those of the same address only; giving up one of either frees a slot.
pub proof fn law_release_frees_a_slot(
    held: Multiset<PeerAddr>,
    max_per_ip: int,
    max_global: int,
    ip: PeerAddr,
)
    requires
        within_caps(held, max_per_ip, max_global),
        held.count(ip) > 0,
    ensures
        !refused(held.remove(ip), max_per_ip, max_global, ip),
{
}

/// Without caps no connection is refused.
pub proof fn law_zero_caps_refuse_nothing(held: Multiset<PeerAddr>, ip: PeerAddr)
    ensures
        !refused(held, 0, 0, ip),
{
}

/// A connection is refused exactly where one more would be more than a cap
/// allows: all together more than the global cap, or those of the address more
/// than the cap per address. A cap of 0 allows any number.
pub proof fn law_refused_is_beyond_a_cap(
    held: Multiset<PeerAddr>,
    max_per_ip: int,
    max_global: int,
    ip: PeerAddr,
)
    ensures
        refused(held, max_per_ip, max_global, ip) <==> {
            ||| max_global != 0 && held.insert(ip).len() > max_global
            ||| max_per_ip != 0 && held.insert(ip).count(ip) > max_per_ip
        },
{
}

/// A connection that is let in keeps all caps, and one that is refused would
/// break one.
pub proof fn law_caps_are_kept(
    held: Multiset<PeerAddr>,
    max_per_ip: int,
    max_global: int,
    ip: PeerAddr,
)
    requires
        max_global == 0 || held.len() <= max_global,
        max_per_ip == 0 || forall|other: PeerAddr| #[trigger] held.count(other) <= max_per_ip,
    ensures
        refused(held, max_per_ip, max_global, ip) <==> !({
            let after = held.insert(ip);
            &&& max_global == 0 || after.len() <= max_global
            &&& max_per_ip == 0 || forall|other: PeerAddr| #[trigger]
                after.count(other) <= max_per_ip
        }),
        within_caps(held, max_per_ip, max_global),
{
    let after = held.insert(ip);
    if !refused(held, max_per_ip, max_global, ip) && max_per_ip != 0 {
        assert forall|other: PeerAddr| #[trigger] after.count(other) <= max_per_ip by {
            if other != ip {
                assert(after.count(other) == held.count(other));
            }
        }
    }
    if refused(held, max_per_ip, max_global, ip) {
        assert(after.count(ip) == held.count(ip) + 1);
    }
}

/// What the counters of a limiter allow is what its caps say.
pub proof fn law_within_caps_is_below_them(
    held: Multiset<PeerAddr>,
    max_per_ip: int,
    max_global: int,
)
    ensures
        within_caps(held, max_per_ip, max_global) <==> {
            &&& max_global == 0 || held.len() <= max_global
            &&& max_per_ip == 0 || forall|ip: PeerAddr| #[trigger] held.count(ip) <= max_per_ip
        },
{
}

} // verus!
