//! Bounds on concurrent connections per client address.
use crate::net::ip::IpAddr;
use std::collections::BTreeMap;
use vstd::prelude::*;

verus! {

broadcast use vstd::std_specs::btree::group_btree_axioms;

/// Bounds concurrent connections per client IP so one source cannot consume the
/// whole global connection budget. A cap of 0 disables limiting.
#[derive(Debug)]
pub struct PeerLimiter {
    v4: BTreeMap<u32, u32>,
    v6: BTreeMap<u128, u32>,
    max_per_ip: u32,
}

/// The model of a limiter: how many connections each address has open, for those
/// that have any, and the cap.
#[verifier::ext_equal]
pub struct PeersModel {
    pub v4: Map<u32, u32>,
    pub v6: Map<u128, u32>,
    pub max: u32,
}

impl View for PeerLimiter {
    type V = PeersModel;

    closed spec fn view(&self) -> PeersModel {
        PeersModel { v4: self.v4@, v6: self.v6@, max: self.max_per_ip }
    }
}

/// How many connections a key has open.
pub open spec fn open_of<K>(m: Map<K, u32>, k: K) -> u32 {
    if m.contains_key(k) {
        m[k]
    } else {
        0
    }
}

/// Counts with one changed; what is zero is not kept.
pub open spec fn recounted<K>(m: Map<K, u32>, k: K, n: u32) -> Map<K, u32> {
    if n == 0 {
        m.remove(k)
    } else {
        m.insert(k, n)
    }
}

impl PeersModel {
    /// How many connections an address has open.
    pub open spec fn count(self, ip: IpAddr) -> u32 {
        match ip {
            IpAddr::V4(k) => open_of(self.v4, k),
            IpAddr::V6(k) => open_of(self.v6, k),
        }
    }

    /// The limiter with another count for an address.
    pub open spec fn with_count(self, ip: IpAddr, n: u32) -> PeersModel {
        match ip {
            IpAddr::V4(k) => PeersModel { v4: recounted(self.v4, k, n), ..self },
            IpAddr::V6(k) => PeersModel { v6: recounted(self.v6, k, n), ..self },
        }
    }

    /// Whether connections from an address are counted: the address must be
    /// known, and limiting must be on.
    pub open spec fn counts(self, ip: Option<IpAddr>) -> bool {
        ip is Some && self.max > 0
    }

    /// Whether no address has a connection open.
    pub open spec fn is_empty(self) -> bool {
        self.v4 == Map::<u32, u32>::empty() && self.v6 == Map::<u128, u32>::empty()
    }

    /// What always holds: no zero is kept, and no address is over the cap.
    pub open spec fn wf(self) -> bool {
        &&& forall|k: u32| #[trigger] self.v4.contains_key(k) ==> 0 < self.v4[k] <= self.max
        &&& forall|k: u128| #[trigger] self.v6.contains_key(k) ==> 0 < self.v6[k] <= self.max
    }
}

/// Whether a connection is admitted, and the limiter after.
pub open spec fn admitted(m: PeersModel, ip: Option<IpAddr>) -> (PeersModel, bool) {
    if !m.counts(ip) {
        (m, true)
    } else if m.count(ip->0) >= m.max {
        (m, false)
    } else {
        (m.with_count(ip->0, (m.count(ip->0) + 1) as u32), true)
    }
}

/// The limiter after an admitted connection has ended.
pub open spec fn released(m: PeersModel, ip: Option<IpAddr>) -> PeersModel {
    if !m.counts(ip) || m.count(ip->0) == 0 {
        m
    } else {
        m.with_count(ip->0, (m.count(ip->0) - 1) as u32)
    }
}

impl PeerLimiter {
    /// What always holds.
    pub open spec fn wf(&self) -> bool {
        self@.wf()
    }

    /// A limiter with this cap.
    pub fn new(max_per_ip: u32) -> (r: PeerLimiter)
        ensures
            r.wf(),
            r@.is_empty(),
            r@.max == max_per_ip,
    {
        let r = PeerLimiter { v4: BTreeMap::new(), v6: BTreeMap::new(), max_per_ip };
        proof {
            assert(r@.v4 =~= Map::empty());
            assert(r@.v6 =~= Map::empty());
        }
        r
    }

    fn count(&self, ip: IpAddr) -> (r: u32)
        ensures
            r == self@.count(ip),
    {
        match ip {
            IpAddr::V4(k) => match self.v4.get(&k) {
                Some(n) => *n,
                None => 0,
            },
            IpAddr::V6(k) => match self.v6.get(&k) {
                Some(n) => *n,
                None => 0,
            },
        }
    }

    fn set_count(&mut self, ip: IpAddr, n: u32)
        ensures
            final(self)@ == old(self)@.with_count(ip, n),
    {
        match ip {
            IpAddr::V4(k) => {
                if n == 0 {
                    self.v4.remove(&k);
                } else {
                    self.v4.insert(k, n);
                }
            },
            IpAddr::V6(k) => {
                if n == 0 {
                    self.v6.remove(&k);
                } else {
                    self.v6.insert(k, n);
                }
            },
        }
        proof {
            assert(self@ =~= old(self)@.with_count(ip, n));
        }
    }

    /// Admit a connection from `ip`. `ip == None` (peer address unavailable)
    /// always admits — it cannot be attributed, so the global caps govern it.
    /// Says whether it is admitted; the caller must drop the connection if not,
    /// and [`release`](PeerLimiter::release) the slot when it ends otherwise.
    pub fn try_admit(&mut self, ip: Option<IpAddr>) -> (r: bool)
        requires
            old(self).wf(),
        ensures
            final(self).wf(),
            (final(self)@, r) == admitted(old(self)@, ip),
    {
        match ip {
            Some(ip) => {
                if self.max_per_ip == 0 {
                    return true;
                }
                let n: u32 = self.count(ip);
                if n >= self.max_per_ip {
                    return false;
                }
                self.set_count(ip, n + 1);
                true
            },
            None => true,
        }
    }

    /// Give back the slot of an admitted connection. No entry is kept for an
    /// address whose last connection has ended.
    pub fn release(&mut self, ip: Option<IpAddr>)
        requires
            old(self).wf(),
        ensures
            final(self).wf(),
            final(self)@ == released(old(self)@, ip),
    {
        if let Some(ip) = ip {
            if self.max_per_ip == 0 {
                return;
            }
            let n: u32 = self.count(ip);
            if n > 0 {
                self.set_count(ip, n - 1);
            }
        }
    }

    /// Whether no connection is counted.
    pub fn is_empty(&self) -> (r: bool)
        ensures
            r == self@.is_empty(),
    {
        let a: usize = self.v4.len();
        let b: usize = self.v6.len();
        proof {
            if a == 0 {
                assert(self.v4@ =~= Map::empty()) by {
                    assert(self.v4@.dom().len() == 0);
                    assert(self.v4@.dom() =~= Set::empty());
                }
            }
            if b == 0 {
                assert(self.v6@ =~= Map::empty()) by {
                    assert(self.v6@.dom().len() == 0);
                    assert(self.v6@.dom() =~= Set::empty());
                }
            }
        }
        a == 0 && b == 0
    }
}

// ---------------------------------------------------------------------------
// Laws
// ---------------------------------------------------------------------------

/// Ending an admitted connection undoes its admission.
pub proof fn law_release_undoes_admission(m: PeersModel, ip: Option<IpAddr>)
    requires
        m.wf(),
        admitted(m, ip).1,
    ensures
        released(admitted(m, ip).0, ip) == m,
{
    if m.counts(ip) {
        let n = admitted(m, ip).0;
        assert(released(n, ip).v4 =~= m.v4);
        assert(released(n, ip).v6 =~= m.v6);
    }
}

/// Connections of one address do not count against another.
pub proof fn law_addresses_are_apart(m: PeersModel, a: IpAddr, b: IpAddr)
    requires
        a != b,
    ensures
        admitted(m, Some(a)).0.count(b) == m.count(b),
        released(m, Some(a)).count(b) == m.count(b),
{
}

/// A connection is admitted while its address has fewer open than the cap, and each
/// one counts; without a cap, or without an address, every connection is.
pub proof fn law_cap(m: PeersModel, ip: IpAddr)
    ensures
        m.max > 0 ==> (admitted(m, Some(ip)).1 <==> m.count(ip) < m.max),
        m.max > 0 && m.count(ip) < m.max ==> admitted(m, Some(ip)).0.count(ip) == m.count(ip) + 1,
        m.max > 0 && m.count(ip) >= m.max ==> admitted(m, Some(ip)).0 == m,
        m.max > 0 && m.count(ip) > 0 ==> released(m, Some(ip)).count(ip) == m.count(ip) - 1,
        m.max == 0 ==> admitted(m, Some(ip)) == (m, true),
        admitted(m, None) == (m, true),
{
}

/// So many connections from one address are admitted as the cap says, and not one
/// more.
pub proof fn law_as_many_as_the_cap(m: PeersModel, ip: IpAddr, k: nat)
    requires
        m.max > 0,
        m.count(ip) == 0,
        k <= m.max,
    ensures
        after_admitting(m, ip, k).count(ip) == k,
        after_admitting(m, ip, k).max == m.max,
        admitted(after_admitting(m, ip, k), Some(ip)).1 <==> k < m.max,
    decreases k,
{
    if k > 0 {
        law_as_many_as_the_cap(m, ip, (k - 1) as nat);
        law_cap(after_admitting(m, ip, (k - 1) as nat), ip);
    }
    law_cap(after_admitting(m, ip, k), ip);
}

/// The limiter after so many connections from an address have come.
pub open spec fn after_admitting(m: PeersModel, ip: IpAddr, k: nat) -> PeersModel
    decreases k,
{
    if k == 0 {
        m
    } else {
        admitted(after_admitting(m, ip, (k - 1) as nat), Some(ip)).0
    }
}

} // verus!
