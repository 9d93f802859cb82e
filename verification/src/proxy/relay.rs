//! Relaying packets: remembering where names resolve to.

use crate::protocol::address::{Address, AddressView, SocketAddr};
use vstd::prelude::*;

verus! {

/// Bytes that a relay moves at once.
pub const RELAY_BUFFER_SIZE: usize = 65536;

/// What names resolved to.
pub struct ResolvedAddresses {
    entries: Vec<(Address, SocketAddr)>,
}

/// Where a packet to an address is sent.
pub enum Resolution {
    /// To this socket address.
    Known(SocketAddr),
    /// To whatever the name resolves to, which then is to be stored.
    Unknown,
}

/// Where a packet to an address is sent that resolved to `stored`, if it did.
pub open spec fn resolution(address: Address, stored: Option<SocketAddr>) -> Resolution {
    match address {
        Address::SocketAddress(addr) => Resolution::Known(addr),
        Address::DomainNameAddress(_, _) => match stored {
            Some(addr) => Resolution::Known(addr),
            None => Resolution::Unknown,
        },
    }
}

spec fn position(entries: Seq<(Address, SocketAddr)>, a: AddressView) -> Option<int>
    decreases entries.len(),
{
    if entries.len() == 0 {
        None
    } else if entries.last().0@ == a {
        Some(entries.len() - 1)
    } else {
        position(entries.drop_last(), a)
    }
}

proof fn lemma_position(entries: Seq<(Address, SocketAddr)>, a: AddressView)
    ensures
        match position(entries, a) {
            Some(i) => 0 <= i < entries.len() && entries[i].0@ == a && forall|j: int|
                i < j < entries.len() ==> (#[trigger] entries[j]).0@ != a,
            None => forall|j: int| 0 <= j < entries.len() ==> (#[trigger] entries[j]).0@ != a,
        },
    decreases entries.len(),
{
    if entries.len() > 0 {
        lemma_position(entries.drop_last(), a);
        let before = entries.drop_last();
        assert forall|j: int| 0 <= j < before.len() implies before[j] == entries[j] by {}
        match position(before, a) {
            Some(i) => {
                assert forall|j: int| i < j < entries.len() && entries.last().0@ != a implies (
                #[trigger] entries[j]).0@ != a by {
                    if j < before.len() {
                        assert(before[j] == entries[j]);
                    }
                }
            },
            None => {
                assert forall|j: int| 0 <= j < entries.len() && entries.last().0@ != a implies (
                #[trigger] entries[j]).0@ != a by {
                    if j < before.len() {
                        assert(before[j] == entries[j]);
                    }
                }
            },
        }
    }
}

impl ResolvedAddresses {
    /// What an address resolved to, if it did.
    pub closed spec fn stored(&self, a: AddressView) -> Option<SocketAddr> {
        match position(self.entries@, a) {
            Some(i) => Some(self.entries@[i].1),
            None => None,
        }
    }

    pub fn new() -> (r: Self)
        ensures
            forall|a: AddressView| r.stored(a) is None,
    {
        ResolvedAddresses { entries: Vec::new() }
    }

    fn find(&self, address: &Address) -> (r: Option<usize>)
        ensures
            match r {
                Some(i) => position(self.entries@, address@) == Some(i as int) && i
                    < self.entries@.len(),
                None => position(self.entries@, address@) is None,
            },
    {
        let mut i: usize = self.entries.len();
        assert(self.entries@.subrange(0, i as int) =~= self.entries@);
        while i > 0
            invariant
                i <= self.entries@.len(),
                position(self.entries@, address@) == position(
                    self.entries@.subrange(0, i as int),
                    address@,
                ),
            decreases i,
        {
            i = i - 1;
            let ghost here = self.entries@.subrange(0, i + 1);
            assert(here.last() == self.entries@[i as int]);
            assert(here.drop_last() =~= self.entries@.subrange(0, i as int));
            if self.entries[i].0.same_as(address) {
                return Some(i);
            }
        }
        None
    }

    /// Where a packet to an address is sent: an IP address as it is, a name to what it resolved to
    /// before.
    pub fn resolve_address(&self, address: &Address) -> (r: Resolution)
        ensures
            r == resolution(*address, self.stored(address@)),
    {
        match address {
            Address::SocketAddress(addr) => Resolution::Known(*addr),
            Address::DomainNameAddress(_, _) => match self.find(address) {
                Some(i) => Resolution::Known(self.entries[i].1),
                None => Resolution::Unknown,
            },
        }
    }

    /// Remembers what an address resolved to, in place of what it resolved to before.
    pub fn store(&mut self, address: &Address, resolved: SocketAddr)
        ensures
            final(self).stored(address@) == Some(resolved),
            forall|a: AddressView|
                a != address@ ==> #[trigger] final(self).stored(a) == old(self).stored(a),
    {
        let ghost before = self.entries@;
        match self.find(address) {
            Some(i) => {
                let kept = self.entries[i].0.clone();
                self.entries.set(i, (kept, resolved));
                let ghost after = self.entries@;
                proof {
                    assert forall|a: AddressView| true implies #[trigger] position(after, a)
                        == position(before, a) by {
                        lemma_same_keys(before, after, a);
                    }
                    lemma_position(before, address@);
                    assert forall|a: AddressView| a != address@ implies #[trigger] self.stored(a)
                        == old(self).stored(a) by {
                        lemma_position(before, a);
                        assert(position(after, a) == position(before, a));
                    }
                    assert(position(after, address@) == position(before, address@));
                }
            },
            None => {
                self.entries.push((address.clone(), resolved));
                let ghost after = self.entries@;
                proof {
                    assert(after.drop_last() =~= before);
                    assert forall|a: AddressView| a != address@ implies #[trigger] self.stored(a)
                        == old(self).stored(a) by {
                        lemma_position(before, a);
                        assert(position(after, a) == position(before, a));
                    }
                }
            },
        }
    }
}

proof fn lemma_same_keys(
    s: Seq<(Address, SocketAddr)>,
    t: Seq<(Address, SocketAddr)>,
    a: AddressView,
)
    requires
        s.len() == t.len(),
        forall|i: int| 0 <= i < s.len() ==> (#[trigger] s[i]).0@ == t[i].0@,
    ensures
        position(s, a) == position(t, a),
    decreases s.len(),
{
    if s.len() > 0 {
        assert forall|i: int| 0 <= i < s.drop_last().len() implies (#[trigger] s.drop_last()[i]).0@
            == t.drop_last()[i].0@ by {
            assert(s[i].0@ == t[i].0@);
        }
        lemma_same_keys(s.drop_last(), t.drop_last(), a);
        assert(s[s.len() - 1].0@ == t[t.len() - 1].0@);
    }
}

/// A packet to an IP address is sent there, whatever is stored; one to a name is sent where the name
/// resolved to, and nowhere before it did.
pub proof fn lemma_packets_go_where_they_are_sent(
    addr: SocketAddr,
    name: Address,
    stored: Option<SocketAddr>,
    to: SocketAddr,
)
    requires
        name is DomainNameAddress,
    ensures
        resolution(Address::SocketAddress(addr), stored) == Resolution::Known(addr),
        resolution(name, stored) == Resolution::Known(to) <==> stored == Some(to),
        resolution(name, stored) is Unknown <==> stored is None,
{
}

} // verus!
