//! Local addresses, their classification, and the choice of the addresses on
//! which discovery binds.
use vstd::prelude::*;

verus! {

/// Which address families discovery uses.
#[derive(Copy, Clone, Debug, PartialEq, Eq, Structural)]
pub enum IpVersionMode {
    V4Only,
    V6Only,
    Any,
}

/// An IPv4 address, by its four octets.
#[derive(Copy, Clone, Debug, PartialEq, Eq)]
pub struct V4Addr {
    pub octets: [u8; 4],
}

/// An IPv6 address, by its eight 16-bit segments.
#[derive(Copy, Clone, Debug, PartialEq, Eq)]
pub struct V6Addr {
    pub segments: [u16; 8],
}

#[derive(Copy, Clone, Debug, PartialEq, Eq)]
pub enum IpAddress {
    V4(V4Addr),
    V6(V6Addr),
}

/// An address with a port.
#[derive(Copy, Clone, Debug, PartialEq, Eq)]
pub struct SocketAddress {
    pub ip: IpAddress,
    pub port: u16,
}

// ---------------------------------------------------------------------------
// IPv4 classes
// ---------------------------------------------------------------------------

pub open spec fn v4_loopback(o: Seq<u8>) -> bool {
    o[0] == 127
}

/// 10.0.0.0/8, 172.16.0.0/12, 192.168.0.0/16
pub open spec fn v4_private(o: Seq<u8>) -> bool {
    o[0] == 10 || (o[0] == 172 && 16 <= o[1] <= 31) || (o[0] == 192 && o[1] == 168)
}

/// 169.254.0.0/16
pub open spec fn v4_link_local(o: Seq<u8>) -> bool {
    o[0] == 169 && o[1] == 254
}

pub open spec fn v4_broadcast(o: Seq<u8>) -> bool {
    o[0] == 255 && o[1] == 255 && o[2] == 255 && o[3] == 255
}

/// 192.0.2.0/24, 198.51.100.0/24, 203.0.113.0/24
pub open spec fn v4_documentation(o: Seq<u8>) -> bool {
    (o[0] == 192 && o[1] == 0 && o[2] == 2) || (o[0] == 198 && o[1] == 51 && o[2] == 100) || (
    o[0] == 203 && o[1] == 0 && o[2] == 113)
}

/// Globally routable: 192.0.0.9 and 192.0.0.10, and every address outside the
/// private, loopback, link-local, broadcast, documentation and 0.0.0.0/8 ranges.
pub open spec fn v4_global(o: Seq<u8>) -> bool {
    if o[0] == 192 && o[1] == 0 && o[2] == 0 && (o[3] == 9 || o[3] == 10) {
        true
    } else {
        !v4_private(o) && !v4_loopback(o) && !v4_link_local(o) && !v4_broadcast(o)
            && !v4_documentation(o) && o[0] != 0
    }
}

// ---------------------------------------------------------------------------
// IPv6 classes
// ---------------------------------------------------------------------------

/// ff00::/8
pub open spec fn v6_multicast(s: Seq<u16>) -> bool {
    s[0] >= 0xff00
}

pub open spec fn v6_unspecified(s: Seq<u16>) -> bool {
    forall|i: int| 0 <= i < 8 ==> s[i] == 0
}

/// ::1
pub open spec fn v6_loopback(s: Seq<u16>) -> bool {
    (forall|i: int| 0 <= i < 7 ==> s[i] == 0) && s[7] == 1
}

/// fe80::/10
pub open spec fn v6_link_local(s: Seq<u16>) -> bool {
    0xfe80 <= s[0] <= 0xfebf
}

/// fec0::/10
pub open spec fn v6_site_local(s: Seq<u16>) -> bool {
    0xfec0 <= s[0] <= 0xfeff
}

/// fc00::/7
pub open spec fn v6_unique_local(s: Seq<u16>) -> bool {
    0xfc00 <= s[0] <= 0xfdff
}

/// 2001:db8::/32
pub open spec fn v6_documentation(s: Seq<u16>) -> bool {
    s[0] == 0x2001 && s[1] == 0xdb8
}

/// Global unicast scope: none of multicast, loopback, link-local, site-local,
/// unique-local, unspecified or documentation.
pub open spec fn v6_global(s: Seq<u16>) -> bool {
    !v6_multicast(s) && !v6_loopback(s) && !v6_link_local(s) && !v6_site_local(s)
        && !v6_unique_local(s) && !v6_unspecified(s) && !v6_documentation(s)
}

/// The IPv6 scopes on which discovery does not bind: link-local, site-local,
/// documentation, unspecified and global.
pub open spec fn v6_excluded_scope(s: Seq<u16>) -> bool {
    v6_link_local(s) || v6_site_local(s) || v6_documentation(s) || v6_unspecified(s) || v6_global(
        s,
    )
}

pub open spec fn is_loopback(a: IpAddress) -> bool {
    match a {
        IpAddress::V4(v) => v4_loopback(v.octets@),
        IpAddress::V6(v) => v6_loopback(v.segments@),
    }
}

/// Whether discovery binds on a local address under a mode: never on a
/// loopback address, never on an IPv6 address of an excluded scope, and only
/// on the families that the mode selects.
pub open spec fn eligible(a: IpAddress, mode: IpVersionMode) -> bool {
    match a {
        IpAddress::V4(v) => mode != IpVersionMode::V6Only && !v4_loopback(v.octets@),
        IpAddress::V6(v) => mode != IpVersionMode::V4Only && !v6_loopback(v.segments@)
            && !v6_excluded_scope(v.segments@),
    }
}

/// The eligible addresses of `addrs`, in order.
pub open spec fn select(addrs: Seq<IpAddress>, mode: IpVersionMode) -> Seq<IpAddress>
    decreases addrs.len(),
{
    if addrs.len() == 0 {
        seq![]
    } else if eligible(addrs.last(), mode) {
        select(addrs.drop_last(), mode).push(addrs.last())
    } else {
        select(addrs.drop_last(), mode)
    }
}

impl V4Addr {
    pub fn is_loopback(&self) -> (r: bool)
        ensures
            r == v4_loopback(self.octets@),
    {
        self.octets[0] == 127
    }

    /// Whether the address is globally routable.
    pub fn is_global_addr(&self) -> (r: bool)
        ensures
            r == v4_global(self.octets@),
    {
        let o = self.octets;
        if o[0] == 192 && o[1] == 0 && o[2] == 0 && (o[3] == 9 || o[3] == 10) {
            return true;
        }
        let private = o[0] == 10 || (o[0] == 172 && 16 <= o[1] && o[1] <= 31) || (o[0] == 192
            && o[1] == 168);
        let link_local = o[0] == 169 && o[1] == 254;
        let broadcast = o[0] == 255 && o[1] == 255 && o[2] == 255 && o[3] == 255;
        let documentation = (o[0] == 192 && o[1] == 0 && o[2] == 2) || (o[0] == 198 && o[1] == 51
            && o[2] == 100) || (o[0] == 203 && o[1] == 0 && o[2] == 113);
        !private && !self.is_loopback() && !link_local && !broadcast && !documentation && o[0]
            != 0
    }
}

impl V6Addr {
    pub fn is_unspecified(&self) -> (r: bool)
        ensures
            r == v6_unspecified(self.segments@),
    {
        let s = self.segments;
        let r = s[0] == 0 && s[1] == 0 && s[2] == 0 && s[3] == 0 && s[4] == 0 && s[5] == 0 && s[6]
            == 0 && s[7] == 0;
        assert(r == v6_unspecified(s@)) by {
            if !r {
                assert(exists|i: int| 0 <= i < 8 && s@[i] != 0);
            }
        }
        r
    }

    pub fn is_loopback(&self) -> (r: bool)
        ensures
            r == v6_loopback(self.segments@),
    {
        let s = self.segments;
        let r = s[0] == 0 && s[1] == 0 && s[2] == 0 && s[3] == 0 && s[4] == 0 && s[5] == 0 && s[6]
            == 0 && s[7] == 1;
        assert(r == v6_loopback(s@)) by {
            if !r && s[7] == 1 {
                assert(exists|i: int| 0 <= i < 7 && s@[i] != 0);
            }
        }
        r
    }

    /// Whether the address has global unicast scope.
    pub fn is_global_addr(&self) -> (r: bool)
        ensures
            r == v6_global(self.segments@),
    {
        let s0 = self.segments[0];
        let documentation = s0 == 0x2001 && self.segments[1] == 0xdb8;
        !(s0 >= 0xff00) && !self.is_loopback() && !(0xfe80 <= s0 && s0 <= 0xfebf) && !(0xfec0
            <= s0 && s0 <= 0xfeff) && !(0xfc00 <= s0 && s0 <= 0xfdff) && !self.is_unspecified()
            && !documentation
    }

    /// Whether the address lies in a scope on which discovery does not bind.
    pub fn is_excluded_scope(&self) -> (r: bool)
        ensures
            r == v6_excluded_scope(self.segments@),
    {
        let s0 = self.segments[0];
        (0xfe80 <= s0 && s0 <= 0xfebf) || (0xfec0 <= s0 && s0 <= 0xfeff) || (s0 == 0x2001
            && self.segments[1] == 0xdb8) || self.is_unspecified() || self.is_global_addr()
    }
}

impl IpAddress {
    pub fn is_loopback(&self) -> (r: bool)
        ensures
            r == is_loopback(*self),
    {
        match self {
            IpAddress::V4(v) => v.is_loopback(),
            IpAddress::V6(v) => v.is_loopback(),
        }
    }

    /// Whether discovery binds on this local address under `mode`.
    pub fn is_eligible(&self, mode: IpVersionMode) -> (r: bool)
        ensures
            r == eligible(*self, mode),
    {
        match self {
            IpAddress::V4(v) => mode != IpVersionMode::V6Only && !v.is_loopback(),
            IpAddress::V6(v) => mode != IpVersionMode::V4Only && !v.is_loopback()
                && !v.is_excluded_scope(),
        }
    }
}

/// The local addresses on which discovery binds, in the order given.
pub fn filter_local_addrs(addrs: &Vec<IpAddress>, mode: IpVersionMode) -> (r: Vec<IpAddress>)
    ensures
        r@ == select(addrs@, mode),
{
    let mut out: Vec<IpAddress> = Vec::new();
    let mut i: usize = 0;
    while i < addrs.len()
        invariant
            i <= addrs@.len(),
            out@ == select(addrs@.take(i as int), mode),
        decreases addrs@.len() - i,
    {
        let a = addrs[i];
        assert(addrs@.take(i + 1).drop_last() =~= addrs@.take(i as int));
        if a.is_eligible(mode) {
            out.push(a);
        }
        i = i + 1;
    }
    assert(addrs@.take(i as int) =~= addrs@);
    out
}

/// Every selected address is one of the inputs and eligible, so never a
/// loopback address; under `V4Only` none is IPv6 and under `V6Only` none is
/// IPv4; and every eligible input is selected.
pub proof fn lemma_select(addrs: Seq<IpAddress>, mode: IpVersionMode)
    ensures
        forall|i: int|
            0 <= i < select(addrs, mode).len() ==> {
                let a = #[trigger] select(addrs, mode)[i];
                &&& addrs.contains(a)
                &&& eligible(a, mode)
                &&& !is_loopback(a)
                &&& (mode == IpVersionMode::V4Only ==> a is V4)
                &&& (mode == IpVersionMode::V6Only ==> a is V6)
            },
        forall|a: IpAddress| #[trigger] addrs.contains(a) && eligible(a, mode) ==> select(
            addrs,
            mode,
        ).contains(a),
    decreases addrs.len(),
{
    if addrs.len() > 0 {
        let d = addrs.drop_last();
        lemma_select(d, mode);
        let sd = select(d, mode);
        assert forall|i: int| 0 <= i < select(addrs, mode).len() implies addrs.contains(
            #[trigger] select(addrs, mode)[i],
        ) by {
            if i < sd.len() {
                let a = sd[i];
                let k = choose|k: int| 0 <= k < d.len() && d[k] == a;
                assert(addrs[k] == a);
            } else {
                assert(addrs[addrs.len() - 1] == addrs.last());
            }
        }
        assert forall|a: IpAddress| #[trigger] addrs.contains(a) && eligible(a, mode) implies select(
            addrs,
            mode,
        ).contains(a) by {
            let k = choose|k: int| 0 <= k < addrs.len() && addrs[k] == a;
            if k < addrs.len() - 1 {
                assert(d[k] == a);
                assert(d.contains(a));
                assert(sd.contains(a));
                let j = choose|j: int| 0 <= j < sd.len() && sd[j] == a;
                assert(select(addrs, mode)[j] == a);
            } else {
                assert(select(addrs, mode).last() == a);
            }
        }
    }
}

} // verus!
