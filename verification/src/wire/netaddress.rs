//! The network-address codec.
//!
//! A peer address carries a timestamp, a service bitmask, a 128-bit
//! address and a port.  Timestamp and services are encoded little-endian
//! like every other integer of the protocol, but the address groups and
//! the port go big-endian — a protocol-mandated exception that must be
//! preserved exactly.

use vstd::prelude::*;

verus! {

use crate::consensus::encode::Decodable;
use crate::consensus::encode::DecodeFault;
use crate::consensus::encode::Encodable;
use crate::consensus::encode::ReadExtend;
use crate::consensus::encode::WriteExtend;
use crate::consensus::encode::spec_i64_to_le_bytes;
use crate::consensus::encode::lemma_le_bytes_len;
use crate::wire::protocol::IPAddress;
use crate::wire::protocol::ServiceFlag;
use vstd::bytes::spec_u64_to_le_bytes;
use vstd::bytes::spec_u64_from_le_bytes;

/// Big-endian encoding of a 16-bit value: most significant byte first.
pub open spec fn spec_u16_to_be_bytes(x: u16) -> Seq<u8> {
    seq![((x >> 8) & 0xff) as u8, (x & 0xff) as u8]
}

/// The 16-bit value held by two big-endian bytes.
pub open spec fn spec_u16_from_be_bytes(s: Seq<u8>) -> u16
    recommends
        s.len() == 2,
{
    (((s[0] as u16) << 8) | (s[1] as u16)) as u16
}

/// Big-endian bytes round-trip to the value they encode.
pub proof fn lemma_u16_be_round(x: u16)
    ensures
        spec_u16_to_be_bytes(x).len() == 2,
        spec_u16_from_be_bytes(spec_u16_to_be_bytes(x)) == x,
{
    assert((((((x >> 8) & 0xff) as u8 as u16) << 8) | ((x & 0xff) as u8 as u16)) as u16 == x)
        by (bit_vector);
}

/// The concatenated big-endian encodings of a sequence of 16-bit groups.
pub open spec fn spec_groups_to_be_bytes(s: Seq<u16>) -> Seq<u8>
    decreases s.len(),
{
    if s.len() == 0 {
        Seq::empty()
    } else {
        spec_u16_to_be_bytes(s[0]) + spec_groups_to_be_bytes(s.drop_first())
    }
}

/// Each group occupies two bytes of the concatenation.
pub proof fn lemma_groups_len(s: Seq<u16>)
    ensures
        spec_groups_to_be_bytes(s).len() == 2 * s.len(),
    decreases s.len(),
{
    if s.len() > 0 {
        lemma_groups_len(s.drop_first());
    }
}

/// The two bytes at position `2 * i` of the concatenation encode group `i`.
pub proof fn lemma_groups_index(s: Seq<u16>, i: int)
    requires
        0 <= i < s.len(),
    ensures
        spec_groups_to_be_bytes(s).subrange(2 * i, 2 * i + 2) == spec_u16_to_be_bytes(s[i]),
    decreases i,
{
    lemma_groups_len(s);
    if i == 0 {
        assert(spec_groups_to_be_bytes(s).subrange(0, 2) =~= spec_u16_to_be_bytes(s[0]));
    } else {
        let t = s.drop_first();
        lemma_groups_index(t, i - 1);
        lemma_groups_len(t);
        assert(spec_groups_to_be_bytes(s).subrange(2 * i, 2 * i + 2)
            =~= spec_groups_to_be_bytes(t).subrange(2 * (i - 1), 2 * (i - 1) + 2));
    }
}

/// Extending a prefix of groups by one extends the concatenation by its
/// two bytes.
pub proof fn lemma_groups_snoc(s: Seq<u16>, i: int)
    requires
        0 <= i < s.len(),
    ensures
        spec_groups_to_be_bytes(s.take(i + 1)) == spec_groups_to_be_bytes(s.take(i))
            + spec_u16_to_be_bytes(s[i]),
    decreases i,
{
    if i == 0 {
        assert(s.take(1).drop_first() =~= Seq::<u16>::empty());
        assert(s.take(0) =~= Seq::<u16>::empty());
        assert(spec_groups_to_be_bytes(Seq::<u16>::empty()) == Seq::<u8>::empty());
        assert(s.take(1)[0] == s[0]);
        assert(spec_groups_to_be_bytes(s.take(1)) == spec_u16_to_be_bytes(s[0])
            + Seq::<u8>::empty());
        assert(spec_u16_to_be_bytes(s[0]) + Seq::<u8>::empty() =~= Seq::<u8>::empty()
            + spec_u16_to_be_bytes(s[0]));
        assert(Seq::<u8>::empty() + spec_u16_to_be_bytes(s[0]) =~= spec_u16_to_be_bytes(s[0]));
    } else {
        let t = s.drop_first();
        lemma_groups_snoc(t, i - 1);
        assert(s.take(i + 1).drop_first() =~= t.take(i));
        assert(s.take(i).drop_first() =~= t.take(i - 1));
        assert(s.take(i + 1)[0] == s[0]);
        assert(s.take(i)[0] == s[0]);
        assert(t[i - 1] == s[i]);
        assert(spec_u16_to_be_bytes(s[0]) + (spec_groups_to_be_bytes(t.take(i - 1))
            + spec_u16_to_be_bytes(s[i])) =~= (spec_u16_to_be_bytes(s[0])
            + spec_groups_to_be_bytes(t.take(i - 1))) + spec_u16_to_be_bytes(s[i]));
    }
}

/// Write one 16-bit value in big-endian order.
fn output_u16_be<W: WriteExtend>(w: &mut W, value: u16) -> (r: Result<
    (),
    crate::consensus::encode::Error,
>)
    ensures
        r is Ok,
        final(w).sink() == old(w).sink() + spec_u16_to_be_bytes(value),
{
    let hi: u8 = (value >> 8) as u8;
    let lo: u8 = (value & 0xff) as u8;
    proof {
        assert((value >> 8) as u8 == ((value >> 8) & 0xff) as u8) by (bit_vector);
        assert((value & 0xff) as u8 == (value & 0xff) as u8);
    }
    let _ = w.output_u8(hi);
    let _ = w.output_u8(lo);
    proof {
        assert(old(w).sink().push(hi).push(lo) =~= old(w).sink() + spec_u16_to_be_bytes(value));
    }
    Ok(())
}

/// Read one 16-bit value in big-endian order.
fn read_u16_be<R: ReadExtend>(d: &mut R) -> (r: Result<u16, crate::consensus::encode::Error>)
    ensures
        old(d).source().len() >= 2 ==> (r matches Ok(v) && v == spec_u16_from_be_bytes(
            old(d).source().take(2),
        ) && final(d).source() == old(d).source().skip(2)),
        old(d).source().len() < 2 ==> (r matches Err(e) && e is ErrorEncodeDecode),
{
    let ghost b = old(d).source();
    let hi = match d.read_u8() {
        Ok(v) => v,
        Err(e) => {
            return Err(e);
        },
    };
    let lo = match d.read_u8() {
        Ok(v) => v,
        Err(e) => {
            return Err(e);
        },
    };
    proof {
        if b.len() >= 2 {
            assert(b.skip(1)[0] == b[1]);
            assert(b.skip(1).skip(1) =~= b.skip(2));
            assert(b.take(2)[0] == b[0]);
            assert(b.take(2)[1] == b[1]);
        }
    }
    Ok(((hi as u16) << 8) | (lo as u16))
}

/// Information about a peer in the network: the last time it was seen,
/// the services it supports, its address and its port.
#[derive(PartialEq, Eq, Clone, Debug)]
pub struct NetAddress {
    /// Last time the address was seen, in seconds.
    pub timestamp: i64,
    /// Services provided by the peer.
    pub services: ServiceFlag,
    /// The address as eight 16-bit groups in network order: an
    /// IPv4-mapped or native IPv6 address.
    pub ip: IPAddress,
    /// Network port the peer is using.
    pub port: u16,
}

/// The abstract value of a [`NetAddress`].
pub struct NetAddressV {
    /// Last time the address was seen.
    pub timestamp: i64,
    /// Services provided by the peer.
    pub services: u64,
    /// The eight 16-bit address groups.
    pub ip: Seq<u16>,
    /// Network port.
    pub port: u16,
}

/// A connectable socket endpoint derived from a stored address.
#[derive(PartialEq, Eq, Clone, Debug)]
pub enum SocketEndpoint {
    /// A dotted-quad IPv4 endpoint recovered from an IPv4-mapped address.
    V4 {
        /// First octet of the dotted quad.
        a: u8,
        /// Second octet.
        b: u8,
        /// Third octet.
        c: u8,
        /// Fourth octet.
        d: u8,
        /// The port.
        port: u16,
    },
    /// A native IPv6 endpoint: eight 16-bit groups.
    V6 {
        /// The eight address groups.
        groups: Vec<u16>,
        /// The port.
        port: u16,
    },
}

impl NetAddress {
    /// The reserved Tor onion prefix: the first three groups are
    /// 0xFD87, 0xD87E, 0xEB43.
    pub open spec fn is_tor(&self) -> bool {
        self.ip@.len() >= 3 && self.ip@[0] == 0xFD87u16 && self.ip@[1] == 0xD87Eu16 && self.ip@[2]
            == 0xEB43u16
    }

    /// An IPv4-mapped address: five zero groups, then 0xFFFF, then the
    /// four IPv4 octets in the last two groups.
    pub open spec fn is_ipv4_mapped(&self) -> bool {
        self.ip@.len() == 8 && self.ip@[0] == 0u16 && self.ip@[1] == 0u16 && self.ip@[2] == 0u16
            && self.ip@[3] == 0u16 && self.ip@[4] == 0u16 && self.ip@[5] == 0xFFFFu16
    }

    /// Build an address from a timestamp, a service bitmask and a socket
    /// endpoint; an IPv4 endpoint is stored in its IPv4-mapped form.
    pub fn new_netaddress(timestamp: i64, services: u64, endpoint: &SocketEndpoint) -> (r:
        NetAddress)
        ensures
            r.timestamp == timestamp,
            r.services == services,
            endpoint matches SocketEndpoint::V4 { a, b, c, d, port } ==> (r.wf() && r.port == port
                && r.ip@ =~= seq![
                0u16,
                0u16,
                0u16,
                0u16,
                0u16,
                0xFFFFu16,
                (((a as u16) << 8) | (b as u16)) as u16,
                (((c as u16) << 8) | (d as u16)) as u16,
            ]),
            endpoint matches SocketEndpoint::V6 { groups, port } ==> (r.port == port && r.ip@
                == groups@),
    {
        match endpoint {
            SocketEndpoint::V4 { a, b, c, d, port } => {
                let mut ip: Vec<u16> = Vec::new();
                ip.push(0);
                ip.push(0);
                ip.push(0);
                ip.push(0);
                ip.push(0);
                ip.push(0xFFFF);
                ip.push(((*a as u16) << 8) | (*b as u16));
                ip.push(((*c as u16) << 8) | (*d as u16));
                NetAddress { timestamp, services, ip, port: *port }
            },
            SocketEndpoint::V6 { groups, port } => {
                let ip = vstd::slice::slice_to_vec(groups.as_slice());
                NetAddress { timestamp, services, ip, port: *port }
            },
        }
    }

    /// Convert the stored address into a connectable socket endpoint.
    ///
    /// A Tor-range address is a hidden service and not directly
    /// connectable; an IPv4-mapped address comes back as the dotted quad;
    /// every other address comes back as native IPv6.  The port is
    /// preserved.
    pub fn socket_addr(&self) -> (r: Result<SocketEndpoint, crate::wire::error::Error>)
        ensures
            self.ip@.len() != 8 ==> (r matches Err(e) && e is ErrorAddressLength),
            self.ip@.len() == 8 && self.is_tor() ==> (r matches Err(e) && e is ErrorTORAddress),
            self.ip@.len() == 8 && !self.is_tor() && self.is_ipv4_mapped() ==> (r matches Ok(s)
                && s matches SocketEndpoint::V4 { a, b, c, d, port } && a == (self.ip@[6] >> 8) as u8
                && b == (self.ip@[6] & 0xff) as u8 && c == (self.ip@[7] >> 8) as u8 && d == (
            self.ip@[7] & 0xff) as u8 && port == self.port),
            self.ip@.len() == 8 && !self.is_tor() && !self.is_ipv4_mapped() ==> (r matches Ok(s)
                && s matches SocketEndpoint::V6 { groups, port } && groups@ == self.ip@ && port
                == self.port),
    {
        if self.ip.len() != 8 {
            return Err(crate::wire::error::Error::ErrorAddressLength);
        }
        if self.ip[0] == 0xFD87 && self.ip[1] == 0xD87E && self.ip[2] == 0xEB43 {
            return Err(crate::wire::error::Error::ErrorTORAddress);
        }
        if self.ip[0] == 0 && self.ip[1] == 0 && self.ip[2] == 0 && self.ip[3] == 0 && self.ip[4]
            == 0 && self.ip[5] == 0xFFFF {
            Ok(
                SocketEndpoint::V4 {
                    a: (self.ip[6] >> 8) as u8,
                    b: (self.ip[6] & 0xff) as u8,
                    c: (self.ip[7] >> 8) as u8,
                    d: (self.ip[7] & 0xff) as u8,
                    port: self.port,
                },
            )
        } else {
            let groups = vstd::slice::slice_to_vec(self.ip.as_slice());
            Ok(SocketEndpoint::V6 { groups, port: self.port })
        }
    }

    /// Does the peer advertise every service of the given bitmask?
    pub fn has_service(&self, service: u64) -> (r: bool)
        ensures
            r == ((self.services & service) == service),
    {
        (self.services & service) == service
    }

    /// Add the given services to the peer's bitmask.
    pub fn add_service(&mut self, service: u64)
        ensures
            final(self).services == (old(self).services | service),
            final(self).timestamp == old(self).timestamp,
            final(self).ip == old(self).ip,
            final(self).port == old(self).port,
    {
        self.services = self.services | service;
    }
}

impl DeepView for NetAddress {
    type V = NetAddressV;

    open spec fn deep_view(&self) -> NetAddressV {
        NetAddressV {
            timestamp: self.timestamp,
            services: self.services,
            ip: self.ip@,
            port: self.port,
        }
    }
}

impl Encodable for NetAddress {
    /// The address holds exactly eight 16-bit groups.
    open spec fn wf(&self) -> bool {
        self.ip@.len() == 8
    }

    /// Timestamp and services little-endian, then the address groups and
    /// the port big-endian.
    open spec fn enc(&self) -> Seq<u8> {
        spec_i64_to_le_bytes(self.timestamp) + spec_u64_to_le_bytes(self.services)
            + spec_groups_to_be_bytes(self.ip@) + spec_u16_to_be_bytes(self.port)
    }

    #[verifier::loop_isolation(false)]
    fn encode<W: WriteExtend>(&self, w: &mut W) -> (r: Result<
        usize,
        crate::consensus::encode::Error,
    >) {
        proof {
            lemma_le_bytes_len();
            lemma_groups_len(self.ip@);
        }
        let _ = w.output_i64(self.timestamp);
        let _ = w.output_u64(self.services);
        let ghost mid = w.sink();
        let mut i: usize = 0;
        while i < self.ip.len()
            invariant
                i <= self.ip@.len(),
                w.sink() =~= mid + spec_groups_to_be_bytes(self.ip@.take(i as int)),
            decreases self.ip@.len() - i,
        {
            proof {
                lemma_groups_snoc(self.ip@, i as int);
            }
            let _ = output_u16_be(w, self.ip[i]);
            i = i + 1;
        }
        proof {
            assert(self.ip@.take(self.ip@.len() as int) =~= self.ip@);
        }
        let _ = output_u16_be(w, self.port);
        proof {
            assert(old(w).sink() + spec_i64_to_le_bytes(self.timestamp) + spec_u64_to_le_bytes(
                self.services,
            ) + spec_groups_to_be_bytes(self.ip@) + spec_u16_to_be_bytes(self.port) =~= old(
                w,
            ).sink() + self.enc());
        }
        let pairs = match self.ip.len().checked_mul(2) {
            Some(p) => p,
            None => {
                return Err(crate::consensus::encode::Error::ErrorEncodeDecode);
            },
        };
        let total = match pairs.checked_add(18) {
            Some(t) => t,
            None => {
                return Err(crate::consensus::encode::Error::ErrorEncodeDecode);
            },
        };
        Ok(total)
    }
}

impl Decodable for NetAddress {
    closed spec fn dec(b: Seq<u8>) -> Result<(NetAddressV, int), DecodeFault> {
        if b.len() < 34 {
            Err(DecodeFault::Truncated)
        } else {
            Ok(
                (
                    NetAddressV {
                        timestamp: spec_u64_from_le_bytes(b.take(8)) as i64,
                        services: spec_u64_from_le_bytes(b.subrange(8, 16)),
                        ip: Seq::new(
                            8,
                            |i: int| spec_u16_from_be_bytes(b.subrange(16 + 2 * i, 18 + 2 * i)),
                        ),
                        port: spec_u16_from_be_bytes(b.subrange(32, 34)),
                    },
                    34,
                ),
            )
        }
    }

    #[verifier::loop_isolation(false)]
    fn decode<R: ReadExtend>(d: &mut R) -> (r: Result<NetAddress, crate::consensus::encode::Error>) {
        let ghost b = old(d).source();
        let timestamp = match d.read_i64() {
            Ok(v) => v,
            Err(e) => {
                return Err(e);
            },
        };
        proof {
            if b.len() >= 16 {
                assert(b.skip(8).take(8) =~= b.subrange(8, 16));
                assert(b.skip(8).skip(8) =~= b.skip(16));
            }
        }
        let services = match d.read_u64() {
            Ok(v) => v,
            Err(e) => {
                return Err(e);
            },
        };
        let mut ip: Vec<u16> = Vec::new();
        let mut i: usize = 0;
        proof {
            assert(ip@ =~= Seq::<u16>::empty());
        }
        while i < 8
            invariant
                i <= 8,
                ip@.len() == i,
                b.len() >= 16 + 2 * i,
                d.source() == b.skip(16 + 2 * i),
                forall|j: int|
                    0 <= j < i ==> ip@[j] == spec_u16_from_be_bytes(
                        #[trigger] b.subrange(16 + 2 * j, 18 + 2 * j),
                    ),
            decreases 8 - i,
        {
            proof {
                if b.len() >= 18 + 2 * i {
                    assert(b.skip(16 + 2 * i).take(2) =~= b.subrange(16 + 2 * i, 18 + 2 * i));
                    assert(b.skip(16 + 2 * i).skip(2) =~= b.skip(18 + 2 * i));
                }
            }
            let g = match read_u16_be(d) {
                Ok(v) => v,
                Err(e) => {
                    return Err(e);
                },
            };
            ip.push(g);
            i = i + 1;
        }
        proof {
            if b.len() >= 34 {
                assert(b.skip(32).take(2) =~= b.subrange(32, 34));
                assert(b.skip(32).skip(2) =~= b.skip(34));
            }
        }
        let port = match read_u16_be(d) {
            Ok(v) => v,
            Err(e) => {
                return Err(e);
            },
        };
        let addr = NetAddress { timestamp, services, ip, port };
        proof {
            if b.len() >= 34 {
                let v = Self::dec(b)->Ok_0.0;
                assert(addr.deep_view().ip =~= v.ip);
            }
        }
        Ok(addr)
    }

    proof fn lemma_dec_len(b: Seq<u8>) {
    }

    #[verifier::rlimit(50)]
    #[verifier::spinoff_prover]
    proof fn lemma_dec_enc(v: Self, rest: Seq<u8>) {
        let b = v.enc() + rest;
        let tsb = spec_i64_to_le_bytes(v.timestamp);
        let svb = spec_u64_to_le_bytes(v.services);
        let gpb = spec_groups_to_be_bytes(v.ip@);
        let ptb = spec_u16_to_be_bytes(v.port);
        assert(tsb.len() == 8 && svb.len() == 8) by {
            lemma_le_bytes_len();
        }
        lemma_groups_len(v.ip@);
        assert(b.len() == 34 + rest.len());
        assert(b.take(8) =~= tsb);
        assert(b.subrange(8, 16) =~= svb);
        assert(b.subrange(32, 34) =~= ptb);
        let ts = v.timestamp;
        assert(spec_u64_from_le_bytes(tsb) == ts as u64) by {
            vstd::bytes::lemma_auto_spec_u64_to_from_le_bytes();
        }
        assert((ts as u64) as i64 == ts) by (bit_vector);
        assert(spec_u64_from_le_bytes(svb) == v.services) by {
            vstd::bytes::lemma_auto_spec_u64_to_from_le_bytes();
        }
        lemma_u16_be_round(v.port);
        let w = Self::dec(b)->Ok_0.0;
        assert forall|i: int| 0 <= i < 8 implies w.ip[i] == v.ip@[i] by {
            lemma_groups_index(v.ip@, i);
            assert(b.subrange(16 + 2 * i, 18 + 2 * i) =~= gpb.subrange(2 * i, 2 * i + 2));
            lemma_u16_be_round(v.ip@[i]);
        }
        assert(w.ip =~= v.ip@);
    }
}

} // verus!
