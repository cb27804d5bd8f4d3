//! The version handshake message.

use vstd::prelude::*;

verus! {

use crate::consensus::encode::Decodable;
use crate::consensus::encode::DecodeFault;
use crate::consensus::encode::Encodable;
use crate::consensus::encode::Error;
use crate::consensus::encode::ReadExtend;
use crate::consensus::encode::WriteExtend;
use crate::util::constants::PROTOCOL_VERSION;
use crate::wire::netaddress::NetAddress;
use crate::wire::netaddress::NetAddressV;

/// `version` message: the opening handshake describing the sender.
#[derive(PartialEq, Eq, Clone, Debug)]
pub struct VersionMessage {
    /// P2P network protocol version.
    pub protocol: u32,
    /// Bitmask identifying services of the node.
    pub services: u64,
    /// The timestamp the message was generated, according to the sender.
    pub timestamp: i64,
    /// Address of the peer receiving the message.
    pub receiver: NetAddress,
    /// Address of the peer sending the message.
    pub sender: NetAddress,
    /// Nonce distinguishing this connection.
    pub nonce: u64,
    /// The sender's user agent.
    pub user_agent: String,
    /// Last block seen by the message generator.
    pub last_block: i32,
    /// Whether the peer should withhold transaction announcements.
    pub disable_relay_tx: bool,
}

/// The abstract value of a [`VersionMessage`].
pub struct VersionMessageV {
    /// Protocol version.
    pub protocol: u32,
    /// Service bitmask.
    pub services: u64,
    /// Generation timestamp.
    pub timestamp: i64,
    /// Receiving peer's address.
    pub receiver: NetAddressV,
    /// Sending peer's address.
    pub sender: NetAddressV,
    /// Connection nonce.
    pub nonce: u64,
    /// User agent.
    pub user_agent: Seq<char>,
    /// Last block seen.
    pub last_block: i32,
    /// Whether transaction relay is disabled.
    pub disable_relay_tx: bool,
}

impl VersionMessage {
    /// Build a `version` handshake at the current protocol version, with
    /// transaction relay left enabled.
    pub fn new_version_msg(
        services: u64,
        timestamp: i64,
        receiver: NetAddress,
        sender: NetAddress,
        nonce: u64,
        user_agent: String,
        last_block: i32,
    ) -> (r: VersionMessage)
        ensures
            r.protocol == PROTOCOL_VERSION,
            r.services == services,
            r.timestamp == timestamp,
            r.receiver == receiver,
            r.sender == sender,
            r.nonce == nonce,
            r.user_agent == user_agent,
            r.last_block == last_block,
            r.disable_relay_tx == false,
    {
        VersionMessage {
            protocol: PROTOCOL_VERSION,
            services,
            timestamp,
            receiver,
            sender,
            nonce,
            user_agent,
            last_block,
            disable_relay_tx: false,
        }
    }
}

impl DeepView for VersionMessage {
    type V = VersionMessageV;

    open spec fn deep_view(&self) -> VersionMessageV {
        VersionMessageV {
            protocol: self.protocol.deep_view(),
            services: self.services.deep_view(),
            timestamp: self.timestamp.deep_view(),
            receiver: self.receiver.deep_view(),
            sender: self.sender.deep_view(),
            nonce: self.nonce.deep_view(),
            user_agent: self.user_agent.deep_view(),
            last_block: self.last_block.deep_view(),
            disable_relay_tx: self.disable_relay_tx.deep_view(),
        }
    }
}

impl Encodable for VersionMessage {
    /// Every field is well formed.
    open spec fn wf(&self) -> bool {
        self.protocol.wf() && self.services.wf() && self.timestamp.wf() && self.receiver.wf() && self.sender.wf() && self.nonce.wf() && self.user_agent.wf() && self.last_block.wf() && self.disable_relay_tx.wf()
    }

    /// The fields' encodings, in declared order.
    open spec fn enc(&self) -> Seq<u8> {
        self.protocol.enc() + self.services.enc() + self.timestamp.enc() + self.receiver.enc() + self.sender.enc() + self.nonce.enc() + self.user_agent.enc() + self.last_block.enc() + self.disable_relay_tx.enc()
    }

    fn encode<W: WriteExtend>(&self, w: &mut W) -> (r: Result<usize, Error>) {
        let n0 = match self.protocol.encode(w) {
            Ok(n) => n,
            Err(e) => {
                return Err(e);
            },
        };
        let n1 = match self.services.encode(w) {
            Ok(n) => n,
            Err(e) => {
                return Err(e);
            },
        };
        let n2 = match self.timestamp.encode(w) {
            Ok(n) => n,
            Err(e) => {
                return Err(e);
            },
        };
        let n3 = match self.receiver.encode(w) {
            Ok(n) => n,
            Err(e) => {
                return Err(e);
            },
        };
        let n4 = match self.sender.encode(w) {
            Ok(n) => n,
            Err(e) => {
                return Err(e);
            },
        };
        let n5 = match self.nonce.encode(w) {
            Ok(n) => n,
            Err(e) => {
                return Err(e);
            },
        };
        let n6 = match self.user_agent.encode(w) {
            Ok(n) => n,
            Err(e) => {
                return Err(e);
            },
        };
        let n7 = match self.last_block.encode(w) {
            Ok(n) => n,
            Err(e) => {
                return Err(e);
            },
        };
        let n8 = match self.disable_relay_tx.encode(w) {
            Ok(n) => n,
            Err(e) => {
                return Err(e);
            },
        };
        let mut total: usize = n0;
        total = match total.checked_add(n1) {
            Some(t) => t,
            None => {
                return Err(Error::ErrorEncodeDecode);
            },
        };
        total = match total.checked_add(n2) {
            Some(t) => t,
            None => {
                return Err(Error::ErrorEncodeDecode);
            },
        };
        total = match total.checked_add(n3) {
            Some(t) => t,
            None => {
                return Err(Error::ErrorEncodeDecode);
            },
        };
        total = match total.checked_add(n4) {
            Some(t) => t,
            None => {
                return Err(Error::ErrorEncodeDecode);
            },
        };
        total = match total.checked_add(n5) {
            Some(t) => t,
            None => {
                return Err(Error::ErrorEncodeDecode);
            },
        };
        total = match total.checked_add(n6) {
            Some(t) => t,
            None => {
                return Err(Error::ErrorEncodeDecode);
            },
        };
        total = match total.checked_add(n7) {
            Some(t) => t,
            None => {
                return Err(Error::ErrorEncodeDecode);
            },
        };
        total = match total.checked_add(n8) {
            Some(t) => t,
            None => {
                return Err(Error::ErrorEncodeDecode);
            },
        };
        proof {
            assert(old(w).sink() + self.protocol.enc() + self.services.enc() + self.timestamp.enc() + self.receiver.enc() + self.sender.enc() + self.nonce.enc() + self.user_agent.enc() + self.last_block.enc() + self.disable_relay_tx.enc() =~= old(w).sink() + self.enc());
        }
        Ok(total)
    }
}

impl Decodable for VersionMessage {
    open spec fn dec(b: Seq<u8>) -> Result<(VersionMessageV, int), DecodeFault> {
            match <u32 as Decodable>::dec(b) {
                Ok(p0) => {
                match <u64 as Decodable>::dec(b.skip(p0.1)) {
                    Ok(p1) => {
                    match <i64 as Decodable>::dec(b.skip(p0.1 + p1.1)) {
                        Ok(p2) => {
                        match <NetAddress as Decodable>::dec(b.skip(p0.1 + p1.1 + p2.1)) {
                            Ok(p3) => {
                            match <NetAddress as Decodable>::dec(b.skip(p0.1 + p1.1 + p2.1 + p3.1)) {
                                Ok(p4) => {
                                match <u64 as Decodable>::dec(b.skip(p0.1 + p1.1 + p2.1 + p3.1 + p4.1)) {
                                    Ok(p5) => {
                                    match <String as Decodable>::dec(b.skip(p0.1 + p1.1 + p2.1 + p3.1 + p4.1 + p5.1)) {
                                        Ok(p6) => {
                                        match <i32 as Decodable>::dec(b.skip(p0.1 + p1.1 + p2.1 + p3.1 + p4.1 + p5.1 + p6.1)) {
                                            Ok(p7) => {
                                            match <bool as Decodable>::dec(b.skip(p0.1 + p1.1 + p2.1 + p3.1 + p4.1 + p5.1 + p6.1 + p7.1)) {
                                                Ok(p8) => {
                                                Ok((VersionMessageV { protocol: p0.0, services: p1.0, timestamp: p2.0, receiver: p3.0, sender: p4.0, nonce: p5.0, user_agent: p6.0, last_block: p7.0, disable_relay_tx: p8.0 }, p0.1 + p1.1 + p2.1 + p3.1 + p4.1 + p5.1 + p6.1 + p7.1 + p8.1))
                                                },
                                                Err(f) => Err(f),
                                            }
                                            },
                                            Err(f) => Err(f),
                                        }
                                        },
                                        Err(f) => Err(f),
                                    }
                                    },
                                    Err(f) => Err(f),
                                }
                                },
                                Err(f) => Err(f),
                            }
                            },
                            Err(f) => Err(f),
                        }
                        },
                        Err(f) => Err(f),
                    }
                    },
                    Err(f) => Err(f),
                }
                },
                Err(f) => Err(f),
            }
    }

    fn decode<R: ReadExtend>(d: &mut R) -> (r: Result<VersionMessage, Error>) {
        let ghost b = old(d).source();
        let ghost s0 = d.source();
        let protocol = match <u32 as Decodable>::decode(d) {
            Ok(v) => v,
            Err(e) => {
                return Err(e);
            },
        };
        let ghost k0 = <u32 as Decodable>::dec(s0)->Ok_0.1;
        proof {
            <u32 as Decodable>::lemma_dec_len(s0);
            assert(s0.skip(k0) =~= b.skip(k0));
        }
        let ghost s1 = d.source();
        let services = match <u64 as Decodable>::decode(d) {
            Ok(v) => v,
            Err(e) => {
                return Err(e);
            },
        };
        let ghost k1 = <u64 as Decodable>::dec(s1)->Ok_0.1;
        proof {
            <u64 as Decodable>::lemma_dec_len(s1);
            assert(s1.skip(k1) =~= b.skip(k0 + k1));
        }
        let ghost s2 = d.source();
        let timestamp = match <i64 as Decodable>::decode(d) {
            Ok(v) => v,
            Err(e) => {
                return Err(e);
            },
        };
        let ghost k2 = <i64 as Decodable>::dec(s2)->Ok_0.1;
        proof {
            <i64 as Decodable>::lemma_dec_len(s2);
            assert(s2.skip(k2) =~= b.skip(k0 + k1 + k2));
        }
        let ghost s3 = d.source();
        let receiver = match <NetAddress as Decodable>::decode(d) {
            Ok(v) => v,
            Err(e) => {
                return Err(e);
            },
        };
        let ghost k3 = <NetAddress as Decodable>::dec(s3)->Ok_0.1;
        proof {
            <NetAddress as Decodable>::lemma_dec_len(s3);
            assert(s3.skip(k3) =~= b.skip(k0 + k1 + k2 + k3));
        }
        let ghost s4 = d.source();
        let sender = match <NetAddress as Decodable>::decode(d) {
            Ok(v) => v,
            Err(e) => {
                return Err(e);
            },
        };
        let ghost k4 = <NetAddress as Decodable>::dec(s4)->Ok_0.1;
        proof {
            <NetAddress as Decodable>::lemma_dec_len(s4);
            assert(s4.skip(k4) =~= b.skip(k0 + k1 + k2 + k3 + k4));
        }
        let ghost s5 = d.source();
        let nonce = match <u64 as Decodable>::decode(d) {
            Ok(v) => v,
            Err(e) => {
                return Err(e);
            },
        };
        let ghost k5 = <u64 as Decodable>::dec(s5)->Ok_0.1;
        proof {
            <u64 as Decodable>::lemma_dec_len(s5);
            assert(s5.skip(k5) =~= b.skip(k0 + k1 + k2 + k3 + k4 + k5));
        }
        let ghost s6 = d.source();
        let user_agent = match <String as Decodable>::decode(d) {
            Ok(v) => v,
            Err(e) => {
                return Err(e);
            },
        };
        let ghost k6 = <String as Decodable>::dec(s6)->Ok_0.1;
        proof {
            <String as Decodable>::lemma_dec_len(s6);
            assert(s6.skip(k6) =~= b.skip(k0 + k1 + k2 + k3 + k4 + k5 + k6));
        }
        let ghost s7 = d.source();
        let last_block = match <i32 as Decodable>::decode(d) {
            Ok(v) => v,
            Err(e) => {
                return Err(e);
            },
        };
        let ghost k7 = <i32 as Decodable>::dec(s7)->Ok_0.1;
        proof {
            <i32 as Decodable>::lemma_dec_len(s7);
            assert(s7.skip(k7) =~= b.skip(k0 + k1 + k2 + k3 + k4 + k5 + k6 + k7));
        }
        let ghost s8 = d.source();
        let disable_relay_tx = match <bool as Decodable>::decode(d) {
            Ok(v) => v,
            Err(e) => {
                return Err(e);
            },
        };
        let ghost k8 = <bool as Decodable>::dec(s8)->Ok_0.1;
        proof {
            <bool as Decodable>::lemma_dec_len(s8);
            assert(s8.skip(k8) =~= b.skip(k0 + k1 + k2 + k3 + k4 + k5 + k6 + k7 + k8));
        }
        let out = VersionMessage { protocol, services, timestamp, receiver, sender, nonce, user_agent, last_block, disable_relay_tx };
        proof {
            match Self::dec(b) {
                Ok(p) => {
                    assert(out.deep_view() == p.0);
                },
                Err(_) => {},
            }
        }
        Ok(out)
    }

    proof fn lemma_dec_len(b: Seq<u8>) {
            <u32 as Decodable>::lemma_dec_len(b);
            match <u32 as Decodable>::dec(b) {
                Ok(q0) => {
            <u64 as Decodable>::lemma_dec_len(b.skip(q0.1));
            match <u64 as Decodable>::dec(b.skip(q0.1)) {
                Ok(q1) => {
            <i64 as Decodable>::lemma_dec_len(b.skip(q0.1 + q1.1));
            match <i64 as Decodable>::dec(b.skip(q0.1 + q1.1)) {
                Ok(q2) => {
            <NetAddress as Decodable>::lemma_dec_len(b.skip(q0.1 + q1.1 + q2.1));
            match <NetAddress as Decodable>::dec(b.skip(q0.1 + q1.1 + q2.1)) {
                Ok(q3) => {
            <NetAddress as Decodable>::lemma_dec_len(b.skip(q0.1 + q1.1 + q2.1 + q3.1));
            match <NetAddress as Decodable>::dec(b.skip(q0.1 + q1.1 + q2.1 + q3.1)) {
                Ok(q4) => {
            <u64 as Decodable>::lemma_dec_len(b.skip(q0.1 + q1.1 + q2.1 + q3.1 + q4.1));
            match <u64 as Decodable>::dec(b.skip(q0.1 + q1.1 + q2.1 + q3.1 + q4.1)) {
                Ok(q5) => {
            <String as Decodable>::lemma_dec_len(b.skip(q0.1 + q1.1 + q2.1 + q3.1 + q4.1 + q5.1));
            match <String as Decodable>::dec(b.skip(q0.1 + q1.1 + q2.1 + q3.1 + q4.1 + q5.1)) {
                Ok(q6) => {
            <i32 as Decodable>::lemma_dec_len(b.skip(q0.1 + q1.1 + q2.1 + q3.1 + q4.1 + q5.1 + q6.1));
            match <i32 as Decodable>::dec(b.skip(q0.1 + q1.1 + q2.1 + q3.1 + q4.1 + q5.1 + q6.1)) {
                Ok(q7) => {
            <bool as Decodable>::lemma_dec_len(b.skip(q0.1 + q1.1 + q2.1 + q3.1 + q4.1 + q5.1 + q6.1 + q7.1));
            match <bool as Decodable>::dec(b.skip(q0.1 + q1.1 + q2.1 + q3.1 + q4.1 + q5.1 + q6.1 + q7.1)) {
                Ok(q8) => {
            },
            Err(_) => {},
            }
            },
            Err(_) => {},
            }
            },
            Err(_) => {},
            }
            },
            Err(_) => {},
            }
            },
            Err(_) => {},
            }
            },
            Err(_) => {},
            }
            },
            Err(_) => {},
            }
            },
            Err(_) => {},
            }
            },
            Err(_) => {},
            }
    }

    #[verifier::rlimit(100)]
    #[verifier::spinoff_prover]
    proof fn lemma_dec_enc(v: Self, rest: Seq<u8>) {
        let s0 = v.enc() + rest;
        <u32 as Decodable>::lemma_dec_enc(v.protocol, v.services.enc() + v.timestamp.enc() + v.receiver.enc() + v.sender.enc() + v.nonce.enc() + v.user_agent.enc() + v.last_block.enc() + v.disable_relay_tx.enc() + rest);
        assert(s0 =~= v.protocol.enc() + (v.services.enc() + v.timestamp.enc() + v.receiver.enc() + v.sender.enc() + v.nonce.enc() + v.user_agent.enc() + v.last_block.enc() + v.disable_relay_tx.enc() + rest));
        let c0 = <u32 as Decodable>::dec(s0)->Ok_0.1;
        assert(c0 == v.protocol.enc().len());
        let s1 = s0.skip(c0);
        assert(s1 =~= v.services.enc() + v.timestamp.enc() + v.receiver.enc() + v.sender.enc() + v.nonce.enc() + v.user_agent.enc() + v.last_block.enc() + v.disable_relay_tx.enc() + rest);
        assert(s0.skip(c0) == s1);
        <u64 as Decodable>::lemma_dec_enc(v.services, v.timestamp.enc() + v.receiver.enc() + v.sender.enc() + v.nonce.enc() + v.user_agent.enc() + v.last_block.enc() + v.disable_relay_tx.enc() + rest);
        assert(s1 =~= v.services.enc() + (v.timestamp.enc() + v.receiver.enc() + v.sender.enc() + v.nonce.enc() + v.user_agent.enc() + v.last_block.enc() + v.disable_relay_tx.enc() + rest));
        let c1 = <u64 as Decodable>::dec(s1)->Ok_0.1;
        assert(c1 == v.services.enc().len());
        let s2 = s1.skip(c1);
        assert(s2 =~= v.timestamp.enc() + v.receiver.enc() + v.sender.enc() + v.nonce.enc() + v.user_agent.enc() + v.last_block.enc() + v.disable_relay_tx.enc() + rest);
        assert(s0.skip(c0).skip(c1) =~= s0.skip(c0 + c1));
        <i64 as Decodable>::lemma_dec_enc(v.timestamp, v.receiver.enc() + v.sender.enc() + v.nonce.enc() + v.user_agent.enc() + v.last_block.enc() + v.disable_relay_tx.enc() + rest);
        assert(s2 =~= v.timestamp.enc() + (v.receiver.enc() + v.sender.enc() + v.nonce.enc() + v.user_agent.enc() + v.last_block.enc() + v.disable_relay_tx.enc() + rest));
        let c2 = <i64 as Decodable>::dec(s2)->Ok_0.1;
        assert(c2 == v.timestamp.enc().len());
        let s3 = s2.skip(c2);
        assert(s3 =~= v.receiver.enc() + v.sender.enc() + v.nonce.enc() + v.user_agent.enc() + v.last_block.enc() + v.disable_relay_tx.enc() + rest);
        assert(s0.skip(c0 + c1).skip(c2) =~= s0.skip(c0 + c1 + c2));
        <NetAddress as Decodable>::lemma_dec_enc(v.receiver, v.sender.enc() + v.nonce.enc() + v.user_agent.enc() + v.last_block.enc() + v.disable_relay_tx.enc() + rest);
        assert(s3 =~= v.receiver.enc() + (v.sender.enc() + v.nonce.enc() + v.user_agent.enc() + v.last_block.enc() + v.disable_relay_tx.enc() + rest));
        let c3 = <NetAddress as Decodable>::dec(s3)->Ok_0.1;
        assert(c3 == v.receiver.enc().len());
        let s4 = s3.skip(c3);
        assert(s4 =~= v.sender.enc() + v.nonce.enc() + v.user_agent.enc() + v.last_block.enc() + v.disable_relay_tx.enc() + rest);
        assert(s0.skip(c0 + c1 + c2).skip(c3) =~= s0.skip(c0 + c1 + c2 + c3));
        <NetAddress as Decodable>::lemma_dec_enc(v.sender, v.nonce.enc() + v.user_agent.enc() + v.last_block.enc() + v.disable_relay_tx.enc() + rest);
        assert(s4 =~= v.sender.enc() + (v.nonce.enc() + v.user_agent.enc() + v.last_block.enc() + v.disable_relay_tx.enc() + rest));
        let c4 = <NetAddress as Decodable>::dec(s4)->Ok_0.1;
        assert(c4 == v.sender.enc().len());
        let s5 = s4.skip(c4);
        assert(s5 =~= v.nonce.enc() + v.user_agent.enc() + v.last_block.enc() + v.disable_relay_tx.enc() + rest);
        assert(s0.skip(c0 + c1 + c2 + c3).skip(c4) =~= s0.skip(c0 + c1 + c2 + c3 + c4));
        <u64 as Decodable>::lemma_dec_enc(v.nonce, v.user_agent.enc() + v.last_block.enc() + v.disable_relay_tx.enc() + rest);
        assert(s5 =~= v.nonce.enc() + (v.user_agent.enc() + v.last_block.enc() + v.disable_relay_tx.enc() + rest));
        let c5 = <u64 as Decodable>::dec(s5)->Ok_0.1;
        assert(c5 == v.nonce.enc().len());
        let s6 = s5.skip(c5);
        assert(s6 =~= v.user_agent.enc() + v.last_block.enc() + v.disable_relay_tx.enc() + rest);
        assert(s0.skip(c0 + c1 + c2 + c3 + c4).skip(c5) =~= s0.skip(c0 + c1 + c2 + c3 + c4 + c5));
        <String as Decodable>::lemma_dec_enc(v.user_agent, v.last_block.enc() + v.disable_relay_tx.enc() + rest);
        assert(s6 =~= v.user_agent.enc() + (v.last_block.enc() + v.disable_relay_tx.enc() + rest));
        let c6 = <String as Decodable>::dec(s6)->Ok_0.1;
        assert(c6 == v.user_agent.enc().len());
        let s7 = s6.skip(c6);
        assert(s7 =~= v.last_block.enc() + v.disable_relay_tx.enc() + rest);
        assert(s0.skip(c0 + c1 + c2 + c3 + c4 + c5).skip(c6) =~= s0.skip(c0 + c1 + c2 + c3 + c4 + c5 + c6));
        <i32 as Decodable>::lemma_dec_enc(v.last_block, v.disable_relay_tx.enc() + rest);
        assert(s7 =~= v.last_block.enc() + (v.disable_relay_tx.enc() + rest));
        let c7 = <i32 as Decodable>::dec(s7)->Ok_0.1;
        assert(c7 == v.last_block.enc().len());
        let s8 = s7.skip(c7);
        assert(s8 =~= v.disable_relay_tx.enc() + rest);
        assert(s0.skip(c0 + c1 + c2 + c3 + c4 + c5 + c6).skip(c7) =~= s0.skip(c0 + c1 + c2 + c3 + c4 + c5 + c6 + c7));
        <bool as Decodable>::lemma_dec_enc(v.disable_relay_tx, rest);
        assert(s8 =~= v.disable_relay_tx.enc() + (rest));
        let c8 = <bool as Decodable>::dec(s8)->Ok_0.1;
        assert(c8 == v.disable_relay_tx.enc().len());
        assert(<VersionMessage as Decodable>::dec(s0) matches Ok(p) && p.0 == v.deep_view() && p.1 == v.enc().len());
    }
}




} // verus!
