//! Messages that request block data: header and block locator requests.

use vstd::prelude::*;

verus! {

use crate::consensus::encode::Decodable;
use crate::consensus::encode::DecodeFault;
use crate::consensus::encode::Encodable;
use crate::consensus::encode::Error;
use crate::consensus::encode::ReadExtend;
use crate::consensus::encode::Sha256dHash;
use crate::consensus::encode::WriteExtend;
use crate::util::constants::MAX_BLOCK_HEADERS_PER_MSG;
use crate::util::constants::PROTOCOL_VERSION;

/// `getheaders` message: asks a peer for the headers it sees on its
/// longest chain, described by locator hashes.
#[derive(PartialEq, Eq, Clone, Debug)]
pub struct GetHeadersMessage {
    /// Protocol version.
    pub protocol: u32,
    /// List of hashes from newest to oldest that describe which portion
    /// of history the sender already has.
    pub block_location_hashes: Vec<Sha256dHash>,
    /// The block hash to stop at; all-zero asks for everything.
    pub stop_hash: Sha256dHash,
}

/// The abstract value of a [`GetHeadersMessage`].
pub struct GetHeadersMessageV {
    /// Protocol version.
    pub protocol: u32,
    /// The locator hashes, each as its bytes.
    pub block_location_hashes: Seq<Seq<u8>>,
    /// The stop hash bytes.
    pub stop_hash: Seq<u8>,
}

impl GetHeadersMessage {
    /// Build a `getheaders` request at the current protocol version.
    pub fn new_get_headers_msg(loc_hashes: Vec<Sha256dHash>, stop_hash: Sha256dHash) -> (r:
        GetHeadersMessage)
        ensures
            r.protocol == PROTOCOL_VERSION,
            r.block_location_hashes == loc_hashes,
            r.stop_hash == stop_hash,
    {
        GetHeadersMessage {
            protocol: PROTOCOL_VERSION,
            block_location_hashes: loc_hashes,
            stop_hash,
        }
    }
}

impl DeepView for GetHeadersMessage {
    type V = GetHeadersMessageV;

    open spec fn deep_view(&self) -> GetHeadersMessageV {
        GetHeadersMessageV {
            protocol: self.protocol.deep_view(),
            block_location_hashes: self.block_location_hashes.deep_view(),
            stop_hash: self.stop_hash.deep_view(),
        }
    }
}

impl Encodable for GetHeadersMessage {
    /// Every field is well formed.
    open spec fn wf(&self) -> bool {
        self.protocol.wf() && self.block_location_hashes.wf() && self.stop_hash.wf()
    }

    /// The fields' encodings, in declared order.
    open spec fn enc(&self) -> Seq<u8> {
        self.protocol.enc() + self.block_location_hashes.enc() + self.stop_hash.enc()
    }

    fn encode<W: WriteExtend>(&self, w: &mut W) -> (r: Result<usize, Error>) {
        let n0 = match self.protocol.encode(w) {
            Ok(n) => n,
            Err(e) => {
                return Err(e);
            },
        };
        let n1 = match self.block_location_hashes.encode(w) {
            Ok(n) => n,
            Err(e) => {
                return Err(e);
            },
        };
        let n2 = match self.stop_hash.encode(w) {
            Ok(n) => n,
            Err(e) => {
                return Err(e);
            },
        };
        let mut total: usize = n0;
        total = match total.checked_add(n1) {
            Some(t) => t,
            None => {
                return Err(Error::ErrorEncodeDecode);
            },
        };
        total = match total.checked_add(n2) {
            Some(t) => t,
            None => {
                return Err(Error::ErrorEncodeDecode);
            },
        };
        proof {
            assert(old(w).sink() + self.protocol.enc() + self.block_location_hashes.enc() + self.stop_hash.enc() =~= old(w).sink() + self.enc());
        }
        Ok(total)
    }
}

impl Decodable for GetHeadersMessage {
    open spec fn dec(b: Seq<u8>) -> Result<(GetHeadersMessageV, int), DecodeFault> {
            match <u32 as Decodable>::dec(b) {
                Ok(p0) => {
                match <Vec<Sha256dHash> as Decodable>::dec(b.skip(p0.1)) {
                    Ok(p1) => {
                    match <Sha256dHash as Decodable>::dec(b.skip(p0.1 + p1.1)) {
                        Ok(p2) => {
                        Ok((GetHeadersMessageV { protocol: p0.0, block_location_hashes: p1.0, stop_hash: p2.0 }, p0.1 + p1.1 + p2.1))
                        },
                        Err(f) => Err(f),
                    }
                    },
                    Err(f) => Err(f),
                }
                },
                Err(f) => Err(f),
            }
    }

    fn decode<R: ReadExtend>(d: &mut R) -> (r: Result<GetHeadersMessage, Error>) {
        let ghost b = old(d).source();
        let ghost s0 = d.source();
        let protocol = match <u32 as Decodable>::decode(d) {
            Ok(v) => v,
            Err(e) => {
                return Err(e);
            },
        };
        let ghost k0 = <u32 as Decodable>::dec(s0)->Ok_0.1;
        proof {
            <u32 as Decodable>::lemma_dec_len(s0);
            assert(s0.skip(k0) =~= b.skip(k0));
        }
        let ghost s1 = d.source();
        let block_location_hashes = match <Vec<Sha256dHash> as Decodable>::decode(d) {
            Ok(v) => v,
            Err(e) => {
                return Err(e);
            },
        };
        let ghost k1 = <Vec<Sha256dHash> as Decodable>::dec(s1)->Ok_0.1;
        proof {
            <Vec<Sha256dHash> as Decodable>::lemma_dec_len(s1);
            assert(s1.skip(k1) =~= b.skip(k0 + k1));
        }
        let ghost s2 = d.source();
        let stop_hash = match <Sha256dHash as Decodable>::decode(d) {
            Ok(v) => v,
            Err(e) => {
                return Err(e);
            },
        };
        let ghost k2 = <Sha256dHash as Decodable>::dec(s2)->Ok_0.1;
        proof {
            <Sha256dHash as Decodable>::lemma_dec_len(s2);
            assert(s2.skip(k2) =~= b.skip(k0 + k1 + k2));
        }
        let out = GetHeadersMessage { protocol, block_location_hashes, stop_hash };
        proof {
            match Self::dec(b) {
                Ok(p) => {
                    assert(out.deep_view() == p.0);
                },
                Err(_) => {},
            }
        }
        Ok(out)
    }

    proof fn lemma_dec_len(b: Seq<u8>) {
            <u32 as Decodable>::lemma_dec_len(b);
            match <u32 as Decodable>::dec(b) {
                Ok(q0) => {
            <Vec<Sha256dHash> as Decodable>::lemma_dec_len(b.skip(q0.1));
            match <Vec<Sha256dHash> as Decodable>::dec(b.skip(q0.1)) {
                Ok(q1) => {
            <Sha256dHash as Decodable>::lemma_dec_len(b.skip(q0.1 + q1.1));
            match <Sha256dHash as Decodable>::dec(b.skip(q0.1 + q1.1)) {
                Ok(q2) => {
            },
            Err(_) => {},
            }
            },
            Err(_) => {},
            }
            },
            Err(_) => {},
            }
    }

    proof fn lemma_dec_enc(v: Self, rest: Seq<u8>) {
        let b = v.enc() + rest;
        <u32 as Decodable>::lemma_dec_enc(v.protocol, v.block_location_hashes.enc() + v.stop_hash.enc() + rest);
        assert(b =~= v.protocol.enc() + (v.block_location_hashes.enc() + v.stop_hash.enc() + rest));
        let c0 = <u32 as Decodable>::dec(b)->Ok_0.1;
        assert(c0 == v.protocol.enc().len());
        assert(b.skip(c0) =~= v.block_location_hashes.enc() + v.stop_hash.enc() + rest);
        <Vec<Sha256dHash> as Decodable>::lemma_dec_enc(v.block_location_hashes, v.stop_hash.enc() + rest);
        assert(b.skip(c0) =~= v.block_location_hashes.enc() + (v.stop_hash.enc() + rest));
        let c1 = <Vec<Sha256dHash> as Decodable>::dec(b.skip(c0))->Ok_0.1;
        assert(c1 == v.block_location_hashes.enc().len());
        assert(b.skip(c0 + c1) =~= v.stop_hash.enc() + rest);
        <Sha256dHash as Decodable>::lemma_dec_enc(v.stop_hash, rest);
        assert(b.skip(c0 + c1) =~= v.stop_hash.enc() + (rest));
        let c2 = <Sha256dHash as Decodable>::dec(b.skip(c0 + c1))->Ok_0.1;
        assert(c2 == v.stop_hash.enc().len());
        assert(Self::dec(b) matches Ok(p) && p.0 == v.deep_view() && p.1 == v.enc().len());
    }
}

/// `sendheaders` message: announces headers, newest to oldest, from the
/// sender's viewpoint.
#[derive(PartialEq, Eq, Clone, Debug)]
pub struct SendHeadersMessage {
    /// Protocol version.
    pub protocol: u32,
    /// List of header hashes from newest to oldest from the sender's
    /// viewpoint.
    pub headers_hashes: Vec<Sha256dHash>,
    /// Stop hash from the sender's viewpoint.
    pub stop_hash: Sha256dHash,
}

impl SendHeadersMessage {
    /// Build a `sendheaders` message at the current protocol version.
    /// Exceeding the per-message header limit is a hard error, never a
    /// silent truncation.
    pub fn new_send_headers_msg(
        block_location_hashes: Vec<Sha256dHash>,
        stop_hash: Sha256dHash,
    ) -> (r: Result<SendHeadersMessage, crate::wire::error::Error>)
        ensures
            block_location_hashes@.len() > MAX_BLOCK_HEADERS_PER_MSG ==> (r matches Err(e) && e
                is ErrorBlockHeaderInvalidLength),
            block_location_hashes@.len() <= MAX_BLOCK_HEADERS_PER_MSG ==> (r matches Ok(m)
                && m.protocol == PROTOCOL_VERSION && m.headers_hashes == block_location_hashes
                && m.stop_hash == stop_hash),
    {
        if block_location_hashes.len() > MAX_BLOCK_HEADERS_PER_MSG as usize {
            Err(crate::wire::error::Error::ErrorBlockHeaderInvalidLength)
        } else {
            Ok(
                SendHeadersMessage {
                    protocol: PROTOCOL_VERSION,
                    headers_hashes: block_location_hashes,
                    stop_hash,
                },
            )
        }
    }
}

/// `getblocks` message: asks a peer for full blocks on its longest chain,
/// described by locator hashes.
#[derive(PartialEq, Eq, Clone, Debug)]
pub struct GetBlocksMessage {
    /// Protocol version.
    pub protocol: u32,
    /// Block hashes ordered from newest to oldest.
    pub block_locator_hashes: Vec<Sha256dHash>,
    /// The block hash to stop at; all-zero fetches the maximum number of
    /// blocks per message.
    pub hash_stop: Sha256dHash,
}

/// The abstract value of a [`GetBlocksMessage`].
pub struct GetBlocksMessageV {
    /// Protocol version.
    pub protocol: u32,
    /// The locator hashes, each as its bytes.
    pub block_locator_hashes: Seq<Seq<u8>>,
    /// The stop hash bytes.
    pub hash_stop: Seq<u8>,
}

impl GetBlocksMessage {
    /// Build a `getblocks` request at the current protocol version.
    pub fn new_get_blocks_msg(block_location_hashes: Vec<Sha256dHash>, hash_stop: Sha256dHash) -> (r:
        GetBlocksMessage)
        ensures
            r.protocol == PROTOCOL_VERSION,
            r.block_locator_hashes == block_location_hashes,
            r.hash_stop == hash_stop,
    {
        GetBlocksMessage {
            protocol: PROTOCOL_VERSION,
            block_locator_hashes: block_location_hashes,
            hash_stop,
        }
    }
}

impl DeepView for GetBlocksMessage {
    type V = GetBlocksMessageV;

    open spec fn deep_view(&self) -> GetBlocksMessageV {
        GetBlocksMessageV {
            protocol: self.protocol.deep_view(),
            block_locator_hashes: self.block_locator_hashes.deep_view(),
            hash_stop: self.hash_stop.deep_view(),
        }
    }
}

impl Encodable for GetBlocksMessage {
    /// Every field is well formed.
    open spec fn wf(&self) -> bool {
        self.protocol.wf() && self.block_locator_hashes.wf() && self.hash_stop.wf()
    }

    /// The fields' encodings, in declared order.
    open spec fn enc(&self) -> Seq<u8> {
        self.protocol.enc() + self.block_locator_hashes.enc() + self.hash_stop.enc()
    }

    fn encode<W: WriteExtend>(&self, w: &mut W) -> (r: Result<usize, Error>) {
        let n0 = match self.protocol.encode(w) {
            Ok(n) => n,
            Err(e) => {
                return Err(e);
            },
        };
        let n1 = match self.block_locator_hashes.encode(w) {
            Ok(n) => n,
            Err(e) => {
                return Err(e);
            },
        };
        let n2 = match self.hash_stop.encode(w) {
            Ok(n) => n,
            Err(e) => {
                return Err(e);
            },
        };
        let mut total: usize = n0;
        total = match total.checked_add(n1) {
            Some(t) => t,
            None => {
                return Err(Error::ErrorEncodeDecode);
            },
        };
        total = match total.checked_add(n2) {
            Some(t) => t,
            None => {
                return Err(Error::ErrorEncodeDecode);
            },
        };
        proof {
            assert(old(w).sink() + self.protocol.enc() + self.block_locator_hashes.enc() + self.hash_stop.enc() =~= old(w).sink() + self.enc());
        }
        Ok(total)
    }
}

impl Decodable for GetBlocksMessage {
    open spec fn dec(b: Seq<u8>) -> Result<(GetBlocksMessageV, int), DecodeFault> {
            match <u32 as Decodable>::dec(b) {
                Ok(p0) => {
                match <Vec<Sha256dHash> as Decodable>::dec(b.skip(p0.1)) {
                    Ok(p1) => {
                    match <Sha256dHash as Decodable>::dec(b.skip(p0.1 + p1.1)) {
                        Ok(p2) => {
                        Ok((GetBlocksMessageV { protocol: p0.0, block_locator_hashes: p1.0, hash_stop: p2.0 }, p0.1 + p1.1 + p2.1))
                        },
                        Err(f) => Err(f),
                    }
                    },
                    Err(f) => Err(f),
                }
                },
                Err(f) => Err(f),
            }
    }

    fn decode<R: ReadExtend>(d: &mut R) -> (r: Result<GetBlocksMessage, Error>) {
        let ghost b = old(d).source();
        let ghost s0 = d.source();
        let protocol = match <u32 as Decodable>::decode(d) {
            Ok(v) => v,
            Err(e) => {
                return Err(e);
            },
        };
        let ghost k0 = <u32 as Decodable>::dec(s0)->Ok_0.1;
        proof {
            <u32 as Decodable>::lemma_dec_len(s0);
            assert(s0.skip(k0) =~= b.skip(k0));
        }
        let ghost s1 = d.source();
        let block_locator_hashes = match <Vec<Sha256dHash> as Decodable>::decode(d) {
            Ok(v) => v,
            Err(e) => {
                return Err(e);
            },
        };
        let ghost k1 = <Vec<Sha256dHash> as Decodable>::dec(s1)->Ok_0.1;
        proof {
            <Vec<Sha256dHash> as Decodable>::lemma_dec_len(s1);
            assert(s1.skip(k1) =~= b.skip(k0 + k1));
        }
        let ghost s2 = d.source();
        let hash_stop = match <Sha256dHash as Decodable>::decode(d) {
            Ok(v) => v,
            Err(e) => {
                return Err(e);
            },
        };
        let ghost k2 = <Sha256dHash as Decodable>::dec(s2)->Ok_0.1;
        proof {
            <Sha256dHash as Decodable>::lemma_dec_len(s2);
            assert(s2.skip(k2) =~= b.skip(k0 + k1 + k2));
        }
        let out = GetBlocksMessage { protocol, block_locator_hashes, hash_stop };
        proof {
            match Self::dec(b) {
                Ok(p) => {
                    assert(out.deep_view() == p.0);
                },
                Err(_) => {},
            }
        }
        Ok(out)
    }

    proof fn lemma_dec_len(b: Seq<u8>) {
            <u32 as Decodable>::lemma_dec_len(b);
            match <u32 as Decodable>::dec(b) {
                Ok(q0) => {
            <Vec<Sha256dHash> as Decodable>::lemma_dec_len(b.skip(q0.1));
            match <Vec<Sha256dHash> as Decodable>::dec(b.skip(q0.1)) {
                Ok(q1) => {
            <Sha256dHash as Decodable>::lemma_dec_len(b.skip(q0.1 + q1.1));
            match <Sha256dHash as Decodable>::dec(b.skip(q0.1 + q1.1)) {
                Ok(q2) => {
            },
            Err(_) => {},
            }
            },
            Err(_) => {},
            }
            },
            Err(_) => {},
            }
    }

    proof fn lemma_dec_enc(v: Self, rest: Seq<u8>) {
        let b = v.enc() + rest;
        <u32 as Decodable>::lemma_dec_enc(v.protocol, v.block_locator_hashes.enc() + v.hash_stop.enc() + rest);
        assert(b =~= v.protocol.enc() + (v.block_locator_hashes.enc() + v.hash_stop.enc() + rest));
        let c0 = <u32 as Decodable>::dec(b)->Ok_0.1;
        assert(c0 == v.protocol.enc().len());
        assert(b.skip(c0) =~= v.block_locator_hashes.enc() + v.hash_stop.enc() + rest);
        <Vec<Sha256dHash> as Decodable>::lemma_dec_enc(v.block_locator_hashes, v.hash_stop.enc() + rest);
        assert(b.skip(c0) =~= v.block_locator_hashes.enc() + (v.hash_stop.enc() + rest));
        let c1 = <Vec<Sha256dHash> as Decodable>::dec(b.skip(c0))->Ok_0.1;
        assert(c1 == v.block_locator_hashes.enc().len());
        assert(b.skip(c0 + c1) =~= v.hash_stop.enc() + rest);
        <Sha256dHash as Decodable>::lemma_dec_enc(v.hash_stop, rest);
        assert(b.skip(c0 + c1) =~= v.hash_stop.enc() + (rest));
        let c2 = <Sha256dHash as Decodable>::dec(b.skip(c0 + c1))->Ok_0.1;
        assert(c2 == v.hash_stop.enc().len());
        assert(Self::dec(b) matches Ok(p) && p.0 == v.deep_view() && p.1 == v.enc().len());
    }
}

} // verus!
