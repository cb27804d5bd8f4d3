//! The rejection message and its reason codes.

use vstd::prelude::*;

verus! {

use crate::consensus::encode::Decodable;
use crate::consensus::encode::DecodeFault;
use crate::consensus::encode::Encodable;
use crate::consensus::encode::Error;
use crate::consensus::encode::ReadExtend;
use crate::consensus::encode::Sha256dHash;
use crate::consensus::encode::WriteExtend;

/// The reason a message was rejected, one fixed single-byte code each.
#[derive(PartialEq, Eq, Clone, Copy, Debug, Structural)]
pub enum ReasonRejection {
    /// Malformed message.
    MALFORMED,
    /// Invalid message, not consistent with the active protocol.
    INVALID,
    /// Message of an obsolete protocol version.
    OBSOLETE,
    /// Duplicate message.
    DUPLICATE,
    /// Nonstandard message, not consistent with the active protocol.
    NONSTANDARD,
    /// Output below the dust limit.
    DUST,
    /// Insufficient fees dedicated in outputs.
    FEE,
    /// Inconsistent with a checkpoint.
    CHECKPOINT,
}

/// The fixed numeric code of each rejection reason.
pub open spec fn spec_reason_code(r: ReasonRejection) -> u8 {
    match r {
        ReasonRejection::MALFORMED => 0x01,
        ReasonRejection::INVALID => 0x10,
        ReasonRejection::OBSOLETE => 0x11,
        ReasonRejection::DUPLICATE => 0x12,
        ReasonRejection::NONSTANDARD => 0x40,
        ReasonRejection::DUST => 0x41,
        ReasonRejection::FEE => 0x42,
        ReasonRejection::CHECKPOINT => 0x43,
    }
}

/// The rejection reason a byte stands for, if any: no byte is a default
/// or fallback variant.
pub open spec fn spec_reason_of_code(c: u8) -> Option<ReasonRejection> {
    if c == 0x01 {
        Some(ReasonRejection::MALFORMED)
    } else if c == 0x10 {
        Some(ReasonRejection::INVALID)
    } else if c == 0x11 {
        Some(ReasonRejection::OBSOLETE)
    } else if c == 0x12 {
        Some(ReasonRejection::DUPLICATE)
    } else if c == 0x40 {
        Some(ReasonRejection::NONSTANDARD)
    } else if c == 0x41 {
        Some(ReasonRejection::DUST)
    } else if c == 0x42 {
        Some(ReasonRejection::FEE)
    } else if c == 0x43 {
        Some(ReasonRejection::CHECKPOINT)
    } else {
        None
    }
}

/// Each reason's code maps back to that reason.
pub proof fn lemma_reason_code_round(r: ReasonRejection)
    ensures
        spec_reason_of_code(spec_reason_code(r)) == Some(r),
{
}

impl ReasonRejection {
    /// The fixed numeric code of this reason.
    pub fn code(&self) -> (r: u8)
        ensures
            r == spec_reason_code(*self),
    {
        match *self {
            ReasonRejection::MALFORMED => 0x01,
            ReasonRejection::INVALID => 0x10,
            ReasonRejection::OBSOLETE => 0x11,
            ReasonRejection::DUPLICATE => 0x12,
            ReasonRejection::NONSTANDARD => 0x40,
            ReasonRejection::DUST => 0x41,
            ReasonRejection::FEE => 0x42,
            ReasonRejection::CHECKPOINT => 0x43,
        }
    }
}

impl DeepView for ReasonRejection {
    type V = ReasonRejection;

    open spec fn deep_view(&self) -> ReasonRejection {
        *self
    }
}

impl Encodable for ReasonRejection {
    open spec fn wf(&self) -> bool {
        true
    }

    /// One byte: the reason's fixed code.
    open spec fn enc(&self) -> Seq<u8> {
        seq![spec_reason_code(*self)]
    }

    fn encode<W: WriteExtend>(&self, w: &mut W) -> (r: Result<usize, Error>) {
        let _ = w.output_u8(self.code());
        proof {
            assert(old(w).sink().push(spec_reason_code(*self)) =~= old(w).sink() + self.enc());
        }
        Ok(1)
    }
}

impl Decodable for ReasonRejection {
    open spec fn dec(b: Seq<u8>) -> Result<(ReasonRejection, int), DecodeFault> {
        if b.len() < 1 {
            Err(DecodeFault::Truncated)
        } else {
            match spec_reason_of_code(b[0]) {
                Some(r) => Ok((r, 1)),
                None => Err(DecodeFault::UnknownReason),
            }
        }
    }

    fn decode<R: ReadExtend>(d: &mut R) -> (r: Result<ReasonRejection, Error>) {
        let c = match d.read_u8() {
            Ok(c) => c,
            Err(e) => {
                return Err(e);
            },
        };
        match c {
            0x01 => Ok(ReasonRejection::MALFORMED),
            0x10 => Ok(ReasonRejection::INVALID),
            0x11 => Ok(ReasonRejection::OBSOLETE),
            0x12 => Ok(ReasonRejection::DUPLICATE),
            0x40 => Ok(ReasonRejection::NONSTANDARD),
            0x41 => Ok(ReasonRejection::DUST),
            0x42 => Ok(ReasonRejection::FEE),
            0x43 => Ok(ReasonRejection::CHECKPOINT),
            _ => Err(Error::ErrorParse("unknown rejection code")),
        }
    }

    proof fn lemma_dec_len(b: Seq<u8>) {
    }

    proof fn lemma_dec_enc(v: Self, rest: Seq<u8>) {
        assert((v.enc() + rest)[0] == spec_reason_code(v));
    }
}

/// A report that a previously sent message was rejected, and why.
#[derive(PartialEq, Eq, Clone, Debug)]
pub struct RejectMessage {
    /// The message type that has been rejected.
    pub message: String,
    /// Rejection code.
    pub code: ReasonRejection,
    /// Rejection reason as a string.
    pub reason: String,
    /// Rejected item hash.
    pub hash: Sha256dHash,
}

/// The abstract value of a [`RejectMessage`].
pub struct RejectMessageV {
    /// The rejected message type.
    pub message: Seq<char>,
    /// Rejection code.
    pub code: ReasonRejection,
    /// Rejection reason.
    pub reason: Seq<char>,
    /// Rejected item hash bytes.
    pub hash: Seq<u8>,
}

impl RejectMessage {
    /// Build a rejection report from its parts.
    pub fn new_reject_msg(
        message: String,
        code: ReasonRejection,
        reason: String,
        hash: Sha256dHash,
    ) -> (r: RejectMessage)
        ensures
            r.message == message,
            r.code == code,
            r.reason == reason,
            r.hash == hash,
    {
        RejectMessage { message, code, reason, hash }
    }
}

impl DeepView for RejectMessage {
    type V = RejectMessageV;

    open spec fn deep_view(&self) -> RejectMessageV {
        RejectMessageV {
            message: self.message.deep_view(),
            code: self.code.deep_view(),
            reason: self.reason.deep_view(),
            hash: self.hash.deep_view(),
        }
    }
}

impl Encodable for RejectMessage {
    /// Every field is well formed.
    open spec fn wf(&self) -> bool {
        self.message.wf() && self.code.wf() && self.reason.wf() && self.hash.wf()
    }

    /// The fields' encodings, in declared order.
    open spec fn enc(&self) -> Seq<u8> {
        self.message.enc() + self.code.enc() + self.reason.enc() + self.hash.enc()
    }

    fn encode<W: WriteExtend>(&self, w: &mut W) -> (r: Result<usize, Error>) {
        let n0 = match self.message.encode(w) {
            Ok(n) => n,
            Err(e) => {
                return Err(e);
            },
        };
        let n1 = match self.code.encode(w) {
            Ok(n) => n,
            Err(e) => {
                return Err(e);
            },
        };
        let n2 = match self.reason.encode(w) {
            Ok(n) => n,
            Err(e) => {
                return Err(e);
            },
        };
        let n3 = match self.hash.encode(w) {
            Ok(n) => n,
            Err(e) => {
                return Err(e);
            },
        };
        let mut total: usize = n0;
        total = match total.checked_add(n1) {
            Some(t) => t,
            None => {
                return Err(Error::ErrorEncodeDecode);
            },
        };
        total = match total.checked_add(n2) {
            Some(t) => t,
            None => {
                return Err(Error::ErrorEncodeDecode);
            },
        };
        total = match total.checked_add(n3) {
            Some(t) => t,
            None => {
                return Err(Error::ErrorEncodeDecode);
            },
        };
        proof {
            assert(old(w).sink() + self.message.enc() + self.code.enc() + self.reason.enc() + self.hash.enc() =~= old(w).sink() + self.enc());
        }
        Ok(total)
    }
}

impl Decodable for RejectMessage {
    open spec fn dec(b: Seq<u8>) -> Result<(RejectMessageV, int), DecodeFault> {
            match <String as Decodable>::dec(b) {
                Ok(p0) => {
                match <ReasonRejection as Decodable>::dec(b.skip(p0.1)) {
                    Ok(p1) => {
                    match <String as Decodable>::dec(b.skip(p0.1 + p1.1)) {
                        Ok(p2) => {
                        match <Sha256dHash as Decodable>::dec(b.skip(p0.1 + p1.1 + p2.1)) {
                            Ok(p3) => {
                            Ok((RejectMessageV { message: p0.0, code: p1.0, reason: p2.0, hash: p3.0 }, p0.1 + p1.1 + p2.1 + p3.1))
                            },
                            Err(f) => Err(f),
                        }
                        },
                        Err(f) => Err(f),
                    }
                    },
                    Err(f) => Err(f),
                }
                },
                Err(f) => Err(f),
            }
    }

    fn decode<R: ReadExtend>(d: &mut R) -> (r: Result<RejectMessage, Error>) {
        let ghost b = old(d).source();
        let ghost s0 = d.source();
        let message = match <String as Decodable>::decode(d) {
            Ok(v) => v,
            Err(e) => {
                return Err(e);
            },
        };
        let ghost k0 = <String as Decodable>::dec(s0)->Ok_0.1;
        proof {
            <String as Decodable>::lemma_dec_len(s0);
            assert(s0.skip(k0) =~= b.skip(k0));
        }
        let ghost s1 = d.source();
        let code = match <ReasonRejection as Decodable>::decode(d) {
            Ok(v) => v,
            Err(e) => {
                return Err(e);
            },
        };
        let ghost k1 = <ReasonRejection as Decodable>::dec(s1)->Ok_0.1;
        proof {
            <ReasonRejection as Decodable>::lemma_dec_len(s1);
            assert(s1.skip(k1) =~= b.skip(k0 + k1));
        }
        let ghost s2 = d.source();
        let reason = match <String as Decodable>::decode(d) {
            Ok(v) => v,
            Err(e) => {
                return Err(e);
            },
        };
        let ghost k2 = <String as Decodable>::dec(s2)->Ok_0.1;
        proof {
            <String as Decodable>::lemma_dec_len(s2);
            assert(s2.skip(k2) =~= b.skip(k0 + k1 + k2));
        }
        let ghost s3 = d.source();
        let hash = match <Sha256dHash as Decodable>::decode(d) {
            Ok(v) => v,
            Err(e) => {
                return Err(e);
            },
        };
        let ghost k3 = <Sha256dHash as Decodable>::dec(s3)->Ok_0.1;
        proof {
            <Sha256dHash as Decodable>::lemma_dec_len(s3);
            assert(s3.skip(k3) =~= b.skip(k0 + k1 + k2 + k3));
        }
        let out = RejectMessage { message, code, reason, hash };
        proof {
            match Self::dec(b) {
                Ok(p) => {
                    assert(out.deep_view() == p.0);
                },
                Err(_) => {},
            }
        }
        Ok(out)
    }

    proof fn lemma_dec_len(b: Seq<u8>) {
            <String as Decodable>::lemma_dec_len(b);
            match <String as Decodable>::dec(b) {
                Ok(q0) => {
            <ReasonRejection as Decodable>::lemma_dec_len(b.skip(q0.1));
            match <ReasonRejection as Decodable>::dec(b.skip(q0.1)) {
                Ok(q1) => {
            <String as Decodable>::lemma_dec_len(b.skip(q0.1 + q1.1));
            match <String as Decodable>::dec(b.skip(q0.1 + q1.1)) {
                Ok(q2) => {
            <Sha256dHash as Decodable>::lemma_dec_len(b.skip(q0.1 + q1.1 + q2.1));
            match <Sha256dHash as Decodable>::dec(b.skip(q0.1 + q1.1 + q2.1)) {
                Ok(q3) => {
            },
            Err(_) => {},
            }
            },
            Err(_) => {},
            }
            },
            Err(_) => {},
            }
            },
            Err(_) => {},
            }
    }

    proof fn lemma_dec_enc(v: Self, rest: Seq<u8>) {
        let b = v.enc() + rest;
        <String as Decodable>::lemma_dec_enc(v.message, v.code.enc() + v.reason.enc() + v.hash.enc() + rest);
        assert(b =~= v.message.enc() + (v.code.enc() + v.reason.enc() + v.hash.enc() + rest));
        let c0 = <String as Decodable>::dec(b)->Ok_0.1;
        assert(c0 == v.message.enc().len());
        assert(b.skip(c0) =~= v.code.enc() + v.reason.enc() + v.hash.enc() + rest);
        <ReasonRejection as Decodable>::lemma_dec_enc(v.code, v.reason.enc() + v.hash.enc() + rest);
        assert(b.skip(c0) =~= v.code.enc() + (v.reason.enc() + v.hash.enc() + rest));
        let c1 = <ReasonRejection as Decodable>::dec(b.skip(c0))->Ok_0.1;
        assert(c1 == v.code.enc().len());
        assert(b.skip(c0 + c1) =~= v.reason.enc() + v.hash.enc() + rest);
        <String as Decodable>::lemma_dec_enc(v.reason, v.hash.enc() + rest);
        assert(b.skip(c0 + c1) =~= v.reason.enc() + (v.hash.enc() + rest));
        let c2 = <String as Decodable>::dec(b.skip(c0 + c1))->Ok_0.1;
        assert(c2 == v.reason.enc().len());
        assert(b.skip(c0 + c1 + c2) =~= v.hash.enc() + rest);
        <Sha256dHash as Decodable>::lemma_dec_enc(v.hash, rest);
        assert(b.skip(c0 + c1 + c2) =~= v.hash.enc() + (rest));
        let c3 = <Sha256dHash as Decodable>::dec(b.skip(c0 + c1 + c2))->Ok_0.1;
        assert(c3 == v.hash.enc().len());
        assert(Self::dec(b) matches Ok(p) && p.0 == v.deep_view() && p.1 == v.enc().len());
    }
}

} // verus!
