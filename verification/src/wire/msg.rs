//! The message envelope: the closed, tagged set of protocol messages.
//!
//! Which variant to decode is picked by a command identifier read from a
//! transport-level header outside this core; this module only provides the
//! payload codec per variant.  Variants whose payload codec is not yet
//! implemented decode by reporting an explicit error — never by silently
//! consuming zero bytes.

use vstd::prelude::*;

verus! {

use crate::consensus::encode::Decodable;
use crate::consensus::encode::Encodable;
use crate::consensus::encode::Error;
use crate::consensus::encode::ReadExtend;
use crate::consensus::encode::WriteExtend;
use crate::consensus::encode::err_matches;
use crate::wire::msgblock::GetBlocksMessage;
use crate::wire::msgblock::GetHeadersMessage;
use crate::wire::msgreject::RejectMessage;
use crate::wire::msgver::VersionMessage;

/// The protocol messages currently defined: implemented variants carry
/// their payload, reserved variants carry none and are not yet decodable.
#[derive(PartialEq, Eq, Clone, Debug)]
pub enum Message {
    /// Version handshake.
    VersionMessage(VersionMessage),
    /// Header locator request.
    GetHeadersMessage(GetHeadersMessage),
    /// Block locator request.
    GetBlocksMessage(GetBlocksMessage),
    /// Rejection report.
    RejectMessage(RejectMessage),
    /// Reserved: version acknowledgement, not yet implemented.
    VersionAcknoledgeMessage,
    /// Reserved: not-found report, not yet implemented.
    NotFoundMessage,
    /// Reserved: keep-alive probe, not yet implemented.
    PingMessage,
    /// Reserved: keep-alive answer, not yet implemented.
    PongMessage,
    /// Reserved: compact-filter request, not yet implemented.
    GetCFiltersMessage,
    /// Reserved: compact-filter answer, not yet implemented.
    SendCFilterMessage,
}

/// The command identifier that picks which message variant to decode.
#[derive(PartialEq, Eq, Clone, Copy, Debug, Structural)]
pub enum MessageKind {
    /// A `version` payload follows.
    Version,
    /// A `getheaders` payload follows.
    GetHeaders,
    /// A `getblocks` payload follows.
    GetBlocks,
    /// A `reject` payload follows.
    Reject,
    /// A version acknowledgement; not yet implemented.
    VersionAcknoledge,
    /// A not-found report; not yet implemented.
    NotFound,
    /// A keep-alive probe; not yet implemented.
    Ping,
    /// A keep-alive answer; not yet implemented.
    Pong,
    /// A compact-filter request; not yet implemented.
    GetCFilters,
    /// A compact-filter answer; not yet implemented.
    SendCFilter,
}

impl Message {
    /// Does this variant carry an implemented payload codec?
    pub open spec fn enc_ok(&self) -> bool {
        match *self {
            Message::VersionMessage(_) => true,
            Message::GetHeadersMessage(_) => true,
            Message::GetBlocksMessage(_) => true,
            Message::RejectMessage(_) => true,
            _ => false,
        }
    }

    /// The payload bytes of an implemented variant.
    pub open spec fn enc(&self) -> Seq<u8> {
        match *self {
            Message::VersionMessage(m) => m.enc(),
            Message::GetHeadersMessage(m) => m.enc(),
            Message::GetBlocksMessage(m) => m.enc(),
            Message::RejectMessage(m) => m.enc(),
            _ => Seq::empty(),
        }
    }

    /// Well-formedness of the carried payload.
    pub open spec fn wf(&self) -> bool {
        match *self {
            Message::VersionMessage(m) => m.wf(),
            Message::GetHeadersMessage(m) => m.wf(),
            Message::GetBlocksMessage(m) => m.wf(),
            Message::RejectMessage(m) => m.wf(),
            _ => true,
        }
    }

    /// Encode this message's payload.  A reserved variant has no payload
    /// codec yet and reports an explicit error.
    pub fn encode<W: WriteExtend>(&self, w: &mut W) -> (r: Result<usize, Error>)
        ensures
            r matches Ok(n) ==> (self.enc_ok() && n == self.enc().len() && final(w).sink() == old(
                w,
            ).sink() + self.enc()),
            self.enc_ok() && self.enc().len() <= usize::MAX ==> r is Ok,
            self.enc_ok() && r is Err ==> self.enc().len() > usize::MAX,
            !self.enc_ok() ==> (r matches Err(e) && e matches Error::ErrorParse(s) && s@
                == "unimplemented message"@ && final(w).sink() == old(w).sink()),
    {
        match self {
            Message::VersionMessage(m) => m.encode(w),
            Message::GetHeadersMessage(m) => m.encode(w),
            Message::GetBlocksMessage(m) => m.encode(w),
            Message::RejectMessage(m) => m.encode(w),
            _ => Err(Error::ErrorParse("unimplemented message")),
        }
    }

    /// Decode the payload variant picked by `kind` from the front of `d`.
    /// A reserved kind reports an explicit error and consumes nothing.
    pub fn decode<R: ReadExtend>(kind: MessageKind, d: &mut R) -> (r: Result<Message, Error>)
        ensures
            (match kind {
                MessageKind::Version => match <VersionMessage as Decodable>::dec(
                    old(d).source(),
                ) {
                    Ok(p) => r matches Ok(msg) && msg matches Message::VersionMessage(m)
                        && m.deep_view() == p.0 && m.wf() && final(d).source() == old(
                        d,
                    ).source().skip(p.1),
                    Err(f) => r matches Err(e) && err_matches(e, f),
                },
                MessageKind::GetHeaders => match <GetHeadersMessage as Decodable>::dec(
                    old(d).source(),
                ) {
                    Ok(p) => r matches Ok(msg) && msg matches Message::GetHeadersMessage(m)
                        && m.deep_view() == p.0 && m.wf() && final(d).source() == old(
                        d,
                    ).source().skip(p.1),
                    Err(f) => r matches Err(e) && err_matches(e, f),
                },
                MessageKind::GetBlocks => match <GetBlocksMessage as Decodable>::dec(
                    old(d).source(),
                ) {
                    Ok(p) => r matches Ok(msg) && msg matches Message::GetBlocksMessage(m)
                        && m.deep_view() == p.0 && m.wf() && final(d).source() == old(
                        d,
                    ).source().skip(p.1),
                    Err(f) => r matches Err(e) && err_matches(e, f),
                },
                MessageKind::Reject => match <RejectMessage as Decodable>::dec(old(d).source()) {
                    Ok(p) => r matches Ok(msg) && msg matches Message::RejectMessage(m)
                        && m.deep_view() == p.0 && m.wf() && final(d).source() == old(
                        d,
                    ).source().skip(p.1),
                    Err(f) => r matches Err(e) && err_matches(e, f),
                },
                _ => r matches Err(e) && e matches Error::ErrorParse(s) && s@
                    == "unimplemented message"@ && final(d).source() == old(d).source(),
            }),
    {
        match kind {
            MessageKind::Version => match VersionMessage::decode(d) {
                Ok(m) => Ok(Message::VersionMessage(m)),
                Err(e) => Err(e),
            },
            MessageKind::GetHeaders => match GetHeadersMessage::decode(d) {
                Ok(m) => Ok(Message::GetHeadersMessage(m)),
                Err(e) => Err(e),
            },
            MessageKind::GetBlocks => match GetBlocksMessage::decode(d) {
                Ok(m) => Ok(Message::GetBlocksMessage(m)),
                Err(e) => Err(e),
            },
            MessageKind::Reject => match RejectMessage::decode(d) {
                Ok(m) => Ok(Message::RejectMessage(m)),
                Err(e) => Err(e),
            },
            _ => Err(Error::ErrorParse("unimplemented message")),
        }
    }
}

} // verus!
