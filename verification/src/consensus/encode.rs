//! Primitives of the consensus encoding: byte sinks and sources, the
//! fixed-width integer codecs, the variable-length count (`VarInt`) codec,
//! and the `Encodable` / `Decodable` capability pair that composite message
//! types implement field by field.

use vstd::prelude::*;

verus! {

use vstd::bytes::spec_u16_to_le_bytes;
use vstd::bytes::spec_u16_from_le_bytes;
use vstd::bytes::spec_u32_to_le_bytes;
use vstd::bytes::spec_u32_from_le_bytes;
use vstd::bytes::spec_u64_to_le_bytes;
use vstd::bytes::spec_u64_from_le_bytes;
use vstd::bytes::u16_to_le_bytes;
use vstd::bytes::u16_from_le_bytes;
use vstd::bytes::u32_to_le_bytes;
use vstd::bytes::u32_from_le_bytes;
use vstd::bytes::u64_to_le_bytes;
use vstd::bytes::u64_from_le_bytes;

/// Errors raised while encoding or decoding consensus data.
#[derive(Clone, Copy, Debug, PartialEq, Eq)]
pub enum Error {
    /// The underlying byte source or sink failed or was exhausted.
    ErrorEncodeDecode,
    /// The underlying byte source failed while a variable-length count was
    /// being read.
    ErrorVarintDecode,
    /// Structurally invalid input, with a static description.
    ErrorParse(&'static str),
}

/// The ways a decode can fail, as abstract values for contracts.
///
/// Each variant corresponds, through [`err_matches`], to the concrete
/// [`Error`] a decoder returns on that failure.
#[derive(Clone, Copy, Debug, PartialEq, Eq)]
pub enum DecodeFault {
    /// The byte source ran out before the value was complete.
    Truncated,
    /// A variable-length count was not in its shortest form.
    NonMinimal,
    /// A rejection-reason byte matched no defined code.
    UnknownReason,
    /// A length-prefixed string was not valid UTF-8.
    InvalidUtf8,
    /// A sequence claimed more elements than the protocol allows.
    Oversized,
}

/// Relates a concrete decode [`Error`] to the abstract fault it reports.
pub open spec fn err_matches(e: Error, f: DecodeFault) -> bool {
    match f {
        DecodeFault::Truncated => e is ErrorEncodeDecode,
        DecodeFault::NonMinimal => e matches Error::ErrorParse(m) && m@ == "non-minimal varint"@,
        DecodeFault::UnknownReason => e matches Error::ErrorParse(m) && m@
            == "unknown rejection code"@,
        DecodeFault::InvalidUtf8 => e matches Error::ErrorParse(m) && m@
            == "invalid utf-8 string"@,
        DecodeFault::Oversized => e matches Error::ErrorParse(m) && m@ == "oversized vector"@,
    }
}

impl Error {
    /// A fixed description of the error, usable by callers for logging.
    pub fn description(&self) -> (r: &'static str)
        ensures
            *self is ErrorEncodeDecode ==> r@ == "error while encoding or decoding data"@,
            *self is ErrorVarintDecode ==> r@ == "error while decoding a varint"@,
            (*self) matches Error::ErrorParse(m) ==> r == m,
    {
        match *self {
            Error::ErrorEncodeDecode => "error while encoding or decoding data",
            Error::ErrorVarintDecode => "error while decoding a varint",
            Error::ErrorParse(m) => m,
        }
    }
}

/// Little-endian encoding of a signed 64-bit value (its two's-complement
/// bits, least significant byte first).
pub open spec fn spec_i64_to_le_bytes(x: i64) -> Seq<u8> {
    spec_u64_to_le_bytes(x as u64)
}

/// Little-endian encoding of a signed 32-bit value.
pub open spec fn spec_i32_to_le_bytes(x: i32) -> Seq<u8> {
    spec_u32_to_le_bytes(x as u32)
}

/// Little-endian encoding of a signed 16-bit value.
pub open spec fn spec_i16_to_le_bytes(x: i16) -> Seq<u8> {
    spec_u16_to_le_bytes(x as u16)
}

/// A byte sink for consensus encoding: every write appends the value's
/// canonical little-endian bytes to the sink.
pub trait WriteExtend {
    /// The bytes written to the sink so far.
    spec fn sink(&self) -> Seq<u8>;

    /// Output a 64-bit uint, little-endian.
    fn output_u64(&mut self, value: u64) -> (r: Result<(), Error>)
        ensures
            r is Ok,
            final(self).sink() == old(self).sink() + spec_u64_to_le_bytes(value),
    ;

    /// Output a 32-bit uint, little-endian.
    fn output_u32(&mut self, value: u32) -> (r: Result<(), Error>)
        ensures
            r is Ok,
            final(self).sink() == old(self).sink() + spec_u32_to_le_bytes(value),
    ;

    /// Output a 16-bit uint, little-endian.
    fn output_u16(&mut self, value: u16) -> (r: Result<(), Error>)
        ensures
            r is Ok,
            final(self).sink() == old(self).sink() + spec_u16_to_le_bytes(value),
    ;

    /// Output an 8-bit uint.
    fn output_u8(&mut self, value: u8) -> (r: Result<(), Error>)
        ensures
            r is Ok,
            final(self).sink() == old(self).sink().push(value),
    ;

    /// Output a 64-bit int, little-endian two's complement.
    fn output_i64(&mut self, value: i64) -> (r: Result<(), Error>)
        ensures
            r is Ok,
            final(self).sink() == old(self).sink() + spec_i64_to_le_bytes(value),
    ;

    /// Output a 32-bit int, little-endian two's complement.
    fn output_i32(&mut self, value: i32) -> (r: Result<(), Error>)
        ensures
            r is Ok,
            final(self).sink() == old(self).sink() + spec_i32_to_le_bytes(value),
    ;

    /// Output a 16-bit int, little-endian two's complement.
    fn output_i16(&mut self, value: i16) -> (r: Result<(), Error>)
        ensures
            r is Ok,
            final(self).sink() == old(self).sink() + spec_i16_to_le_bytes(value),
    ;

    /// Output an 8-bit int (its two's-complement byte).
    fn output_i8(&mut self, value: i8) -> (r: Result<(), Error>)
        ensures
            r is Ok,
            final(self).sink() == old(self).sink().push(value as u8),
    ;

    /// Output a byte slice verbatim.
    fn output_byte_slice(&mut self, value: &[u8]) -> (r: Result<(), Error>)
        ensures
            r is Ok,
            final(self).sink() == old(self).sink() + value@,
    ;
}

/// A byte source for consensus decoding: every read consumes exactly the
/// bytes of the value, or fails without a value if the source is exhausted.
pub trait ReadExtend {
    /// The bytes not yet consumed from the source.
    spec fn source(&self) -> Seq<u8>;

    /// Read a 64-bit uint, little-endian.
    fn read_u64(&mut self) -> (r: Result<u64, Error>)
        ensures
            old(self).source().len() >= 8 ==> (r matches Ok(v) && v == spec_u64_from_le_bytes(old(self).source().take(8)) && final(self).source() == old(self).source().skip(8)),
            old(self).source().len() < 8 ==> (r matches Err(e) && e is ErrorEncodeDecode && final(self).source() == old(self).source()),
    ;

    /// Read a 32-bit uint, little-endian.
    fn read_u32(&mut self) -> (r: Result<u32, Error>)
        ensures
            old(self).source().len() >= 4 ==> (r matches Ok(v) && v == spec_u32_from_le_bytes(old(self).source().take(4)) && final(self).source() == old(self).source().skip(4)),
            old(self).source().len() < 4 ==> (r matches Err(e) && e is ErrorEncodeDecode && final(self).source() == old(self).source()),
    ;

    /// Read a 16-bit uint, little-endian.
    fn read_u16(&mut self) -> (r: Result<u16, Error>)
        ensures
            old(self).source().len() >= 2 ==> (r matches Ok(v) && v == spec_u16_from_le_bytes(old(self).source().take(2)) && final(self).source() == old(self).source().skip(2)),
            old(self).source().len() < 2 ==> (r matches Err(e) && e is ErrorEncodeDecode && final(self).source() == old(self).source()),
    ;

    /// Read an 8-bit uint.
    fn read_u8(&mut self) -> (r: Result<u8, Error>)
        ensures
            old(self).source().len() >= 1 ==> (r matches Ok(v) && v == old(self).source()[0]
                && final(self).source() == old(self).source().skip(1)),
            old(self).source().len() < 1 ==> (r matches Err(e) && e is ErrorEncodeDecode && final(self).source() == old(self).source()),
    ;

    /// Read a 64-bit int, little-endian two's complement.
    fn read_i64(&mut self) -> (r: Result<i64, Error>)
        ensures
            old(self).source().len() >= 8 ==> (r matches Ok(v) && v == spec_u64_from_le_bytes(old(self).source().take(8)) as i64 && final(self).source() == old(self).source().skip(8)),
            old(self).source().len() < 8 ==> (r matches Err(e) && e is ErrorEncodeDecode && final(self).source() == old(self).source()),
    ;

    /// Read a 32-bit int, little-endian two's complement.
    fn read_i32(&mut self) -> (r: Result<i32, Error>)
        ensures
            old(self).source().len() >= 4 ==> (r matches Ok(v) && v == spec_u32_from_le_bytes(old(self).source().take(4)) as i32 && final(self).source() == old(self).source().skip(4)),
            old(self).source().len() < 4 ==> (r matches Err(e) && e is ErrorEncodeDecode && final(self).source() == old(self).source()),
    ;

    /// Read a 16-bit int, little-endian two's complement.
    fn read_i16(&mut self) -> (r: Result<i16, Error>)
        ensures
            old(self).source().len() >= 2 ==> (r matches Ok(v) && v == spec_u16_from_le_bytes(old(self).source().take(2)) as i16 && final(self).source() == old(self).source().skip(2)),
            old(self).source().len() < 2 ==> (r matches Err(e) && e is ErrorEncodeDecode && final(self).source() == old(self).source()),
    ;

    /// Read an 8-bit int.
    fn read_i8(&mut self) -> (r: Result<i8, Error>)
        ensures
            old(self).source().len() >= 1 ==> (r matches Ok(v) && v == old(self).source()[0] as i8
                && final(self).source() == old(self).source().skip(1)),
            old(self).source().len() < 1 ==> (r matches Err(e) && e is ErrorEncodeDecode && final(self).source() == old(self).source()),
    ;

    /// The unread remainder is addressable on this machine.
    proof fn lemma_source_len(&self)
        ensures
            self.source().len() <= usize::MAX,
    ;

    /// Read exactly `len` bytes.
    fn read_byte_slice(&mut self, len: usize) -> (r: Result<Vec<u8>, Error>)
        ensures
            old(self).source().len() >= len ==> (r matches Ok(v) && v@ == old(self).source().take(len as int) && final(self).source() == old(self).source().skip(len as int)),
            old(self).source().len() < len ==> (r matches Err(e) && e is ErrorEncodeDecode && final(self).source() == old(self).source()),
    ;
}

/// A byte sink backed by a growable buffer; writes never fail.
pub struct Writer {
    /// The bytes written so far.
    pub bytes: Vec<u8>,
}

impl Writer {
    /// An empty sink.
    pub fn new() -> (w: Writer)
        ensures
            w.sink() == Seq::<u8>::empty(),
    {
        Writer { bytes: Vec::new() }
    }

    /// Hand the written bytes to the caller.
    pub fn into_bytes(self) -> (r: Vec<u8>)
        ensures
            r@ == self.sink(),
    {
        self.bytes
    }
}

impl WriteExtend for Writer {
    open spec fn sink(&self) -> Seq<u8> {
        self.bytes@
    }

    fn output_u64(&mut self, value: u64) -> (r: Result<(), Error>) {
        let mut b = u64_to_le_bytes(value);
        self.bytes.append(&mut b);
        Ok(())
    }

    fn output_u32(&mut self, value: u32) -> (r: Result<(), Error>) {
        let mut b = u32_to_le_bytes(value);
        self.bytes.append(&mut b);
        Ok(())
    }

    fn output_u16(&mut self, value: u16) -> (r: Result<(), Error>) {
        let mut b = u16_to_le_bytes(value);
        self.bytes.append(&mut b);
        Ok(())
    }

    fn output_u8(&mut self, value: u8) -> (r: Result<(), Error>) {
        self.bytes.push(value);
        Ok(())
    }

    fn output_i64(&mut self, value: i64) -> (r: Result<(), Error>) {
        let mut b = u64_to_le_bytes(value as u64);
        self.bytes.append(&mut b);
        Ok(())
    }

    fn output_i32(&mut self, value: i32) -> (r: Result<(), Error>) {
        let mut b = u32_to_le_bytes(value as u32);
        self.bytes.append(&mut b);
        Ok(())
    }

    fn output_i16(&mut self, value: i16) -> (r: Result<(), Error>) {
        let mut b = u16_to_le_bytes(value as u16);
        self.bytes.append(&mut b);
        Ok(())
    }

    fn output_i8(&mut self, value: i8) -> (r: Result<(), Error>) {
        self.bytes.push(value as u8);
        Ok(())
    }

    fn output_byte_slice(&mut self, value: &[u8]) -> (r: Result<(), Error>) {
        let mut i: usize = 0;
        let ghost start = self.bytes@;
        while i < value.len()
            invariant
                i <= value@.len(),
                self.bytes@ =~= start + value@.take(i as int),
            decreases value@.len() - i,
        {
            self.bytes.push(value[i]);
            i = i + 1;
        }
        proof {
            assert(self.bytes@ =~= start + value@);
        }
        Ok(())
    }
}

/// A byte source backed by a buffer and a cursor; reading consumes from the
/// front of the unread remainder.
pub struct Reader {
    /// The whole input.
    pub bytes: Vec<u8>,
    /// How many bytes of the input have been consumed.
    pub pos: usize,
}

impl Reader {
    /// A source holding all of `bytes`, none of it consumed yet.
    pub fn new(bytes: Vec<u8>) -> (d: Reader)
        ensures
            d.source() == bytes@,
    {
        let d = Reader { bytes, pos: 0 };
        proof {
            assert(d.source() =~= d.bytes@);
        }
        d
    }

    /// How many bytes remain unread.
    pub fn remaining(&self) -> (r: usize)
        ensures
            r == self.source().len(),
    {
        if self.pos <= self.bytes.len() {
            self.bytes.len() - self.pos
        } else {
            0
        }
    }
}

impl ReadExtend for Reader {
    open spec fn source(&self) -> Seq<u8> {
        if self.pos <= self.bytes@.len() {
            self.bytes@.skip(self.pos as int)
        } else {
            Seq::<u8>::empty()
        }
    }

    fn read_u64(&mut self) -> (r: Result<u64, Error>) {
        let b = match self.read_byte_slice(8) {
            Ok(b) => b,
            Err(e) => {
                return Err(e);
            },
        };
        Ok(u64_from_le_bytes(b.as_slice()))
    }

    fn read_u32(&mut self) -> (r: Result<u32, Error>) {
        let b = match self.read_byte_slice(4) {
            Ok(b) => b,
            Err(e) => {
                return Err(e);
            },
        };
        Ok(u32_from_le_bytes(b.as_slice()))
    }

    fn read_u16(&mut self) -> (r: Result<u16, Error>) {
        let b = match self.read_byte_slice(2) {
            Ok(b) => b,
            Err(e) => {
                return Err(e);
            },
        };
        Ok(u16_from_le_bytes(b.as_slice()))
    }

    fn read_u8(&mut self) -> (r: Result<u8, Error>) {
        if self.pos < self.bytes.len() {
            let v = self.bytes[self.pos];
            self.pos = self.pos + 1;
            proof {
                assert(final(self).source() =~= old(self).source().skip(1));
            }
            Ok(v)
        } else {
            Err(Error::ErrorEncodeDecode)
        }
    }

    fn read_i64(&mut self) -> (r: Result<i64, Error>) {
        let b = match self.read_byte_slice(8) {
            Ok(b) => b,
            Err(e) => {
                return Err(e);
            },
        };
        Ok(u64_from_le_bytes(b.as_slice()) as i64)
    }

    fn read_i32(&mut self) -> (r: Result<i32, Error>) {
        let b = match self.read_byte_slice(4) {
            Ok(b) => b,
            Err(e) => {
                return Err(e);
            },
        };
        Ok(u32_from_le_bytes(b.as_slice()) as i32)
    }

    fn read_i16(&mut self) -> (r: Result<i16, Error>) {
        let b = match self.read_byte_slice(2) {
            Ok(b) => b,
            Err(e) => {
                return Err(e);
            },
        };
        Ok(u16_from_le_bytes(b.as_slice()) as i16)
    }

    fn read_i8(&mut self) -> (r: Result<i8, Error>) {
        if self.pos < self.bytes.len() {
            let v = self.bytes[self.pos];
            self.pos = self.pos + 1;
            proof {
                assert(final(self).source() =~= old(self).source().skip(1));
            }
            Ok(v as i8)
        } else {
            Err(Error::ErrorEncodeDecode)
        }
    }

    proof fn lemma_source_len(&self) {
        vstd::std_specs::vec::axiom_spec_len(&self.bytes);
    }

    fn read_byte_slice(&mut self, len: usize) -> (r: Result<Vec<u8>, Error>) {
        if len == 0 {
            proof {
                assert(old(self).source().take(0) =~= Seq::<u8>::empty());
                assert(old(self).source().skip(0) =~= old(self).source());
            }
            return Ok(Vec::new());
        }
        if self.pos <= self.bytes.len() && len <= self.bytes.len() - self.pos {
            let start = self.pos;
            let mut v: Vec<u8> = Vec::new();
            let mut i: usize = 0;
            while i < len
                invariant
                    i <= len,
                    start + len <= usize::MAX,
                    start + len <= self.bytes@.len(),
                    v@ =~= self.bytes@.subrange(start as int, start + i as int),
                decreases len - i,
            {
                v.push(self.bytes[start + i]);
                i = i + 1;
            }
            self.pos = start + len;
            proof {
                assert(v@ =~= old(self).source().take(len as int));
                assert(final(self).source() =~= old(self).source().skip(len as int));
            }
            Ok(v)
        } else {
            Err(Error::ErrorEncodeDecode)
        }
    }
}


/// A value that can serialize itself into a byte sink in the consensus
/// format and report the number of bytes written.
pub trait Encodable {
    /// The values the codec is specified for; `true` for most types.  A
    /// well-formed value is one a decoder can return: for example a hash
    /// must hold exactly 32 bytes and a sequence must not exceed the
    /// protocol's element-count limit.
    spec fn wf(&self) -> bool;

    /// The canonical encoded bytes of this value.
    spec fn enc(&self) -> Seq<u8>;

    /// Append the canonical encoding of `self` to `w`; on success return
    /// the number of bytes written.  Fails only when the total encoded
    /// length cannot be expressed as a byte count on this machine.
    fn encode<W: WriteExtend>(&self, w: &mut W) -> (r: Result<usize, Error>)
        ensures
            r matches Ok(n) ==> (n == self.enc().len() && final(w).sink() == old(w).sink()
                + self.enc()),
            self.enc().len() <= usize::MAX ==> r is Ok,
            r is Err ==> self.enc().len() > usize::MAX,
    ;
}

/// A value that can reconstruct itself from a byte source, consuming
/// exactly the bytes its encoding produced, or failing without a value.
pub trait Decodable: Sized + Encodable + DeepView {
    /// The decode relation on a byte sequence: the abstract (viewed) value
    /// decoded from a prefix of `b` together with how many bytes of `b` it
    /// occupies, or the fault that makes `b` undecodable.
    spec fn dec(b: Seq<u8>) -> Result<(Self::V, int), DecodeFault>;

    /// Decode one value from the front of `d`.
    fn decode<R: ReadExtend>(d: &mut R) -> (r: Result<Self, Error>)
        ensures
            Self::dec(old(d).source()) matches Ok(p) ==> (r matches Ok(x) && x.deep_view() == p.0
                && x.wf() && final(d).source() == old(d).source().skip(p.1)),
            Self::dec(old(d).source()) matches Err(f) ==> (r matches Err(e) && err_matches(e, f)),
    ;

    /// A successful decode consumes no more than the whole source.
    proof fn lemma_dec_len(b: Seq<u8>)
        ensures
            Self::dec(b) matches Ok(p) ==> 0 <= p.1 <= b.len(),
    ;

    /// Round trip: decoding an encoding of `v`, followed by any further
    /// bytes, yields `v` back and consumes exactly the encoding.
    proof fn lemma_dec_enc(v: Self, rest: Seq<u8>)
        requires
            v.wf(),
        ensures
            Self::dec(v.enc() + rest) matches Ok(p) && p.0 == v.deep_view() && p.1
                == v.enc().len(),
    ;
}

/// The lengths of the little-endian byte encodings, gathered from the
/// underlying conversion lemmas.
pub proof fn lemma_le_bytes_len()
    ensures
        forall|x: u16| (#[trigger] spec_u16_to_le_bytes(x)).len() == 2,
        forall|x: u32| (#[trigger] spec_u32_to_le_bytes(x)).len() == 4,
        forall|x: u64| (#[trigger] spec_u64_to_le_bytes(x)).len() == 8,
{
    vstd::bytes::lemma_auto_spec_u16_to_from_le_bytes();
    vstd::bytes::lemma_auto_spec_u32_to_from_le_bytes();
    vstd::bytes::lemma_auto_spec_u64_to_from_le_bytes();
}

/// Unsigned integer of a variable length.
#[derive(PartialEq, Eq, Clone, Copy, Debug, Structural)]
pub struct VarInt(pub u64);

/// The canonical, shortest variable-length encoding of a magnitude: one
/// byte below 0xFD, otherwise a tag byte 0xFD/0xFE/0xFF followed by the
/// value in 2, 4 or 8 little-endian bytes.
pub open spec fn spec_varint_enc(n: u64) -> Seq<u8> {
    if n <= 0xFC {
        seq![n as u8]
    } else if n <= 0xFFFF {
        seq![0xFDu8] + spec_u16_to_le_bytes(n as u16)
    } else if n <= 0xFFFFFFFF {
        seq![0xFEu8] + spec_u32_to_le_bytes(n as u32)
    } else {
        seq![0xFFu8] + spec_u64_to_le_bytes(n)
    }
}

/// The variable-length decode relation: the first byte selects the form,
/// and a value that would have fit in a shorter form is a fault, never a
/// value.
pub open spec fn spec_varint_dec(b: Seq<u8>) -> Result<(VarInt, int), DecodeFault> {
    if b.len() < 1 {
        Err(DecodeFault::Truncated)
    } else {
        let tag = b[0];
        if tag == 0xFF {
            if b.len() < 9 {
                Err(DecodeFault::Truncated)
            } else {
                let x = spec_u64_from_le_bytes(b.subrange(1, 9));
                if x < 0x100000000 {
                    Err(DecodeFault::NonMinimal)
                } else {
                    Ok((VarInt(x), 9))
                }
            }
        } else if tag == 0xFE {
            if b.len() < 5 {
                Err(DecodeFault::Truncated)
            } else {
                let x = spec_u32_from_le_bytes(b.subrange(1, 5));
                if x < 0x10000 {
                    Err(DecodeFault::NonMinimal)
                } else {
                    Ok((VarInt(x as u64), 5))
                }
            }
        } else if tag == 0xFD {
            if b.len() < 3 {
                Err(DecodeFault::Truncated)
            } else {
                let x = spec_u16_from_le_bytes(b.subrange(1, 3));
                if x < 0xFD {
                    Err(DecodeFault::NonMinimal)
                } else {
                    Ok((VarInt(x as u64), 3))
                }
            }
        } else {
            Ok((VarInt(tag as u64), 1))
        }
    }
}

impl VarInt {
    /// The length of this value's encoding, by magnitude: 1 byte up to
    /// 0xFC, 3 up to 0xFFFF, 5 up to 0xFFFFFFFF, 9 beyond.
    pub fn var_int_length(&self) -> (r: usize)
        ensures
            r == self.enc().len(),
            self.0 <= 0xFC ==> r == 1,
            0xFD <= self.0 <= 0xFFFF ==> r == 3,
            0x10000 <= self.0 <= 0xFFFFFFFF ==> r == 5,
            self.0 >= 0x100000000 ==> r == 9,
    {
        proof {
            lemma_le_bytes_len();
        }
        if self.0 <= 0xFC {
            1
        } else if self.0 <= 0xFFFF {
            3
        } else if self.0 <= 0xFFFFFFFF {
            5
        } else {
            9
        }
    }
}

impl DeepView for VarInt {
    type V = VarInt;

    open spec fn deep_view(&self) -> VarInt {
        *self
    }
}

impl Encodable for VarInt {
    open spec fn wf(&self) -> bool {
        true
    }

    open spec fn enc(&self) -> Seq<u8> {
        spec_varint_enc(self.0)
    }

    fn encode<W: WriteExtend>(&self, w: &mut W) -> (r: Result<usize, Error>) {
        proof {
            lemma_le_bytes_len();
        }
        if self.0 <= 0xFC {
            let _ = w.output_u8(self.0 as u8);
            proof {
                assert(old(w).sink().push(self.0 as u8) =~= old(w).sink() + self.enc());
            }
            Ok(1)
        } else if self.0 <= 0xFFFF {
            let _ = w.output_u8(0xFD);
            let _ = w.output_u16(self.0 as u16);
            proof {
                assert(old(w).sink().push(0xFDu8) + spec_u16_to_le_bytes(self.0 as u16) =~= old(
                    w,
                ).sink() + self.enc());
            }
            Ok(3)
        } else if self.0 <= 0xFFFFFFFF {
            let _ = w.output_u8(0xFE);
            let _ = w.output_u32(self.0 as u32);
            proof {
                assert(old(w).sink().push(0xFEu8) + spec_u32_to_le_bytes(self.0 as u32) =~= old(
                    w,
                ).sink() + self.enc());
            }
            Ok(5)
        } else {
            let _ = w.output_u8(0xFF);
            let _ = w.output_u64(self.0);
            proof {
                assert(old(w).sink().push(0xFFu8) + spec_u64_to_le_bytes(self.0) =~= old(w).sink()
                    + self.enc());
            }
            Ok(9)
        }
    }
}

impl Decodable for VarInt {
    open spec fn dec(b: Seq<u8>) -> Result<(VarInt, int), DecodeFault> {
        spec_varint_dec(b)
    }

    fn decode<R: ReadExtend>(d: &mut R) -> (r: Result<VarInt, Error>) {
        let ghost b = old(d).source();
        let n = match d.read_u8() {
            Ok(n) => n,
            Err(e) => {
                return Err(e);
            },
        };
        if n == 0xFF {
            proof {
                if b.len() >= 9 {
                    assert(b.skip(1).take(8) =~= b.subrange(1, 9));
                    assert(b.skip(1).skip(8) =~= b.skip(9));
                }
            }
            let x = match d.read_u64() {
                Ok(x) => x,
                Err(e) => {
                    return Err(e);
                },
            };
            if x < 0x100000000 {
                Err(Error::ErrorParse("non-minimal varint"))
            } else {
                Ok(VarInt(x))
            }
        } else if n == 0xFE {
            proof {
                if b.len() >= 5 {
                    assert(b.skip(1).take(4) =~= b.subrange(1, 5));
                    assert(b.skip(1).skip(4) =~= b.skip(5));
                }
            }
            let x = match d.read_u32() {
                Ok(x) => x,
                Err(e) => {
                    return Err(e);
                },
            };
            if x < 0x10000 {
                Err(Error::ErrorParse("non-minimal varint"))
            } else {
                Ok(VarInt(x as u64))
            }
        } else if n == 0xFD {
            proof {
                if b.len() >= 3 {
                    assert(b.skip(1).take(2) =~= b.subrange(1, 3));
                    assert(b.skip(1).skip(2) =~= b.skip(3));
                }
            }
            let x = match d.read_u16() {
                Ok(x) => x,
                Err(e) => {
                    return Err(e);
                },
            };
            if x < 0xFD {
                Err(Error::ErrorParse("non-minimal varint"))
            } else {
                Ok(VarInt(x as u64))
            }
        } else {
            Ok(VarInt(n as u64))
        }
    }

    proof fn lemma_dec_len(b: Seq<u8>) {
    }

    proof fn lemma_dec_enc(v: Self, rest: Seq<u8>) {
        lemma_le_bytes_len();
        vstd::bytes::lemma_auto_spec_u16_to_from_le_bytes();
        vstd::bytes::lemma_auto_spec_u32_to_from_le_bytes();
        vstd::bytes::lemma_auto_spec_u64_to_from_le_bytes();
        let b = v.enc() + rest;
        if v.0 <= 0xFC {
            assert(b[0] == v.0 as u8);
            assert((v.0 as u8) as u64 == v.0);
            assert(v.0 as u8 <= 0xFCu8);
        } else if v.0 <= 0xFFFF {
            assert(b[0] == 0xFDu8);
            assert(b.subrange(1, 3) =~= spec_u16_to_le_bytes(v.0 as u16));
            assert(spec_u16_from_le_bytes(b.subrange(1, 3)) == v.0 as u16);
            assert((v.0 as u16) as u64 == v.0);
        } else if v.0 <= 0xFFFFFFFF {
            assert(b[0] == 0xFEu8);
            assert(b.subrange(1, 5) =~= spec_u32_to_le_bytes(v.0 as u32));
            assert(spec_u32_from_le_bytes(b.subrange(1, 5)) == v.0 as u32);
            assert((v.0 as u32) as u64 == v.0);
        } else {
            assert(b[0] == 0xFFu8);
            assert(b.subrange(1, 9) =~= spec_u64_to_le_bytes(v.0));
            assert(spec_u64_from_le_bytes(b.subrange(1, 9)) == v.0);
        }
    }
}


impl Encodable for u8 {
    open spec fn wf(&self) -> bool {
        true
    }

    open spec fn enc(&self) -> Seq<u8> {
        seq![*self]
    }

    fn encode<W: WriteExtend>(&self, w: &mut W) -> (r: Result<usize, Error>) {
        let _ = w.output_u8(*self);
        proof {
            assert(old(w).sink().push(*self) =~= old(w).sink() + self.enc());
        }
        Ok(1)
    }
}

impl Decodable for u8 {
    open spec fn dec(b: Seq<u8>) -> Result<(u8, int), DecodeFault> {
        if b.len() >= 1 {
            Ok((b[0], 1))
        } else {
            Err(DecodeFault::Truncated)
        }
    }

    fn decode<R: ReadExtend>(d: &mut R) -> (r: Result<u8, Error>) {
        d.read_u8()
    }

    proof fn lemma_dec_len(b: Seq<u8>) {
    }

    proof fn lemma_dec_enc(v: Self, rest: Seq<u8>) {
    }
}

impl Encodable for i8 {
    open spec fn wf(&self) -> bool {
        true
    }

    open spec fn enc(&self) -> Seq<u8> {
        seq![*self as u8]
    }

    fn encode<W: WriteExtend>(&self, w: &mut W) -> (r: Result<usize, Error>) {
        let _ = w.output_i8(*self);
        proof {
            assert(old(w).sink().push(*self as u8) =~= old(w).sink() + self.enc());
        }
        Ok(1)
    }
}

impl Decodable for i8 {
    open spec fn dec(b: Seq<u8>) -> Result<(i8, int), DecodeFault> {
        if b.len() >= 1 {
            Ok((b[0] as i8, 1))
        } else {
            Err(DecodeFault::Truncated)
        }
    }

    fn decode<R: ReadExtend>(d: &mut R) -> (r: Result<i8, Error>) {
        d.read_i8()
    }

    proof fn lemma_dec_len(b: Seq<u8>) {
    }

    proof fn lemma_dec_enc(v: Self, rest: Seq<u8>) {
        assert((v as u8) as i8 == v) by (bit_vector);
    }
}

impl Encodable for bool {
    open spec fn wf(&self) -> bool {
        true
    }

    open spec fn enc(&self) -> Seq<u8> {
        seq![if *self { 1u8 } else { 0u8 }]
    }

    fn encode<W: WriteExtend>(&self, w: &mut W) -> (r: Result<usize, Error>) {
        let byte: u8 = if *self { 1 } else { 0 };
        let _ = w.output_u8(byte);
        proof {
            assert(old(w).sink().push(byte) =~= old(w).sink() + self.enc());
        }
        Ok(1)
    }
}

impl Decodable for bool {
    open spec fn dec(b: Seq<u8>) -> Result<(bool, int), DecodeFault> {
        if b.len() >= 1 {
            Ok((b[0] != 0, 1))
        } else {
            Err(DecodeFault::Truncated)
        }
    }

    fn decode<R: ReadExtend>(d: &mut R) -> (r: Result<bool, Error>) {
        let byte = match d.read_u8() {
            Ok(byte) => byte,
            Err(e) => {
                return Err(e);
            },
        };
        Ok(byte != 0)
    }

    proof fn lemma_dec_len(b: Seq<u8>) {
    }

    proof fn lemma_dec_enc(v: Self, rest: Seq<u8>) {
    }
}

impl Encodable for u16 {
    open spec fn wf(&self) -> bool {
        true
    }

    open spec fn enc(&self) -> Seq<u8> {
        spec_u16_to_le_bytes(*self)
    }

    fn encode<W: WriteExtend>(&self, w: &mut W) -> (r: Result<usize, Error>) {
        proof {
            lemma_le_bytes_len();
        }
        let _ = w.output_u16(*self);
        Ok(2)
    }
}

impl Decodable for u16 {
    open spec fn dec(b: Seq<u8>) -> Result<(u16, int), DecodeFault> {
        if b.len() >= 2 {
            Ok((spec_u16_from_le_bytes(b.take(2)), 2))
        } else {
            Err(DecodeFault::Truncated)
        }
    }

    fn decode<R: ReadExtend>(d: &mut R) -> (r: Result<u16, Error>) {
        d.read_u16()
    }

    proof fn lemma_dec_len(b: Seq<u8>) {
    }

    proof fn lemma_dec_enc(v: Self, rest: Seq<u8>) {
        lemma_le_bytes_len();
        vstd::bytes::lemma_auto_spec_u16_to_from_le_bytes();
        assert((v.enc() + rest).take(2) =~= spec_u16_to_le_bytes(v));
    }
}

impl Encodable for u32 {
    open spec fn wf(&self) -> bool {
        true
    }

    open spec fn enc(&self) -> Seq<u8> {
        spec_u32_to_le_bytes(*self)
    }

    fn encode<W: WriteExtend>(&self, w: &mut W) -> (r: Result<usize, Error>) {
        proof {
            lemma_le_bytes_len();
        }
        let _ = w.output_u32(*self);
        Ok(4)
    }
}

impl Decodable for u32 {
    open spec fn dec(b: Seq<u8>) -> Result<(u32, int), DecodeFault> {
        if b.len() >= 4 {
            Ok((spec_u32_from_le_bytes(b.take(4)), 4))
        } else {
            Err(DecodeFault::Truncated)
        }
    }

    fn decode<R: ReadExtend>(d: &mut R) -> (r: Result<u32, Error>) {
        d.read_u32()
    }

    proof fn lemma_dec_len(b: Seq<u8>) {
    }

    proof fn lemma_dec_enc(v: Self, rest: Seq<u8>) {
        lemma_le_bytes_len();
        vstd::bytes::lemma_auto_spec_u32_to_from_le_bytes();
        assert((v.enc() + rest).take(4) =~= spec_u32_to_le_bytes(v));
    }
}

impl Encodable for u64 {
    open spec fn wf(&self) -> bool {
        true
    }

    open spec fn enc(&self) -> Seq<u8> {
        spec_u64_to_le_bytes(*self)
    }

    fn encode<W: WriteExtend>(&self, w: &mut W) -> (r: Result<usize, Error>) {
        proof {
            lemma_le_bytes_len();
        }
        let _ = w.output_u64(*self);
        Ok(8)
    }
}

impl Decodable for u64 {
    open spec fn dec(b: Seq<u8>) -> Result<(u64, int), DecodeFault> {
        if b.len() >= 8 {
            Ok((spec_u64_from_le_bytes(b.take(8)), 8))
        } else {
            Err(DecodeFault::Truncated)
        }
    }

    fn decode<R: ReadExtend>(d: &mut R) -> (r: Result<u64, Error>) {
        d.read_u64()
    }

    proof fn lemma_dec_len(b: Seq<u8>) {
    }

    proof fn lemma_dec_enc(v: Self, rest: Seq<u8>) {
        lemma_le_bytes_len();
        vstd::bytes::lemma_auto_spec_u64_to_from_le_bytes();
        assert((v.enc() + rest).take(8) =~= spec_u64_to_le_bytes(v));
    }
}

impl Encodable for i16 {
    open spec fn wf(&self) -> bool {
        true
    }

    open spec fn enc(&self) -> Seq<u8> {
        spec_i16_to_le_bytes(*self)
    }

    fn encode<W: WriteExtend>(&self, w: &mut W) -> (r: Result<usize, Error>) {
        proof {
            lemma_le_bytes_len();
        }
        let _ = w.output_i16(*self);
        Ok(2)
    }
}

impl Decodable for i16 {
    open spec fn dec(b: Seq<u8>) -> Result<(i16, int), DecodeFault> {
        if b.len() >= 2 {
            Ok((spec_u16_from_le_bytes(b.take(2)) as i16, 2))
        } else {
            Err(DecodeFault::Truncated)
        }
    }

    fn decode<R: ReadExtend>(d: &mut R) -> (r: Result<i16, Error>) {
        d.read_i16()
    }

    proof fn lemma_dec_len(b: Seq<u8>) {
    }

    proof fn lemma_dec_enc(v: Self, rest: Seq<u8>) {
        lemma_le_bytes_len();
        vstd::bytes::lemma_auto_spec_u16_to_from_le_bytes();
        assert((v.enc() + rest).take(2) =~= spec_i16_to_le_bytes(v));
        assert((v as u16) as i16 == v) by (bit_vector);
    }
}

impl Encodable for i32 {
    open spec fn wf(&self) -> bool {
        true
    }

    open spec fn enc(&self) -> Seq<u8> {
        spec_i32_to_le_bytes(*self)
    }

    fn encode<W: WriteExtend>(&self, w: &mut W) -> (r: Result<usize, Error>) {
        proof {
            lemma_le_bytes_len();
        }
        let _ = w.output_i32(*self);
        Ok(4)
    }
}

impl Decodable for i32 {
    open spec fn dec(b: Seq<u8>) -> Result<(i32, int), DecodeFault> {
        if b.len() >= 4 {
            Ok((spec_u32_from_le_bytes(b.take(4)) as i32, 4))
        } else {
            Err(DecodeFault::Truncated)
        }
    }

    fn decode<R: ReadExtend>(d: &mut R) -> (r: Result<i32, Error>) {
        d.read_i32()
    }

    proof fn lemma_dec_len(b: Seq<u8>) {
    }

    proof fn lemma_dec_enc(v: Self, rest: Seq<u8>) {
        lemma_le_bytes_len();
        vstd::bytes::lemma_auto_spec_u32_to_from_le_bytes();
        assert((v.enc() + rest).take(4) =~= spec_i32_to_le_bytes(v));
        assert((v as u32) as i32 == v) by (bit_vector);
    }
}

impl Encodable for i64 {
    open spec fn wf(&self) -> bool {
        true
    }

    open spec fn enc(&self) -> Seq<u8> {
        spec_i64_to_le_bytes(*self)
    }

    fn encode<W: WriteExtend>(&self, w: &mut W) -> (r: Result<usize, Error>) {
        proof {
            lemma_le_bytes_len();
        }
        let _ = w.output_i64(*self);
        Ok(8)
    }
}

impl Decodable for i64 {
    open spec fn dec(b: Seq<u8>) -> Result<(i64, int), DecodeFault> {
        if b.len() >= 8 {
            Ok((spec_u64_from_le_bytes(b.take(8)) as i64, 8))
        } else {
            Err(DecodeFault::Truncated)
        }
    }

    fn decode<R: ReadExtend>(d: &mut R) -> (r: Result<i64, Error>) {
        d.read_i64()
    }

    proof fn lemma_dec_len(b: Seq<u8>) {
    }

    proof fn lemma_dec_enc(v: Self, rest: Seq<u8>) {
        lemma_le_bytes_len();
        vstd::bytes::lemma_auto_spec_u64_to_from_le_bytes();
        assert((v.enc() + rest).take(8) =~= spec_i64_to_le_bytes(v));
        assert((v as u64) as i64 == v) by (bit_vector);
    }
}


/// Relies on std's `String::from_utf8`: it returns the string whose UTF-8
/// encoding is exactly the given bytes, and nothing when the bytes are not
/// valid UTF-8.
#[verifier::external_body]
fn bytes_to_string(v: Vec<u8>) -> (r: Option<String>)
    ensures
        r is Some <==> vstd::utf8::valid_utf8(v@),
        r matches Some(s) ==> s@ == vstd::utf8::decode_utf8(v@),
{
    match String::from_utf8(v) {
        Ok(s) => Some(s),
        Err(_) => None,
    }
}

impl Encodable for String {
    /// A string whose UTF-8 form is addressable on this machine.
    open spec fn wf(&self) -> bool {
        vstd::utf8::encode_utf8(self@).len() <= usize::MAX
    }

    /// A string goes on the wire as the byte length of its UTF-8 form,
    /// as a varint, followed by that form.
    open spec fn enc(&self) -> Seq<u8> {
        spec_varint_enc(vstd::utf8::encode_utf8(self@).len() as u64) + vstd::utf8::encode_utf8(
            self@,
        )
    }

    fn encode<W: WriteExtend>(&self, w: &mut W) -> (r: Result<usize, Error>) {
        let bs: &[u8] = self.as_str().as_bytes();
        let n: usize = bs.len();
        let len_written = match VarInt(n as u64).encode(w) {
            Ok(k) => k,
            Err(e) => {
                return Err(e);
            },
        };
        let _ = w.output_byte_slice(bs);
        proof {
            lemma_le_bytes_len();
            assert(old(w).sink() + spec_varint_enc(n as u64) + bs@ =~= old(w).sink()
                + self.enc());
        }
        match len_written.checked_add(n) {
            Some(total) => Ok(total),
            None => Err(Error::ErrorEncodeDecode),
        }
    }
}

impl Decodable for String {
    open spec fn dec(b: Seq<u8>) -> Result<(Seq<char>, int), DecodeFault> {
        match spec_varint_dec(b) {
            Ok(p) => {
                let n = p.0.0 as int;
                let m = b.skip(p.1);
                if m.len() < n {
                    Err(DecodeFault::Truncated)
                } else if vstd::utf8::valid_utf8(m.take(n)) {
                    Ok((vstd::utf8::decode_utf8(m.take(n)), p.1 + n))
                } else {
                    Err(DecodeFault::InvalidUtf8)
                }
            },
            Err(f) => Err(f),
        }
    }

    fn decode<R: ReadExtend>(d: &mut R) -> (r: Result<String, Error>) {
        broadcast use vstd::utf8::group_utf8_lib;

        let ghost b = old(d).source();
        let count = match VarInt::decode(d) {
            Ok(v) => v,
            Err(e) => {
                return Err(e);
            },
        };
        proof {
            d.lemma_source_len();
        }
        if count.0 > usize::MAX as u64 {
            return Err(Error::ErrorEncodeDecode);
        }
        let n: usize = count.0 as usize;
        let ghost k = spec_varint_dec(b)->Ok_0.1;
        let bs = match d.read_byte_slice(n) {
            Ok(bs) => bs,
            Err(e) => {
                return Err(e);
            },
        };
        proof {
            assert(b.skip(k).skip(n as int) =~= b.skip(k + n));
        }
        match bytes_to_string(bs) {
            Some(st) => {
                proof {
                    assert(vstd::utf8::encode_utf8(st@) == bs@);
                }
                Ok(st)
            },
            None => Err(Error::ErrorParse("invalid utf-8 string")),
        }
    }

    proof fn lemma_dec_len(b: Seq<u8>) {
        match spec_varint_dec(b) {
            Ok(p) => {
                assert(b.skip(p.1).len() == b.len() - p.1);
            },
            Err(_) => {},
        }
    }

    proof fn lemma_dec_enc(v: Self, rest: Seq<u8>) {
        broadcast use vstd::utf8::group_utf8_lib;

        let u = vstd::utf8::encode_utf8(v@);
        let n = u.len() as u64;
        VarInt::lemma_dec_enc(VarInt(n), u + rest);
        let b = v.enc() + rest;
        assert(b =~= spec_varint_enc(n) + (u + rest));
        let k = spec_varint_dec(b)->Ok_0.1;
        assert(k == spec_varint_enc(n).len());
        assert(b.skip(k) =~= u + rest);
        assert((u + rest).take(u.len() as int) =~= u);
    }
}


/// The concatenated encodings of the values of a sequence, in order.
pub open spec fn seq_enc<T: Encodable>(s: Seq<T>) -> Seq<u8>
    decreases s.len(),
{
    if s.len() == 0 {
        Seq::empty()
    } else {
        s[0].enc() + seq_enc(s.drop_first())
    }
}

/// Decode `n` consecutive values from the front of `b`.
pub open spec fn seq_dec<T: Decodable>(b: Seq<u8>, n: nat) -> Result<
    (Seq<<T as DeepView>::V>, int),
    DecodeFault,
>
    decreases n,
{
    if n == 0 {
        Ok((Seq::empty(), 0))
    } else {
        match T::dec(b) {
            Ok(p) => match seq_dec::<T>(b.skip(p.1), (n - 1) as nat) {
                Ok(q) => Ok((seq![p.0] + q.0, p.1 + q.1)),
                Err(f) => Err(f),
            },
            Err(f) => Err(f),
        }
    }
}

/// Splitting a sequence splits its concatenated encoding.
pub proof fn lemma_seq_enc_split<T: Encodable>(s: Seq<T>, j: int)
    requires
        0 <= j <= s.len(),
    ensures
        seq_enc(s) == seq_enc(s.take(j)) + seq_enc(s.skip(j)),
    decreases j,
{
    if j == 0 {
        assert(s.take(0) =~= Seq::<T>::empty());
        assert(s.skip(0) =~= s);
        assert(seq_enc(s.take(0)) + seq_enc(s.skip(0)) =~= seq_enc(s));
    } else {
        let t = s.drop_first();
        lemma_seq_enc_split(t, j - 1);
        assert(s.take(j)[0] == s[0]);
        assert(s.take(j).drop_first() =~= t.take(j - 1));
        assert(s.skip(j) =~= t.skip(j - 1));
        assert(seq_enc(s.take(j)) == s[0].enc() + seq_enc(t.take(j - 1)));
        assert(seq_enc(s) == s[0].enc() + seq_enc(t));
        assert(s[0].enc() + (seq_enc(t.take(j - 1)) + seq_enc(t.skip(j - 1))) =~= (s[0].enc()
            + seq_enc(t.take(j - 1))) + seq_enc(t.skip(j - 1)));
    }
}

/// Appending one value to a prefix appends its encoding.
pub proof fn lemma_seq_enc_snoc<T: Encodable>(s: Seq<T>, i: int)
    requires
        0 <= i < s.len(),
    ensures
        seq_enc(s.take(i + 1)) == seq_enc(s.take(i)) + s[i].enc(),
{
    lemma_seq_enc_split(s.take(i + 1), i);
    assert(s.take(i + 1).take(i) =~= s.take(i));
    let tail = s.take(i + 1).skip(i);
    assert(tail.len() == 1);
    assert(tail[0] == s[i]);
    assert(tail.drop_first() =~= Seq::<T>::empty());
    assert(seq_enc(Seq::<T>::empty()) == Seq::<u8>::empty());
    assert(seq_enc(tail) == tail[0].enc() + seq_enc(tail.drop_first()));
    assert(s[i].enc() + Seq::<u8>::empty() =~= s[i].enc());
}

/// A successful sequence decode consumes no more than the whole source.
pub proof fn lemma_seq_dec_len<T: Decodable>(b: Seq<u8>, n: nat)
    ensures
        seq_dec::<T>(b, n) matches Ok(q) ==> 0 <= q.1 <= b.len(),
    decreases n,
{
    if n > 0 {
        T::lemma_dec_len(b);
        match T::dec(b) {
            Ok(p) => {
                lemma_seq_dec_len::<T>(b.skip(p.1), (n - 1) as nat);
            },
            Err(_) => {},
        }
    }
}

/// Round trip for sequences: decoding `s.len()` values from the
/// concatenated encodings of `s`, followed by anything, yields the views of
/// `s` and consumes exactly the encodings.
pub proof fn lemma_seq_dec_enc<T: Decodable>(s: Seq<T>, rest: Seq<u8>)
    requires
        forall|i: int| 0 <= i < s.len() ==> (#[trigger] s[i]).wf(),
    ensures
        seq_dec::<T>(seq_enc(s) + rest, s.len() as nat) matches Ok(q) && q.0 == Seq::new(
            s.len(),
            |i: int| s[i].deep_view(),
        ) && q.1 == seq_enc(s).len(),
    decreases s.len(),
{
    if s.len() == 0 {
        assert(seq_dec::<T>(seq_enc(s) + rest, 0) matches Ok(q) && q.0 =~= Seq::new(
            s.len(),
            |i: int| s[i].deep_view(),
        ));
    } else {
        let t = s.drop_first();
        let b = seq_enc(s) + rest;
        assert(b =~= s[0].enc() + (seq_enc(t) + rest));
        T::lemma_dec_enc(s[0], seq_enc(t) + rest);
        let p = T::dec(b)->Ok_0;
        assert(b.skip(p.1) =~= seq_enc(t) + rest);
        assert(forall|i: int| 0 <= i < t.len() ==> (#[trigger] t[i]).wf());
        lemma_seq_dec_enc::<T>(t, rest);
        let q = seq_dec::<T>(b.skip(p.1), t.len() as nat)->Ok_0;
        assert(seq![p.0] + q.0 =~= Seq::new(s.len(), |i: int| s[i].deep_view()));
    }
}

impl<T: Encodable> Encodable for Vec<T> {
    /// A sequence within the protocol's element-count limit, all of whose
    /// elements are well formed.
    open spec fn wf(&self) -> bool {
        self@.len() <= crate::util::constants::MAX_VECTOR_SIZE && (forall|i: int|
            0 <= i < self@.len() ==> (#[trigger] self@[i]).wf())
    }

    /// A sequence goes on the wire as its element count, as a varint,
    /// followed by the elements' encodings in order.
    open spec fn enc(&self) -> Seq<u8> {
        spec_varint_enc(self@.len() as u64) + seq_enc(self@)
    }

    fn encode<W: WriteExtend>(&self, w: &mut W) -> (r: Result<usize, Error>) {
        let ghost s0 = old(w).sink();
        let count = VarInt(self.len() as u64);
        let mut total: usize = match count.encode(w) {
            Ok(k) => k,
            Err(e) => {
                return Err(e);
            },
        };
        let mut i: usize = 0;
        while i < self.len()
            invariant
                i <= self@.len(),
                w.sink() =~= s0 + spec_varint_enc(self@.len() as u64) + seq_enc(
                    self@.take(i as int),
                ),
                total == spec_varint_enc(self@.len() as u64).len() + seq_enc(
                    self@.take(i as int),
                ).len(),
            decreases self@.len() - i,
        {
            proof {
                lemma_seq_enc_snoc(self@, i as int);
                lemma_seq_enc_split(self@, i + 1);
            }
            let n = match self[i].encode(w) {
                Ok(n) => n,
                Err(e) => {
                    return Err(e);
                },
            };
            total = match total.checked_add(n) {
                Some(t) => t,
                None => {
                    return Err(Error::ErrorEncodeDecode);
                },
            };
            i = i + 1;
        }
        proof {
            assert(self@.take(self@.len() as int) =~= self@);
            assert(w.sink() =~= s0 + self.enc());
        }
        Ok(total)
    }
}

impl<T: Decodable> Decodable for Vec<T> {
    open spec fn dec(b: Seq<u8>) -> Result<(Seq<<T as DeepView>::V>, int), DecodeFault> {
        match spec_varint_dec(b) {
            Ok(p) => {
                if p.0.0 > crate::util::constants::MAX_VECTOR_SIZE as u64 {
                    Err(DecodeFault::Oversized)
                } else {
                    match seq_dec::<T>(b.skip(p.1), p.0.0 as nat) {
                        Ok(q) => Ok((q.0, p.1 + q.1)),
                        Err(f) => Err(f),
                    }
                }
            },
            Err(f) => Err(f),
        }
    }

    #[verifier::loop_isolation(false)]
    fn decode<R: ReadExtend>(d: &mut R) -> (r: Result<Vec<T>, Error>) {
        let ghost b = old(d).source();
        let count = match VarInt::decode(d) {
            Ok(v) => v,
            Err(e) => {
                return Err(e);
            },
        };
        proof {
            assert(spec_varint_dec(b) is Ok);
        }
        if count.0 > crate::util::constants::MAX_VECTOR_SIZE as u64 {
            return Err(Error::ErrorParse("oversized vector"));
        }
        let n: usize = count.0 as usize;
        let ghost k = spec_varint_dec(b)->Ok_0.1;
        let ghost m = b.skip(k);
        let mut out: Vec<T> = Vec::new();
        let mut i: usize = 0;
        proof {
            assert(out.deep_view() =~= Seq::<<T as DeepView>::V>::empty());
            assert(d.source() == m);
            assert(m.skip(0) =~= m);
            lemma_seq_dec_len::<T>(m, n as nat);
            match seq_dec::<T>(m, n as nat) {
                Ok(q) => {
                    assert(out.deep_view() + q.0 =~= q.0);
                },
                Err(_) => {},
            }
        }
        while i < n
            invariant
                i <= n,
                n <= crate::util::constants::MAX_VECTOR_SIZE,
                out@.len() == i,
                forall|j: int| 0 <= j < i ==> (#[trigger] out@[j]).wf(),
                seq_dec::<T>(m, n as nat) matches Ok(q) ==> (seq_dec::<T>(
                    d.source(),
                    (n - i) as nat,
                ) matches Ok(q2) && q.0 == out.deep_view() + q2.0 && 0 <= q2.1 <= q.1
                    <= m.len() && d.source() == m.skip(q.1 - q2.1)),
                seq_dec::<T>(m, n as nat) matches Err(f) ==> (seq_dec::<T>(
                    d.source(),
                    (n - i) as nat,
                ) matches Err(f2) && f2 == f),
            decreases n - i,
        {
            let ghost src = d.source();
            proof {
                T::lemma_dec_len(src);
                lemma_seq_dec_len::<T>(src, (n - i) as nat);
                match T::dec(src) {
                    Ok(p) => {
                        lemma_seq_dec_len::<T>(src.skip(p.1), (n - i - 1) as nat);
                    },
                    Err(_) => {},
                }
            }
            let x = match T::decode(d) {
                Ok(x) => x,
                Err(e) => {
                    proof {
                        assert(T::dec(src) is Err);
                        assert((n - i) as nat != 0);
                        assert(seq_dec::<T>(src, (n - i) as nat) == Err::<
                            (Seq<<T as DeepView>::V>, int),
                            DecodeFault,
                        >(T::dec(src)->Err_0));
                        match seq_dec::<T>(m, n as nat) {
                            Ok(q) => {
                                assert(seq_dec::<T>(src, (n - i) as nat) is Ok);
                            },
                            Err(f) => {
                                assert(T::dec(src)->Err_0 == f);
                            },
                        }
                    }
                    return Err(e);
                },
            };
            let ghost out_before = out.deep_view();
            out.push(x);
            i = i + 1;
            proof {
                lemma_seq_dec_len::<T>(m, n as nat);
                assert(out.deep_view() =~= out_before + seq![x.deep_view()]);
                let p = T::dec(src)->Ok_0;
                match seq_dec::<T>(m, n as nat) {
                    Ok(q) => {
                        let q2 = seq_dec::<T>(src, (n - (i - 1)) as nat)->Ok_0;
                        let q3 = seq_dec::<T>(src.skip(p.1), (n - i) as nat)->Ok_0;
                        assert(q2.0 == seq![p.0] + q3.0);
                        assert(q2.1 == p.1 + q3.1);
                        assert(q.0 =~= out.deep_view() + q3.0);
                        assert(m.skip(q.1 - q2.1).skip(p.1) =~= m.skip(q.1 - q3.1));
                    },
                    Err(f) => {
                        assert(seq_dec::<T>(src.skip(p.1), (n - i) as nat) matches Err(f2) && f2
                            == f);
                    },
                }
            }
        }
        proof {
            lemma_seq_dec_len::<T>(m, n as nat);
            match seq_dec::<T>(m, n as nat) {
                Ok(q) => {
                    assert(seq_dec::<T>(d.source(), 0nat) matches Ok(q2) && q2.1 == 0);
                    assert(q.0 =~= out.deep_view() + Seq::<<T as DeepView>::V>::empty());
                    assert(out.deep_view() + Seq::<<T as DeepView>::V>::empty()
                        =~= out.deep_view());
                    assert(m.skip(q.1) =~= b.skip(k + q.1));
                },
                Err(_) => {
                    assert(seq_dec::<T>(d.source(), 0nat) is Ok);
                },
            }
        }
        Ok(out)
    }

    proof fn lemma_dec_len(b: Seq<u8>) {
        match spec_varint_dec(b) {
            Ok(p) => {
                if p.0.0 <= crate::util::constants::MAX_VECTOR_SIZE as u64 {
                    lemma_seq_dec_len::<T>(b.skip(p.1), p.0.0 as nat);
                    assert(b.skip(p.1).len() == b.len() - p.1);
                }
            },
            Err(_) => {},
        }
    }

    proof fn lemma_dec_enc(v: Self, rest: Seq<u8>) {
        let n = v@.len();
        VarInt::lemma_dec_enc(VarInt(n as u64), seq_enc(v@) + rest);
        let b = v.enc() + rest;
        assert(b =~= spec_varint_enc(n as u64) + (seq_enc(v@) + rest));
        let p = spec_varint_dec(b)->Ok_0;
        assert(b.skip(p.1) =~= seq_enc(v@) + rest);
        lemma_seq_dec_enc::<T>(v@, rest);
        assert(v.deep_view() =~= Seq::new(v@.len(), |i: int| v@[i].deep_view()));
    }
}


/// An opaque 32-byte double-hash digest, used for block and transaction
/// identity and as locator and stop values in requests.
#[derive(PartialEq, Eq, Clone, Debug)]
pub struct Sha256dHash {
    /// The digest bytes; exactly 32 in a well-formed hash.
    pub bytes: Vec<u8>,
}

impl Sha256dHash {
    /// Build a hash from its 32 digest bytes; any other length is refused.
    pub fn from_bytes(bytes: Vec<u8>) -> (r: Result<Sha256dHash, Error>)
        ensures
            bytes@.len() == 32 ==> (r matches Ok(h) && h.bytes@ == bytes@ && h.wf()),
            bytes@.len() != 32 ==> (r matches Err(e) && e matches Error::ErrorParse(m) && m@
                == "wrong hash length"@),
    {
        if bytes.len() == 32 {
            Ok(Sha256dHash { bytes })
        } else {
            Err(Error::ErrorParse("wrong hash length"))
        }
    }

    /// The all-zero hash, used as an open-ended stop value.
    pub fn zero() -> (r: Sha256dHash)
        ensures
            r.wf(),
            r.bytes@ == Seq::new(32, |i: int| 0u8),
    {
        let mut bytes: Vec<u8> = Vec::new();
        let mut i: usize = 0;
        while i < 32
            invariant
                i <= 32,
                bytes@ =~= Seq::new(i as nat, |j: int| 0u8),
            decreases 32 - i,
        {
            bytes.push(0);
            i = i + 1;
        }
        proof {
            assert(bytes@ =~= Seq::new(32, |i: int| 0u8));
        }
        Sha256dHash { bytes }
    }
}

impl DeepView for Sha256dHash {
    type V = Seq<u8>;

    open spec fn deep_view(&self) -> Seq<u8> {
        self.bytes@
    }
}

impl Encodable for Sha256dHash {
    /// A hash holds exactly 32 bytes.
    open spec fn wf(&self) -> bool {
        self.bytes@.len() == 32
    }

    /// A hash goes on the wire as its bytes, verbatim, with no length
    /// prefix.
    open spec fn enc(&self) -> Seq<u8> {
        self.bytes@
    }

    fn encode<W: WriteExtend>(&self, w: &mut W) -> (r: Result<usize, Error>) {
        let _ = w.output_byte_slice(self.bytes.as_slice());
        Ok(self.bytes.len())
    }
}

impl Decodable for Sha256dHash {
    open spec fn dec(b: Seq<u8>) -> Result<(Seq<u8>, int), DecodeFault> {
        if b.len() >= 32 {
            Ok((b.take(32), 32))
        } else {
            Err(DecodeFault::Truncated)
        }
    }

    fn decode<R: ReadExtend>(d: &mut R) -> (r: Result<Sha256dHash, Error>) {
        let bytes = match d.read_byte_slice(32) {
            Ok(bytes) => bytes,
            Err(e) => {
                return Err(e);
            },
        };
        Ok(Sha256dHash { bytes })
    }

    proof fn lemma_dec_len(b: Seq<u8>) {
    }

    proof fn lemma_dec_enc(v: Self, rest: Seq<u8>) {
        assert((v.enc() + rest).take(32) =~= v.bytes@);
    }
}


/// Canonicality, rejection half: a magnitude carried in a longer form than
/// it requires — 0xFD-prefixed below 0xFD, 0xFE-prefixed below 0x10000, or
/// 0xFF-prefixed below 0x100000000 — is a non-minimal fault, never a value.
pub proof fn lemma_varint_non_minimal_rejected(b: Seq<u8>)
    requires
        b.len() >= 1,
        (b[0] == 0xFD && b.len() >= 3 && spec_u16_from_le_bytes(b.subrange(1, 3)) < 0xFD) || (b[0]
            == 0xFE && b.len() >= 5 && spec_u32_from_le_bytes(b.subrange(1, 5)) < 0x10000) || (b[0]
            == 0xFF && b.len() >= 9 && spec_u64_from_le_bytes(b.subrange(1, 9)) < 0x100000000),
    ensures
        spec_varint_dec(b) == Err::<(VarInt, int), DecodeFault>(DecodeFault::NonMinimal),
{
}

/// Canonicality, uniqueness half: whatever bytes a magnitude was decoded
/// from, they begin with exactly its canonical shortest encoding — no other
/// byte form decodes to that magnitude.
pub proof fn lemma_varint_canonical(b: Seq<u8>, n: u64, k: int)
    requires
        spec_varint_dec(b) == Ok::<(VarInt, int), DecodeFault>((VarInt(n), k)),
    ensures
        k == spec_varint_enc(n).len(),
        b.take(k) == spec_varint_enc(n),
{
    lemma_le_bytes_len();
    vstd::bytes::lemma_auto_spec_u16_to_from_le_bytes();
    vstd::bytes::lemma_auto_spec_u32_to_from_le_bytes();
    vstd::bytes::lemma_auto_spec_u64_to_from_le_bytes();
    let tag = b[0];
    if tag == 0xFF {
        assert(b.take(9) =~= seq![0xFFu8] + spec_u64_to_le_bytes(spec_u64_from_le_bytes(
            b.subrange(1, 9),
        )));
    } else if tag == 0xFE {
        let x = spec_u32_from_le_bytes(b.subrange(1, 5));
        assert((x as u64) as u32 == x);
        assert(b.take(5) =~= seq![0xFEu8] + spec_u32_to_le_bytes(x));
    } else if tag == 0xFD {
        let x = spec_u16_from_le_bytes(b.subrange(1, 3));
        assert((x as u64) as u16 == x);
        assert(b.take(3) =~= seq![0xFDu8] + spec_u16_to_le_bytes(x));
    } else {
        assert((tag as u64) as u8 == tag);
        assert(b.take(1) =~= seq![tag]);
    }
}

} // verus!
