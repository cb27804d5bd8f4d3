//! Block-header validation: the target check and the proof-of-work
//! inequality.
//!
//! Both checks are pure functions of already-decoded data.  The expected
//! target comes from an external consensus-rules collaborator; the header's
//! identifying hash is computed by that collaborator as well and handed in
//! as a value.

use vstd::prelude::*;

verus! {

use crate::blockdata::error::Error;
use crate::consensus::encode::Encodable;
use crate::consensus::encode::Sha256dHash;

/// The number a byte sequence denotes when read as a little-endian big
/// number: the byte at index `i` carries weight 256 to the power `i`.
pub open spec fn spec_le_number(b: Seq<u8>) -> nat
    decreases b.len(),
{
    if b.len() == 0 {
        0
    } else {
        (b[0] as nat) + 256 * spec_le_number(b.drop_first())
    }
}

/// 256 to the power `n`.
pub open spec fn pow256(n: nat) -> nat
    decreases n,
{
    if n == 0 {
        1nat
    } else {
        256 * pow256((n - 1) as nat)
    }
}

/// Powers of 256 are positive.
pub proof fn lemma_pow256_pos(n: nat)
    ensures
        pow256(n) >= 1,
    decreases n,
{
    if n > 0 {
        lemma_pow256_pos((n - 1) as nat);
    }
}

/// A sequence's number is below 256 to the power of its length.
pub proof fn lemma_le_number_bound(b: Seq<u8>)
    ensures
        spec_le_number(b) < pow256(b.len()),
    decreases b.len(),
{
    if b.len() == 0 {
    } else {
        let d = b.drop_first();
        lemma_le_number_bound(d);
        assert((b[0] as nat) + 256 * spec_le_number(d) < 256 * pow256(d.len())) by (nonlinear_arith)
            requires
                b[0] < 256,
                spec_le_number(d) < pow256(d.len()),
        ;
    }
}

/// Splitting a sequence splits its number: the low part keeps its weight
/// and the high part is scaled by 256 to the power of the split point.
pub proof fn lemma_le_number_split(b: Seq<u8>, i: int)
    requires
        0 <= i <= b.len(),
    ensures
        spec_le_number(b) == spec_le_number(b.take(i)) + pow256(i as nat) * spec_le_number(
            b.skip(i),
        ),
    decreases i,
{
    if i == 0 {
        assert(b.take(0) =~= Seq::<u8>::empty());
        assert(b.skip(0) =~= b);
        assert(spec_le_number(b.take(0)) == 0);
        assert(pow256(0) == 1);
        assert(1 * spec_le_number(b) == spec_le_number(b)) by (nonlinear_arith);
    } else {
        let d = b.drop_first();
        lemma_le_number_split(d, i - 1);
        assert(b.take(i).drop_first() =~= d.take(i - 1));
        assert(b.skip(i) =~= d.skip(i - 1));
        assert(b.take(i)[0] == b[0]);
        let u = spec_le_number(d.take(i - 1));
        let q = pow256((i - 1) as nat);
        let x = spec_le_number(d.skip(i - 1));
        assert(spec_le_number(b) == (b[0] as nat) + 256 * (u + q * x));
        assert(spec_le_number(b.take(i)) == (b[0] as nat) + 256 * u);
        assert(256 * (u + q * x) == 256 * u + (256 * q) * x) by (nonlinear_arith);
        assert(pow256(i as nat) == 256 * q);
        assert(pow256(i as nat) * x == (256 * q) * x) by (nonlinear_arith)
            requires
                pow256(i as nat) == 256 * q,
        ;
        assert(spec_le_number(b) == (b[0] as nat) + 256 * (u + q * x));
    }
}

/// The number of the suffix from `i` is its first byte plus 256 times the
/// number of the suffix from `i + 1`.
pub proof fn lemma_le_number_suffix_step(b: Seq<u8>, i: int)
    requires
        0 <= i < b.len(),
    ensures
        spec_le_number(b.skip(i)) == (b[i] as nat) + 256 * spec_le_number(b.skip(i + 1)),
{
    assert(b.skip(i)[0] == b[i]);
    assert(b.skip(i).drop_first() =~= b.skip(i + 1));
}

/// If two equal-length sequences agree above position `i` and differ in
/// favour of the second at `i`, the second denotes the larger number.
pub proof fn lemma_le_number_lt(x: Seq<u8>, y: Seq<u8>, i: int)
    requires
        x.len() == y.len(),
        0 <= i < x.len(),
        x[i] < y[i],
        spec_le_number(x.skip(i + 1)) == spec_le_number(y.skip(i + 1)),
    ensures
        spec_le_number(x) < spec_le_number(y),
{
    lemma_le_number_suffix_step(x, i);
    lemma_le_number_suffix_step(y, i);
    lemma_le_number_split(x, i);
    lemma_le_number_split(y, i);
    lemma_le_number_bound(x.take(i));
    lemma_pow256_pos(i as nat);
    let a = spec_le_number(x.take(i));
    let b2 = spec_le_number(y.take(i));
    let p = pow256(i as nat);
    let sx = spec_le_number(x.skip(i));
    let sy = spec_le_number(y.skip(i));
    assert(x.take(i).len() == i);
    assert(sx + 1 <= sy);
    assert(a + p * sx < b2 + p * sy) by (nonlinear_arith)
        requires
            a < p,
            sx + 1 <= sy,
            p >= 1,
            b2 >= 0,
    ;
}

/// Is the number denoted by `a` strictly below the number denoted by `b`?
/// Both are read little-endian, so the comparison walks from the most
/// significant byte down.
pub fn le_number_less(a: &Vec<u8>, b: &Vec<u8>) -> (r: bool)
    requires
        a@.len() == b@.len(),
    ensures
        r == (spec_le_number(a@) < spec_le_number(b@)),
{
    let mut i: usize = a.len();
    while i > 0
        invariant
            i <= a@.len(),
            a@.len() == b@.len(),
            spec_le_number(a@.skip(i as int)) == spec_le_number(b@.skip(i as int)),
        decreases i,
    {
        i = i - 1;
        if a[i] < b[i] {
            proof {
                lemma_le_number_lt(a@, b@, i as int);
            }
            return true;
        }
        if a[i] > b[i] {
            proof {
                lemma_le_number_lt(b@, a@, i as int);
            }
            return false;
        }
        proof {
            lemma_le_number_suffix_step(a@, i as int);
            lemma_le_number_suffix_step(b@, i as int);
        }
    }
    proof {
        assert(a@.skip(0) =~= a@);
        assert(b@.skip(0) =~= b@);
    }
    false
}

/// Are two byte vectors equal, byte for byte?
fn bytes_eq(a: &Vec<u8>, b: &Vec<u8>) -> (r: bool)
    ensures
        r == (a@ == b@),
{
    if a.len() != b.len() {
        return false;
    }
    let mut i: usize = 0;
    while i < a.len()
        invariant
            i <= a@.len(),
            a@.len() == b@.len(),
            forall|j: int| 0 <= j < i ==> a@[j] == b@[j],
        decreases a@.len() - i,
    {
        if a[i] != b[i] {
            return false;
        }
        i = i + 1;
    }
    proof {
        assert(a@ =~= b@);
    }
    true
}

/// Validate a decoded block header against the expected target.
///
/// The header's target field must equal the expected target supplied by
/// the consensus-rules collaborator — checked first — and the header's
/// identifying hash, read as a big number, must lie strictly below the
/// target threshold.
pub fn validate_block_header(
    header_hash: &Sha256dHash,
    header_target: &Sha256dHash,
    expected_target: &Sha256dHash,
) -> (r: Result<(), Error>)
    requires
        header_hash.wf(),
        header_target.wf(),
    ensures
        header_target.bytes@ != expected_target.bytes@ ==> (r matches Err(e) && e
            is BlockTargetError),
        header_target.bytes@ == expected_target.bytes@ && spec_le_number(header_hash.bytes@)
            < spec_le_number(header_target.bytes@) ==> r is Ok,
        header_target.bytes@ == expected_target.bytes@ && spec_le_number(header_hash.bytes@)
            >= spec_le_number(header_target.bytes@) ==> (r matches Err(e) && e
            is BlockProofOfWorkError),
{
    if !bytes_eq(&header_target.bytes, &expected_target.bytes) {
        return Err(Error::BlockTargetError);
    }
    if le_number_less(&header_hash.bytes, &header_target.bytes) {
        Ok(())
    } else {
        Err(Error::BlockProofOfWorkError)
    }
}

} // verus!
