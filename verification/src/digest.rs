//! SHA-256 digests of monitor state: the whole-state hash preimage and the
//! domain-separated observable digest of a report stream and serial banner.

use vstd::prelude::*;
use sha2::Digest;
use crate::text::append;

verus! {

/// SHA-256 of `data`.
pub uninterp spec fn sha256_spec(data: Seq<u8>) -> Seq<u8>;

/// Hashes `data` with `sha2::Sha256::digest`.
///
/// Trusted: the result is SHA-256 of exactly the bytes given, a function of
/// them alone; its value is left to the name [`sha256_spec`].
#[verifier::external_body]
pub(crate) fn sha256(data: &[u8]) -> (r: [u8; 32])
    ensures
        r@ == sha256_spec(data@),
{
    sha2::Sha256::digest(data).into()
}

/// The little-endian bytes of `v`.
pub open spec fn le64(v: u64) -> Seq<u8> {
    Seq::new(8, |i: int| ((v as nat / pow256(i as nat)) % 256) as u8)
}

pub open spec fn pow256(k: nat) -> nat
    decreases k,
{
    if k == 0 {
        1
    } else {
        256 * pow256((k - 1) as nat)
    }
}

/// Appends the little-endian bytes of `v`.
pub fn push_u64_le(out: &mut Vec<u8>, v: u64)
    ensures
        final(out)@ == old(out)@ + le64(v),
{
    let mut x = v;
    let mut k: usize = 0;
    let ghost start = out@;
    assert(pow256(0) == 1);
    while k < 8
        invariant
            k <= 8,
            x as nat == v as nat / pow256(k as nat),
            out@ == start + le64(v).subrange(0, k as int),
        decreases 8 - k,
    {
        out.push((x % 256) as u8);
        proof {
            assert(pow256((k + 1) as nat) == 256 * pow256(k as nat));
            assert(pow256(k as nat) > 0) by {
                lemma_pow256_pos(k as nat);
            }
            vstd::arithmetic::div_mod::lemma_div_denominator(v as int, pow256(k as nat) as int, 256);
        }
        x = x / 256;
        k = k + 1;
        assert(out@ =~= start + le64(v).subrange(0, k as int));
    }
    assert(le64(v).subrange(0, 8) =~= le64(v));
}

/// Every power of 256 is positive.
pub proof fn lemma_pow256_pos(k: nat)
    ensures
        pow256(k) > 0,
    decreases k,
{
    if k > 0 {
        lemma_pow256_pos((k - 1) as nat);
    }
}

/// The little-endian bytes of each value, concatenated.
pub open spec fn le32_stream(vs: Seq<u32>) -> Seq<u8>
    decreases vs.len(),
{
    if vs.len() == 0 {
        Seq::empty()
    } else {
        le32_stream(vs.drop_last()) + le64(vs.last() as u64).subrange(0, 4)
    }
}

/// The whole-state hash preimage: `MEM\0`, the memory length, the memory,
/// then the state suffix.
pub open spec fn state_blob_preimage(memory: Seq<u8>, suffix: Seq<u8>) -> Seq<u8> {
    seq![77u8, 69u8, 77u8, 0u8] + le64(memory.len() as u64) + memory + suffix
}

/// The observable-digest preimage: `OBSV`, the report count, each report
/// dword little-endian, the serial length, and the serial bytes.
pub open spec fn observable_preimage(reports: Seq<u32>, serial: Seq<u8>) -> Seq<u8> {
    seq![79u8, 66u8, 83u8, 86u8] + le64(reports.len() as u64) + le32_stream(reports) + le64(
        serial.len() as u64,
    ) + serial
}

/// The whole-state hash over guest memory and the non-memory state suffix.
pub fn hash_state_blob_parts(memory: &[u8], suffix: &[u8]) -> (r: [u8; 32])
    ensures
        r@ == sha256_spec(state_blob_preimage(memory@, suffix@)),
{
    let mut pre: Vec<u8> = Vec::new();
    pre.push(77u8);
    pre.push(69u8);
    pre.push(77u8);
    pre.push(0u8);
    push_u64_le(&mut pre, memory.len() as u64);
    append(&mut pre, memory);
    append(&mut pre, suffix);
    assert(pre@ =~= state_blob_preimage(memory@, suffix@));
    sha256(pre.as_slice())
}

/// The domain-separated digest of an ordered report stream and a serial
/// banner.
pub fn observable_digest_of(report_stream: &[u32], serial: &[u8]) -> (r: [u8; 32])
    ensures
        r@ == sha256_spec(observable_preimage(report_stream@, serial@)),
{
    let mut pre: Vec<u8> = Vec::new();
    pre.push(79u8);
    pre.push(66u8);
    pre.push(83u8);
    pre.push(86u8);
    push_u64_le(&mut pre, report_stream.len() as u64);
    let ghost head = pre@;
    let n = report_stream.len();
    let mut i: usize = 0;
    while i < n
        invariant
            n == report_stream@.len(),
            i <= n,
            pre@ == head + le32_stream(report_stream@.subrange(0, i as int)),
        decreases n - i,
    {
        let v = report_stream[i];
        let mut word: Vec<u8> = Vec::new();
        push_u64_le(&mut word, v as u64);
        let w0 = word[0];
        let w1 = word[1];
        let w2 = word[2];
        let w3 = word[3];
        pre.push(w0);
        pre.push(w1);
        pre.push(w2);
        pre.push(w3);
        i = i + 1;
        assert(report_stream@.subrange(0, i as int).drop_last() =~= report_stream@.subrange(
            0,
            i - 1,
        ));
        assert(pre@ =~= head + le32_stream(report_stream@.subrange(0, i as int)));
    }
    assert(report_stream@.subrange(0, n as int) =~= report_stream@);
    push_u64_le(&mut pre, serial.len() as u64);
    append(&mut pre, serial);
    assert(pre@ =~= observable_preimage(report_stream@, serial@));
    sha256(pre.as_slice())
}

} // verus!
