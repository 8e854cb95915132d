//! The identity of an image: a number made of the MD5 digest of its bytes.

use vstd::prelude::*;

verus! {

/// The MD5 digest of `data`.
pub uninterp spec fn md5_digest(data: Seq<u8>) -> Seq<u8>;

/// `md5::compute`. The contract claims that the sixteen bytes it returns are
/// a function of the data alone, and gives that function its name.
#[verifier::external_body]
fn md5_compute(data: &[u8]) -> (digest: [u8; 16])
    ensures
        digest@ == md5_digest(data@),
{
    md5::compute(data).0
}

/// The number whose byte `i`, counted from the least significant, is
/// `bytes[i]`: byte `i` takes the bits from `8 * i` up to `8 * i + 8`.
pub open spec fn little_endian(bytes: Seq<u8>) -> nat
    decreases bytes.len(),
{
    if bytes.len() == 0 {
        0
    } else {
        bytes[0] as nat + 256 * little_endian(bytes.drop_first())
    }
}

/// The identity of a file with the given content.
pub open spec fn content_hash(data: Seq<u8>) -> nat {
    little_endian(md5_digest(data))
}

/// 256 to the power `k`.
spec fn pow256(k: nat) -> nat
    decreases k,
{
    if k == 0 {
        1
    } else {
        256 * pow256((k - 1) as nat)
    }
}

proof fn lemma_pow256_grows(j: nat, k: nat)
    requires
        j <= k,
    ensures
        pow256(j) <= pow256(k),
    decreases k,
{
    if j < k {
        lemma_pow256_grows(j, (k - 1) as nat);
    }
}

proof fn lemma_pow256_sixteen()
    ensures
        pow256(16) == 0x1_0000_0000_0000_0000_0000_0000_0000_0000,
{
    reveal_with_fuel(pow256, 17);
}

/// The number that a digest stands for.
pub fn hash_of_digest(digest: &[u8; 16]) -> (h: u128)
    ensures
        h == little_endian(digest@),
{
    let mut h: u128 = 0;
    let mut i: usize = 16;
    assert(digest@.skip(16) =~= Seq::<u8>::empty());
    while i > 0
        invariant
            i <= 16,
            digest@.len() == 16,
            h == little_endian(digest@.skip(i as int)),
            h < pow256((16 - i) as nat),
        decreases i,
    {
        i -= 1;
        proof {
            assert(digest@.skip(i as int).drop_first() =~= digest@.skip(i + 1));
            assert(digest@.skip(i as int)[0] == digest@[i as int]);
            lemma_pow256_grows((16 - i) as nat, 16);
            lemma_pow256_sixteen();
            assert(pow256((16 - i) as nat) == 256 * pow256((15 - i) as nat));
        }
        h = h * 256 + digest[i] as u128;
    }
    assert(digest@.skip(0) =~= digest@);
    h
}

/// The identity of a file with the given content.
pub fn file_md5(content: &[u8]) -> (h: u128)
    ensures
        h == content_hash(content@),
{
    let digest: [u8; 16] = md5_compute(content);
    hash_of_digest(&digest)
}

} // verus!
