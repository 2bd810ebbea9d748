//! Decoding of the integer payloads that clients send.

use vstd::prelude::*;

verus! {

/// The number that bytes spell in big-endian order.
pub open spec fn be_value(s: Seq<u8>) -> nat
    decreases s.len(),
{
    if s.len() == 0 {
        0
    } else {
        be_value(s.drop_last()) * 256 + s.last() as nat
    }
}

/// `256` to the power `n`.
pub open spec fn pow256(n: nat) -> nat
    decreases n,
{
    if n == 0 {
        1
    } else {
        pow256((n - 1) as nat) * 256
    }
}

/// Reads an unsigned 64-bit integer from exactly eight big-endian bytes;
/// `None` for any other length.
pub fn decode_u64_be(bytes: &Vec<u8>) -> (r: Option<u64>)
    ensures
        match r {
            Some(v) => bytes@.len() == 8 && v == be_value(bytes@),
            None => bytes@.len() != 8,
        },
{
    if bytes.len() != 8 {
        return None;
    }
    let mut acc: u64 = 0;
    let mut i: usize = 0;
    proof {
        reveal_with_fuel(pow256, 9);
        assert(bytes@.take(0) =~= Seq::<u8>::empty());
    }
    while i < 8
        invariant
            i <= 8,
            bytes@.len() == 8,
            acc == be_value(bytes@.take(i as int)),
            acc < pow256(i as nat),
            pow256(8) == 0x1_0000_0000_0000_0000,
        decreases 8 - i,
    {
        let b = bytes[i];
        proof {
            let p = pow256(i as nat);
            assert(acc * 256 + b < p * 256) by (nonlinear_arith)
                requires
                    acc < p,
                    b < 256,
            ;
            assert(pow256((i + 1) as nat) == p * 256);
            lemma_pow256_mono((i + 1) as nat, 8);
            assert(bytes@.take(i + 1).drop_last() =~= bytes@.take(i as int));
        }
        acc = acc * 256 + b as u64;
        i = i + 1;
    }
    assert(bytes@.take(8) =~= bytes@);
    Some(acc)
}

pub proof fn lemma_pow256_mono(a: nat, b: nat)
    requires
        a <= b,
    ensures
        pow256(a) <= pow256(b),
    decreases b - a,
{
    if a < b {
        lemma_pow256_mono(a, (b - 1) as nat);
        assert(pow256(b) == pow256((b - 1) as nat) * 256);
    }
}

} // verus!
