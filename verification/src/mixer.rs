//! The byte mixer: fixed-length XOR of two equal-size buffers into a third.

use vstd::prelude::*;

verus! {

use vstd::pervasive::VecAdditionalExecFns;

/// Byte-wise XOR of two equal-length byte sequences.
pub open spec fn xor_seq(a: Seq<u8>, b: Seq<u8>) -> Seq<u8>
    recommends
        a.len() == b.len(),
{
    Seq::new(a.len(), |i: int| a[i] ^ b[i])
}

/// XOR two equal-length byte buffers into the output buffer, which must
/// already have the same length.
pub fn xor_buffers(a: &Vec<u8>, b: &Vec<u8>, output: &mut Vec<u8>)
    requires
        a.len() == b.len(),
        old(output).len() == a.len(),
    ensures
        final(output)@ == xor_seq(a@, b@),
{
    let n = a.len();
    let mut i: usize = 0;
    while i < n
        invariant
            n == a.len(),
            a.len() == b.len(),
            output.len() == a.len(),
            i <= n,
            forall|j: int| 0 <= j < i ==> output@[j] == (a@[j] ^ b@[j]),
        decreases n - i,
    {
        let v = a[i] ^ b[i];
        output.set(i, v);
        i = i + 1;
    }
    assert(output@ =~= xor_seq(a@, b@));
}

/// Mixing is commutative: the order of the two inputs does not matter.
pub proof fn lemma_mix_commutes(a: Seq<u8>, b: Seq<u8>)
    requires
        a.len() == b.len(),
    ensures
        xor_seq(a, b) == xor_seq(b, a),
{
    assert forall|i: int| 0 <= i < a.len() implies xor_seq(a, b)[i] == xor_seq(b, a)[i] by {
        let x = a[i];
        let y = b[i];
        assert((x ^ y) == (y ^ x)) by (bit_vector);
    }
    assert(xor_seq(a, b) =~= xor_seq(b, a));
}

/// Mixing is self-inverse: mixing the mix with either input recovers the
/// other input, and the mix has the inputs' common length.
pub proof fn lemma_mix_self_inverse(a: Seq<u8>, b: Seq<u8>)
    requires
        a.len() == b.len(),
    ensures
        xor_seq(a, b).len() == a.len(),
        xor_seq(xor_seq(a, b), b) == a,
        xor_seq(xor_seq(a, b), a) == b,
{
    assert forall|i: int| 0 <= i < a.len() implies xor_seq(xor_seq(a, b), b)[i] == a[i] by {
        let x = a[i];
        let y = b[i];
        assert(((x ^ y) ^ y) == x) by (bit_vector);
    }
    assert(xor_seq(xor_seq(a, b), b) =~= a);
    assert forall|i: int| 0 <= i < a.len() implies xor_seq(xor_seq(a, b), a)[i] == b[i] by {
        let x = a[i];
        let y = b[i];
        assert(((x ^ y) ^ x) == y) by (bit_vector);
    }
    assert(xor_seq(xor_seq(a, b), a) =~= b);
}

} // verus!
