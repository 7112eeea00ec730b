//! The three consumers of the byte mixer: the splitter, the verifier (full
//! and sampled) and the combiner, all working over in-memory byte streams in
//! fixed-size chunks.

use vstd::prelude::*;

verus! {

use crate::SplinchError;
use crate::chunks::{CHUNK_SIZE, copy_chunk, zero_buffer, bytes_eq};
use crate::entropy::{random_bytes, random_u64};
use crate::mixer::{xor_seq, xor_buffers, lemma_mix_commutes, lemma_mix_self_inverse};

/// Files at most this long are verified in full; longer ones are sampled.
pub const VERIFY_FULL_THRESHOLD: usize = 10 * 1024 * 1024;

/// `pad` and `masked` are a faithful split of `orig`: all three have the
/// same length and the two parts mix back to the original at every offset.
pub open spec fn is_valid_split(orig: Seq<u8>, pad: Seq<u8>, masked: Seq<u8>) -> bool {
    &&& pad.len() == orig.len()
    &&& masked.len() == orig.len()
    &&& forall|i: int| 0 <= i < orig.len() ==> orig[i] == (pad[i] ^ masked[i])
}

/// End of the chunk that starts at `off` in a stream of length `len`.
pub open spec fn chunk_end(len: int, off: int) -> int {
    if off + CHUNK_SIZE <= len {
        off + CHUNK_SIZE
    } else {
        len
    }
}

/// The chunk starting at `off` mixes back to the original.
pub open spec fn chunk_matches(orig: Seq<u8>, pad: Seq<u8>, masked: Seq<u8>, off: int) -> bool {
    forall|i: int| off <= i < chunk_end(orig.len() as int, off) ==> orig[i] == (pad[i] ^ masked[i])
}

/// Start of the last full chunk of a stream of length `len`.
pub open spec fn last_chunk_offset(len: int) -> int {
    if len >= CHUNK_SIZE {
        len - CHUNK_SIZE
    } else {
        0
    }
}

/// Masking with a pad yields a faithful split.
pub proof fn lemma_split_is_valid(input: Seq<u8>, pad: Seq<u8>)
    requires
        pad.len() == input.len(),
    ensures
        is_valid_split(input, pad, xor_seq(input, pad)),
{
    let masked = xor_seq(input, pad);
    assert forall|i: int| 0 <= i < input.len() implies input[i] == (pad[i] ^ masked[i]) by {
        let x = input[i];
        let y = pad[i];
        assert((y ^ (x ^ y)) == x) by (bit_vector);
    }
}

/// Round trip: combining the two parts of a split restores the input.
pub proof fn lemma_split_combine_round_trip(input: Seq<u8>, pad: Seq<u8>, masked: Seq<u8>)
    requires
        pad.len() == input.len(),
        masked == xor_seq(input, pad),
    ensures
        xor_seq(pad, masked) == input,
{
    lemma_mix_self_inverse(input, pad);
    lemma_mix_commutes(pad, masked);
}

/// Altering a single masked byte breaks the split.
pub proof fn lemma_detects_masked_flip(
    orig: Seq<u8>,
    pad: Seq<u8>,
    masked: Seq<u8>,
    j: int,
    v: u8,
)
    requires
        is_valid_split(orig, pad, masked),
        0 <= j < orig.len(),
        v != masked[j],
    ensures
        !is_valid_split(orig, pad, masked.update(j, v)),
{
    let x = pad[j];
    let y = masked[j];
    assert(y != v ==> (x ^ y) != (x ^ v)) by (bit_vector);
    assert(orig[j] != (pad[j] ^ masked.update(j, v)[j]));
}

/// Altering a single pad byte breaks the split.
pub proof fn lemma_detects_pad_flip(orig: Seq<u8>, pad: Seq<u8>, masked: Seq<u8>, j: int, v: u8)
    requires
        is_valid_split(orig, pad, masked),
        0 <= j < orig.len(),
        v != pad[j],
    ensures
        !is_valid_split(orig, pad.update(j, v), masked),
{
    let x = pad[j];
    let y = masked[j];
    assert(x != v ==> (x ^ y) != (v ^ y)) by (bit_vector);
    assert(orig[j] != (pad.update(j, v)[j] ^ masked[j]));
}

/// Split a byte stream into two XOR-complementary parts.
///
/// The first part is fresh random bytes; the second is the input masked with
/// the first. Both have the input's length, and mixing them restores the
/// input.
pub fn split_file(input: &Vec<u8>) -> (r: (Vec<u8>, Vec<u8>))
    ensures
        r.0.len() == input.len(),
        r.1.len() == input.len(),
        r.1@ == xor_seq(input@, r.0@),
        xor_seq(r.0@, r.1@) == input@,
{
    let mut pad: Vec<u8> = Vec::new();
    let mut masked: Vec<u8> = Vec::new();
    let mut off: usize = 0;
    while off < input.len()
        invariant
            off <= input.len(),
            pad.len() == off,
            masked.len() == off,
            forall|j: int| 0 <= j < off ==> masked@[j] == (input@[j] ^ pad@[j]),
        decreases input.len() - off,
    {
        let rem = input.len() - off;
        let clen = if rem < CHUNK_SIZE {
            rem
        } else {
            CHUNK_SIZE
        };
        let input_chunk = copy_chunk(input, off, clen);
        let mut pad_chunk = random_bytes(clen);
        let mut masked_chunk = zero_buffer(clen);
        xor_buffers(&input_chunk, &pad_chunk, &mut masked_chunk);
        pad.append(&mut pad_chunk);
        masked.append(&mut masked_chunk);
        off = off + clen;
    }
    assert(masked@ =~= xor_seq(input@, pad@));
    proof {
        lemma_split_combine_round_trip(input@, pad@, masked@);
    }
    (pad, masked)
}

/// Check that the chunk starting at `off` mixes back to the original.
fn chunk_ok(original: &Vec<u8>, pad: &Vec<u8>, masked: &Vec<u8>, off: usize) -> (r: bool)
    requires
        pad.len() == original.len(),
        masked.len() == original.len(),
        off <= original.len(),
    ensures
        r == chunk_matches(original@, pad@, masked@, off as int),
{
    let rem = original.len() - off;
    let clen = if rem < CHUNK_SIZE {
        rem
    } else {
        CHUNK_SIZE
    };
    let orig_chunk = copy_chunk(original, off, clen);
    let pad_chunk = copy_chunk(pad, off, clen);
    let masked_chunk = copy_chunk(masked, off, clen);
    let mut recombined = zero_buffer(clen);
    xor_buffers(&pad_chunk, &masked_chunk, &mut recombined);
    let r = bytes_eq(&recombined, &orig_chunk);
    proof {
        assert(chunk_end(original@.len() as int, off as int) == off + clen);
        if r {
            assert forall|i: int|
                off <= i < chunk_end(original@.len() as int, off as int) implies original@[i] == (
            pad@[i] ^ masked@[i]) by {
                assert(recombined@[i - off] == orig_chunk@[i - off]);
            }
        } else {
            if chunk_matches(original@, pad@, masked@, off as int) {
                assert forall|j: int| 0 <= j < clen implies recombined@[j] == orig_chunk@[j] by {
                    assert(original@[off + j] == (pad@[off + j] ^ masked@[off + j]));
                }
                assert(recombined@ =~= orig_chunk@);
            }
        }
    }
    r
}

/// Full verification: every chunk of the two parts mixes back to the
/// original. Returns `true` exactly when the three streams form a faithful
/// split.
pub fn verify_full(original: &Vec<u8>, pad: &Vec<u8>, masked: &Vec<u8>) -> (r: bool)
    ensures
        r == is_valid_split(original@, pad@, masked@),
{
    if pad.len() != original.len() || masked.len() != original.len() {
        return false;
    }
    let mut off: usize = 0;
    while off < original.len()
        invariant
            pad.len() == original.len(),
            masked.len() == original.len(),
            off <= original.len(),
            forall|i: int| 0 <= i < off ==> original@[i] == (pad@[i] ^ masked@[i]),
        decreases original.len() - off,
    {
        if !chunk_ok(original, pad, masked, off) {
            return false;
        }
        let rem = original.len() - off;
        let clen = if rem < CHUNK_SIZE {
            rem
        } else {
            CHUNK_SIZE
        };
        off = off + clen;
    }
    true
}

/// Does a byte vector contain the given value?
fn contains_usize(v: &Vec<usize>, x: usize) -> (r: bool)
    ensures
        r == v@.contains(x),
{
    let mut i: usize = 0;
    while i < v.len()
        invariant
            i <= v.len(),
            forall|j: int| 0 <= j < i ==> v@[j] != x,
        decreases v.len() - i,
    {
        if v[i] == x {
            return true;
        }
        i = i + 1;
    }
    false
}

/// Sampled verification: sizes are checked in full, then the first chunk,
/// the last full chunk and up to eight random interior chunks are re-derived
/// and compared. A faithful split always passes; a pass guarantees equal
/// sizes and matching first and last chunks, but corruption outside the
/// sampled offsets can go undetected.
pub fn verify_sampled(original: &Vec<u8>, pad: &Vec<u8>, masked: &Vec<u8>) -> (r: bool)
    ensures
        is_valid_split(original@, pad@, masked@) ==> r,
        r ==> pad.len() == original.len() && masked.len() == original.len(),
        r ==> chunk_matches(original@, pad@, masked@, 0),
        r ==> chunk_matches(original@, pad@, masked@, last_chunk_offset(original.len() as int)),
{
    if pad.len() != original.len() || masked.len() != original.len() {
        return false;
    }
    let len = original.len();
    let last_off = if len >= CHUNK_SIZE {
        len - CHUNK_SIZE
    } else {
        0
    };
    assert(last_off as int == last_chunk_offset(len as int));
    let mut offsets: Vec<usize> = Vec::new();
    offsets.push(0);
    if last_off != 0 {
        offsets.push(last_off);
    }
    let interior = if len > CHUNK_SIZE {
        len - CHUNK_SIZE
    } else {
        0
    };
    if interior > 0 {
        let mut tries: usize = 0;
        while offsets.len() < 10 && tries < 64
            invariant
                0 < interior <= len,
                offsets.len() >= 1,
                offsets@[0] == 0usize,
                last_off != 0 ==> offsets.len() >= 2 && offsets@[1] == last_off,
                forall|j: int| 0 <= j < offsets.len() ==> offsets@[j] <= len,
            decreases 64 - tries,
        {
            let d = random_u64();
            let m = d % (interior as u64);
            assert(m < interior as u64);
            let draw = m as usize;
            assert(draw < interior);
            if !contains_usize(&offsets, draw) {
                offsets.push(draw);
            }
            tries = tries + 1;
        }
    }
    let mut k: usize = 0;
    while k < offsets.len()
        invariant
            pad.len() == original.len(),
            masked.len() == original.len(),
            len == original.len(),
            k <= offsets.len(),
            offsets.len() >= 1,
            offsets@[0] == 0usize,
            last_off as int == last_chunk_offset(len as int),
            last_off != 0 ==> offsets.len() >= 2 && offsets@[1] == last_off,
            forall|j: int| 0 <= j < offsets.len() ==> offsets@[j] <= len,
            forall|j: int|
                0 <= j < k ==> chunk_matches(original@, pad@, masked@, offsets@[j] as int),
        decreases offsets.len() - k,
    {
        if !chunk_ok(original, pad, masked, offsets[k]) {
            return false;
        }
        k = k + 1;
    }
    assert(chunk_matches(original@, pad@, masked@, 0));
    proof {
        if last_off != 0 {
            assert(chunk_matches(original@, pad@, masked@, offsets@[1] as int));
        }
    }
    true
}

/// Does a file of this size get full verification?
pub fn uses_full_verification(file_size: usize) -> (r: bool)
    ensures
        r == (file_size <= VERIFY_FULL_THRESHOLD),
{
    file_size <= VERIFY_FULL_THRESHOLD
}

/// Verify that mixing the two parts reproduces the original: in full for
/// originals up to the threshold, by sampling above it.
pub fn verify_files(original: &Vec<u8>, pad: &Vec<u8>, masked: &Vec<u8>) -> (r: bool)
    ensures
        original.len() <= VERIFY_FULL_THRESHOLD ==> r == is_valid_split(
            original@,
            pad@,
            masked@,
        ),
        is_valid_split(original@, pad@, masked@) ==> r,
        r ==> pad.len() == original.len() && masked.len() == original.len(),
        r ==> chunk_matches(original@, pad@, masked@, 0),
        r ==> chunk_matches(original@, pad@, masked@, last_chunk_offset(original.len() as int)),
{
    if uses_full_verification(original.len()) {
        verify_full(original, pad, masked)
    } else {
        verify_sampled(original, pad, masked)
    }
}

/// Combine two XOR-complementary parts back into the original stream.
///
/// The parts must have equal lengths; otherwise nothing is produced and a
/// size-mismatch error is returned.
pub fn combine_files(xor1: &Vec<u8>, xor2: &Vec<u8>) -> (r: Result<Vec<u8>, SplinchError>)
    ensures
        xor1.len() == xor2.len() ==> (r matches Ok(out) && out.len() == xor1.len() && out@
            == xor_seq(xor1@, xor2@)),
        xor1.len() != xor2.len() ==> r == Err::<Vec<u8>, SplinchError>(SplinchError::SizeMismatch),
{
    if xor1.len() != xor2.len() {
        return Err(SplinchError::SizeMismatch);
    }
    let mut out: Vec<u8> = Vec::new();
    let mut off: usize = 0;
    while off < xor1.len()
        invariant
            xor1.len() == xor2.len(),
            off <= xor1.len(),
            out.len() == off,
            forall|j: int| 0 <= j < off ==> out@[j] == (xor1@[j] ^ xor2@[j]),
        decreases xor1.len() - off,
    {
        let rem = xor1.len() - off;
        let clen = if rem < CHUNK_SIZE {
            rem
        } else {
            CHUNK_SIZE
        };
        let c1 = copy_chunk(xor1, off, clen);
        let c2 = copy_chunk(xor2, off, clen);
        let mut oc = zero_buffer(clen);
        xor_buffers(&c1, &c2, &mut oc);
        out.append(&mut oc);
        off = off + clen;
    }
    assert(out@ =~= xor_seq(xor1@, xor2@));
    Ok(out)
}

} // verus!
