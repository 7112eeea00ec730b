//! Fixed-size chunk handling shared by the split, verify and combine engines.

use vstd::prelude::*;

verus! {

/// Streams are processed in blocks of this many bytes.
pub const CHUNK_SIZE: usize = 64 * 1024;

/// Copy `len` bytes of `src` starting at `start` into a fresh buffer.
pub fn copy_chunk(src: &Vec<u8>, start: usize, len: usize) -> (r: Vec<u8>)
    requires
        start + len <= src.len(),
    ensures
        r@ == src@.subrange(start as int, start as int + len as int),
{
    let mut out: Vec<u8> = Vec::new();
    let mut i: usize = 0;
    while i < len
        invariant
            i <= len,
            start + len <= src.len(),
            out.len() == i,
            forall|j: int| 0 <= j < i ==> out@[j] == src@[start + j],
        decreases len - i,
    {
        out.push(src[start + i]);
        i = i + 1;
    }
    assert(out@ =~= src@.subrange(start as int, start as int + len as int));
    out
}

/// A buffer of `len` zero bytes.
pub fn zero_buffer(len: usize) -> (r: Vec<u8>)
    ensures
        r.len() == len,
{
    let mut out: Vec<u8> = Vec::new();
    let mut i: usize = 0;
    while i < len
        invariant
            i <= len,
            out.len() == i,
        decreases len - i,
    {
        out.push(0u8);
        i = i + 1;
    }
    out
}

/// Byte-for-byte equality of two buffers.
pub fn bytes_eq(a: &Vec<u8>, b: &Vec<u8>) -> (r: bool)
    ensures
        r == (a@ == b@),
{
    if a.len() != b.len() {
        return false;
    }
    let n = a.len();
    let mut i: usize = 0;
    while i < n
        invariant
            n == a.len(),
            a.len() == b.len(),
            i <= n,
            forall|j: int| 0 <= j < i ==> a@[j] == b@[j],
        decreases n - i,
    {
        if a[i] != b[i] {
            return false;
        }
        i = i + 1;
    }
    assert(a@ =~= b@);
    true
}

} // verus!
