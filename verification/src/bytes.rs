//! Copying and comparing byte strings.

use vstd::prelude::*;

verus! {

/// Whether two byte strings hold the same bytes.
pub fn slices_equal(a: &[u8], b: &[u8]) -> (r: bool)
    ensures
        r == (a@ == b@),
{
    if a.len() != b.len() {
        return false;
    }
    let mut i: usize = 0;
    while i < a.len()
        invariant
            i <= a@.len(),
            a@.len() == b@.len(),
            forall|j: int| 0 <= j < i ==> a@[j] == b@[j],
        decreases a@.len() - i,
    {
        if a[i] != b[i] {
            return false;
        }
        i += 1;
    }
    assert(a@ =~= b@);
    true
}

/// Writes `src` into `out` from position `at` on and returns the position
/// after it. The rest of `out` stays as it was.
pub fn put_bytes(out: &mut [u8], at: usize, src: &[u8]) -> (next: usize)
    requires
        at + src@.len() <= old(out)@.len(),
    ensures
        next == at + src@.len(),
        final(out)@.len() == old(out)@.len(),
        final(out)@ == old(out)@.subrange(0, at as int) + src@ + old(out)@.skip(next as int),
{
    let ghost before = out@;
    let capacity = out.len();
    let mut i: usize = 0;
    while i < src.len()
        invariant
            i <= src@.len(),
            at + src@.len() <= capacity,
            out@.len() == capacity,
            capacity == before.len(),
            forall|j: int| 0 <= j < at ==> out@[j] == before[j],
            forall|j: int| 0 <= j < i ==> out@[at + j] == src@[j],
            forall|j: int| at + src@.len() <= j < out@.len() ==> out@[j] == before[j],
        decreases src@.len() - i,
    {
        out[at + i] = src[i];
        i += 1;
    }
    let next = at + src.len();
    assert(out@ =~= before.subrange(0, at as int) + src@ + before.skip(next as int));
    next
}

/// Writes `src` into `out` from position `at` on, where `out` so far holds
/// `head` and after it what `before` held there, and returns the position
/// after `src`.
pub(crate) fn put_after(
    out: &mut [u8],
    at: usize,
    src: &[u8],
    Ghost(head): Ghost<Seq<u8>>,
    Ghost(before): Ghost<Seq<u8>>,
) -> (next: usize)
    requires
        at + src@.len() <= old(out)@.len(),
        head.len() == at,
        before.len() == old(out)@.len(),
        old(out)@ == head + before.skip(at as int),
    ensures
        next == at + src@.len(),
        final(out)@.len() == old(out)@.len(),
        final(out)@ == (head + src@) + before.skip(next as int),
{
    let next = put_bytes(out, at, src);
    assert(out@ =~= (head + src@) + before.skip(next as int));
    next
}

/// A copy of the 32 bytes of `src`.
pub fn to_array_32(src: &[u8]) -> (r: [u8; 32])
    requires
        src@.len() == 32,
    ensures
        r@ == src@,
{
    let mut r = [0u8; 32];
    let mut i: usize = 0;
    while i < 32
        invariant
            i <= 32,
            src@.len() == 32,
            forall|j: int| 0 <= j < i ==> r@[j] == src@[j],
        decreases 32 - i,
    {
        r[i] = src[i];
        i += 1;
    }
    assert(r@ =~= src@);
    r
}

} // verus!
