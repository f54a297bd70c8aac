//! Copying a zero-terminated string into a buffer of declared capacity, truncating what
//! does not fit.
use vstd::prelude::*;

use crate::cstr::{c_content, c_len, is_terminated, lemma_c_len_at, lemma_c_len_terminated, terminator_offset};

verus! {

/// Why a copy was refused. A refused copy writes nothing.
#[derive(Clone, Copy, Debug, PartialEq, Eq, Structural)]
pub enum CopyError {
    /// A capacity of zero leaves no room for the terminator.
    ZeroCapacity,
    /// The declared capacity is larger than the destination buffer.
    CapacityExceedsBuffer,
    /// The source holds no zero byte, so its string has no end.
    UnterminatedSource,
}

/// The number of bytes a copy takes from `src` into a buffer of `capacity` bytes: as many as
/// fit while one byte stays free for the terminator.
pub open spec fn copy_len(src: Seq<u8>, capacity: nat) -> nat
    recommends
        capacity >= 1,
{
    let room = (capacity - 1) as nat;
    if c_len(src) < room {
        c_len(src)
    } else {
        room
    }
}

/// The destination after a copy: the first `copy_len` bytes of the source's string, one
/// zero byte, then the destination's earlier bytes, untouched.
pub open spec fn copied(dest: Seq<u8>, src: Seq<u8>, capacity: nat) -> Seq<u8>
    recommends
        1 <= capacity <= dest.len(),
{
    let n = copy_len(src, capacity) as int;
    src.take(n) + seq![0u8] + dest.skip(n + 1)
}

/// The error of a copy into a buffer of `dest_len` bytes, if it is refused; the checks go in
/// this order.
pub open spec fn copy_error(dest_len: nat, src: Seq<u8>, capacity: nat) -> Option<CopyError> {
    if capacity == 0 {
        Some(CopyError::ZeroCapacity)
    } else if capacity > dest_len {
        Some(CopyError::CapacityExceedsBuffer)
    } else if !is_terminated(src) {
        Some(CopyError::UnterminatedSource)
    } else {
        None
    }
}

/// Copies the string in `src` into the first `capacity` bytes of `dest`, truncated to
/// `capacity - 1` bytes, and terminates it. Returns the length of the source's string, so
/// that the copy was truncated exactly when the result is at least `capacity`.
pub fn bounded_copy(dest: &mut [u8], src: &[u8], capacity: usize) -> (r: Result<usize, CopyError>)
    ensures
        match copy_error(old(dest)@.len(), src@, capacity as nat) {
            Some(e) => r == Err::<usize, CopyError>(e) && final(dest)@ == old(dest)@,
            None => {
                &&& r == Ok::<usize, CopyError>(c_len(src@) as usize)
                &&& final(dest)@ == copied(old(dest)@, src@, capacity as nat)
            },
        },
        final(dest)@.len() == old(dest)@.len(),
        forall|i: int| capacity <= i < old(dest)@.len() ==> final(dest)@[i] == old(dest)@[i],
        r is Ok ==> {
            let n = copy_len(src@, capacity as nat);
            &&& c_len(final(dest)@) == n
            &&& final(dest)@[n as int] == 0
            &&& c_content(final(dest)@) == c_content(src@).take(n as int)
        },
{
    if capacity == 0 {
        return Err(CopyError::ZeroCapacity);
    }
    if capacity > dest.len() {
        return Err(CopyError::CapacityExceedsBuffer);
    }
    let len = match terminator_offset(src) {
        Some(len) => len,
        None => {
            return Err(CopyError::UnterminatedSource);
        },
    };
    let n: usize = if len < capacity - 1 {
        len
    } else {
        capacity - 1
    };
    let mut i: usize = 0;
    while i < n
        invariant
            0 <= i <= n,
            n == copy_len(src@, capacity as nat),
            n < capacity <= dest@.len(),
            n <= len == c_len(src@) < src@.len(),
            dest@.len() == old(dest)@.len(),
            forall|j: int| 0 <= j < i ==> dest@[j] == src@[j],
            forall|j: int| i <= j < dest@.len() ==> dest@[j] == old(dest)@[j],
        decreases n - i,
    {
        dest[i] = src[i];
        i = i + 1;
    }
    dest[n] = 0;
    proof {
        assert(dest@ =~= copied(old(dest)@, src@, capacity as nat));
        lemma_copied_string(old(dest)@, src@, capacity as nat);
    }
    Ok(len)
}

/// Copies the string in `src` into a buffer of `size` bytes at the start of `dest`, truncating
/// it to `size - 1` bytes and terminating it. A copy that cannot be done safely (a size of
/// zero, a size larger than `dest`, a source without a terminator) writes nothing.
pub fn safe_strcpy_rust(dest: &mut [u8], src: &[u8], size: usize)
    ensures
        final(dest)@ == match copy_error(old(dest)@.len(), src@, size as nat) {
            Some(_) => old(dest)@,
            None => copied(old(dest)@, src@, size as nat),
        },
        forall|i: int| size <= i < old(dest)@.len() ==> final(dest)@[i] == old(dest)@[i],
        copy_error(old(dest)@.len(), src@, size as nat) is None ==> {
            let n = copy_len(src@, size as nat);
            &&& c_len(final(dest)@) == n
            &&& final(dest)@[n as int] == 0
            &&& c_content(final(dest)@) == c_content(src@).take(n as int)
        },
{
    let _ = bounded_copy(dest, src, size);
}

/// After a copy, the destination holds a string of `copy_len` bytes, the first bytes of the
/// source's string, ended by a zero byte at offset `copy_len`.
pub proof fn lemma_copied_string(dest: Seq<u8>, src: Seq<u8>, capacity: nat)
    requires
        copy_error(dest.len(), src, capacity) is None,
    ensures
        ({
            let d = copied(dest, src, capacity);
            let n = copy_len(src, capacity);
            &&& d.len() == dest.len()
            &&& c_len(d) == n
            &&& d[n as int] == 0
            &&& c_content(d) == c_content(src).take(n as int)
            &&& forall|i: int| capacity <= i < dest.len() ==> d[i] == dest[i]
        }),
{
    let d = copied(dest, src, capacity);
    let n = copy_len(src, capacity) as int;
    lemma_c_len_terminated(src);
    assert forall|i: int| 0 <= i < n implies d[i] != 0 by {
        assert(d[i] == src[i]);
    }
    lemma_c_len_at(d, n);
    assert(c_content(d) =~= c_content(src).take(n));
}

/// Copying one source into two destinations of the same size gives the same string, ended at
/// the same offset, whatever the destinations held before; into equal destinations it gives
/// equal buffers.
pub proof fn lemma_copy_same_string(dest1: Seq<u8>, dest2: Seq<u8>, src: Seq<u8>, capacity: nat)
    requires
        dest1.len() == dest2.len(),
        copy_error(dest1.len(), src, capacity) is None,
    ensures
        ({
            let d1 = copied(dest1, src, capacity);
            let d2 = copied(dest2, src, capacity);
            let n = copy_len(src, capacity) as int;
            &&& c_len(d1) == c_len(d2)
            &&& c_content(d1) == c_content(d2)
            &&& d1.take(n + 1) == d2.take(n + 1)
            &&& dest1 == dest2 ==> d1 == d2
        }),
{
    let n = copy_len(src, capacity) as int;
    lemma_copied_string(dest1, src, capacity);
    lemma_copied_string(dest2, src, capacity);
    assert(copied(dest1, src, capacity).take(n + 1) =~= copied(dest2, src, capacity).take(n + 1));
}

/// Copying the same source again into the buffer it was copied into changes nothing.
pub proof fn lemma_copy_idempotent(dest: Seq<u8>, src: Seq<u8>, capacity: nat)
    requires
        copy_error(dest.len(), src, capacity) is None,
    ensures
        copied(copied(dest, src, capacity), src, capacity) == copied(dest, src, capacity),
{
    let d = copied(dest, src, capacity);
    lemma_copied_string(dest, src, capacity);
    assert(copied(d, src, capacity) =~= d);
}

/// The edges of the capacity: a string of `capacity - 1` bytes is copied whole with its
/// terminator in the last byte; one of `capacity - 2` bytes is copied whole, its terminator
/// one byte earlier, and the last byte is left as it was; an empty string leaves a terminator
/// in the first byte.
pub proof fn lemma_copy_boundaries(dest: Seq<u8>, src: Seq<u8>, capacity: nat)
    requires
        copy_error(dest.len(), src, capacity) is None,
    ensures
        ({
            let d = copied(dest, src, capacity);
            &&& c_len(src) == capacity - 1 ==> {
                &&& c_content(d) == c_content(src)
                &&& c_len(d) == capacity - 1
                &&& d[capacity - 1] == 0
            }
            &&& c_len(src) + 2 == capacity ==> {
                &&& c_content(d) == c_content(src)
                &&& c_len(d) == capacity - 2
                &&& d[capacity - 2] == 0
                &&& d[capacity - 1] == dest[capacity - 1]
            }
            &&& c_len(src) == 0 ==> c_len(d) == 0 && d[0] == 0
        }),
{
    let d = copied(dest, src, capacity);
    lemma_copied_string(dest, src, capacity);
    lemma_c_len_terminated(src);
    if c_len(src) + 1 <= capacity {
        assert(c_content(src).take(c_len(src) as int) =~= c_content(src));
    }
}

} // verus!
