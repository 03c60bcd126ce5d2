//! Small helpers on byte strings.

use vstd::bytes::lemma_auto_spec_u64_to_from_le_bytes;
use vstd::bytes::spec_u64_from_le_bytes;
use vstd::bytes::spec_u64_to_le_bytes;
use vstd::bytes::u64_from_le_bytes;
use vstd::bytes::u64_to_le_bytes;
use vstd::prelude::*;

verus! {

/// The concatenation of a sequence of byte strings, in order.
pub open spec fn concat(parts: Seq<Seq<u8>>) -> Seq<u8>
    decreases parts.len(),
{
    if parts.len() == 0 {
        Seq::empty()
    } else {
        concat(parts.drop_last()) + parts.last()
    }
}

/// The views of a sequence of byte vectors.
pub open spec fn views(items: Seq<Vec<u8>>) -> Seq<Seq<u8>> {
    Seq::new(items.len(), |i: int| items[i]@)
}

/// What the first `i + 1` members of a list contain: what the first `i`
/// contain, and the next member.
pub proof fn lemma_take_contains(s: Seq<Seq<u8>>, i: int, x: Seq<u8>)
    requires
        0 <= i < s.len(),
    ensures
        s.take(i + 1).contains(x) <==> s.take(i).contains(x) || x == s[i],
{
    let a = s.take(i + 1);
    let b = s.take(i);
    if a.contains(x) {
        let k = choose|k: int| 0 <= k < a.len() && a[k] == x;
        if k < i {
            assert(b[k] == x);
        }
    }
    if b.contains(x) {
        let k = choose|k: int| 0 <= k < b.len() && b[k] == x;
        assert(a[k] == x);
    }
    if x == s[i] {
        assert(a[i] == x);
    }
}

/// Appends `src` to `buf`.
pub fn append(buf: &mut Vec<u8>, src: &[u8])
    ensures
        final(buf)@ == old(buf)@ + src@,
{
    let mut i: usize = 0;
    while i < src.len()
        invariant
            i <= src.len(),
            buf@ == old(buf)@ + src@.take(i as int),
        decreases src.len() - i,
    {
        buf.push(src[i]);
        i += 1;
        assert(src@.take(i as int) == src@.take(i - 1).push(src@[i - 1]));
    }
    assert(src@.take(src.len() as int) == src@);
}

/// A fresh vector holding the bytes of `src`.
pub fn to_vec(src: &[u8]) -> (out: Vec<u8>)
    ensures
        out@ == src@,
{
    let mut out: Vec<u8> = Vec::new();
    append(&mut out, src);
    out
}

/// Whether two byte strings are equal.
pub fn equal(a: &[u8], b: &[u8]) -> (same: bool)
    ensures
        same == (a@ == b@),
{
    if a.len() != b.len() {
        return false;
    }
    let mut i: usize = 0;
    while i < a.len()
        invariant
            i <= a.len(),
            a.len() == b.len(),
            a@.take(i as int) == b@.take(i as int),
        decreases a.len() - i,
    {
        if a[i] != b[i] {
            return false;
        }
        i += 1;
        assert(a@.take(i as int) == a@.take(i - 1).push(a@[i - 1]));
        assert(b@.take(i as int) == b@.take(i - 1).push(b@[i - 1]));
    }
    assert(a@.take(a.len() as int) == a@);
    assert(b@.take(b.len() as int) == b@);
    true
}

/// The array that holds the `N` bytes of `src`.
pub fn to_array<const N: usize>(src: &[u8]) -> (out: [u8; N])
    requires
        src@.len() == N,
    ensures
        out@ == src@,
{
    let mut out: [u8; N] = [0u8; N];
    let mut i: usize = 0;
    while i < N
        invariant
            i <= N,
            src@.len() == N,
            forall|j: int| 0 <= j < i ==> out@[j] == src@[j],
        decreases N - i,
    {
        out[i] = src[i];
        i += 1;
    }
    assert(out@ =~= src@);
    out
}

/// A field of variable length as it is written: its length as eight bytes
/// in little endian, then the field.
pub open spec fn frame(field: Seq<u8>) -> Seq<u8> {
    spec_u64_to_le_bytes(field.len() as u64) + field
}

/// The field that bytes start with, and the bytes after it; `None` where the
/// bytes end before the field does.
pub open spec fn unframe(bytes: Seq<u8>) -> Option<(Seq<u8>, Seq<u8>)> {
    if bytes.len() < 8 {
        None
    } else {
        let len = spec_u64_from_le_bytes(bytes.subrange(0, 8));
        if bytes.len() - 8 < len {
            None
        } else {
            Some((bytes.subrange(8, 8 + len), bytes.skip(8 + len)))
        }
    }
}

/// A field that was written is read back, and what follows it is left.
pub proof fn lemma_unframe_framed(field: Seq<u8>, rest: Seq<u8>)
    requires
        field.len() <= u64::MAX,
    ensures
        unframe(frame(field) + rest) == Some((field, rest)),
{
    lemma_auto_spec_u64_to_from_le_bytes();
    let bytes = frame(field) + rest;
    assert(bytes.subrange(0, 8) =~= spec_u64_to_le_bytes(field.len() as u64));
    assert(bytes.subrange(8, 8 + field.len() as int) =~= field);
    assert(bytes.skip(8 + field.len() as int) =~= rest);
}

/// What is read as a field and what is left add up to what was read from.
pub proof fn lemma_frame_unframed(bytes: Seq<u8>)
    requires
        unframe(bytes) is Some,
    ensures
        frame(unframe(bytes)->Some_0.0) + unframe(bytes)->Some_0.1 == bytes,
{
    lemma_auto_spec_u64_to_from_le_bytes();
    let len = spec_u64_from_le_bytes(bytes.subrange(0, 8));
    assert(spec_u64_to_le_bytes(len) == bytes.subrange(0, 8));
    assert(frame(unframe(bytes)->Some_0.0) + unframe(bytes)->Some_0.1 =~= bytes);
}

/// Appends a field after its length.
pub fn write_frame(buf: &mut Vec<u8>, field: &[u8])
    ensures
        final(buf)@ == old(buf)@ + frame(field@),
{
    let len = u64_to_le_bytes(field.len() as u64);
    append(buf, len.as_slice());
    append(buf, field);
    assert(buf@ =~= old(buf)@ + frame(field@));
}

/// Reads the field that starts at `pos`. Returns the field and the position
/// after it.
pub fn read_frame(bytes: &[u8], pos: usize) -> (r: Option<(Vec<u8>, usize)>)
    requires
        pos <= bytes@.len(),
    ensures
        match r {
            Some((field, next)) => {
                &&& pos <= next <= bytes@.len()
                &&& unframe(bytes@.skip(pos as int)) == Some((field@, bytes@.skip(next as int)))
            },
            None => unframe(bytes@.skip(pos as int)) is None,
        },
{
    let ghost tail = bytes@.skip(pos as int);
    if bytes.len() - pos < 8 {
        return None;
    }
    assert(tail.subrange(0, 8) == bytes@.subrange(pos as int, pos + 8));
    let len = u64_from_le_bytes(&bytes[pos..pos + 8]);
    if ((bytes.len() - pos - 8) as u64) < len {
        return None;
    }
    let start = pos + 8;
    let next = start + len as usize;
    assert(tail.subrange(8, 8 + len) == bytes@.subrange(start as int, next as int));
    assert(tail.skip(8 + len) == bytes@.skip(next as int));
    Some((to_vec(&bytes[start..next]), next))
}

} // verus!
