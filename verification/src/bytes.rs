//! Little-endian integers, as the container stores every number.

use byteorder::{LittleEndian, WriteBytesExt};
use vstd::prelude::*;
use vstd::slice::slice_subrange;

verus! {

/// The four bytes that hold `n`, least significant first.
pub open spec fn u32_le_bytes(n: u32) -> Seq<u8> {
    seq![
        (n % 256) as u8,
        (n / 256 % 256) as u8,
        (n / 65536 % 256) as u8,
        (n / 16777216) as u8,
    ]
}

/// The number held, least significant byte first, by the four bytes of
/// `b` that start at index `at`.
pub open spec fn le_u32_at(b: Seq<u8>, at: int) -> u32
    recommends
        0 <= at,
        at + 4 <= b.len(),
{
    (b[at] + 256 * b[at + 1] + 65536 * b[at + 2] + 16777216 * b[at + 3]) as u32
}

/// Reading back the bytes of a number gives the number.
pub proof fn lemma_le_round_trip(n: u32)
    ensures
        u32_le_bytes(n).len() == 4,
        le_u32_at(u32_le_bytes(n), 0) == n,
{
}

/// `nom::le_u32` on a byte slice: it fails when fewer than four bytes
/// are there, and else decodes the first four, least significant
/// first. What it leaves unread is dropped here.
#[verifier::external_body]
fn nom_le_u32(input: &[u8]) -> (r: Option<u32>)
    ensures
        r == if input@.len() >= 4 {
            Some(le_u32_at(input@, 0))
        } else {
            None
        },
{
    match nom::le_u32(input) {
        Ok((_, n)) => Some(n),
        Err(_) => None,
    }
}

/// `byteorder`'s `write_u32::<LittleEndian>` on a `Vec<u8>`: it appends
/// the four bytes of `n`, least significant first. Writing to a vector
/// does not fail.
#[verifier::external_body]
pub(crate) fn write_u32(n: u32, out: &mut Vec<u8>)
    ensures
        final(out)@ == old(out)@ + u32_le_bytes(n),
{
    out.write_u32::<LittleEndian>(n).unwrap();
}

/// Decodes the little-endian number at index `at` of `buf`, if four
/// bytes are there.
pub fn read_u32_le(buf: &[u8], at: usize) -> (r: Option<u32>)
    ensures
        r == if at + 4 <= buf@.len() {
            Some(le_u32_at(buf@, at as int))
        } else {
            None
        },
{
    if at > buf.len() {
        return None;
    }
    let rest = slice_subrange(buf, at, buf.len());
    nom_le_u32(rest)
}

/// Whether `buf` begins with the bytes of `tag`.
pub fn starts_with<const N: usize>(buf: &[u8], tag: [u8; N]) -> (r: bool)
    ensures
        r == (buf@.len() >= N && buf@.subrange(0, N as int) == tag@),
{
    if buf.len() < N {
        return false;
    }
    let mut i: usize = 0;
    while i < N
        invariant
            i <= N,
            N <= buf@.len(),
            tag@.len() == N,
            forall|j: int| 0 <= j < i ==> buf@[j] == tag@[j],
        decreases N - i,
    {
        if buf[i] != tag[i] {
            return false;
        }
        i += 1;
    }
    assert(buf@.subrange(0, N as int) =~= tag@);
    true
}

} // verus!
