//! What a container is on disk: the bytes of every section, and the
//! arithmetic that places names and payloads.
//!
//! Equal payloads are stored once. They are recognised by checksum, so
//! every function here takes the checksums of the entries beside the
//! entries themselves; [`checksums`] gives the ones that the writer
//! uses.

use crate::bytes::u32_le_bytes;
use crate::checksum::crc32_ieee;
use crate::file::Entry;
use crate::internal::{SectionKind, TAG_NUS3};
use vstd::prelude::*;

verus! {

/// `n` zero bytes.
pub open spec fn zeros(n: int) -> Seq<u8> {
    Seq::new(n as nat, |i: int| 0u8)
}

/// The numbers of `v`, four little-endian bytes each.
pub open spec fn u32s_bytes(v: Seq<u32>) -> Seq<u8> {
    Seq::new(4 * v.len(), |i: int| u32_le_bytes(v[i / 4])[i % 4])
}

/// The pairs of `v`, eight bytes each: first, then second.
pub open spec fn pairs_bytes(v: Seq<(u32, u32)>) -> Seq<u8> {
    Seq::new(
        8 * v.len(),
        |i: int|
            if i % 8 < 4 {
                u32_le_bytes(v[i / 8].0)[i % 8]
            } else {
                u32_le_bytes(v[i / 8].1)[i % 8 - 4]
            },
    )
}

/// A section: its tag, the length of its payload, its payload.
pub open spec fn section_bytes(kind: SectionKind, payload: Seq<u8>) -> Seq<u8> {
    kind.tag() + u32_le_bytes(payload.len() as u32) + payload
}

/// The checksum of each entry's payload.
pub open spec fn checksums(c: Seq<Entry>) -> Seq<u32> {
    Seq::new(c.len(), |i: int| crc32_ieee(c[i].data))
}

/// The id of each entry.
pub open spec fn ids(c: Seq<Entry>) -> Seq<u32> {
    Seq::new(c.len(), |i: int| c[i].id)
}

/// The number of zero bytes in the padding section whose payload
/// starts at `offset`, so that the payload of the section after it
/// starts on a multiple of sixteen.
pub open spec fn padding_amount(offset: int) -> int {
    (24 - offset % 16) % 16
}

/// The number of zero bytes that follow a stored payload of `len`
/// bytes.
pub open spec fn tail_pad(len: int) -> int {
    (16 - len % 16) % 16
}

/// Where the names start in a container of `n` entries: behind the
/// magic, the track count and the three tables.
pub open spec fn names_start(n: int) -> int {
    56 + 16 * n
}

/// The bytes that the names of the first `k` entries take, each with
/// its closing zero.
pub open spec fn names_len(c: Seq<Entry>, k: int) -> int
    decreases k,
{
    if k <= 0 {
        0
    } else {
        names_len(c, k - 1) + c[k - 1].name_bytes().len() + 1
    }
}

/// The names of the first `k` entries, each closed by a zero byte.
pub open spec fn names_blob(c: Seq<Entry>, k: int) -> Seq<u8>
    decreases k,
{
    if k <= 0 {
        Seq::empty()
    } else {
        names_blob(c, k - 1) + c[k - 1].name_bytes() + seq![0u8]
    }
}

/// Where each entry's name starts in the file.
pub open spec fn name_offsets(c: Seq<Entry>) -> Seq<u32> {
    Seq::new(c.len(), |i: int| (names_start(c.len() as int) + names_len(c, i)) as u32)
}

/// The length of the padding section's payload.
pub open spec fn junk_len(c: Seq<Entry>) -> int {
    padding_amount(names_start(c.len() as int) + names_len(c, c.len() as int) + 8)
}

/// Where the first stored payload starts in the file.
pub open spec fn pack_start(c: Seq<Entry>) -> int {
    names_start(c.len() as int) + names_len(c, c.len() as int) + 8 + junk_len(c) + 8
}

/// The least index at or after `from` at which `sums` holds `s`; the
/// length of `sums` if there is none.
pub open spec fn first_from(sums: Seq<u32>, s: u32, from: int) -> int
    decreases sums.len() - from,
{
    if from >= sums.len() {
        sums.len() as int
    } else if sums[from] == s {
        from
    } else {
        first_from(sums, s, from + 1)
    }
}

/// The first entry with the checksum of entry `i`. Its payload is the
/// one that entry `i` is stored as.
pub open spec fn first_match(sums: Seq<u32>, i: int) -> int {
    first_from(sums, sums[i], 0)
}

/// Whether the payload of entry `i` is stored: no earlier entry has
/// its checksum.
pub open spec fn stored(sums: Seq<u32>, i: int) -> bool {
    first_match(sums, i) == i
}

/// The bytes that the stored payloads of the first `k` entries take,
/// padding included.
pub open spec fn pack_len(c: Seq<Entry>, sums: Seq<u32>, k: int) -> int
    decreases k,
{
    if k <= 0 {
        0
    } else if stored(sums, k - 1) {
        pack_len(c, sums, k - 1) + c[k - 1].data.len() + tail_pad(c[k - 1].data.len() as int)
    } else {
        pack_len(c, sums, k - 1)
    }
}

/// The stored payloads of the first `k` entries, each padded with
/// zeros to a multiple of sixteen bytes.
pub open spec fn pack_bytes(c: Seq<Entry>, sums: Seq<u32>, k: int) -> Seq<u8>
    decreases k,
{
    if k <= 0 {
        Seq::empty()
    } else if stored(sums, k - 1) {
        pack_bytes(c, sums, k - 1) + c[k - 1].data + zeros(tail_pad(c[k - 1].data.len() as int))
    } else {
        pack_bytes(c, sums, k - 1)
    }
}

/// Where the payload of entry `i` lies when stored payloads start at
/// `start`: the place and size of the first entry with its checksum.
pub open spec fn location_from(c: Seq<Entry>, sums: Seq<u32>, start: int, i: int) -> (u32, u32) {
    let j = first_match(sums, i);
    ((start + pack_len(c, sums, j)) as u32, c[j].data.len() as u32)
}

/// Where each entry's payload lies in the file, and its size.
pub open spec fn locations(c: Seq<Entry>, sums: Seq<u32>) -> Seq<(u32, u32)> {
    Seq::new(c.len(), |i: int| location_from(c, sums, pack_start(c), i))
}

/// The length of the file.
pub open spec fn file_len_with(c: Seq<Entry>, sums: Seq<u32>) -> int {
    pack_start(c) + pack_len(c, sums, c.len() as int)
}

/// Whether the container can be written: a checksum for each entry,
/// and a file short enough for its 32-bit offsets.
pub open spec fn encodable_with(c: Seq<Entry>, sums: Seq<u32>) -> bool {
    sums.len() == c.len() && file_len_with(c, sums) <= u32::MAX
}

/// Everything behind the magic and the length: the seven sections.
#[verifier::opaque]
pub open spec fn body_with(c: Seq<Entry>, sums: Seq<u32>) -> Seq<u8> {
    section_bytes(SectionKind::Audiindx, u32_le_bytes(c.len() as u32))
        + section_bytes(SectionKind::Tnid, u32s_bytes(ids(c)))
        + section_bytes(SectionKind::Nmof, u32s_bytes(name_offsets(c)))
        + section_bytes(SectionKind::Adof, pairs_bytes(locations(c, sums)))
        + section_bytes(SectionKind::Tnnm, names_blob(c, c.len() as int))
        + section_bytes(SectionKind::Junk, zeros(junk_len(c)))
        + section_bytes(SectionKind::Pack, pack_bytes(c, sums, c.len() as int))
}

/// The file: the magic, the length of what follows, the sections.
pub open spec fn file_bytes_with(c: Seq<Entry>, sums: Seq<u32>) -> Seq<u8> {
    TAG_NUS3@ + u32_le_bytes((file_len_with(c, sums) - 8) as u32) + body_with(c, sums)
}

/// The length of the file that holds `c`.
pub open spec fn file_len(c: Seq<Entry>) -> int {
    file_len_with(c, checksums(c))
}

/// Whether `c` can be written.
pub open spec fn encodable(c: Seq<Entry>) -> bool {
    encodable_with(c, checksums(c))
}

/// The file that holds `c`.
pub open spec fn file_bytes(c: Seq<Entry>) -> Seq<u8> {
    file_bytes_with(c, checksums(c))
}

/// What [`first_from`] finds: the checksum, and nothing before it.
pub proof fn lemma_first_from(sums: Seq<u32>, s: u32, from: int)
    requires
        0 <= from <= sums.len(),
    ensures
        from <= first_from(sums, s, from) <= sums.len(),
        first_from(sums, s, from) < sums.len() ==> sums[first_from(sums, s, from)] == s,
        forall|j: int| from <= j < first_from(sums, s, from) ==> sums[j] != s,
    decreases sums.len() - from,
{
    if from < sums.len() && sums[from] != s {
        lemma_first_from(sums, s, from + 1);
    }
}

/// The first entry with the checksum of entry `i` is at or before `i`,
/// has that checksum, and is its own first match.
pub proof fn lemma_first_match(sums: Seq<u32>, i: int)
    requires
        0 <= i < sums.len(),
    ensures
        0 <= first_match(sums, i) <= i,
        sums[first_match(sums, i)] == sums[i],
        stored(sums, first_match(sums, i)),
        forall|j: int| 0 <= j < first_match(sums, i) ==> sums[j] != sums[i],
{
    lemma_first_from(sums, sums[i], 0);
}

/// Entries with one checksum share their first match.
pub proof fn lemma_first_match_shared(sums: Seq<u32>, i: int, j: int)
    requires
        0 <= i < sums.len(),
        0 <= j < sums.len(),
        sums[i] == sums[j],
    ensures
        first_match(sums, i) == first_match(sums, j),
{
}

/// Names take more room as more entries are counted.
pub proof fn lemma_names_len_grows(c: Seq<Entry>, i: int, k: int)
    requires
        0 <= i <= k,
    ensures
        0 <= names_len(c, i) <= names_len(c, k),
    decreases k,
{
    if i < k {
        lemma_names_len_grows(c, i, k - 1);
    } else if k > 0 {
        lemma_names_len_grows(c, 0, k - 1);
    }
}

/// Stored payloads take more room as more entries are counted.
pub proof fn lemma_pack_len_grows(c: Seq<Entry>, sums: Seq<u32>, i: int, k: int)
    requires
        0 <= i <= k,
    ensures
        0 <= pack_len(c, sums, i) <= pack_len(c, sums, k),
    decreases k,
{
    if i < k {
        lemma_pack_len_grows(c, sums, i, k - 1);
    } else if k > 0 {
        lemma_pack_len_grows(c, sums, 0, k - 1);
    }
}

/// The names blob is as long as [`names_len`] says.
pub proof fn lemma_names_blob_len(c: Seq<Entry>, k: int)
    requires
        0 <= k,
    ensures
        names_blob(c, k).len() == names_len(c, k),
    decreases k,
{
    if k > 0 {
        lemma_names_blob_len(c, k - 1);
    }
}

/// The stored payloads are as long as [`pack_len`] says.
pub proof fn lemma_pack_bytes_len(c: Seq<Entry>, sums: Seq<u32>, k: int)
    requires
        0 <= k,
    ensures
        pack_bytes(c, sums, k).len() == pack_len(c, sums, k),
    decreases k,
{
    if k > 0 {
        lemma_pack_bytes_len(c, sums, k - 1);
    }
}

/// The file is as long as [`file_len_with`] says; its least length is
/// that of a container without entries.
pub proof fn lemma_file_bytes_len(c: Seq<Entry>, sums: Seq<u32>)
    ensures
        file_bytes_with(c, sums).len() == file_len_with(c, sums),
        body_with(c, sums).len() == file_len_with(c, sums) - 8,
        file_len_with(c, sums) >= 72,
{
    reveal(body_with);
    let n = c.len() as int;
    lemma_names_blob_len(c, n);
    lemma_pack_bytes_len(c, sums, n);
}

} // verus!
