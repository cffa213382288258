//! What holds of writing and reading together.

use crate::bytes::le_u32_at;
use crate::checksum::crc32_ieee;
use crate::error::FormatError;
use crate::file::{all_valid, Entry};
use crate::grammar::{
    adof_entries, assemble, has_kind, nmof_entries, spec_body, spec_parse, spec_resolve,
    spec_take_file, track_ids,
};
use crate::internal::{SectionKind, SectionModel, TAG_NUS3};
use crate::layout::{
    body_with, checksums, encodable, encodable_with, file_bytes, file_bytes_with, file_len_with,
    first_match, ids, lemma_file_bytes_len, lemma_first_match, lemma_pack_len_grows, location_from,
    locations, name_offsets, names_blob, names_len, pack_bytes, pack_len, pack_start, stored,
};
use crate::proofs::{
    lemma_body_read_back, lemma_head_read_back, lemma_names_read_back, lemma_pack_part,
    lemma_payload_bounds, lemma_payloads_read_back, lemma_written_tables, names_of, payloads_of,
    written_sections,
};
use vstd::prelude::*;

verus! {

/// The container that a written file is read as: each entry with the
/// payload of the first entry that has its checksum.
pub open spec fn shared(c: Seq<Entry>, sums: Seq<u32>) -> Seq<Entry> {
    Seq::new(
        c.len(),
        |i: int| Entry { id: c[i].id, name: c[i].name, data: c[first_match(sums, i)].data },
    )
}

/// No two payloads of `c` differ and yet have one checksum.
pub open spec fn collision_free(c: Seq<Entry>) -> bool {
    forall|i: int, j: int|
        0 <= i < c.len() && 0 <= j < c.len() && crc32_ieee(c[i].data) == crc32_ieee(c[j].data)
            ==> c[i].data == c[j].data
}

/// Reading a written file gives every entry back in order, with its
/// id and its name, and with the payload of the first entry that has
/// its checksum. Nothing is left behind the container.
pub proof fn law_read_back(c: Seq<Entry>, sums: Seq<u32>)
    requires
        encodable_with(c, sums),
        all_valid(c),
    ensures
        spec_take_file(file_bytes_with(c, sums)) == Ok::<_, FormatError>(
            (Seq::<u8>::empty(), shared(c, sums)),
        ),
{
    let n = c.len() as int;
    let file = file_bytes_with(c, sums);
    let secs = written_sections(c, sums);
    lemma_file_bytes_len(c, sums);
    lemma_head_read_back(TAG_NUS3@, (file_len_with(c, sums) - 8) as u32, body_with(c, sums));
    lemma_body_read_back(c, sums);
    assert(spec_resolve(secs, file) == Ok::<_, FormatError>(shared(c, sums))) by {
        lemma_written_tables(c, sums);
        lemma_names_read_back(c, sums, n);
        lemma_payloads_read_back(c, sums, n);
        assert(assemble(ids(c), names_of(c, n), payloads_of(c, sums, n)) =~= shared(c, sums));
    }
}

/// Round trip: a container whose names can be stored, and in which no
/// two different payloads have one checksum, is read back from its
/// file as it was.
pub proof fn law_round_trip(c: Seq<Entry>)
    requires
        encodable(c),
        all_valid(c),
        collision_free(c),
    ensures
        spec_parse(file_bytes(c)) == Ok::<_, FormatError>(c),
{
    let sums = checksums(c);
    law_read_back(c, sums);
    assert forall|i: int| 0 <= i < c.len() implies c[first_match(sums, i)].data == c[i].data by {
        lemma_first_match(sums, i);
    }
    assert(shared(c, sums) =~= c);
}

/// Under the same checksums, the container that is read back is laid
/// out as the one that was written.
proof fn lemma_shared_layout(c: Seq<Entry>, sums: Seq<u32>, k: int)
    requires
        sums.len() == c.len(),
        0 <= k <= c.len(),
    ensures
        names_len(shared(c, sums), k) == names_len(c, k),
        names_blob(shared(c, sums), k) == names_blob(c, k),
        pack_len(shared(c, sums), sums, k) == pack_len(c, sums, k),
        pack_bytes(shared(c, sums), sums, k) == pack_bytes(c, sums, k),
    decreases k,
{
    if k > 0 {
        lemma_shared_layout(c, sums, k - 1);
    }
}

/// Under the same checksums, the container that is read back is
/// written as the same file.
pub proof fn lemma_shared_file(c: Seq<Entry>, sums: Seq<u32>)
    requires
        sums.len() == c.len(),
    ensures
        file_len_with(shared(c, sums), sums) == file_len_with(c, sums),
        file_bytes_with(shared(c, sums), sums) == file_bytes_with(c, sums),
{
    reveal(body_with);
    let d = shared(c, sums);
    let n = c.len() as int;
    lemma_shared_layout(c, sums, n);
    assert(name_offsets(d) =~= name_offsets(c)) by {
        assert forall|i: int| 0 <= i < n implies names_len(d, i) == names_len(c, i) by {
            lemma_shared_layout(c, sums, i);
        }
    }
    assert(locations(d, sums) =~= locations(c, sums)) by {
        assert forall|i: int| 0 <= i < n implies location_from(d, sums, pack_start(d), i)
            == location_from(c, sums, pack_start(c), i) by {
            lemma_first_match(sums, i);
            lemma_shared_layout(c, sums, first_match(sums, i));
        }
    }
}

/// Writing again what was read gives the same file, byte for byte.
pub proof fn law_rewrite_is_same(c: Seq<Entry>)
    requires
        encodable(c),
        all_valid(c),
    ensures
        spec_parse(file_bytes(c)) is Ok,
        encodable(spec_parse(file_bytes(c))->Ok_0),
        file_bytes(spec_parse(file_bytes(c))->Ok_0) == file_bytes(c),
{
    let sums = checksums(c);
    let d = shared(c, sums);
    law_read_back(c, sums);
    assert(checksums(d) =~= sums) by {
        assert forall|i: int| 0 <= i < c.len() implies crc32_ieee(d[i].data) == sums[i] by {
            lemma_first_match(sums, i);
        }
    }
    lemma_shared_file(c, sums);
}

/// Entries with equal payloads lie at one place in the file, and the
/// later of them is not stored again.
pub proof fn law_equal_payloads_share(c: Seq<Entry>, i: int, j: int)
    requires
        0 <= i < j < c.len(),
        c[i].data == c[j].data,
    ensures
        locations(c, checksums(c))[i] == locations(c, checksums(c))[j],
        !stored(checksums(c), j),
{
    let sums = checksums(c);
    lemma_first_match(sums, j);
}

/// The stored payloads fill the file from a multiple of sixteen to its
/// end, and the payload of every entry starts on a multiple of
/// sixteen.
pub proof fn law_payloads_aligned(c: Seq<Entry>, sums: Seq<u32>, i: int)
    requires
        encodable_with(c, sums),
        0 <= i < c.len(),
    ensures
        pack_start(c) % 16 == 0,
        file_bytes_with(c, sums).subrange(pack_start(c), file_len_with(c, sums)) == pack_bytes(
            c,
            sums,
            c.len() as int,
        ),
        locations(c, sums)[i].0 % 16 == 0,
{
    lemma_pack_part(c, sums);
    assert(locations(c, sums)[i].0 % 16 == 0) by {
        let j = first_match(sums, i);
        lemma_first_match(sums, i);
        lemma_payload_bounds(c, sums);
        lemma_pack_len_grows(c, sums, j, c.len() as int);
        lemma_pack_len_aligned(c, sums, j);
    }
}

/// The stored payloads of any number of entries take a multiple of
/// sixteen bytes.
pub proof fn lemma_pack_len_aligned(c: Seq<Entry>, sums: Seq<u32>, k: int)
    ensures
        pack_len(c, sums, k) % 16 == 0,
    decreases k,
{
    if k > 0 {
        lemma_pack_len_aligned(c, sums, k - 1);
    }
}

/// A buffer that does not begin with the magic is rejected for that.
pub proof fn law_bad_magic(input: Seq<u8>)
    requires
        input.len() < 4 || input.subrange(0, 4) != TAG_NUS3@,
    ensures
        spec_parse(input) == Err::<Seq<Entry>, _>(FormatError::BadMagic),
{
}

/// A buffer whose body holds every table, with more payload locations
/// than names or than ids, is rejected for the mismatch.
pub proof fn law_count_mismatch(input: Seq<u8>, secs: Seq<SectionModel>)
    requires
        input.len() >= 8,
        input.subrange(0, 4) == TAG_NUS3@,
        input.len() - 8 >= le_u32_at(input, 4),
        spec_body(input.subrange(8, 8 + le_u32_at(input, 4))) == Ok::<_, FormatError>(secs),
        adof_entries(secs) is Some,
        nmof_entries(secs) is Some,
        track_ids(secs) is Some,
        has_kind(secs, SectionKind::Tnnm),
        adof_entries(secs)->0.len() > nmof_entries(secs)->0.len() || adof_entries(secs)->0.len()
            > track_ids(secs)->0.len(),
    ensures
        spec_parse(input) == Err::<Seq<Entry>, _>(FormatError::SectionCountMismatch),
{
}

} // verus!
