//! Lemmas that relate the bytes of a written file to what the parser
//! reads from them.

use crate::bytes::{le_u32_at, lemma_le_round_trip, u32_le_bytes};
use crate::error::FormatError;
use crate::file::{all_valid, Entry};
use crate::grammar::{
    adof_entries, decode_payload, has_kind, kind_of_tag, lemma_find_kind_is, nmof_entries, nul_from,
    pairs_of, spec_body, spec_name_at, spec_names, spec_payload_at, spec_payloads, spec_sections,
    spec_take_audiindx, spec_take_section, track_ids, u32s_of,
};
use crate::internal::{
    SectionKind, SectionModel, TAG_ADOF, TAG_AUDIINDX, TAG_JUNK, TAG_NMOF, TAG_NUS3, TAG_PACK,
    TAG_TNID, TAG_TNNM,
};
use crate::layout::{
    body_with, encodable_with, file_bytes_with, file_len_with, first_match, ids, junk_len,
    lemma_first_match, lemma_names_blob_len, lemma_names_len_grows, lemma_pack_bytes_len,
    lemma_pack_len_grows, locations, name_offsets, names_blob, names_len, names_start, pack_bytes,
    pack_len, pack_start, pairs_bytes, section_bytes, stored, u32s_bytes, zeros,
};
use vstd::prelude::*;
use vstd::utf8::{encode_utf8_decode_utf8, encode_utf8_valid_utf8};

verus! {

/// A table of numbers is read back as it was written.
pub proof fn lemma_u32s_read_back(v: Seq<u32>)
    ensures
        u32s_bytes(v).len() == 4 * v.len(),
        u32s_of(u32s_bytes(v)) == v,
{
    let p = u32s_bytes(v);
    assert forall|k: int| 0 <= k < v.len() implies le_u32_at(p, 4 * k) == v[k] by {
        lemma_le_round_trip(v[k]);
        assert(p[4 * k] == u32_le_bytes(v[k])[0]);
        assert(p[4 * k + 1] == u32_le_bytes(v[k])[1]);
        assert(p[4 * k + 2] == u32_le_bytes(v[k])[2]);
        assert(p[4 * k + 3] == u32_le_bytes(v[k])[3]);
    }
    assert(u32s_of(p) =~= v);
}

/// A table of pairs is read back as it was written.
pub proof fn lemma_pairs_read_back(v: Seq<(u32, u32)>)
    ensures
        pairs_bytes(v).len() == 8 * v.len(),
        pairs_of(pairs_bytes(v)) == v,
{
    let p = pairs_bytes(v);
    assert forall|k: int| 0 <= k < v.len() implies (le_u32_at(p, 8 * k), le_u32_at(p, 8 * k + 4))
        == v[k] by {
        lemma_le_round_trip(v[k].0);
        lemma_le_round_trip(v[k].1);
        assert(p[8 * k] == u32_le_bytes(v[k].0)[0]);
        assert(p[8 * k + 1] == u32_le_bytes(v[k].0)[1]);
        assert(p[8 * k + 2] == u32_le_bytes(v[k].0)[2]);
        assert(p[8 * k + 3] == u32_le_bytes(v[k].0)[3]);
        assert(p[8 * k + 4] == u32_le_bytes(v[k].1)[0]);
        assert(p[8 * k + 5] == u32_le_bytes(v[k].1)[1]);
        assert(p[8 * k + 6] == u32_le_bytes(v[k].1)[2]);
        assert(p[8 * k + 7] == u32_le_bytes(v[k].1)[3]);
    }
    assert(pairs_of(p) =~= v);
}

/// Each four-byte tag names its own kind.
pub proof fn lemma_tags_differ(kind: SectionKind)
    requires
        kind != SectionKind::Audiindx,
    ensures
        kind.tag().len() == 4,
        kind_of_tag(kind.tag()) == Some(kind),
{
    // The tags differ in their first byte, or in their second or third.
    assert(TAG_NMOF@[0] == 78 && TAG_NMOF@[1] == 77);
    assert(TAG_ADOF@[0] == 65 && TAG_ADOF@[1] == 68);
    assert(TAG_TNID@[0] == 84 && TAG_TNID@[2] == 73);
    assert(TAG_TNNM@[0] == 84 && TAG_TNNM@[2] == 78);
    assert(TAG_JUNK@[0] == 74);
    assert(TAG_PACK@[0] == 80);
}

/// A written section, whatever follows it, is taken as what it holds,
/// and what follows is left.
pub proof fn lemma_take_written_section(kind: SectionKind, payload: Seq<u8>, rest: Seq<u8>)
    requires
        kind != SectionKind::Audiindx,
        payload.len() <= u32::MAX,
    ensures
        spec_take_section(section_bytes(kind, payload) + rest) == Ok::<_, FormatError>(
            (rest, decode_payload(kind, payload)),
        ),
{
    reveal(spec_take_section);
    let sec = section_bytes(kind, payload);
    let buf = sec + rest;
    let len = payload.len() as u32;
    lemma_tags_differ(kind);
    lemma_le_round_trip(len);
    assert(buf.subrange(0, 4) =~= kind.tag());
    assert(buf.subrange(8, 8 + len) =~= payload);
    assert(buf.skip(8 + len) =~= rest);
}

/// Written sections are read one after the other.
pub proof fn lemma_sections_step(kind: SectionKind, payload: Seq<u8>, rest: Seq<u8>)
    requires
        kind != SectionKind::Audiindx,
        payload.len() <= u32::MAX,
        spec_sections(rest) is Ok,
    ensures
        spec_sections(section_bytes(kind, payload) + rest) == Ok::<_, FormatError>(
            seq![decode_payload(kind, payload)] + spec_sections(rest)->Ok_0,
        ),
{
    reveal_with_fuel(spec_sections, 1);
    lemma_take_written_section(kind, payload, rest);
}

/// The written track count, whatever follows it, is taken, and what
/// follows is left.
pub proof fn lemma_take_written_audiindx(count: u32, rest: Seq<u8>)
    ensures
        spec_take_audiindx(section_bytes(SectionKind::Audiindx, u32_le_bytes(count)) + rest)
            == Ok::<_, FormatError>((rest, count)),
{
    reveal(spec_take_audiindx);
    let sec = section_bytes(SectionKind::Audiindx, u32_le_bytes(count));
    let buf = sec + rest;
    lemma_le_round_trip(4);
    lemma_le_round_trip(count);
    assert(buf.subrange(0, 8) =~= TAG_AUDIINDX@);
    assert(buf.skip(16) =~= rest);
}

/// The sections of a written body, as the parser reads them.
pub open spec fn written_sections(c: Seq<Entry>, sums: Seq<u32>) -> Seq<SectionModel> {
    seq![
        SectionModel::Audiindx(c.len() as u32),
        SectionModel::Tnid(ids(c)),
        SectionModel::Nmof(name_offsets(c)),
        SectionModel::Adof(locations(c, sums)),
        SectionModel::Tnnm(names_blob(c, c.len() as int)),
        SectionModel::Junk,
        SectionModel::Pack,
    ]
}

/// Six written sections, one after the other, are read as what they
/// hold.
proof fn lemma_six_sections(
    p2: Seq<u8>,
    p3: Seq<u8>,
    p4: Seq<u8>,
    p5: Seq<u8>,
    p6: Seq<u8>,
    p7: Seq<u8>,
)
    requires
        p2.len() <= u32::MAX,
        p3.len() <= u32::MAX,
        p4.len() <= u32::MAX,
        p5.len() <= u32::MAX,
        p6.len() <= u32::MAX,
        p7.len() <= u32::MAX,
    ensures
        spec_sections(
            section_bytes(SectionKind::Tnid, p2) + (section_bytes(SectionKind::Nmof, p3) + (
            section_bytes(SectionKind::Adof, p4) + (section_bytes(SectionKind::Tnnm, p5) + (
            section_bytes(SectionKind::Junk, p6) + (section_bytes(SectionKind::Pack, p7)
                + Seq::<u8>::empty()))))),
        ) == Ok::<_, FormatError>(
            seq![
                SectionModel::Tnid(u32s_of(p2)),
                SectionModel::Nmof(u32s_of(p3)),
                SectionModel::Adof(pairs_of(p4)),
                SectionModel::Tnnm(p5),
                SectionModel::Junk,
                SectionModel::Pack,
            ],
        ),
{
    let r7 = Seq::<u8>::empty();
    let r6 = section_bytes(SectionKind::Pack, p7) + r7;
    let r5 = section_bytes(SectionKind::Junk, p6) + r6;
    let r4 = section_bytes(SectionKind::Tnnm, p5) + r5;
    let r3 = section_bytes(SectionKind::Adof, p4) + r4;
    let r2 = section_bytes(SectionKind::Nmof, p3) + r3;
    let r1 = section_bytes(SectionKind::Tnid, p2) + r2;
    assert(spec_sections(r7) == Ok::<_, FormatError>(Seq::<SectionModel>::empty())) by {
        reveal_with_fuel(spec_sections, 1);
    }
    lemma_sections_step(SectionKind::Pack, p7, r7);
    lemma_sections_step(SectionKind::Junk, p6, r6);
    lemma_sections_step(SectionKind::Tnnm, p5, r5);
    lemma_sections_step(SectionKind::Adof, p4, r4);
    lemma_sections_step(SectionKind::Nmof, p3, r3);
    lemma_sections_step(SectionKind::Tnid, p2, r2);
    assert(spec_sections(r1)->Ok_0 =~= seq![
        SectionModel::Tnid(u32s_of(p2)),
        SectionModel::Nmof(u32s_of(p3)),
        SectionModel::Adof(pairs_of(p4)),
        SectionModel::Tnnm(p5),
        SectionModel::Junk,
        SectionModel::Pack,
    ]);
}

/// Seven parts put together from the left are the first part and the
/// others put together from the right.
proof fn lemma_regrouped(
    s1: Seq<u8>,
    s2: Seq<u8>,
    s3: Seq<u8>,
    s4: Seq<u8>,
    s5: Seq<u8>,
    s6: Seq<u8>,
    s7: Seq<u8>,
)
    ensures
        s1 + s2 + s3 + s4 + s5 + s6 + s7 == s1 + (s2 + (s3 + (s4 + (s5 + (s6 + (s7
            + Seq::<u8>::empty())))))),
{
}

/// The payload of no section of an encodable container outgrows 32
/// bits.
pub proof fn lemma_payload_bounds(c: Seq<Entry>, sums: Seq<u32>)
    requires
        encodable_with(c, sums),
    ensures
        16 * c.len() + 72 <= u32::MAX,
        u32s_bytes(ids(c)).len() == 4 * c.len(),
        u32s_bytes(name_offsets(c)).len() == 4 * c.len(),
        pairs_bytes(locations(c, sums)).len() == 8 * c.len(),
        names_blob(c, c.len() as int).len() == names_len(c, c.len() as int),
        0 <= names_len(c, c.len() as int) <= u32::MAX,
        0 <= junk_len(c) < 16,
        pack_bytes(c, sums, c.len() as int).len() == pack_len(c, sums, c.len() as int),
        0 <= pack_len(c, sums, c.len() as int) <= u32::MAX,
{
    let n = c.len() as int;
    lemma_names_len_grows(c, 0, n);
    lemma_pack_len_grows(c, sums, 0, n);
    lemma_names_blob_len(c, n);
    lemma_pack_bytes_len(c, sums, n);
}

/// A written body is read as what its sections hold.
proof fn lemma_seven_sections(
    count: u32,
    p2: Seq<u8>,
    p3: Seq<u8>,
    p4: Seq<u8>,
    p5: Seq<u8>,
    p6: Seq<u8>,
    p7: Seq<u8>,
)
    requires
        p2.len() <= u32::MAX,
        p3.len() <= u32::MAX,
        p4.len() <= u32::MAX,
        p5.len() <= u32::MAX,
        p6.len() <= u32::MAX,
        p7.len() <= u32::MAX,
    ensures
        spec_body(
            section_bytes(SectionKind::Audiindx, u32_le_bytes(count)) + section_bytes(
                SectionKind::Tnid,
                p2,
            ) + section_bytes(SectionKind::Nmof, p3) + section_bytes(SectionKind::Adof, p4)
                + section_bytes(SectionKind::Tnnm, p5) + section_bytes(SectionKind::Junk, p6)
                + section_bytes(SectionKind::Pack, p7),
        ) == Ok::<_, FormatError>(
            seq![
                SectionModel::Audiindx(count),
                SectionModel::Tnid(u32s_of(p2)),
                SectionModel::Nmof(u32s_of(p3)),
                SectionModel::Adof(pairs_of(p4)),
                SectionModel::Tnnm(p5),
                SectionModel::Junk,
                SectionModel::Pack,
            ],
        ),
{
    let s1 = section_bytes(SectionKind::Audiindx, u32_le_bytes(count));
    let s2 = section_bytes(SectionKind::Tnid, p2);
    let s3 = section_bytes(SectionKind::Nmof, p3);
    let s4 = section_bytes(SectionKind::Adof, p4);
    let s5 = section_bytes(SectionKind::Tnnm, p5);
    let s6 = section_bytes(SectionKind::Junk, p6);
    let s7 = section_bytes(SectionKind::Pack, p7);
    let r1 = s2 + (s3 + (s4 + (s5 + (s6 + (s7 + Seq::<u8>::empty())))));
    lemma_six_sections(p2, p3, p4, p5, p6, p7);
    lemma_regrouped(s1, s2, s3, s4, s5, s6, s7);
    lemma_take_written_audiindx(count, r1);
    let tail = seq![
        SectionModel::Tnid(u32s_of(p2)),
        SectionModel::Nmof(u32s_of(p3)),
        SectionModel::Adof(pairs_of(p4)),
        SectionModel::Tnnm(p5),
        SectionModel::Junk,
        SectionModel::Pack,
    ];
    assert(seq![SectionModel::Audiindx(count)] + tail =~= seq![
        SectionModel::Audiindx(count),
        SectionModel::Tnid(u32s_of(p2)),
        SectionModel::Nmof(u32s_of(p3)),
        SectionModel::Adof(pairs_of(p4)),
        SectionModel::Tnnm(p5),
        SectionModel::Junk,
        SectionModel::Pack,
    ]);
}

/// The body of a written file is read as the sections that were
/// written.
pub proof fn lemma_body_read_back(c: Seq<Entry>, sums: Seq<u32>)
    requires
        encodable_with(c, sums),
    ensures
        spec_body(body_with(c, sums)) == Ok::<_, FormatError>(written_sections(c, sums)),
{
    reveal(body_with);
    lemma_payload_bounds(c, sums);
    lemma_u32s_read_back(ids(c));
    lemma_u32s_read_back(name_offsets(c));
    lemma_pairs_read_back(locations(c, sums));
    lemma_seven_sections(
        c.len() as u32,
        u32s_bytes(ids(c)),
        u32s_bytes(name_offsets(c)),
        pairs_bytes(locations(c, sums)),
        names_blob(c, c.len() as int),
        zeros(junk_len(c)),
        pack_bytes(c, sums, c.len() as int),
    );
}

/// The tables that the parser finds among the written sections.
pub proof fn lemma_written_tables(c: Seq<Entry>, sums: Seq<u32>)
    ensures
        adof_entries(written_sections(c, sums)) == Some(locations(c, sums)),
        nmof_entries(written_sections(c, sums)) == Some(name_offsets(c)),
        track_ids(written_sections(c, sums)) == Some(ids(c)),
        has_kind(written_sections(c, sums), SectionKind::Tnnm),
{
    let secs = written_sections(c, sums);
    lemma_find_kind_is(secs, SectionKind::Tnid, 1);
    lemma_find_kind_is(secs, SectionKind::Nmof, 2);
    lemma_find_kind_is(secs, SectionKind::Adof, 3);
    lemma_find_kind_is(secs, SectionKind::Tnnm, 4);
}

/// The names blob holds the name of each entry at the place that
/// [`names_len`] gives, with a zero byte behind it.
pub proof fn lemma_blob_holds_name(c: Seq<Entry>, n: int, i: int)
    requires
        0 <= i < n,
    ensures
        0 <= names_len(c, i),
        names_len(c, i) + c[i].name_bytes().len() + 1 <= names_blob(c, n).len(),
        names_blob(c, n).subrange(names_len(c, i), names_len(c, i) + c[i].name_bytes().len())
            == c[i].name_bytes(),
        names_blob(c, n)[names_len(c, i) + c[i].name_bytes().len()] == 0,
    decreases n,
{
    lemma_names_blob_len(c, n - 1);
    if i < n - 1 {
        lemma_blob_holds_name(c, n - 1, i);
    }
}

/// The stored payloads hold the payload of each stored entry at the
/// place that [`pack_len`] gives.
pub proof fn lemma_pack_holds_payload(c: Seq<Entry>, sums: Seq<u32>, n: int, j: int)
    requires
        0 <= j < n,
        stored(sums, j),
    ensures
        0 <= pack_len(c, sums, j),
        pack_len(c, sums, j) + c[j].data.len() <= pack_bytes(c, sums, n).len(),
        pack_bytes(c, sums, n).subrange(
            pack_len(c, sums, j),
            pack_len(c, sums, j) + c[j].data.len(),
        ) == c[j].data,
    decreases n,
{
    lemma_pack_bytes_len(c, sums, n - 1);
    if j < n - 1 {
        lemma_pack_holds_payload(c, sums, n - 1, j);
    }
}

/// A zero byte with none before it is where a name ends.
pub proof fn lemma_nul_found(input: Seq<u8>, from: int, end: int)
    requires
        0 <= from <= end < input.len(),
        forall|j: int| from <= j < end ==> input[j] != 0,
        input[end] == 0,
    ensures
        nul_from(input, from) == end,
    decreases end - from,
{
    if from < end {
        lemma_nul_found(input, from + 1, end);
    }
}

/// The middle of three parts lies behind the first.
proof fn lemma_middle(pre: Seq<u8>, mid: Seq<u8>, post: Seq<u8>)
    ensures
        (pre + mid + post).len() == pre.len() + mid.len() + post.len(),
        (pre + mid + post).subrange(pre.len() as int, (pre.len() + mid.len()) as int) == mid,
{
}

/// A file cut before and behind the payload of its fifth section.
proof fn lemma_cut_at_fifth(
    head: Seq<u8>,
    s1: Seq<u8>,
    s2: Seq<u8>,
    s3: Seq<u8>,
    s4: Seq<u8>,
    t5: Seq<u8>,
    l5: Seq<u8>,
    p5: Seq<u8>,
    s6: Seq<u8>,
    s7: Seq<u8>,
)
    ensures
        head + (s1 + s2 + s3 + s4 + (t5 + l5 + p5) + s6 + s7) == (head + s1 + s2 + s3 + s4 + t5
            + l5) + p5 + (s6 + s7),
        (head + s1 + s2 + s3 + s4 + t5 + l5).len() == head.len() + s1.len() + s2.len() + s3.len()
            + s4.len() + t5.len() + l5.len(),
{
}

/// A file cut before the payload of its seventh section.
proof fn lemma_cut_at_seventh(
    head: Seq<u8>,
    s1: Seq<u8>,
    s2: Seq<u8>,
    s3: Seq<u8>,
    s4: Seq<u8>,
    s5: Seq<u8>,
    s6: Seq<u8>,
    t7: Seq<u8>,
    l7: Seq<u8>,
    p7: Seq<u8>,
)
    ensures
        head + (s1 + s2 + s3 + s4 + s5 + s6 + (t7 + l7 + p7)) == (head + s1 + s2 + s3 + s4 + s5
            + s6 + t7 + l7) + p7 + Seq::<u8>::empty(),
        (head + s1 + s2 + s3 + s4 + s5 + s6 + t7 + l7).len() == head.len() + s1.len() + s2.len()
            + s3.len() + s4.len() + s5.len() + s6.len() + t7.len() + l7.len(),
{
}

/// The length of a section.
proof fn lemma_section_len(kind: SectionKind, payload: Seq<u8>)
    ensures
        kind.tag().len() == (if kind == SectionKind::Audiindx {
            8int
        } else {
            4int
        }),
        u32_le_bytes(payload.len() as u32).len() == 4,
        section_bytes(kind, payload).len() == kind.tag().len() + 4 + payload.len(),
{
}

/// The names lie in a written file where [`names_start`] says.
pub proof fn lemma_names_part(c: Seq<Entry>, sums: Seq<u32>)
    requires
        encodable_with(c, sums),
    ensures
        names_start(c.len() as int) + names_len(c, c.len() as int) <= file_bytes_with(
            c,
            sums,
        ).len(),
        file_bytes_with(c, sums).subrange(
            names_start(c.len() as int),
            names_start(c.len() as int) + names_len(c, c.len() as int),
        ) == names_blob(c, c.len() as int),
{
    let n = c.len() as int;
    let head = TAG_NUS3@ + u32_le_bytes((file_len_with(c, sums) - 8) as u32);
    let s1 = section_bytes(SectionKind::Audiindx, u32_le_bytes(c.len() as u32));
    let s2 = section_bytes(SectionKind::Tnid, u32s_bytes(ids(c)));
    let s3 = section_bytes(SectionKind::Nmof, u32s_bytes(name_offsets(c)));
    let s4 = section_bytes(SectionKind::Adof, pairs_bytes(locations(c, sums)));
    let p5 = names_blob(c, n);
    let t5 = SectionKind::Tnnm.tag();
    let l5 = u32_le_bytes(p5.len() as u32);
    let s6 = section_bytes(SectionKind::Junk, zeros(junk_len(c)));
    let s7 = section_bytes(SectionKind::Pack, pack_bytes(c, sums, n));
    let pre = head + s1 + s2 + s3 + s4 + t5 + l5;
    assert(pre.len() == names_start(n) && p5.len() == names_len(c, n)) by {
        lemma_payload_bounds(c, sums);
        lemma_section_len(SectionKind::Audiindx, u32_le_bytes(c.len() as u32));
        lemma_section_len(SectionKind::Tnid, u32s_bytes(ids(c)));
        lemma_section_len(SectionKind::Nmof, u32s_bytes(name_offsets(c)));
        lemma_section_len(SectionKind::Adof, pairs_bytes(locations(c, sums)));
        lemma_section_len(SectionKind::Tnnm, p5);
    }
    assert(file_bytes_with(c, sums) == pre + p5 + (s6 + s7)) by {
        reveal(body_with);
        lemma_cut_at_fifth(head, s1, s2, s3, s4, t5, l5, p5, s6, s7);
    }
    lemma_middle(pre, p5, s6 + s7);
}

/// The stored payloads lie in a written file where [`pack_start`]
/// says, and the file ends with them.
pub proof fn lemma_pack_part(c: Seq<Entry>, sums: Seq<u32>)
    requires
        encodable_with(c, sums),
    ensures
        file_bytes_with(c, sums).len() == file_len_with(c, sums),
        file_bytes_with(c, sums).subrange(pack_start(c), file_len_with(c, sums)) == pack_bytes(
            c,
            sums,
            c.len() as int,
        ),
{
    let n = c.len() as int;
    let head = TAG_NUS3@ + u32_le_bytes((file_len_with(c, sums) - 8) as u32);
    let s1 = section_bytes(SectionKind::Audiindx, u32_le_bytes(c.len() as u32));
    let s2 = section_bytes(SectionKind::Tnid, u32s_bytes(ids(c)));
    let s3 = section_bytes(SectionKind::Nmof, u32s_bytes(name_offsets(c)));
    let s4 = section_bytes(SectionKind::Adof, pairs_bytes(locations(c, sums)));
    let s5 = section_bytes(SectionKind::Tnnm, names_blob(c, n));
    let s6 = section_bytes(SectionKind::Junk, zeros(junk_len(c)));
    let p7 = pack_bytes(c, sums, n);
    let t7 = SectionKind::Pack.tag();
    let l7 = u32_le_bytes(p7.len() as u32);
    let pre = head + s1 + s2 + s3 + s4 + s5 + s6 + t7 + l7;
    assert(pre.len() == pack_start(c) && p7.len() == pack_len(c, sums, n)) by {
        lemma_payload_bounds(c, sums);
        lemma_section_len(SectionKind::Audiindx, u32_le_bytes(c.len() as u32));
        lemma_section_len(SectionKind::Tnid, u32s_bytes(ids(c)));
        lemma_section_len(SectionKind::Nmof, u32s_bytes(name_offsets(c)));
        lemma_section_len(SectionKind::Adof, pairs_bytes(locations(c, sums)));
        lemma_section_len(SectionKind::Tnnm, names_blob(c, n));
        lemma_section_len(SectionKind::Junk, zeros(junk_len(c)));
        lemma_section_len(SectionKind::Pack, p7);
    }
    assert(file_bytes_with(c, sums) == pre + p7 + Seq::<u8>::empty()) by {
        reveal(body_with);
        lemma_cut_at_seventh(head, s1, s2, s3, s4, s5, s6, t7, l7, p7);
    }
    lemma_middle(pre, p7, Seq::<u8>::empty());
}

/// The names of the first `k` entries.
pub open spec fn names_of(c: Seq<Entry>, k: int) -> Seq<Seq<char>> {
    Seq::new(k as nat, |i: int| c[i].name)
}

/// The payloads that the first `k` entries are stored as.
pub open spec fn payloads_of(c: Seq<Entry>, sums: Seq<u32>, k: int) -> Seq<Seq<u8>> {
    Seq::new(k as nat, |i: int| c[first_match(sums, i)].data)
}

/// The name of entry `i` is read back from a written file.
pub proof fn lemma_name_read_back(c: Seq<Entry>, sums: Seq<u32>, i: int)
    requires
        encodable_with(c, sums),
        all_valid(c),
        0 <= i < c.len(),
    ensures
        spec_name_at(file_bytes_with(c, sums), name_offsets(c)[i] as int) == Ok::<_, FormatError>(
            c[i].name,
        ),
{
    let n = c.len() as int;
    let file = file_bytes_with(c, sums);
    let blob = names_blob(c, n);
    let name = c[i].name_bytes();
    let len = name.len() as int;
    let base = names_start(n);
    let at = base + names_len(c, i);
    lemma_payload_bounds(c, sums);
    lemma_names_part(c, sums);
    lemma_blob_holds_name(c, n, i);
    assert forall|j: int| at <= j < at + len implies file[j] != 0 by {
        assert(blob.subrange(names_len(c, i), names_len(c, i) + len)[j - at] == name[j - at]);
    }
    lemma_nul_found(file, at, at + len);
    assert(file.subrange(at, at + len) =~= name);
    encode_utf8_valid_utf8(c[i].name);
    encode_utf8_decode_utf8(c[i].name);
}

/// The names of the first `k` entries are read back from a written
/// file.
pub proof fn lemma_names_read_back(c: Seq<Entry>, sums: Seq<u32>, k: int)
    requires
        encodable_with(c, sums),
        all_valid(c),
        0 <= k <= c.len(),
    ensures
        spec_names(name_offsets(c), file_bytes_with(c, sums), k) == Ok::<_, FormatError>(
            names_of(c, k),
        ),
    decreases k,
{
    if k > 0 {
        lemma_names_read_back(c, sums, k - 1);
        lemma_name_read_back(c, sums, k - 1);
        assert(names_of(c, k - 1).push(c[k - 1].name) =~= names_of(c, k));
    } else {
        assert(names_of(c, k) =~= Seq::empty());
    }
}

/// The payload that entry `i` is stored as is read back from a
/// written file.
pub proof fn lemma_payload_read_back(c: Seq<Entry>, sums: Seq<u32>, i: int)
    requires
        encodable_with(c, sums),
        0 <= i < c.len(),
    ensures
        spec_payload_at(
            file_bytes_with(c, sums),
            locations(c, sums)[i].0 as int,
            locations(c, sums)[i].1 as int,
        ) == Ok::<_, FormatError>(c[first_match(sums, i)].data),
{
    let n = c.len() as int;
    let file = file_bytes_with(c, sums);
    let j = first_match(sums, i);
    let data = c[j].data;
    let at = pack_start(c) + pack_len(c, sums, j);
    lemma_first_match(sums, i);
    lemma_payload_bounds(c, sums);
    lemma_pack_part(c, sums);
    lemma_pack_holds_payload(c, sums, n, j);
    assert(file.subrange(at, at + data.len()) =~= data);
}

/// The payloads that the first `k` entries are stored as are read back
/// from a written file.
pub proof fn lemma_payloads_read_back(c: Seq<Entry>, sums: Seq<u32>, k: int)
    requires
        encodable_with(c, sums),
        0 <= k <= c.len(),
    ensures
        spec_payloads(locations(c, sums), file_bytes_with(c, sums), k) == Ok::<_, FormatError>(
            payloads_of(c, sums, k),
        ),
    decreases k,
{
    if k > 0 {
        lemma_payloads_read_back(c, sums, k - 1);
        lemma_payload_read_back(c, sums, k - 1);
        assert(payloads_of(c, sums, k - 1).push(c[first_match(sums, k - 1)].data)
            =~= payloads_of(c, sums, k));
    } else {
        assert(payloads_of(c, sums, k) =~= Seq::empty());
    }
}

/// A magic, a length and a body are read back as they were written.
pub proof fn lemma_head_read_back(tag: Seq<u8>, len: u32, body: Seq<u8>)
    requires
        tag.len() == 4,
    ensures
        (tag + u32_le_bytes(len) + body).len() == 8 + body.len(),
        (tag + u32_le_bytes(len) + body).subrange(0, 4) == tag,
        le_u32_at(tag + u32_le_bytes(len) + body, 4) == len,
        (tag + u32_le_bytes(len) + body).subrange(8, 8 + body.len() as int) == body,
        (tag + u32_le_bytes(len) + body).skip(8 + body.len() as int) == Seq::<u8>::empty(),
{
    lemma_le_round_trip(len);
}

} // verus!
