//! What the parser accepts: the sections of a buffer, and the entries
//! that the sections describe.
//!
//! Names and payloads are addressed by their place in the whole file,
//! so every function that resolves an offset takes the whole buffer.

use crate::bytes::le_u32_at;
use crate::error::FormatError;
use crate::file::Entry;
use crate::internal::{
    SectionKind, SectionModel, TAG_ADOF, TAG_AUDIINDX, TAG_JUNK, TAG_NMOF, TAG_NUS3, TAG_PACK,
    TAG_TNID, TAG_TNNM,
};
use vstd::prelude::*;
use vstd::utf8::{decode_utf8, valid_utf8};

verus! {

/// The kind of section that a four-byte tag opens, if the format
/// defines the tag.
pub open spec fn kind_of_tag(tag: Seq<u8>) -> Option<SectionKind> {
    if tag == TAG_NMOF@ {
        Some(SectionKind::Nmof)
    } else if tag == TAG_ADOF@ {
        Some(SectionKind::Adof)
    } else if tag == TAG_TNID@ {
        Some(SectionKind::Tnid)
    } else if tag == TAG_TNNM@ {
        Some(SectionKind::Tnnm)
    } else if tag == TAG_JUNK@ {
        Some(SectionKind::Junk)
    } else if tag == TAG_PACK@ {
        Some(SectionKind::Pack)
    } else {
        None
    }
}

/// The numbers that a payload holds, four bytes each. Bytes behind the
/// last whole number are passed over.
pub open spec fn u32s_of(payload: Seq<u8>) -> Seq<u32> {
    Seq::new((payload.len() / 4) as nat, |k: int| le_u32_at(payload, 4 * k))
}

/// The pairs that a payload holds, eight bytes each. Bytes behind the
/// last whole pair are passed over.
pub open spec fn pairs_of(payload: Seq<u8>) -> Seq<(u32, u32)> {
    Seq::new(
        (payload.len() / 8) as nat,
        |k: int| (le_u32_at(payload, 8 * k), le_u32_at(payload, 8 * k + 4)),
    )
}

/// What a payload holds in a section of the given kind.
pub open spec fn decode_payload(kind: SectionKind, payload: Seq<u8>) -> SectionModel {
    match kind {
        SectionKind::Audiindx => SectionModel::Audiindx(le_u32_at(payload, 0)),
        SectionKind::Nmof => SectionModel::Nmof(u32s_of(payload)),
        SectionKind::Adof => SectionModel::Adof(pairs_of(payload)),
        SectionKind::Tnid => SectionModel::Tnid(u32s_of(payload)),
        SectionKind::Tnnm => SectionModel::Tnnm(payload),
        SectionKind::Junk => SectionModel::Junk,
        SectionKind::Pack => SectionModel::Pack,
    }
}

/// One section off the front of `buf`: a known tag, a length, and as
/// many bytes of payload; beside it, what is left of `buf`.
#[verifier::opaque]
pub open spec fn spec_take_section(buf: Seq<u8>) -> Result<(Seq<u8>, SectionModel), FormatError> {
    if buf.len() < 4 {
        Err(FormatError::TruncatedSection)
    } else if kind_of_tag(buf.subrange(0, 4)) is None {
        Err(FormatError::UnknownSection)
    } else if buf.len() < 8 || buf.len() - 8 < le_u32_at(buf, 4) {
        Err(FormatError::TruncatedSection)
    } else {
        let len = le_u32_at(buf, 4) as int;
        Ok(
            (
                buf.skip(8 + len),
                decode_payload(kind_of_tag(buf.subrange(0, 4))->0, buf.subrange(8, 8 + len)),
            ),
        )
    }
}

/// The section that opens the body: its eight-byte tag, a length of
/// four or more, and the track count in the first four bytes of the
/// payload. The rest of the payload is passed over.
#[verifier::opaque]
pub open spec fn spec_take_audiindx(buf: Seq<u8>) -> Result<(Seq<u8>, u32), FormatError> {
    if buf.len() < 8 {
        Err(FormatError::TruncatedSection)
    } else if buf.subrange(0, 8) != TAG_AUDIINDX@ {
        Err(FormatError::UnknownSection)
    } else if buf.len() < 12 || le_u32_at(buf, 8) < 4 || buf.len() - 12 < le_u32_at(buf, 8) {
        Err(FormatError::TruncatedSection)
    } else {
        Ok((buf.skip(12 + le_u32_at(buf, 8)), le_u32_at(buf, 12)))
    }
}

/// The sections that fill `buf` from end to end.
#[verifier::opaque]
pub open spec fn spec_sections(buf: Seq<u8>) -> Result<Seq<SectionModel>, FormatError>
    decreases buf.len(),
{
    if buf.len() == 0 {
        Ok(Seq::empty())
    } else {
        match spec_take_section(buf) {
            Err(e) => Err(e),
            Ok((rest, section)) => {
                proof {
                    reveal(spec_take_section);
                }
                match spec_sections(rest) {
                    Err(e) => Err(e),
                    Ok(tail) => Ok(seq![section] + tail),
                }
            },
        }
    }
}

/// The sections of a body: the track count first, then the others.
pub open spec fn spec_body(body: Seq<u8>) -> Result<Seq<SectionModel>, FormatError> {
    match spec_take_audiindx(body) {
        Err(e) => Err(e),
        Ok((rest, count)) => match spec_sections(rest) {
            Err(e) => Err(e),
            Ok(tail) => Ok(seq![SectionModel::Audiindx(count)] + tail),
        },
    }
}

/// The least index at or after `from` of a section of the given kind;
/// the number of sections if there is none.
pub open spec fn find_kind(secs: Seq<SectionModel>, kind: SectionKind, from: int) -> int
    decreases secs.len() - from,
{
    if from >= secs.len() {
        secs.len() as int
    } else if secs[from].kind() == kind {
        from
    } else {
        find_kind(secs, kind, from + 1)
    }
}

/// Whether there is a section of the given kind.
pub open spec fn has_kind(secs: Seq<SectionModel>, kind: SectionKind) -> bool {
    find_kind(secs, kind, 0) < secs.len()
}

/// The payload locations of the first section that holds them.
pub open spec fn adof_entries(secs: Seq<SectionModel>) -> Option<Seq<(u32, u32)>> {
    if has_kind(secs, SectionKind::Adof) {
        Some(secs[find_kind(secs, SectionKind::Adof, 0)]->Adof_0)
    } else {
        None
    }
}

/// The name offsets of the first section that holds them.
pub open spec fn nmof_entries(secs: Seq<SectionModel>) -> Option<Seq<u32>> {
    if has_kind(secs, SectionKind::Nmof) {
        Some(secs[find_kind(secs, SectionKind::Nmof, 0)]->Nmof_0)
    } else {
        None
    }
}

/// The ids of the first section that holds them.
pub open spec fn track_ids(secs: Seq<SectionModel>) -> Option<Seq<u32>> {
    if has_kind(secs, SectionKind::Tnid) {
        Some(secs[find_kind(secs, SectionKind::Tnid, 0)]->Tnid_0)
    } else {
        None
    }
}

/// The index of the first zero byte at or after `from`; the length of
/// `input` if there is none.
pub open spec fn nul_from(input: Seq<u8>, from: int) -> int
    decreases input.len() - from,
{
    if from >= input.len() {
        input.len() as int
    } else if input[from] == 0 {
        from
    } else {
        nul_from(input, from + 1)
    }
}

/// The name that starts at `offset` and runs up to the next zero byte.
pub open spec fn spec_name_at(input: Seq<u8>, offset: int) -> Result<Seq<char>, FormatError> {
    let end = nul_from(input, offset);
    if end >= input.len() {
        Err(FormatError::TruncatedSection)
    } else if !valid_utf8(input.subrange(offset, end)) {
        Err(FormatError::InvalidUtf8Name)
    } else {
        Ok(decode_utf8(input.subrange(offset, end)))
    }
}

/// The names at the first `k` offsets; the error of the first that has
/// one.
pub open spec fn spec_names(offsets: Seq<u32>, input: Seq<u8>, k: int) -> Result<
    Seq<Seq<char>>,
    FormatError,
>
    decreases k,
{
    if k <= 0 {
        Ok(Seq::empty())
    } else {
        match spec_names(offsets, input, k - 1) {
            Err(e) => Err(e),
            Ok(names) => match spec_name_at(input, offsets[k - 1] as int) {
                Err(e) => Err(e),
                Ok(name) => Ok(names.push(name)),
            },
        }
    }
}

/// The payload of `size` bytes at `offset`.
pub open spec fn spec_payload_at(input: Seq<u8>, offset: int, size: int) -> Result<
    Seq<u8>,
    FormatError,
> {
    if offset + size > input.len() {
        Err(FormatError::TruncatedSection)
    } else {
        Ok(input.subrange(offset, offset + size))
    }
}

/// The payloads at the first `k` locations; the error of the first
/// that has one.
pub open spec fn spec_payloads(locs: Seq<(u32, u32)>, input: Seq<u8>, k: int) -> Result<
    Seq<Seq<u8>>,
    FormatError,
>
    decreases k,
{
    if k <= 0 {
        Ok(Seq::empty())
    } else {
        match spec_payloads(locs, input, k - 1) {
            Err(e) => Err(e),
            Ok(datas) => match spec_payload_at(
                input,
                locs[k - 1].0 as int,
                locs[k - 1].1 as int,
            ) {
                Err(e) => Err(e),
                Ok(data) => Ok(datas.push(data)),
            },
        }
    }
}

/// The entries made of the ids, names and payloads at each index.
pub open spec fn assemble(ids: Seq<u32>, names: Seq<Seq<char>>, datas: Seq<Seq<u8>>) -> Seq<
    Entry,
> {
    Seq::new(ids.len(), |i: int| Entry { id: ids[i], name: names[i], data: datas[i] })
}

/// The entries that the sections describe. The first section of each
/// kind counts; the tables must be there and agree in length; then
/// every name is resolved against the whole file, then every payload.
pub open spec fn spec_resolve(secs: Seq<SectionModel>, input: Seq<u8>) -> Result<
    Seq<Entry>,
    FormatError,
> {
    if adof_entries(secs) is None {
        Err(FormatError::MissingRequiredSection { kind: SectionKind::Adof })
    } else if nmof_entries(secs) is None {
        Err(FormatError::MissingRequiredSection { kind: SectionKind::Nmof })
    } else if track_ids(secs) is None {
        Err(FormatError::MissingRequiredSection { kind: SectionKind::Tnid })
    } else if !has_kind(secs, SectionKind::Tnnm) {
        Err(FormatError::MissingRequiredSection { kind: SectionKind::Tnnm })
    } else {
        let adof = adof_entries(secs)->0;
        let nmof = nmof_entries(secs)->0;
        let tnid = track_ids(secs)->0;
        if tnid.len() != adof.len() || nmof.len() != adof.len() {
            Err(FormatError::SectionCountMismatch)
        } else {
            match spec_names(nmof, input, nmof.len() as int) {
                Err(e) => Err(e),
                Ok(names) => match spec_payloads(adof, input, adof.len() as int) {
                    Err(e) => Err(e),
                    Ok(datas) => Ok(assemble(tnid, names, datas)),
                },
            }
        }
    }
}

/// The container at the front of `input`, and what follows it. The
/// body is as long as the length behind the magic says; bytes behind
/// it belong to no section, though offsets may still point at them.
pub open spec fn spec_take_file(input: Seq<u8>) -> Result<(Seq<u8>, Seq<Entry>), FormatError> {
    if input.len() < 4 || input.subrange(0, 4) != TAG_NUS3@ {
        Err(FormatError::BadMagic)
    } else if input.len() < 8 || input.len() - 8 < le_u32_at(input, 4) {
        Err(FormatError::TruncatedSection)
    } else {
        let end = 8 + le_u32_at(input, 4);
        match spec_body(input.subrange(8, end)) {
            Err(e) => Err(e),
            Ok(secs) => match spec_resolve(secs, input) {
                Err(e) => Err(e),
                Ok(entries) => Ok((input.skip(end), entries)),
            },
        }
    }
}

/// The container that `input` holds.
pub open spec fn spec_parse(input: Seq<u8>) -> Result<Seq<Entry>, FormatError> {
    match spec_take_file(input) {
        Err(e) => Err(e),
        Ok((_, entries)) => Ok(entries),
    }
}

/// What [`find_kind`] finds: a section of the kind, and none of it
/// before.
pub proof fn lemma_find_kind(secs: Seq<SectionModel>, kind: SectionKind, from: int)
    requires
        0 <= from <= secs.len(),
    ensures
        from <= find_kind(secs, kind, from) <= secs.len(),
        find_kind(secs, kind, from) < secs.len() ==> secs[find_kind(secs, kind, from)].kind()
            == kind,
        forall|j: int| from <= j < find_kind(secs, kind, from) ==> secs[j].kind() != kind,
    decreases secs.len() - from,
{
    if from < secs.len() && secs[from].kind() != kind {
        lemma_find_kind(secs, kind, from + 1);
    }
}

/// A section of a kind with none of it before is what [`find_kind`]
/// finds.
pub proof fn lemma_find_kind_is(secs: Seq<SectionModel>, kind: SectionKind, at: int)
    requires
        0 <= at <= secs.len(),
        at < secs.len() ==> secs[at].kind() == kind,
        forall|j: int| 0 <= j < at ==> secs[j].kind() != kind,
    ensures
        find_kind(secs, kind, 0) == at,
{
    lemma_find_kind(secs, kind, 0);
}

/// An error among the first names is the error of all.
pub proof fn lemma_names_error(offsets: Seq<u32>, input: Seq<u8>, i: int, k: int)
    requires
        0 <= i <= k,
        spec_names(offsets, input, i) is Err,
    ensures
        spec_names(offsets, input, k) == spec_names(offsets, input, i),
    decreases k,
{
    if i < k {
        lemma_names_error(offsets, input, i, k - 1);
    }
}

/// An error among the first payloads is the error of all.
pub proof fn lemma_payloads_error(locs: Seq<(u32, u32)>, input: Seq<u8>, i: int, k: int)
    requires
        0 <= i <= k,
        spec_payloads(locs, input, i) is Err,
    ensures
        spec_payloads(locs, input, k) == spec_payloads(locs, input, i),
    decreases k,
{
    if i < k {
        lemma_payloads_error(locs, input, i, k - 1);
    }
}

/// As many names as offsets.
pub proof fn lemma_names_count(offsets: Seq<u32>, input: Seq<u8>, k: int)
    requires
        0 <= k,
        spec_names(offsets, input, k) is Ok,
    ensures
        spec_names(offsets, input, k)->Ok_0.len() == k,
    decreases k,
{
    if k > 0 {
        lemma_names_count(offsets, input, k - 1);
    }
}

/// As many payloads as locations.
pub proof fn lemma_payloads_count(locs: Seq<(u32, u32)>, input: Seq<u8>, k: int)
    requires
        0 <= k,
        spec_payloads(locs, input, k) is Ok,
    ensures
        spec_payloads(locs, input, k)->Ok_0.len() == k,
    decreases k,
{
    if k > 0 {
        lemma_payloads_count(locs, input, k - 1);
    }
}

} // verus!
