//! The parser: from a buffer to its sections, and from the sections to
//! the entries they describe.

use crate::bytes::{le_u32_at, read_u32_le, starts_with};
use crate::error::FormatError;
use crate::file::{AudioFile, Entry, Nus3audioFile};
use crate::grammar::{
    adof_entries, assemble, has_kind, kind_of_tag, lemma_find_kind_is, lemma_names_count,
    lemma_names_error, lemma_payloads_count, lemma_payloads_error, nmof_entries, nul_from,
    pairs_of, spec_body, spec_name_at, spec_names, spec_parse, spec_payloads, spec_resolve,
    spec_sections, spec_take_audiindx, spec_take_file, spec_take_section, track_ids, u32s_of,
};
use crate::internal::{
    Adof, Nmof, Section, SectionKind, SectionModel, Tnid, TAG_ADOF, TAG_AUDIINDX, TAG_JUNK,
    TAG_NMOF, TAG_NUS3, TAG_PACK, TAG_TNID, TAG_TNNM,
};
use vstd::prelude::*;
use vstd::slice::{slice_subrange, slice_to_vec};
use vstd::string::{StringExecFns, StringSliceAdditionalSpecFns};
use vstd::utf8::{encode_utf8_decode_utf8, valid_utf8};

verus! {

/// What a vector of sections holds.
pub open spec fn section_models(secs: Seq<Section>) -> Seq<SectionModel> {
    Seq::new(secs.len(), |i: int| secs[i]@)
}

/// What a vector of strings holds.
pub open spec fn string_views(names: Seq<String>) -> Seq<Seq<char>> {
    Seq::new(names.len(), |i: int| names[i]@)
}

/// What a vector of byte vectors holds.
pub open spec fn byte_views(datas: Seq<Vec<u8>>) -> Seq<Seq<u8>> {
    Seq::new(datas.len(), |i: int| datas[i]@)
}

/// A result with `done` put before the sections it holds.
pub open spec fn after(done: Seq<SectionModel>, r: Result<Seq<SectionModel>, FormatError>) -> Result<
    Seq<SectionModel>,
    FormatError,
> {
    match r {
        Err(e) => Err(e),
        Ok(tail) => Ok(done + tail),
    }
}

/// `std::str::from_utf8`: the bytes as a string slice, if they are
/// valid UTF-8.
#[verifier::external_body]
fn str_from_utf8(bytes: &[u8]) -> (r: Option<&str>)
    ensures
        r is Some <==> valid_utf8(bytes@),
        r matches Some(s) ==> s.spec_bytes() == bytes@,
{
    match std::str::from_utf8(bytes) {
        Ok(s) => Some(s),
        Err(_) => None,
    }
}

/// The numbers that `payload` holds.
fn read_u32s(payload: &[u8]) -> (v: Vec<u32>)
    ensures
        v@ == u32s_of(payload@),
{
    let count = payload.len() / 4;
    let mut v: Vec<u32> = Vec::new();
    let mut k: usize = 0;
    while k < count
        invariant
            count == payload@.len() / 4,
            payload@.len() <= usize::MAX,
            k <= count,
            v@.len() == k,
            forall|j: int| 0 <= j < k ==> v@[j] == le_u32_at(payload@, 4 * j),
        decreases count - k,
    {
        v.push(read_u32_le(payload, 4 * k).unwrap());
        k += 1;
    }
    v
}

/// The pairs that `payload` holds.
fn read_pairs(payload: &[u8]) -> (v: Vec<(u32, u32)>)
    ensures
        v@ == pairs_of(payload@),
{
    let count = payload.len() / 8;
    let mut v: Vec<(u32, u32)> = Vec::new();
    let mut k: usize = 0;
    while k < count
        invariant
            count == payload@.len() / 8,
            payload@.len() <= usize::MAX,
            k <= count,
            v@.len() == k,
            forall|j: int|
                0 <= j < k ==> v@[j] == (
                    le_u32_at(payload@, 8 * j),
                    le_u32_at(payload@, 8 * j + 4),
                ),
        decreases count - k,
    {
        let offset = read_u32_le(payload, 8 * k).unwrap();
        let size = read_u32_le(payload, 8 * k + 4).unwrap();
        v.push((offset, size));
        k += 1;
    }
    v
}

/// The kind of section that the first four bytes of `buf` open.
fn section_kind(buf: &[u8]) -> (kind: Option<SectionKind>)
    requires
        buf@.len() >= 4,
    ensures
        kind == kind_of_tag(buf@.subrange(0, 4)),
{
    if starts_with(buf, TAG_NMOF) {
        Some(SectionKind::Nmof)
    } else if starts_with(buf, TAG_ADOF) {
        Some(SectionKind::Adof)
    } else if starts_with(buf, TAG_TNID) {
        Some(SectionKind::Tnid)
    } else if starts_with(buf, TAG_TNNM) {
        Some(SectionKind::Tnnm)
    } else if starts_with(buf, TAG_JUNK) {
        Some(SectionKind::Junk)
    } else if starts_with(buf, TAG_PACK) {
        Some(SectionKind::Pack)
    } else {
        None
    }
}

/// Takes one section off the front of `buf`.
pub fn take_section(buf: &[u8]) -> (r: Result<(&[u8], Section), FormatError>)
    ensures
        match r {
            Ok((rest, section)) => spec_take_section(buf@) == Ok::<_, FormatError>(
                (rest@, section@),
            ),
            Err(e) => spec_take_section(buf@) == Err::<(Seq<u8>, SectionModel), _>(e),
        },
{
    reveal(spec_take_section);
    if buf.len() < 4 {
        return Err(FormatError::TruncatedSection);
    }
    let kind = match section_kind(buf) {
        Some(kind) => kind,
        None => {
            return Err(FormatError::UnknownSection);
        },
    };
    let len = match read_u32_le(buf, 4) {
        Some(len) => len as usize,
        None => {
            return Err(FormatError::TruncatedSection);
        },
    };
    if buf.len() - 8 < len {
        return Err(FormatError::TruncatedSection);
    }
    let payload = slice_subrange(buf, 8, 8 + len);
    let rest = slice_subrange(buf, 8 + len, buf.len());
    let section = match kind {
        SectionKind::Nmof => Section::Nmof(Nmof { name_offsets: read_u32s(payload) }),
        SectionKind::Adof => Section::Adof(Adof { entries: read_pairs(payload) }),
        SectionKind::Tnid => Section::Tnid(Tnid { track_nums: read_u32s(payload) }),
        SectionKind::Tnnm => Section::Tnnm(slice_to_vec(payload)),
        SectionKind::Junk => Section::Junk,
        _ => Section::Pack,
    };
    Ok((rest, section))
}

/// Takes the section that opens the body off the front of `buf`, and
/// gives the track count that it holds.
pub fn take_audiindx(buf: &[u8]) -> (r: Result<(&[u8], u32), FormatError>)
    ensures
        match r {
            Ok((rest, count)) => spec_take_audiindx(buf@) == Ok::<_, FormatError>((rest@, count)),
            Err(e) => spec_take_audiindx(buf@) == Err::<(Seq<u8>, u32), _>(e),
        },
{
    reveal(spec_take_audiindx);
    if buf.len() < 8 {
        return Err(FormatError::TruncatedSection);
    }
    if !starts_with(buf, TAG_AUDIINDX) {
        return Err(FormatError::UnknownSection);
    }
    let size = match read_u32_le(buf, 8) {
        Some(size) => size as usize,
        None => {
            return Err(FormatError::TruncatedSection);
        },
    };
    if size < 4 || buf.len() - 12 < size {
        return Err(FormatError::TruncatedSection);
    }
    let track_count = read_u32_le(buf, 12).unwrap();
    Ok((slice_subrange(buf, 12 + size, buf.len()), track_count))
}

/// Decodes the sections of a body: the track count first, then the
/// others until the body is used up.
pub fn take_body(body: &[u8]) -> (r: Result<Vec<Section>, FormatError>)
    ensures
        match r {
            Ok(secs) => spec_body(body@) == Ok::<_, FormatError>(section_models(secs@)),
            Err(e) => spec_body(body@) == Err::<Seq<SectionModel>, _>(e),
        },
{
    let (first, track_count) = match take_audiindx(body) {
        Ok(taken) => taken,
        Err(e) => {
            return Err(e);
        },
    };
    reveal_with_fuel(spec_sections, 1);
    let mut secs: Vec<Section> = Vec::new();
    secs.push(Section::Audiindx(track_count));
    let mut buf = first;
    while buf.len() > 0
        invariant
            spec_take_audiindx(body@) == Ok::<_, FormatError>((first@, track_count)),
            secs@.len() >= 1,
            section_models(secs@)[0] == SectionModel::Audiindx(track_count),
            spec_sections(first@) == after(section_models(secs@).skip(1), spec_sections(buf@)),
        ensures
            buf@.len() == 0,
        decreases buf@.len(),
    {
        reveal_with_fuel(spec_sections, 1);
        reveal(spec_take_section);
        let ghost done = section_models(secs@).skip(1);
        match take_section(buf) {
            Err(e) => {
                return Err(e);
            },
            Ok((rest, section)) => {
                proof {
                    let tail = spec_sections(rest@);
                    if tail is Ok {
                        assert(done + (seq![section@] + tail->Ok_0) =~= done.push(section@)
                            + tail->Ok_0);
                    }
                }
                secs.push(section);
                assert(section_models(secs@).skip(1) =~= done.push(section@));
                buf = rest;
            },
        }
    }
    proof {
        let done = section_models(secs@).skip(1);
        assert(seq![SectionModel::Audiindx(track_count)] + done =~= section_models(secs@));
    }
    Ok(secs)
}

/// A copy of `v`.
fn copy_pairs(v: &Vec<(u32, u32)>) -> (w: Vec<(u32, u32)>)
    ensures
        w@ == v@,
{
    let mut w: Vec<(u32, u32)> = Vec::new();
    let mut i: usize = 0;
    while i < v.len()
        invariant
            i <= v@.len(),
            w@ == v@.take(i as int),
        decreases v@.len() - i,
    {
        w.push(v[i]);
        i += 1;
    }
    w
}

/// The payload locations of the first section that holds them.
pub fn get_adof_entries(sections: &Vec<Section>) -> (r: Option<Vec<(u32, u32)>>)
    ensures
        match r {
            Some(entries) => adof_entries(section_models(sections@)) == Some(entries@),
            None => adof_entries(section_models(sections@)) is None,
        },
{
    let ghost secs = section_models(sections@);
    let mut i: usize = 0;
    while i < sections.len()
        invariant
            i <= sections@.len(),
            secs == section_models(sections@),
            forall|j: int| 0 <= j < i ==> secs[j].kind() != SectionKind::Adof,
        decreases sections@.len() - i,
    {
        if let Section::Adof(adof) = &sections[i] {
            proof {
                lemma_find_kind_is(secs, SectionKind::Adof, i as int);
            }
            return Some(copy_pairs(&adof.entries));
        }
        i += 1;
    }
    proof {
        lemma_find_kind_is(secs, SectionKind::Adof, secs.len() as int);
    }
    None
}

/// The name offsets of the first section that holds them.
pub fn get_nmof_entries(sections: &Vec<Section>) -> (r: Option<Vec<u32>>)
    ensures
        match r {
            Some(offsets) => nmof_entries(section_models(sections@)) == Some(offsets@),
            None => nmof_entries(section_models(sections@)) is None,
        },
{
    let ghost secs = section_models(sections@);
    let mut i: usize = 0;
    while i < sections.len()
        invariant
            i <= sections@.len(),
            secs == section_models(sections@),
            forall|j: int| 0 <= j < i ==> secs[j].kind() != SectionKind::Nmof,
        decreases sections@.len() - i,
    {
        if let Section::Nmof(nmof) = &sections[i] {
            proof {
                lemma_find_kind_is(secs, SectionKind::Nmof, i as int);
            }
            return Some(nmof.name_offsets.clone());
        }
        i += 1;
    }
    proof {
        lemma_find_kind_is(secs, SectionKind::Nmof, secs.len() as int);
    }
    None
}

/// The ids of the first section that holds them.
pub fn get_track_ids(sections: &Vec<Section>) -> (r: Option<Vec<u32>>)
    ensures
        match r {
            Some(ids) => track_ids(section_models(sections@)) == Some(ids@),
            None => track_ids(section_models(sections@)) is None,
        },
{
    let ghost secs = section_models(sections@);
    let mut i: usize = 0;
    while i < sections.len()
        invariant
            i <= sections@.len(),
            secs == section_models(sections@),
            forall|j: int| 0 <= j < i ==> secs[j].kind() != SectionKind::Tnid,
        decreases sections@.len() - i,
    {
        if let Section::Tnid(tnid) = &sections[i] {
            proof {
                lemma_find_kind_is(secs, SectionKind::Tnid, i as int);
            }
            return Some(tnid.track_nums.clone());
        }
        i += 1;
    }
    proof {
        lemma_find_kind_is(secs, SectionKind::Tnid, secs.len() as int);
    }
    None
}

/// Whether there is a section that holds the names.
fn has_names(sections: &Vec<Section>) -> (r: bool)
    ensures
        r == has_kind(section_models(sections@), SectionKind::Tnnm),
{
    let ghost secs = section_models(sections@);
    let mut i: usize = 0;
    while i < sections.len()
        invariant
            i <= sections@.len(),
            secs == section_models(sections@),
            forall|j: int| 0 <= j < i ==> secs[j].kind() != SectionKind::Tnnm,
        decreases sections@.len() - i,
    {
        if let Section::Tnnm(_) = &sections[i] {
            proof {
                lemma_find_kind_is(secs, SectionKind::Tnnm, i as int);
            }
            return true;
        }
        i += 1;
    }
    proof {
        lemma_find_kind_is(secs, SectionKind::Tnnm, secs.len() as int);
    }
    false
}

/// Reads the name that starts at `offset` of `input`.
fn name_at(input: &[u8], offset: u32) -> (r: Result<String, FormatError>)
    ensures
        match r {
            Ok(name) => spec_name_at(input@, offset as int) == Ok::<_, FormatError>(name@),
            Err(e) => spec_name_at(input@, offset as int) == Err::<Seq<char>, _>(e),
        },
{
    let start = offset as usize;
    if start >= input.len() {
        return Err(FormatError::TruncatedSection);
    }
    let mut end = start;
    while end < input.len() && input[end] != 0
        invariant
            start <= end <= input@.len(),
            nul_from(input@, start as int) == nul_from(input@, end as int),
        decreases input@.len() - end,
    {
        end += 1;
    }
    if end >= input.len() {
        return Err(FormatError::TruncatedSection);
    }
    let bytes = slice_subrange(input, start, end);
    match str_from_utf8(bytes) {
        Some(s) => {
            proof {
                encode_utf8_decode_utf8(s@);
            }
            Ok(String::from_str(s))
        },
        None => Err(FormatError::InvalidUtf8Name),
    }
}

/// Reads the names at the given offsets of `input`.
pub fn get_names(name_offsets: Vec<u32>, input: &[u8]) -> (r: Result<Vec<String>, FormatError>)
    ensures
        match r {
            Ok(names) => spec_names(name_offsets@, input@, name_offsets@.len() as int) == Ok::<
                _,
                FormatError,
            >(string_views(names@)),
            Err(e) => spec_names(name_offsets@, input@, name_offsets@.len() as int) == Err::<
                Seq<Seq<char>>,
                _,
            >(e),
        },
{
    let mut names: Vec<String> = Vec::new();
    let mut i: usize = 0;
    assert(string_views(names@) =~= Seq::empty());
    while i < name_offsets.len()
        invariant
            i <= name_offsets@.len(),
            spec_names(name_offsets@, input@, i as int) == Ok::<_, FormatError>(
                string_views(names@),
            ),
        decreases name_offsets@.len() - i,
    {
        let ghost before = string_views(names@);
        match name_at(input, name_offsets[i]) {
            Ok(name) => {
                names.push(name);
                assert(string_views(names@) =~= before.push(name@));
            },
            Err(e) => {
                proof {
                    lemma_names_error(name_offsets@, input@, i + 1, name_offsets@.len() as int);
                }
                return Err(e);
            },
        }
        i += 1;
    }
    Ok(names)
}

/// Copies the payloads at the given locations of `input`.
fn get_payloads(locs: &Vec<(u32, u32)>, input: &[u8]) -> (r: Result<Vec<Vec<u8>>, FormatError>)
    ensures
        match r {
            Ok(datas) => spec_payloads(locs@, input@, locs@.len() as int) == Ok::<_, FormatError>(
                byte_views(datas@),
            ),
            Err(e) => spec_payloads(locs@, input@, locs@.len() as int) == Err::<Seq<Seq<u8>>, _>(
                e,
            ),
        },
{
    let mut datas: Vec<Vec<u8>> = Vec::new();
    let mut i: usize = 0;
    assert(byte_views(datas@) =~= Seq::empty());
    while i < locs.len()
        invariant
            i <= locs@.len(),
            spec_payloads(locs@, input@, i as int) == Ok::<_, FormatError>(byte_views(datas@)),
        decreases locs@.len() - i,
    {
        let ghost before = byte_views(datas@);
        let (offset, size) = locs[i];
        if offset as u64 + size as u64 > input.len() as u64 {
            proof {
                lemma_payloads_error(locs@, input@, i + 1, locs@.len() as int);
            }
            return Err(FormatError::TruncatedSection);
        }
        let data = slice_to_vec(slice_subrange(
            input,
            offset as usize,
            offset as usize + size as usize,
        ));
        datas.push(data);
        assert(byte_views(datas@) =~= before.push(data@));
        i += 1;
    }
    Ok(datas)
}

/// Builds the entries that the sections describe, reading names and
/// payloads from `input`, the whole file.
pub fn resolve(sections: &Vec<Section>, input: &[u8]) -> (r: Result<Vec<AudioFile>, FormatError>)
    ensures
        match r {
            Ok(files) => spec_resolve(section_models(sections@), input@) == Ok::<_, FormatError>(
                Seq::new(files@.len(), |i: int| files@[i]@),
            ),
            Err(e) => spec_resolve(section_models(sections@), input@) == Err::<Seq<Entry>, _>(e),
        },
{
    let adof = match get_adof_entries(sections) {
        Some(adof) => adof,
        None => {
            return Err(FormatError::MissingRequiredSection { kind: SectionKind::Adof });
        },
    };
    let nmof = match get_nmof_entries(sections) {
        Some(nmof) => nmof,
        None => {
            return Err(FormatError::MissingRequiredSection { kind: SectionKind::Nmof });
        },
    };
    let ids = match get_track_ids(sections) {
        Some(ids) => ids,
        None => {
            return Err(FormatError::MissingRequiredSection { kind: SectionKind::Tnid });
        },
    };
    if !has_names(sections) {
        return Err(FormatError::MissingRequiredSection { kind: SectionKind::Tnnm });
    }
    let n = adof.len();
    if ids.len() != n || nmof.len() != n {
        return Err(FormatError::SectionCountMismatch);
    }
    let ghost offsets = nmof@;
    let names = match get_names(nmof, input) {
        Ok(names) => names,
        Err(e) => {
            return Err(e);
        },
    };
    let datas = match get_payloads(&adof, input) {
        Ok(datas) => datas,
        Err(e) => {
            return Err(e);
        },
    };
    proof {
        lemma_names_count(offsets, input@, n as int);
        lemma_payloads_count(adof@, input@, n as int);
    }
    let mut files: Vec<AudioFile> = Vec::new();
    let mut i: usize = 0;
    while i < n
        invariant
            i <= n,
            n == ids@.len(),
            n == names@.len(),
            n == datas@.len(),
            files@.len() == i,
            forall|j: int|
                0 <= j < i ==> (#[trigger] files@[j])@ == (Entry {
                    id: ids@[j],
                    name: names@[j]@,
                    data: datas@[j]@,
                }),
        decreases n - i,
    {
        let data = datas[i].clone();
        files.push(AudioFile { id: ids[i], name: names[i].clone(), data });
        i += 1;
    }
    assert(Seq::new(files@.len(), |i: int| files@[i]@) =~= assemble(
        ids@,
        string_views(names@),
        byte_views(datas@),
    ));
    Ok(files)
}

/// Decodes the container at the front of `input`, and gives what
/// follows it.
pub fn take_file(input: &[u8]) -> (r: Result<(&[u8], Nus3audioFile), FormatError>)
    ensures
        match r {
            Ok((rest, file)) => spec_take_file(input@) == Ok::<_, FormatError>((rest@, file@)),
            Err(e) => spec_take_file(input@) == Err::<(Seq<u8>, Seq<Entry>), _>(e),
        },
{
    if !starts_with(input, TAG_NUS3) {
        return Err(FormatError::BadMagic);
    }
    let body_len = match read_u32_le(input, 4) {
        Some(len) => len as usize,
        None => {
            return Err(FormatError::TruncatedSection);
        },
    };
    if input.len() - 8 < body_len {
        return Err(FormatError::TruncatedSection);
    }
    let body = slice_subrange(input, 8, 8 + body_len);
    let rest = slice_subrange(input, 8 + body_len, input.len());
    let sections = match take_body(body) {
        Ok(sections) => sections,
        Err(e) => {
            return Err(e);
        },
    };
    let files = match resolve(&sections, input) {
        Ok(files) => files,
        Err(e) => {
            return Err(e);
        },
    };
    Ok((rest, Nus3audioFile { files }))
}

impl Nus3audioFile {
    /// Decodes the container that `data` holds.
    pub fn from_bytes(data: &[u8]) -> (r: Result<Nus3audioFile, FormatError>)
        ensures
            match r {
                Ok(file) => spec_parse(data@) == Ok::<_, FormatError>(file@),
                Err(e) => spec_parse(data@) == Err::<Seq<Entry>, _>(e),
            },
    {
        match take_file(data) {
            Ok((_, file)) => Ok(file),
            Err(e) => Err(e),
        }
    }
}

} // verus!
