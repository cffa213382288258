//! The section model: the closed set of tagged chunks that a container
//! is made of, and the shape of what each holds.

use vstd::prelude::*;

verus! {

/// `NUS3`, the first four bytes of every container.
pub const TAG_NUS3: [u8; 4] = [78, 85, 83, 51];

/// `AUDIINDX`, the tag of the section that opens the body.
pub const TAG_AUDIINDX: [u8; 8] = [65, 85, 68, 73, 73, 78, 68, 88];

/// `TNID`
pub const TAG_TNID: [u8; 4] = [84, 78, 73, 68];

/// `NMOF`
pub const TAG_NMOF: [u8; 4] = [78, 77, 79, 70];

/// `ADOF`
pub const TAG_ADOF: [u8; 4] = [65, 68, 79, 70];

/// `TNNM`
pub const TAG_TNNM: [u8; 4] = [84, 78, 78, 77];

/// `JUNK`
pub const TAG_JUNK: [u8; 4] = [74, 85, 78, 75];

/// `PACK`
pub const TAG_PACK: [u8; 4] = [80, 65, 67, 75];

/// The kinds of section.
#[derive(Clone, Copy, Debug, PartialEq, Eq, Structural)]
pub enum SectionKind {
    /// Advertises the number of tracks.
    Audiindx,
    /// The id of each entry.
    Tnid,
    /// Where each entry's name starts in the file.
    Nmof,
    /// Where each entry's payload lies in the file, and its length.
    Adof,
    /// The names, each closed by a zero byte.
    Tnnm,
    /// Zero bytes that align what follows.
    Junk,
    /// The payloads, each padded to sixteen bytes.
    Pack,
}

impl SectionKind {
    /// The tag that opens a section of this kind.
    pub open spec fn tag(self) -> Seq<u8> {
        match self {
            SectionKind::Audiindx => TAG_AUDIINDX@,
            SectionKind::Tnid => TAG_TNID@,
            SectionKind::Nmof => TAG_NMOF@,
            SectionKind::Adof => TAG_ADOF@,
            SectionKind::Tnnm => TAG_TNNM@,
            SectionKind::Junk => TAG_JUNK@,
            SectionKind::Pack => TAG_PACK@,
        }
    }
}

/// The name offsets of a container, in entry order.
#[derive(Debug)]
pub struct Nmof {
    pub name_offsets: Vec<u32>,
}

/// The payload locations of a container, in entry order: offset, then
/// size.
#[derive(Debug)]
pub struct Adof {
    pub entries: Vec<(u32, u32)>,
}

/// The ids of a container, in entry order.
#[derive(Debug)]
pub struct Tnid {
    pub track_nums: Vec<u32>,
}

/// One decoded section. The bytes of `Junk` and `Pack` are not kept:
/// payloads are found again through the offsets of `Adof`.
#[derive(Debug)]
pub enum Section {
    Audiindx(u32),
    Nmof(Nmof),
    Adof(Adof),
    Tnid(Tnid),
    Tnnm(Vec<u8>),
    Junk,
    Pack,
}

/// What a [`Section`] holds, as mathematical values.
pub enum SectionModel {
    Audiindx(u32),
    Nmof(Seq<u32>),
    Adof(Seq<(u32, u32)>),
    Tnid(Seq<u32>),
    Tnnm(Seq<u8>),
    Junk,
    Pack,
}

impl View for Section {
    type V = SectionModel;

    open spec fn view(&self) -> SectionModel {
        match self {
            Section::Audiindx(count) => SectionModel::Audiindx(*count),
            Section::Nmof(nmof) => SectionModel::Nmof(nmof.name_offsets@),
            Section::Adof(adof) => SectionModel::Adof(adof.entries@),
            Section::Tnid(tnid) => SectionModel::Tnid(tnid.track_nums@),
            Section::Tnnm(blob) => SectionModel::Tnnm(blob@),
            Section::Junk => SectionModel::Junk,
            Section::Pack => SectionModel::Pack,
        }
    }
}

impl SectionModel {
    /// The kind of this section.
    pub open spec fn kind(self) -> SectionKind {
        match self {
            SectionModel::Audiindx(_) => SectionKind::Audiindx,
            SectionModel::Nmof(_) => SectionKind::Nmof,
            SectionModel::Adof(_) => SectionKind::Adof,
            SectionModel::Tnid(_) => SectionKind::Tnid,
            SectionModel::Tnnm(_) => SectionKind::Tnnm,
            SectionModel::Junk => SectionKind::Junk,
            SectionModel::Pack => SectionKind::Pack,
        }
    }
}

} // verus!
