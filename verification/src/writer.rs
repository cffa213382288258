//! The writer: places names and payloads, then emits the sections in
//! their fixed order.

use crate::bytes::{u32_le_bytes, write_u32};
use crate::checksum::checksum_ieee;
use crate::file::{Entry, Nus3audioFile};
use crate::internal::{
    SectionKind, TAG_ADOF, TAG_AUDIINDX, TAG_JUNK, TAG_NMOF, TAG_NUS3, TAG_PACK, TAG_TNID,
    TAG_TNNM,
};
use crate::layout::{
    body_with, checksums, encodable, encodable_with, file_bytes, file_bytes_with, file_len,
    file_len_with, ids, junk_len, lemma_file_bytes_len, lemma_first_match, lemma_first_match_shared,
    lemma_names_blob_len, lemma_names_len_grows, lemma_pack_bytes_len, lemma_pack_len_grows,
    location_from, locations, name_offsets, names_blob, names_len, names_start, pack_bytes,
    pack_len, pack_start, padding_amount, pairs_bytes, section_bytes, stored, tail_pad, u32s_bytes,
    zeros,
};
use std::collections::HashMap;
use vstd::prelude::*;
use vstd::string::StringSliceAdditionalSpecFns;

verus! {

broadcast use vstd::std_specs::hash::group_hash_axioms;

/// The length of the padding section's payload when that payload
/// starts at `offset`. The eight bytes of the next section's tag and
/// length then end on a multiple of sixteen.
pub fn get_padding_amount(offset: usize) -> (pad: usize)
    ensures
        pad == padding_amount(offset as int),
        0 <= pad < 16,
        (offset + pad + 8) % 16 == 0,
{
    (24 - offset % 16) % 16
}

/// Appends one byte.
pub fn write_u8(b: u8, out: &mut Vec<u8>)
    ensures
        final(out)@ == old(out)@.push(b),
{
    out.push(b);
}

/// Appends the bytes of `bytes`.
pub fn write_bytes(bytes: &[u8], out: &mut Vec<u8>)
    ensures
        final(out)@ == old(out)@ + bytes@,
{
    out.extend_from_slice(bytes);
}

/// Appends the UTF-8 encoding of `s`.
pub fn write_str(s: &str, out: &mut Vec<u8>)
    ensures
        final(out)@ == old(out)@ + s.spec_bytes(),
{
    write_bytes(s.as_bytes(), out);
}

/// Appends a tag.
fn write_tag<const N: usize>(tag: [u8; N], out: &mut Vec<u8>)
    ensures
        final(out)@ == old(out)@ + tag@,
{
    let mut i: usize = 0;
    while i < N
        invariant
            i <= N,
            tag@.len() == N,
            out@ == old(out)@ + tag@.take(i as int),
        decreases N - i,
    {
        out.push(tag[i]);
        i += 1;
    }
}

/// Appends `n` zero bytes.
fn write_zeros(n: usize, out: &mut Vec<u8>)
    ensures
        final(out)@ == old(out)@ + zeros(n as int),
{
    let mut i: usize = 0;
    while i < n
        invariant
            i <= n,
            out@ == old(out)@ + zeros(i as int),
        decreases n - i,
    {
        out.push(0);
        i += 1;
    }
}

/// Appends each number of `v`, little-endian.
pub fn write_u32s(v: &Vec<u32>, out: &mut Vec<u8>)
    ensures
        final(out)@ == old(out)@ + u32s_bytes(v@),
{
    let mut i: usize = 0;
    while i < v.len()
        invariant
            i <= v@.len(),
            out@ == old(out)@ + u32s_bytes(v@.take(i as int)),
        decreases v@.len() - i,
    {
        write_u32(v[i], out);
        i += 1;
    }
}

/// Appends each pair of `v`: first, then second, little-endian.
pub fn write_pairs(v: &Vec<(u32, u32)>, out: &mut Vec<u8>)
    ensures
        final(out)@ == old(out)@ + pairs_bytes(v@),
{
    let mut i: usize = 0;
    while i < v.len()
        invariant
            i <= v@.len(),
            out@ == old(out)@ + pairs_bytes(v@.take(i as int)),
        decreases v@.len() - i,
    {
        write_u32(v[i].0, out);
        write_u32(v[i].1, out);
        i += 1;
    }
}

/// Appends the magic, the length of what follows, and the section
/// that holds the track count.
fn write_preamble(body_len: u32, count: u32, out: &mut Vec<u8>)
    ensures
        final(out)@ == old(out)@ + (TAG_NUS3@ + u32_le_bytes(body_len)) + section_bytes(
            SectionKind::Audiindx,
            u32_le_bytes(count),
        ),
{
    write_tag(TAG_NUS3, out);
    write_u32(body_len, out);
    write_tag(TAG_AUDIINDX, out);
    write_u32(4, out);
    write_u32(count, out);
}

/// Appends a section that holds a table of numbers.
fn write_u32_table(tag: [u8; 4], v: &Vec<u32>, out: &mut Vec<u8>)
    requires
        4 * v@.len() <= u32::MAX,
    ensures
        final(out)@ == old(out)@ + (tag@ + u32_le_bytes(u32s_bytes(v@).len() as u32) + u32s_bytes(
            v@,
        )),
{
    write_tag(tag, out);
    write_u32(v.len() as u32 * 4, out);
    write_u32s(v, out);
}

/// Appends a section that holds a table of pairs.
fn write_pair_table(tag: [u8; 4], v: &Vec<(u32, u32)>, out: &mut Vec<u8>)
    requires
        8 * v@.len() <= u32::MAX,
    ensures
        final(out)@ == old(out)@ + (tag@ + u32_le_bytes(pairs_bytes(v@).len() as u32)
            + pairs_bytes(v@)),
{
    write_tag(tag, out);
    write_u32(v.len() as u32 * 8, out);
    write_pairs(v, out);
}

/// A tag, a length and a payload appended one after the other make a
/// section appended.
proof fn lemma_section_appended(pre: Seq<u8>, kind: SectionKind, payload: Seq<u8>)
    ensures
        pre + kind.tag() + u32_le_bytes(payload.len() as u32) + payload == pre + section_bytes(
            kind,
            payload,
        ),
{
}

/// The parts of a file appended one after the other make the file
/// appended.
proof fn lemma_assembled(
    pre: Seq<u8>,
    head: Seq<u8>,
    s1: Seq<u8>,
    s2: Seq<u8>,
    s3: Seq<u8>,
    s4: Seq<u8>,
    s5: Seq<u8>,
    s6: Seq<u8>,
    s7: Seq<u8>,
)
    ensures
        pre + head + s1 + s2 + s3 + s4 + s5 + s6 + s7 == pre + (head + (s1 + s2 + s3 + s4 + s5
            + s6 + s7)),
{
}

/// Where everything goes in the file that holds a container.
pub struct Layout {
    /// Where each entry's name starts.
    pub name_offsets: Vec<u32>,
    /// The length of all names, closing zeros included.
    pub names_size: u32,
    /// The length of the padding before the payloads.
    pub junk_size: u32,
    /// Where each entry's payload lies, and its size.
    pub locations: Vec<(u32, u32)>,
    /// Whether each entry's payload is stored, or shared with an
    /// earlier entry.
    pub stored: Vec<bool>,
    /// The length of all stored payloads, padding included.
    pub pack_size: u32,
    /// The length of the file.
    pub file_size: u32,
}

impl Layout {
    /// Whether this is the layout of `c` under the checksums `sums`.
    pub open spec fn describes(&self, c: Seq<Entry>, sums: Seq<u32>) -> bool {
        &&& self.name_offsets@ == name_offsets(c)
        &&& self.names_size == names_len(c, c.len() as int)
        &&& self.junk_size == junk_len(c)
        &&& self.locations@ == locations(c, sums)
        &&& self.stored@ == Seq::new(c.len(), |i: int| stored(sums, i))
        &&& self.pack_size == pack_len(c, sums, c.len() as int)
        &&& self.file_size == file_len_with(c, sums)
    }
}

/// The placement of the stored payloads: locations, which entries are
/// stored, and the total size.
struct PackPlan {
    locations: Vec<(u32, u32)>,
    stored: Vec<bool>,
    size: u32,
}

impl Nus3audioFile {
    /// The checksum of each entry's payload.
    pub fn checksums(&self) -> (sums: Vec<u32>)
        ensures
            sums@ == checksums(self@),
    {
        let mut sums: Vec<u32> = Vec::new();
        let mut i: usize = 0;
        while i < self.files.len()
            invariant
                i <= self.files@.len(),
                sums@.len() == i,
                forall|j: int| 0 <= j < i ==> sums@[j] == checksums(self@)[j],
            decreases self.files@.len() - i,
        {
            sums.push(checksum_ieee(self.files[i].data.as_slice()));
            i += 1;
        }
        sums
    }

    /// Places the names: the offset of each, and the length of all.
    /// There is a placement exactly when the names end within 32 bits.
    fn place_names(&self) -> (r: Option<(Vec<u32>, u32)>)
        ensures
            r is Some <==> names_start(self@.len() as int) + names_len(self@, self@.len() as int)
                <= u32::MAX,
            r matches Some((offsets, size)) ==> offsets@ == name_offsets(self@) && size
                == names_len(self@, self@.len() as int),
    {
        let n = self.files.len();
        proof {
            lemma_names_len_grows(self@, 0, n as int);
        }
        if n > 268435452 {
            return None;
        }
        let start: u32 = 56 + 16 * (n as u32);
        let mut offsets: Vec<u32> = Vec::new();
        let mut size: u32 = 0;
        let mut i: usize = 0;
        while i < n
            invariant
                n == self.files@.len(),
                i <= n,
                start == names_start(n as int),
                size == names_len(self@, i as int),
                start + size <= u32::MAX,
                offsets@.len() == i,
                forall|j: int| 0 <= j < i ==> offsets@[j] == name_offsets(self@)[j],
            decreases n - i,
        {
            let len = self.files[i].name.as_str().as_bytes().len();
            offsets.push(start + size);
            if len >= (u32::MAX - start - size) as usize {
                proof {
                    lemma_names_len_grows(self@, i + 1, n as int);
                }
                return None;
            }
            size = size + len as u32 + 1;
            i += 1;
        }
        Some((offsets, size))
    }

    /// Places the payloads from `start` on, storing each checksum's
    /// first payload only. There is a placement exactly when the
    /// stored payloads end within 32 bits.
    fn place_payloads(&self, sums: &Vec<u32>, start: u32) -> (r: Option<PackPlan>)
        requires
            sums@.len() == self@.len(),
        ensures
            r is Some <==> start + pack_len(self@, sums@, self@.len() as int) <= u32::MAX,
            r matches Some(plan) ==> {
                &&& plan.locations@ == Seq::new(
                    self@.len(),
                    |i: int| location_from(self@, sums@, start as int, i),
                )
                &&& plan.stored@ == Seq::new(self@.len(), |i: int| stored(sums@, i))
                &&& plan.size == pack_len(self@, sums@, self@.len() as int)
            },
    {
        let n = self.files.len();
        let mut seen: HashMap<u32, (u32, u32)> = HashMap::new();
        let mut locs: Vec<(u32, u32)> = Vec::new();
        let mut flags: Vec<bool> = Vec::new();
        let mut size: u32 = 0;
        let mut i: usize = 0;
        while i < n
            invariant
                n == self.files@.len(),
                n == sums@.len(),
                i <= n,
                size == pack_len(self@, sums@, i as int),
                start + size <= u32::MAX,
                locs@.len() == i,
                flags@.len() == i,
                forall|j: int|
                    0 <= j < i ==> locs@[j] == location_from(self@, sums@, start as int, j),
                forall|j: int| 0 <= j < i ==> flags@[j] == stored(sums@, j),
                forall|j: int|
                    0 <= j < i ==> seen@.contains_key(#[trigger] sums@[j]) && seen@[sums@[j]]
                        == location_from(self@, sums@, start as int, j),
                forall|s: u32|
                    seen@.contains_key(s) ==> exists|j: int| 0 <= j < i && #[trigger] sums@[j] == s,
            decreases n - i,
        {
            let sum = sums[i];
            let len = self.files[i].data.len();
            proof {
                lemma_first_match(sums@, i as int);
            }
            let known = seen.get(&sum);
            let pair = match known {
                Some(pair) => {
                    proof {
                        let j = choose|j: int| 0 <= j < i && #[trigger] sums@[j] == sum;
                        lemma_first_match_shared(sums@, i as int, j);
                        lemma_first_match(sums@, j);
                        assert(!stored(sums@, i as int));
                    }
                    flags.push(false);
                    *pair
                },
                None => {
                    proof {
                        assert(forall|j: int| 0 <= j < i ==> sums@[j] != sum);
                        assert(stored(sums@, i as int));
                        assert(pack_len(self@, sums@, i + 1) == size + len + tail_pad(len as int));
                    }
                    if len > 4294967280 {
                        proof {
                            lemma_pack_len_grows(self@, sums@, i + 1, n as int);
                        }
                        return None;
                    }
                    let padded: u32 = ((len as u32 + 15) / 16) * 16;
                    assert(padded == len + tail_pad(len as int));
                    if padded > u32::MAX - start - size {
                        proof {
                            lemma_pack_len_grows(self@, sums@, i + 1, n as int);
                        }
                        return None;
                    }
                    let pair = (start + size, len as u32);
                    seen.insert(sum, pair);
                    flags.push(true);
                    size = size + padded;
                    pair
                },
            };
            locs.push(pair);
            i += 1;
        }
        assert(locs@ =~= Seq::new(
            self@.len(),
            |i: int| location_from(self@, sums@, start as int, i),
        ));
        assert(flags@ =~= Seq::new(self@.len(), |i: int| stored(sums@, i)));
        Some(PackPlan { locations: locs, stored: flags, size })
    }

    /// The layout of the file under the given checksums, one for each
    /// entry: `None` exactly when there is not one checksum for each
    /// entry or the file would outgrow its 32-bit offsets.
    pub fn layout_with(&self, sums: &Vec<u32>) -> (r: Option<Layout>)
        ensures
            r is Some <==> encodable_with(self@, sums@),
            r matches Some(layout) ==> layout.describes(self@, sums@),
    {
        let n = self.files.len();
        if sums.len() != n {
            return None;
        }
        proof {
            lemma_pack_len_grows(self@, sums@, 0, n as int);
            lemma_names_len_grows(self@, 0, n as int);
        }
        let (name_offsets, names_size) = match self.place_names() {
            Some(names) => names,
            None => {
                return None;
            },
        };
        let names_end: u32 = 56 + 16 * (n as u32) + names_size;
        // Two section headers follow the names before the payloads start.
        if names_end > u32::MAX - 16 {
            return None;
        }
        let junk_size = get_padding_amount((names_end + 8) as usize);
        if junk_size > (u32::MAX - 16 - names_end) as usize {
            return None;
        }
        let payloads_start: u32 = names_end + 8 + junk_size as u32 + 8;
        assert(payloads_start == pack_start(self@));
        let plan = match self.place_payloads(sums, payloads_start) {
            Some(plan) => plan,
            None => {
                return None;
            },
        };
        assert(plan.locations@ =~= locations(self@, sums@));
        Some(
            Layout {
                name_offsets,
                names_size,
                junk_size: junk_size as u32,
                locations: plan.locations,
                stored: plan.stored,
                pack_size: plan.size,
                file_size: payloads_start + plan.size,
            },
        )
    }

    /// Appends the names, each closed by a zero byte.
    fn write_names(&self, out: &mut Vec<u8>)
        ensures
            final(out)@ == old(out)@ + names_blob(self@, self@.len() as int),
    {
        let mut i: usize = 0;
        while i < self.files.len()
            invariant
                i <= self.files@.len(),
                out@ == old(out)@ + names_blob(self@, i as int),
            decreases self.files@.len() - i,
        {
            write_str(self.files[i].name.as_str(), out);
            write_u8(0, out);
            i += 1;
        }
    }

    /// Appends the stored payloads, each padded to sixteen bytes.
    fn write_payloads(&self, sums: &Vec<u32>, flags: &Vec<bool>, out: &mut Vec<u8>)
        requires
            sums@.len() == self@.len(),
            flags@ == Seq::new(self@.len(), |i: int| stored(sums@, i)),
        ensures
            final(out)@ == old(out)@ + pack_bytes(self@, sums@, self@.len() as int),
    {
        let mut i: usize = 0;
        while i < self.files.len()
            invariant
                i <= self.files@.len(),
                flags@ == Seq::new(self@.len(), |i: int| stored(sums@, i)),
                out@ == old(out)@ + pack_bytes(self@, sums@, i as int),
            decreases self.files@.len() - i,
        {
            if flags[i] {
                let data = self.files[i].data.as_slice();
                write_bytes(data, out);
                write_zeros((16 - data.len() % 16) % 16, out);
            }
            i += 1;
        }
    }

    /// The id of each entry.
    fn track_ids(&self) -> (v: Vec<u32>)
        ensures
            v@ == ids(self@),
    {
        let mut v: Vec<u32> = Vec::new();
        let mut i: usize = 0;
        while i < self.files.len()
            invariant
                i <= self.files@.len(),
                v@.len() == i,
                forall|j: int| 0 <= j < i ==> v@[j] == ids(self@)[j],
            decreases self.files@.len() - i,
        {
            v.push(self.files[i].id);
            i += 1;
        }
        v
    }

    /// Appends the file that holds the container to `f`, under the
    /// given checksums: entries with one checksum share the payload of
    /// the first of them.
    pub fn write_with(&self, sums: &Vec<u32>, f: &mut Vec<u8>)
        requires
            encodable_with(self@, sums@),
        ensures
            final(f)@ == old(f)@ + file_bytes_with(self@, sums@),
    {
        let layout = self.layout_with(sums).unwrap();
        let n = self.files.len();
        let ghost c = self@;
        let ghost s = sums@;
        let ghost nn = c.len() as int;
        proof {
            lemma_names_len_grows(c, 0, nn);
            lemma_pack_len_grows(c, s, 0, nn);
            lemma_names_blob_len(c, nn);
            lemma_pack_bytes_len(c, s, nn);
        }
        let ghost head = TAG_NUS3@ + u32_le_bytes((file_len_with(c, s) - 8) as u32);
        let ghost s1 = section_bytes(SectionKind::Audiindx, u32_le_bytes(c.len() as u32));
        let ghost s2 = section_bytes(SectionKind::Tnid, u32s_bytes(ids(c)));
        let ghost s3 = section_bytes(SectionKind::Nmof, u32s_bytes(name_offsets(c)));
        let ghost s4 = section_bytes(SectionKind::Adof, pairs_bytes(locations(c, s)));
        let ghost s5 = section_bytes(SectionKind::Tnnm, names_blob(c, nn));
        let ghost s6 = section_bytes(SectionKind::Junk, zeros(junk_len(c)));
        let ghost s7 = section_bytes(SectionKind::Pack, pack_bytes(c, s, nn));

        write_preamble(layout.file_size - 8, n as u32, f);
        assert(f@ == old(f)@ + head + s1);
        let track_ids = self.track_ids();
        write_u32_table(TAG_TNID, &track_ids, f);
        assert(f@ == old(f)@ + head + s1 + s2);
        write_u32_table(TAG_NMOF, &layout.name_offsets, f);
        assert(f@ == old(f)@ + head + s1 + s2 + s3);
        write_pair_table(TAG_ADOF, &layout.locations, f);
        assert(f@ == old(f)@ + head + s1 + s2 + s3 + s4);

        write_tag(TAG_TNNM, f);
        write_u32(layout.names_size, f);
        self.write_names(f);
        assert(f@ == old(f)@ + head + s1 + s2 + s3 + s4 + s5) by {
            lemma_section_appended(
                old(f)@ + head + s1 + s2 + s3 + s4,
                SectionKind::Tnnm,
                names_blob(c, nn),
            );
        }

        write_tag(TAG_JUNK, f);
        write_u32(layout.junk_size, f);
        write_zeros(layout.junk_size as usize, f);
        assert(f@ == old(f)@ + head + s1 + s2 + s3 + s4 + s5 + s6) by {
            lemma_section_appended(
                old(f)@ + head + s1 + s2 + s3 + s4 + s5,
                SectionKind::Junk,
                zeros(junk_len(c)),
            );
        }

        write_tag(TAG_PACK, f);
        write_u32(layout.pack_size, f);
        self.write_payloads(sums, &layout.stored, f);
        assert(f@ == old(f)@ + head + s1 + s2 + s3 + s4 + s5 + s6 + s7) by {
            lemma_section_appended(
                old(f)@ + head + s1 + s2 + s3 + s4 + s5 + s6,
                SectionKind::Pack,
                pack_bytes(c, s, nn),
            );
        }
        proof {
            reveal(body_with);
            lemma_assembled(old(f)@, head, s1, s2, s3, s4, s5, s6, s7);
        }
    }

    /// Appends the file that holds the container to `f`. Payloads with
    /// one checksum are stored once, under the first of them.
    pub fn write(&self, f: &mut Vec<u8>)
        requires
            encodable(self@),
        ensures
            final(f)@ == old(f)@ + file_bytes(self@),
    {
        let sums = self.checksums();
        self.write_with(&sums, f);
    }

    /// The length of the file that [`Nus3audioFile::write`] appends.
    pub fn calc_size(&self) -> (size: usize)
        requires
            encodable(self@),
        ensures
            size == file_len(self@),
            size == file_bytes(self@).len(),
    {
        let sums = self.checksums();
        proof {
            lemma_file_bytes_len(self@, sums@);
        }
        self.layout_with(&sums).unwrap().file_size as usize
    }

    /// The length of the file that holds the container, if the
    /// container can be written.
    pub fn checked_size(&self) -> (size: Option<usize>)
        ensures
            size == if encodable(self@) {
                Some(file_len(self@) as usize)
            } else {
                None
            },
    {
        let sums = self.checksums();
        if self.layout_with(&sums).is_some() {
            Some(self.calc_size())
        } else {
            None
        }
    }

    /// Appends the file that holds the container to `f` and returns
    /// `true`, if the container can be written; else leaves `f` as it
    /// is and returns `false`.
    pub fn try_write(&self, f: &mut Vec<u8>) -> (written: bool)
        ensures
            written == encodable(self@),
            final(f)@ == if written {
                old(f)@ + file_bytes(self@)
            } else {
                old(f)@
            },
    {
        let sums = self.checksums();
        if self.layout_with(&sums).is_some() {
            self.write(f);
            true
        } else {
            false
        }
    }
}

} // verus!
