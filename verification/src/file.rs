//! The container in memory: an ordered list of entries.

use crate::bytes::starts_with;
use vstd::prelude::*;
use vstd::string::StringExecFns;
use vstd::utf8::encode_utf8;

verus! {

/// `OPUS`, the first bytes of an Opus payload.
pub const MAGIC_OPUS: [u8; 4] = [79, 80, 85, 83];

/// `IDSP`, the first bytes of an IDSP payload.
pub const MAGIC_IDSP: [u8; 4] = [73, 68, 83, 80];

/// One audio entry as mathematical values.
pub struct Entry {
    pub id: u32,
    pub name: Seq<char>,
    pub data: Seq<u8>,
}

impl Entry {
    /// The name as it is stored: its UTF-8 encoding.
    pub open spec fn name_bytes(self) -> Seq<u8> {
        encode_utf8(self.name)
    }

    /// Whether the entry's name can be stored.
    pub open spec fn valid(self) -> bool {
        storable(self.name)
    }
}

/// A name can be stored only if no byte of its UTF-8 encoding is
/// zero, for a zero byte ends a name on disk.
pub open spec fn storable(name: Seq<char>) -> bool {
    forall|i: int| 0 <= i < encode_utf8(name).len() ==> encode_utf8(name)[i] != 0
}

/// Every entry of `c` has a name that can be stored.
pub open spec fn all_valid(c: Seq<Entry>) -> bool {
    forall|i: int| 0 <= i < c.len() ==> (#[trigger] c[i]).valid()
}

/// What a payload is, as far as its first four bytes tell.
#[derive(Clone, Copy, Debug, PartialEq, Eq, Structural)]
pub enum PayloadKind {
    /// Opus in its container.
    Opus,
    /// IDSP.
    Idsp,
    /// Anything else, and anything shorter than four bytes.
    Unknown,
}

/// The kind of a payload.
pub open spec fn kind_of(data: Seq<u8>) -> PayloadKind {
    if data.len() >= 4 && data.subrange(0, 4) == MAGIC_OPUS@ {
        PayloadKind::Opus
    } else if data.len() >= 4 && data.subrange(0, 4) == MAGIC_IDSP@ {
        PayloadKind::Idsp
    } else {
        PayloadKind::Unknown
    }
}

impl PayloadKind {
    /// The extension of a file that holds a payload of this kind.
    pub open spec fn spec_extension(self) -> Seq<char> {
        match self {
            PayloadKind::Opus => ".lopus"@,
            PayloadKind::Idsp => ".idsp"@,
            PayloadKind::Unknown => ".bin"@,
        }
    }

    /// The extension of a file that holds a payload of this kind.
    pub fn extension(self) -> (ext: &'static str)
        ensures
            ext@ == self.spec_extension(),
    {
        match self {
            PayloadKind::Opus => ".lopus",
            PayloadKind::Idsp => ".idsp",
            PayloadKind::Unknown => ".bin",
        }
    }
}

/// The extension that goes with a payload.
pub open spec fn extension(data: Seq<u8>) -> Seq<char> {
    kind_of(data).spec_extension()
}

/// A named, numbered audio payload.
#[derive(Debug)]
pub struct AudioFile {
    pub id: u32,
    pub name: String,
    pub data: Vec<u8>,
}

/// A container: its entries, in the order by which they are addressed.
#[derive(Debug)]
pub struct Nus3audioFile {
    pub files: Vec<AudioFile>,
}

impl View for AudioFile {
    type V = Entry;

    open spec fn view(&self) -> Entry {
        Entry { id: self.id, name: self.name@, data: self.data@ }
    }
}

impl View for Nus3audioFile {
    type V = Seq<Entry>;

    open spec fn view(&self) -> Seq<Entry> {
        Seq::new(self.files@.len(), |i: int| self.files@[i]@)
    }
}

/// The character of a decimal digit.
pub open spec fn digit(d: nat) -> char {
    (48 + d) as char
}

/// A number in decimal, without leading zeros.
pub open spec fn decimal(n: nat) -> Seq<char>
    decreases n,
{
    if n < 10 {
        seq![digit(n)]
    } else {
        decimal(n / 10).push(digit(n % 10))
    }
}

/// One decimal digit as a string.
fn digit_str(d: u32) -> (s: &'static str)
    requires
        d < 10,
    ensures
        s@ == seq![digit(d as nat)],
{
    proof {
        reveal_strlit("0");
        reveal_strlit("1");
        reveal_strlit("2");
        reveal_strlit("3");
        reveal_strlit("4");
        reveal_strlit("5");
        reveal_strlit("6");
        reveal_strlit("7");
        reveal_strlit("8");
        reveal_strlit("9");
    }
    match d {
        0 => "0",
        1 => "1",
        2 => "2",
        3 => "3",
        4 => "4",
        5 => "5",
        6 => "6",
        7 => "7",
        8 => "8",
        _ => "9",
    }
}

/// A number in decimal, without leading zeros.
pub fn decimal_string(n: u32) -> (s: String)
    ensures
        s@ == decimal(n as nat),
    decreases n,
{
    if n < 10 {
        String::from_str(digit_str(n))
    } else {
        let mut s = decimal_string(n / 10);
        s.append(digit_str(n % 10));
        s
    }
}

/// Whether no byte of the name's UTF-8 encoding is zero.
pub fn name_is_storable(name: &str) -> (r: bool)
    ensures
        r == storable(name@),
{
    let bytes = name.as_bytes();
    let mut i: usize = 0;
    while i < bytes.len()
        invariant
            i <= bytes@.len(),
            bytes@ == encode_utf8(name@),
            forall|j: int| 0 <= j < i ==> bytes@[j] != 0,
        decreases bytes@.len() - i,
    {
        if bytes[i] == 0 {
            return false;
        }
        i += 1;
    }
    true
}

impl AudioFile {
    /// An entry with the given id, no name and no payload.
    pub fn from_id(id: u32) -> (file: Self)
        ensures
            file@ == (Entry { id, name: Seq::<char>::empty(), data: Seq::<u8>::empty() }),
    {
        AudioFile { data: Vec::new(), name: String::new(), id }
    }

    /// The kind of the entry's payload.
    pub fn kind(&self) -> (kind: PayloadKind)
        ensures
            kind == kind_of(self@.data),
    {
        if starts_with(self.data.as_slice(), MAGIC_OPUS) {
            PayloadKind::Opus
        } else if starts_with(self.data.as_slice(), MAGIC_IDSP) {
            PayloadKind::Idsp
        } else {
            PayloadKind::Unknown
        }
    }

    /// The file name under which the payload is stored outside a
    /// container: the entry's name and the extension of its payload.
    pub fn filename(&self) -> (name: String)
        ensures
            name@ == self@.name + extension(self@.data),
    {
        self.name.clone().concat(self.kind().extension())
    }

    /// The file name under which the payload is stored outside a
    /// container when files go by id: the id in decimal and the
    /// extension of the payload. A payload of unknown kind has none.
    pub fn id_filename(&self) -> (name: Option<String>)
        ensures
            match name {
                Some(name) => kind_of(self@.data) != PayloadKind::Unknown && name@ == decimal(
                    self@.id as nat,
                ) + extension(self@.data),
                None => kind_of(self@.data) == PayloadKind::Unknown,
            },
    {
        match self.kind() {
            PayloadKind::Unknown => None,
            kind => Some(decimal_string(self.id).concat(kind.extension())),
        }
    }

    /// Whether the entry's name can be stored.
    pub fn is_valid(&self) -> (r: bool)
        ensures
            r == self@.valid(),
    {
        name_is_storable(self.name.as_str())
    }
}

impl Nus3audioFile {
    /// The empty container.
    pub fn new() -> (file: Self)
        ensures
            file@ == Seq::<Entry>::empty(),
    {
        Nus3audioFile { files: Vec::new() }
    }

    /// Whether every entry's name can be stored.
    pub fn is_valid(&self) -> (r: bool)
        ensures
            r == all_valid(self@),
    {
        let mut i: usize = 0;
        while i < self.files.len()
            invariant
                i <= self.files@.len(),
                forall|j: int| 0 <= j < i ==> (#[trigger] self@[j]).valid(),
            decreases self.files@.len() - i,
        {
            if !self.files[i].is_valid() {
                assert(!self@[i as int].valid());
                return false;
            }
            i += 1;
        }
        true
    }
}

} // verus!
