//! Changes to a container in memory, as an editing front end asks for
//! them. Every change keeps the names storable.

use crate::file::{
    all_valid, decimal, decimal_string, name_is_storable, storable, AudioFile, Entry,
    Nus3audioFile,
};
use vstd::prelude::*;

verus! {

/// A change to a container.
#[derive(Debug)]
pub enum Edit {
    /// Put a new entry without name or payload at `index`, with
    /// `index` as its id.
    Insert { index: usize },
    /// Take the entry at `index` out.
    Delete { index: usize },
    /// Give every entry its position as id.
    Renumber,
    /// Give the entry at `index` the id `id`.
    SetId { index: usize, id: u32 },
    /// Give the entry at `index` the name `name`.
    SetName { index: usize, name: String },
    /// Give the entry at `index` the payload `data`.
    SetData { index: usize, data: Vec<u8> },
    /// Put a new entry at the end, with its position as id.
    Append { name: String, data: Vec<u8> },
}

/// Why a change was not made.
#[derive(Clone, Copy, Debug, PartialEq, Eq, Structural)]
pub enum EditError {
    /// There is no such position in the container.
    IndexOutOfRange,
    /// The name holds a zero byte, which would end it on disk.
    InvalidName,
}

/// The entries of `c`, each with its position as id.
pub open spec fn renumbered(c: Seq<Entry>) -> Seq<Entry> {
    Seq::new(c.len(), |i: int| Entry { id: i as u32, name: c[i].name, data: c[i].data })
}

/// What a change makes of a container, or why it cannot be made.
pub open spec fn apply_spec(c: Seq<Entry>, edit: Edit) -> Result<Seq<Entry>, EditError> {
    match edit {
        Edit::Insert { index } => if index <= c.len() {
            Ok(
                c.insert(
                    index as int,
                    Entry { id: index as u32, name: Seq::empty(), data: Seq::empty() },
                ),
            )
        } else {
            Err(EditError::IndexOutOfRange)
        },
        Edit::Delete { index } => if index < c.len() {
            Ok(c.remove(index as int))
        } else {
            Err(EditError::IndexOutOfRange)
        },
        Edit::Renumber => Ok(renumbered(c)),
        Edit::SetId { index, id } => if index < c.len() {
            Ok(c.update(index as int, Entry { id, ..c[index as int] }))
        } else {
            Err(EditError::IndexOutOfRange)
        },
        Edit::SetName { index, name } => if index >= c.len() {
            Err(EditError::IndexOutOfRange)
        } else if !storable(name@) {
            Err(EditError::InvalidName)
        } else {
            Ok(c.update(index as int, Entry { name: name@, ..c[index as int] }))
        },
        Edit::SetData { index, data } => if index < c.len() {
            Ok(c.update(index as int, Entry { data: data@, ..c[index as int] }))
        } else {
            Err(EditError::IndexOutOfRange)
        },
        Edit::Append { name, data } => if storable(name@) {
            Ok(c.push(Entry { id: c.len() as u32, name: name@, data: data@ }))
        } else {
            Err(EditError::InvalidName)
        },
    }
}

impl Nus3audioFile {
    /// Makes the change, or leaves the container as it is and says why.
    pub fn apply(&mut self, edit: Edit) -> (r: Result<(), EditError>)
        ensures
            match apply_spec(old(self)@, edit) {
                Ok(c) => r is Ok && final(self)@ == c,
                Err(e) => r == Err::<(), _>(e) && final(self)@ == old(self)@,
            },
    {
        let n = self.files.len();
        match edit {
            Edit::Insert { index } => {
                if index > n {
                    return Err(EditError::IndexOutOfRange);
                }
                self.files.insert(index, AudioFile::from_id(#[verifier::truncate] (index as u32)));
            },
            Edit::Delete { index } => {
                if index >= n {
                    return Err(EditError::IndexOutOfRange);
                }
                self.files.remove(index);
            },
            Edit::Renumber => {
                let mut i: usize = 0;
                while i < n
                    invariant
                        i <= n,
                        n == self.files@.len(),
                        n == old(self).files@.len(),
                        forall|j: int|
                            0 <= j < i ==> (#[trigger] self.files@[j])@ == renumbered(
                                old(self)@,
                            )[j],
                        forall|j: int|
                            i <= j < n ==> (#[trigger] self.files@[j]) == old(self).files@[j],
                    decreases n - i,
                {
                    self.files[i].id = #[verifier::truncate] (i as u32);
                    i += 1;
                }
            },
            Edit::SetId { index, id } => {
                if index >= n {
                    return Err(EditError::IndexOutOfRange);
                }
                self.files[index].id = id;
            },
            Edit::SetName { index, name } => {
                if index >= n {
                    return Err(EditError::IndexOutOfRange);
                }
                if !name_is_storable(name.as_str()) {
                    return Err(EditError::InvalidName);
                }
                self.files[index].name = name;
            },
            Edit::SetData { index, data } => {
                if index >= n {
                    return Err(EditError::IndexOutOfRange);
                }
                self.files[index].data = data;
            },
            Edit::Append { name, data } => {
                if !name_is_storable(name.as_str()) {
                    return Err(EditError::InvalidName);
                }
                self.files.push(AudioFile { id: #[verifier::truncate] (n as u32), name, data });
            },
        }
        Ok(())
    }

    /// The position of the first entry with the given name.
    pub fn find_by_name(&self, name: &String) -> (r: Option<usize>)
        ensures
            match r {
                Some(i) => i < self@.len() && self@[i as int].name == name@ && forall|j: int|
                    0 <= j < i ==> self@[j].name != name@,
                None => forall|j: int| 0 <= j < self@.len() ==> self@[j].name != name@,
            },
    {
        let mut i: usize = 0;
        while i < self.files.len()
            invariant
                i <= self.files@.len(),
                forall|j: int| 0 <= j < i ==> self@[j].name != name@,
            decreases self.files@.len() - i,
        {
            if self.files[i].name == *name {
                return Some(i);
            }
            i += 1;
        }
        None
    }

    /// The position of the first entry whose id, in decimal, is `text`.
    pub fn find_by_id_text(&self, text: &String) -> (r: Option<usize>)
        ensures
            match r {
                Some(i) => i < self@.len() && decimal(self@[i as int].id as nat) == text@
                    && forall|j: int| 0 <= j < i ==> decimal(self@[j].id as nat) != text@,
                None => forall|j: int|
                    0 <= j < self@.len() ==> decimal(self@[j].id as nat) != text@,
            },
    {
        let mut i: usize = 0;
        while i < self.files.len()
            invariant
                i <= self.files@.len(),
                forall|j: int| 0 <= j < i ==> decimal(self@[j].id as nat) != text@,
            decreases self.files@.len() - i,
        {
            if decimal_string(self.files[i].id) == *text {
                return Some(i);
            }
            i += 1;
        }
        None
    }
}

/// A change keeps every name storable.
pub proof fn law_edits_keep_names_valid(c: Seq<Entry>, edit: Edit)
    requires
        all_valid(c),
        apply_spec(c, edit) is Ok,
    ensures
        all_valid(apply_spec(c, edit)->Ok_0),
{
    broadcast use vstd::seq_lib::group_seq_properties;
}

} // verus!
