//! RESTBL (Resource Size Table) read + write + update.
//!
//! The Resource Size Table tells the game how much memory to reserve when
//! loading each resource; if a modified file is bigger than its recorded size,
//! the game crashes. Tears of the Kingdom ships it as
//! `System/Resource/ResourceSizeTable.Product.NNN.rsizetable.zs` (zstd).
//!
//! ## Format (`RESTBL`, version 1)
//!
//! - 22-byte header: magic `"RESTBL"` (6) + `version: u32` +
//!   `string_block_size: u32` + `crc_table_num: u32` + `name_table_num: u32`.
//! - CRC table: `crc_table_num` × `{ hash: u32, size: u32 }`, sorted by `hash`.
//! - Name table: `name_table_num` × `{ name: char[string_block_size]
//!   (NUL-padded), size: u32 }`, sorted by `name`.
//!
//! All integers are little-endian.
use vstd::prelude::*;
use vstd::utf8::encode_utf8;

pub mod codec;
pub mod crc;
pub mod laws;
pub mod search;

pub use codec::{read_restbl, write_restbl};
pub use crc::crc32;

use search::{crc_search, name_search, crc_sorted, names_sorted, crc_lookup, name_lookup};

verus! {

/// The 6-byte RESTBL magic.
pub const RESTBL_MAGIC: [u8; 6] = [0x52, 0x45, 0x53, 0x54, 0x42, 0x4C];

/// Length of the fixed header.
pub const HEADER_SIZE: usize = 22;

/// A CRC-table entry: the CRC-32 of a resource path and its reserved size.
#[derive(Debug, Clone, Copy, PartialEq, Eq, Structural)]
pub struct CrcEntry {
    /// CRC-32 of the resource path.
    pub hash: u32,
    /// Reserved size in bytes.
    pub size: u32,
}

/// A name-table (collision overflow) entry: the full resource path and size.
#[derive(Debug, Clone, PartialEq, Eq)]
pub struct NameEntry {
    /// Resource path.
    pub name: String,
    /// Reserved size in bytes.
    pub size: u32,
}

/// The outcome of a [`Restbl::set_by_path`] update.
#[derive(Debug, Clone, Copy, PartialEq, Eq, Structural)]
pub enum SetOutcome {
    /// An existing CRC-table entry's size was updated.
    UpdatedCrc,
    /// An existing name-table entry's size was updated.
    UpdatedName,
    /// A new CRC-table entry was inserted (sorted).
    Inserted,
    /// The path wasn't present and insertion wasn't requested.
    NotFound,
}

/// A parsed Resource Size Table.
#[derive(Debug, Clone, PartialEq, Eq)]
pub struct Restbl {
    /// Format version (1 for TotK).
    pub version: u32,
    /// Fixed byte length of each name block (160 in TotK).
    pub string_block_size: u32,
    /// CRC table, sorted ascending by [`CrcEntry::hash`].
    pub crc_entries: Vec<CrcEntry>,
    /// Name (collision) table, sorted ascending by [`NameEntry::name`].
    pub name_entries: Vec<NameEntry>,
}

/// A CRC entry as a value: `(hash, size)`.
pub type CrcModel = (u32, u32);

/// A name entry as a value: the path's characters and the size.
pub type NameModel = (Seq<char>, u32);

/// A table as a value: version, string block size, CRC table, name table.
pub type RestblModel = (u32, u32, Seq<CrcModel>, Seq<NameModel>);

impl View for CrcEntry {
    type V = CrcModel;

    open spec fn view(&self) -> CrcModel {
        (self.hash, self.size)
    }
}

impl View for NameEntry {
    type V = NameModel;

    open spec fn view(&self) -> NameModel {
        (self.name@, self.size)
    }
}

/// The CRC entries of a vector as values.
pub open spec fn crc_view(s: Seq<CrcEntry>) -> Seq<CrcModel> {
    s.map_values(|e: CrcEntry| e@)
}

/// The name entries of a vector as values.
pub open spec fn names_view(s: Seq<NameEntry>) -> Seq<NameModel> {
    s.map_values(|e: NameEntry| e@)
}

impl View for Restbl {
    type V = RestblModel;

    open spec fn view(&self) -> RestblModel {
        (self.version, self.string_block_size, crc_view(self.crc_entries@), names_view(self.name_entries@))
    }
}

/// An error reading, writing, or updating a RESTBL.
#[derive(Debug)]
pub enum RestblError {
    /// Buffer is smaller than the 22-byte header.
    TooSmall(usize),
    /// The 6-byte magic was not `RESTBL`.
    BadMagic([u8; 6]),
    /// `string_block_size` was zero or implausibly large.
    BadStringBlockSize(u32),
    /// The declared tables run past the end of the buffer.
    Truncated { offset: usize, need: usize, len: usize },
    /// A name-table entry was not valid UTF-8 (real paths are ASCII).
    NonUtf8Name { index: usize, source: std::str::Utf8Error },
    /// A name doesn't fit in `string_block_size` bytes (need room for a NUL).
    NameTooLong { name: String, max: usize },
}

/// A [`RestblError`] as a value.
pub enum RestblFault {
    TooSmall(int),
    BadMagic(Seq<u8>),
    BadStringBlockSize(u32),
    Truncated { offset: int, need: int, len: int },
    NonUtf8Name { index: int },
    NameTooLong { name: Seq<char>, max: int },
}

impl View for RestblError {
    type V = RestblFault;

    open spec fn view(&self) -> RestblFault {
        match self {
            RestblError::TooSmall(n) => RestblFault::TooSmall(*n as int),
            RestblError::BadMagic(m) => RestblFault::BadMagic(m@),
            RestblError::BadStringBlockSize(s) => RestblFault::BadStringBlockSize(*s),
            RestblError::Truncated { offset, need, len } => RestblFault::Truncated {
                offset: *offset as int,
                need: *need as int,
                len: *len as int,
            },
            RestblError::NonUtf8Name { index, source } => RestblFault::NonUtf8Name { index: *index as int },
            RestblError::NameTooLong { name, max } => RestblFault::NameTooLong { name: name@, max: *max as int },
        }
    }
}

/// The CRC table with entry `i`'s size replaced by `size`.
pub open spec fn crc_with_size(s: Seq<CrcModel>, i: int, size: u32) -> Seq<CrcModel> {
    s.update(i, (s[i].0, size))
}

/// The name table with entry `i`'s size replaced by `size`.
pub open spec fn names_with_size(s: Seq<NameModel>, i: int, size: u32) -> Seq<NameModel> {
    s.update(i, (s[i].0, size))
}

/// The CRC table after `insert_by_hash(hash, size)`: the entry with that
/// hash gets the size, or a new entry goes at position `i`.
pub open spec fn crc_inserted(s: Seq<CrcModel>, hash: u32, size: u32, r: Seq<CrcModel>) -> bool {
    ||| exists|i: int| 0 <= i < s.len() && #[trigger] s[i].0 == hash && r == crc_with_size(s, i, size)
    ||| exists|i: int| 0 <= i <= s.len() && r == #[trigger] s.insert(i, (hash, size))
}

/// The name table after `insert_by_name(name, size)`.
pub open spec fn names_inserted(s: Seq<NameModel>, name: Seq<char>, size: u32, r: Seq<NameModel>) -> bool {
    ||| exists|i: int| 0 <= i < s.len() && #[trigger] s[i].0 == name && r == names_with_size(s, i, size)
    ||| exists|i: int| 0 <= i <= s.len() && r == #[trigger] s.insert(i, (name, size))
}

impl Restbl {
    /// Reserved size for a CRC-32 hash (binary search; the CRC table is
    /// sorted).
    pub fn get_by_hash(&self, hash: u32) -> (r: Option<u32>)
        ensures
            r matches Some(s) ==> exists|i: int|
                0 <= i < self.crc_entries@.len() && #[trigger] self.crc_entries@[i].hash == hash
                    && self.crc_entries@[i].size == s,
            crc_sorted(crc_view(self.crc_entries@)) ==> r == crc_lookup(crc_view(self.crc_entries@), hash),
    {
        match crc_search(&self.crc_entries, hash) {
            Ok(i) => Some(self.crc_entries[i].size),
            Err(_) => None,
        }
    }

    /// Update an existing CRC entry's size. Returns `true` if found. Nothing
    /// else changes: every other CRC entry and the whole name table stay as
    /// they were, and a miss changes nothing at all.
    pub fn set_by_hash(&mut self, hash: u32, size: u32) -> (found: bool)
        ensures
            final(self).version == old(self).version,
            final(self).string_block_size == old(self).string_block_size,
            final(self).name_entries@ == old(self).name_entries@,
            found ==> exists|i: int|
                0 <= i < old(self).crc_entries@.len() && #[trigger] old(self).crc_entries@[i].hash == hash
                    && crc_view(final(self).crc_entries@) == crc_with_size(crc_view(old(self).crc_entries@), i, size),
            !found ==> final(self).crc_entries@ == old(self).crc_entries@,
            crc_sorted(crc_view(old(self).crc_entries@)) ==> (found <==> crc_lookup(
                crc_view(old(self).crc_entries@),
                hash,
            ) is Some),
    {
        match crc_search(&self.crc_entries, hash) {
            Ok(i) => {
                let ghost before = crc_view(self.crc_entries@);
                let e = CrcEntry { hash: self.crc_entries[i].hash, size };
                self.crc_entries[i] = e;
                proof {
                    assert(crc_view(self.crc_entries@) =~= crc_with_size(before, i as int, size));
                }
                true
            },
            Err(_) => false,
        }
    }

    /// Insert a CRC entry (keeping the table sorted), or update it if the hash
    /// already exists.
    pub fn insert_by_hash(&mut self, hash: u32, size: u32)
        ensures
            final(self).version == old(self).version,
            final(self).string_block_size == old(self).string_block_size,
            final(self).name_entries@ == old(self).name_entries@,
            crc_inserted(crc_view(old(self).crc_entries@), hash, size, crc_view(final(self).crc_entries@)),
            crc_sorted(crc_view(old(self).crc_entries@)) ==> final(self).crc_entries@.len() == old(
                self,
            ).crc_entries@.len() + if crc_lookup(crc_view(old(self).crc_entries@), hash) is Some {
                0int
            } else {
                1int
            },
            crc_sorted(crc_view(old(self).crc_entries@)) ==> crc_sorted(crc_view(final(self).crc_entries@))
                && forall|h: u32| #[trigger] crc_lookup(crc_view(final(self).crc_entries@), h) == if h == hash {
                    Some(size)
                } else {
                    crc_lookup(crc_view(old(self).crc_entries@), h)
                },
    {
        let ghost before = crc_view(self.crc_entries@);
        match crc_search(&self.crc_entries, hash) {
            Ok(i) => {
                let e = CrcEntry { hash: self.crc_entries[i].hash, size };
                self.crc_entries[i] = e;
                proof {
                    assert(crc_view(self.crc_entries@) =~= crc_with_size(before, i as int, size));
                    search::lemma_crc_update_lookup(before, i as int, size);
                }
            },
            Err(i) => {
                self.crc_entries.insert(i, CrcEntry { hash, size });
                proof {
                    assert(crc_view(self.crc_entries@) =~= before.insert(i as int, (hash, size)));
                    if crc_sorted(before) {
                        search::lemma_crc_insert_lookup(before, i as int, hash, size);
                    }
                }
            },
        }
    }

    /// Reserved size for a resource path in the name (collision) table.
    pub fn get_by_name(&self, name: &str) -> (r: Option<u32>)
        ensures
            r matches Some(s) ==> exists|i: int|
                0 <= i < self.name_entries@.len() && #[trigger] self.name_entries@[i].name@ == name@
                    && self.name_entries@[i].size == s,
            names_sorted(names_view(self.name_entries@)) ==> r == name_lookup(
                names_view(self.name_entries@),
                name@,
            ),
    {
        match name_search(&self.name_entries, name) {
            Ok(i) => Some(self.name_entries[i].size),
            Err(_) => None,
        }
    }

    /// Update an existing name-table entry's size. Returns `true` if found.
    pub fn set_by_name(&mut self, name: &str, size: u32) -> (found: bool)
        ensures
            final(self).version == old(self).version,
            final(self).string_block_size == old(self).string_block_size,
            final(self).crc_entries@ == old(self).crc_entries@,
            found ==> exists|i: int|
                0 <= i < old(self).name_entries@.len() && #[trigger] old(self).name_entries@[i].name@ == name@
                    && names_view(final(self).name_entries@) == names_with_size(
                    names_view(old(self).name_entries@),
                    i,
                    size,
                ),
            !found ==> names_view(final(self).name_entries@) == names_view(old(self).name_entries@),
            names_sorted(names_view(old(self).name_entries@)) ==> (found <==> name_lookup(
                names_view(old(self).name_entries@),
                name@,
            ) is Some),
    {
        match name_search(&self.name_entries, name) {
            Ok(i) => {
                let ghost before = names_view(self.name_entries@);
                let n = self.name_entries[i].name.clone();
                let e = NameEntry { name: n, size };
                self.name_entries[i] = e;
                proof {
                    assert(names_view(self.name_entries@) =~= names_with_size(before, i as int, size));
                }
                true
            },
            Err(_) => false,
        }
    }

    /// Insert a name-table entry (keeping the table sorted by name), or update
    /// it if the name already exists.
    pub fn insert_by_name(&mut self, name: &str, size: u32)
        ensures
            final(self).version == old(self).version,
            final(self).string_block_size == old(self).string_block_size,
            final(self).crc_entries@ == old(self).crc_entries@,
            names_inserted(names_view(old(self).name_entries@), name@, size, names_view(final(self).name_entries@)),
            names_sorted(names_view(old(self).name_entries@)) ==> final(self).name_entries@.len() == old(
                self,
            ).name_entries@.len() + if name_lookup(names_view(old(self).name_entries@), name@) is Some {
                0int
            } else {
                1int
            },
            names_sorted(names_view(old(self).name_entries@)) ==> names_sorted(names_view(final(self).name_entries@))
                && forall|n: Seq<char>| #[trigger] name_lookup(names_view(final(self).name_entries@), n) == if n
                == name@ {
                    Some(size)
                } else {
                    name_lookup(names_view(old(self).name_entries@), n)
                },
    {
        let ghost before = names_view(self.name_entries@);
        match name_search(&self.name_entries, name) {
            Ok(i) => {
                let n = self.name_entries[i].name.clone();
                let e = NameEntry { name: n, size };
                self.name_entries[i] = e;
                proof {
                    assert(names_view(self.name_entries@) =~= names_with_size(before, i as int, size));
                    search::lemma_names_update_lookup(before, i as int, size);
                }
            },
            Err(i) => {
                let owned = name.to_owned();
                self.name_entries.insert(i, NameEntry { name: owned, size });
                proof {
                    assert(names_view(self.name_entries@) =~= before.insert(i as int, (name@, size)));
                    if names_sorted(before) {
                        search::lemma_names_insert_lookup(before, i as int, name@, size);
                    }
                }
            },
        }
    }

    /// Reserved size for a resource path: checks the CRC table first (by
    /// `crc32(path)`), then the name table.
    pub fn get_by_path(&self, path: &str) -> (r: Option<u32>)
        ensures
            crc_sorted(crc_view(self.crc_entries@)) && names_sorted(names_view(self.name_entries@)) ==> r
                == match crc_lookup(crc_view(self.crc_entries@), crc::spec_crc32(encode_utf8(path@))) {
                Some(s) => Some(s),
                None => name_lookup(names_view(self.name_entries@), path@),
            },
    {
        match self.get_by_hash(crc32(path.as_bytes())) {
            Some(s) => Some(s),
            None => self.get_by_name(path),
        }
    }

    /// Set the reserved size for a resource path. Updates the CRC entry if its
    /// `crc32(path)` is present, otherwise the name entry if `path` is present,
    /// otherwise inserts a new CRC entry when `allow_insert` is set.
    pub fn set_by_path(&mut self, path: &str, size: u32, allow_insert: bool) -> (o: SetOutcome)
        ensures
            ({
                let h = crc::spec_crc32(encode_utf8(path@));
                let crc0 = crc_view(old(self).crc_entries@);
                let names0 = names_view(old(self).name_entries@);
                let crc1 = crc_view(final(self).crc_entries@);
                let names1 = names_view(final(self).name_entries@);
                &&& final(self).version == old(self).version
                &&& final(self).string_block_size == old(self).string_block_size
                &&& o == SetOutcome::UpdatedCrc ==> names1 == names0 && exists|i: int|
                    0 <= i < crc0.len() && #[trigger] crc0[i].0 == h && crc1 == crc_with_size(crc0, i, size)
                &&& o == SetOutcome::UpdatedName ==> crc1 == crc0 && exists|i: int|
                    0 <= i < names0.len() && #[trigger] names0[i].0 == path@ && names1 == names_with_size(
                        names0,
                        i,
                        size,
                    )
                &&& o == SetOutcome::Inserted ==> allow_insert && names1 == names0 && crc_inserted(crc0, h, size, crc1)
                &&& o == SetOutcome::NotFound ==> !allow_insert && crc1 == crc0 && names1 == names0
                &&& crc_sorted(crc0) && names_sorted(names0) ==> {
                    &&& crc_sorted(crc1)
                    &&& names_sorted(names1)
                    &&& o == if crc_lookup(crc0, h) is Some {
                        SetOutcome::UpdatedCrc
                    } else if name_lookup(names0, path@) is Some {
                        SetOutcome::UpdatedName
                    } else if allow_insert {
                        SetOutcome::Inserted
                    } else {
                        SetOutcome::NotFound
                    }
                    &&& (o == SetOutcome::UpdatedCrc || o == SetOutcome::Inserted) ==> forall|k: u32|
                        #[trigger] crc_lookup(crc1, k) == if k == h {
                            Some(size)
                        } else {
                            crc_lookup(crc0, k)
                        }
                    &&& o == SetOutcome::UpdatedName ==> forall|n: Seq<char>|
                        #[trigger] name_lookup(names1, n) == if n == path@ {
                            Some(size)
                        } else {
                            name_lookup(names0, n)
                        }
                }
            }),
    {
        let ghost crc0 = crc_view(self.crc_entries@);
        let ghost names0 = names_view(self.name_entries@);
        let hash = crc32(path.as_bytes());
        if self.set_by_hash(hash, size) {
            proof {
                let i = choose|i: int|
                    0 <= i < old(self).crc_entries@.len() && #[trigger] old(self).crc_entries@[i].hash == hash
                        && crc_view(self.crc_entries@) == crc_with_size(crc0, i, size);
                if crc_sorted(crc0) {
                    search::lemma_crc_update_lookup(crc0, i, size);
                }
            }
            return SetOutcome::UpdatedCrc;
        }
        if self.set_by_name(path, size) {
            proof {
                let i = choose|i: int|
                    0 <= i < old(self).name_entries@.len() && #[trigger] old(self).name_entries@[i].name@ == path@
                        && names_view(self.name_entries@) == names_with_size(names0, i, size);
                if names_sorted(names0) {
                    search::lemma_names_update_lookup(names0, i, size);
                }
            }
            return SetOutcome::UpdatedName;
        }
        if allow_insert {
            self.insert_by_hash(hash, size);
            return SetOutcome::Inserted;
        }
        SetOutcome::NotFound
    }
}

} // verus!
