//! SARC (Sead ARChive) read + write.
//!
//! The reader ([`read_arc`] / [`unpack`]) parses the `0x14` header, the
//! `SFAT` node table and the `SFNT` name blob; the writer ([`write_arc`] /
//! [`write_sarc`]) gives each file the alignment its content requires (see
//! [`file_alignment`]). Switch titles use little-endian SARC; pass
//! `big_endian = true` for Wii U / 3DS (the reader detects the byte order
//! from the header BOM).
use vstd::prelude::*;

pub mod laws;
pub mod read;
pub mod write;

pub use read::{parse_sarc, read_arc, unpack};
pub use write::{file_alignment, sarc_hash, write_arc, write_sarc};

verus! {

/// Length of the fixed SARC header.
pub const SARC_HEADER_SIZE: usize = 0x14;
/// Length of the SFAT header.
pub const SFAT_HEADER_SIZE: usize = 0x0C;
/// Length of the SFNT header.
pub const SFNT_HEADER_SIZE: usize = 0x08;
/// Length of one SFAT node.
pub const SFAT_NODE_SIZE: usize = 0x10;
/// Multiplier of the SFAT name hash.
pub const SARC_HASH_KEY: u32 = 0x65;
/// SFAT attribute bit marking a node that owns a name.
pub const SFAT_HAS_NAME: u32 = 0x0100_0000;
/// Smallest alignment the writer assigns to any entry.
pub const MIN_ALIGNMENT: u32 = 0x08;
/// Largest alignment the writer assigns to any entry.
pub const MAX_ALIGNMENT: u32 = 0x2000;

/// A single unpacked SARC file: its archive-relative path and bytes.
#[derive(Debug, Clone)]
pub struct UnpackedFile {
    /// Archive-relative path, using `/` separators (e.g. `timg/__Combined.bntx`).
    pub name: String,
    /// File contents.
    pub data: Vec<u8>,
}

/// A single SARC entry preserving its (optional) name. Unlike
/// [`UnpackedFile`], hash-only entries (no stored name) survive a
/// [`read_arc`] → [`write_arc`] round-trip.
#[derive(Debug, Clone)]
pub struct ArcEntry {
    /// Archive-relative path (`/` separators), or `None` for a hash-only entry.
    pub name: Option<String>,
    /// File contents.
    pub data: Vec<u8>,
}

/// A full SARC archive parsed into memory, preserving every entry and the
/// endianness.
#[derive(Debug, Clone)]
pub struct ArcFile {
    /// Byte order of the archive.
    pub big_endian: bool,
    /// Entries in SFAT order.
    pub files: Vec<ArcEntry>,
}

/// The characters of an optional name.
pub open spec fn opt_chars(n: Option<String>) -> Option<Seq<char>> {
    match n {
        Some(s) => Some(s@),
        None => None,
    }
}

/// An entry as a mathematical value: its name's characters (if any) and its data.
pub type EntryModel = (Option<Seq<char>>, Seq<u8>);

impl View for ArcEntry {
    type V = EntryModel;

    open spec fn view(&self) -> EntryModel {
        (opt_chars(self.name), self.data@)
    }
}

impl View for UnpackedFile {
    type V = (Seq<char>, Seq<u8>);

    open spec fn view(&self) -> (Seq<char>, Seq<u8>) {
        (self.name@, self.data@)
    }
}

/// The entries of a slice as mathematical values.
pub open spec fn entries_view(s: Seq<ArcEntry>) -> Seq<EntryModel> {
    s.map_values(|e: ArcEntry| e@)
}

impl View for ArcFile {
    type V = (bool, Seq<EntryModel>);

    open spec fn view(&self) -> (bool, Seq<EntryModel>) {
        (self.big_endian, entries_view(self.files@))
    }
}

/// Whether an entry model carries the given name.
pub open spec fn entry_named(e: EntryModel, name: Seq<char>) -> bool {
    e.0 == Some(name)
}

impl ArcFile {
    /// Index of the first entry whose name equals `name`, if any.
    pub fn position(&self, name: &str) -> (r: Option<usize>)
        ensures
            match r {
                Some(i) => i < self.files@.len() && entry_named(self.files@[i as int]@, name@)
                    && forall|j: int| 0 <= j < i ==> !entry_named(#[trigger] self.files@[j]@, name@),
                None => forall|j: int|
                    0 <= j < self.files@.len() ==> !entry_named(#[trigger] self.files@[j]@, name@),
            },
    {
        let mut i: usize = 0;
        while i < self.files.len()
            invariant
                i <= self.files@.len(),
                forall|j: int| 0 <= j < i ==> !entry_named(#[trigger] self.files@[j]@, name@),
            decreases self.files@.len() - i,
        {
            let found = match &self.files[i].name {
                Some(n) => crate::bytes::str_equal(n.as_str(), name),
                None => false,
            };
            if found {
                return Some(i);
            }
            i += 1;
        }
        None
    }
}

/// An error reading or writing a SARC archive.
#[derive(Debug)]
pub enum SarcError {
    /// Buffer is smaller than the fixed `0x14`-byte header.
    TooSmall(usize),
    /// The 4-byte magic was not `SARC`.
    BadMagic([u8; 4]),
    /// The byte-order mark at `0x06` was neither `FE FF` nor `FF FE`.
    BadBom([u8; 2]),
    /// A required sub-section header (`SFAT`/`SFNT`) was missing.
    MissingSection(&'static str),
    /// A read ran past the end of the buffer.
    Truncated { offset: usize, need: usize },
    /// A node's name offset pointed outside the buffer.
    NameOffsetOutOfBounds { offset: usize },
    /// A name had no NUL terminator before end-of-buffer.
    UnterminatedName { offset: usize },
    /// A name was not valid UTF-8.
    NonUtf8Name { offset: usize },
    /// A node's data end preceded its start.
    NodeBackwards { index: usize, start: usize, end: usize },
    /// A node's data range fell outside the buffer.
    NodeOutOfBounds { index: usize, start: usize, end: usize, len: usize },
}

/// A [`SarcError`] as a mathematical value.
pub enum SarcFault {
    TooSmall(int),
    BadMagic(Seq<u8>),
    BadBom(Seq<u8>),
    MissingSection(Seq<char>),
    Truncated { offset: int, need: int },
    NameOffsetOutOfBounds { offset: int },
    UnterminatedName { offset: int },
    NonUtf8Name { offset: int },
    NodeBackwards { index: int, start: int, end: int },
    NodeOutOfBounds { index: int, start: int, end: int, len: int },
}

impl View for SarcError {
    type V = SarcFault;

    open spec fn view(&self) -> SarcFault {
        match *self {
            SarcError::TooSmall(n) => SarcFault::TooSmall(n as int),
            SarcError::BadMagic(m) => SarcFault::BadMagic(m@),
            SarcError::BadBom(m) => SarcFault::BadBom(m@),
            SarcError::MissingSection(s) => SarcFault::MissingSection(s@),
            SarcError::Truncated { offset, need } => SarcFault::Truncated {
                offset: offset as int,
                need: need as int,
            },
            SarcError::NameOffsetOutOfBounds { offset } => SarcFault::NameOffsetOutOfBounds {
                offset: offset as int,
            },
            SarcError::UnterminatedName { offset } => SarcFault::UnterminatedName {
                offset: offset as int,
            },
            SarcError::NonUtf8Name { offset } => SarcFault::NonUtf8Name { offset: offset as int },
            SarcError::NodeBackwards { index, start, end } => SarcFault::NodeBackwards {
                index: index as int,
                start: start as int,
                end: end as int,
            },
            SarcError::NodeOutOfBounds { index, start, end, len } => SarcFault::NodeOutOfBounds {
                index: index as int,
                start: start as int,
                end: end as int,
                len: len as int,
            },
        }
    }
}

} // verus!
