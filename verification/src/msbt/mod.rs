//! MSBT (LibMessageStudio binary message) read + write.
//!
//! MSBT (`MsgStdBn`) is Nintendo's binary message container, the localized
//! text format for menus, dialogue and item names. A 0x20-byte header (magic,
//! byte-order mark, encoding, version, section count, file size) is followed
//! by a sequence of 0x10-byte-headed sections padded with `0xAB` to a 16-byte
//! boundary. The two sections that carry the data are:
//!
//! - **`LBL1`**: a label hash table mapping a string label (e.g. `Talk_0001`)
//!   to an index into the text section.
//! - **`TXT2`**: the messages: a `u32` count, a table of `u32` offsets, then
//!   NUL-terminated strings in the file's [`Encoding`] with inline control tags.
//!
//! Other sections are retained opaquely. [`read_msbt`] keeps the original
//! bytes and [`write_msbt`] re-emits them verbatim; [`write_msbt_canonical`]
//! rebuilds the file from the decoded sections.
use vstd::prelude::*;

pub use read::read_msbt;
pub use write::{write_msbt, write_msbt_canonical};

pub mod chunk_laws;
pub mod chunks;
pub mod document;
pub mod laws;
pub mod read;
pub mod text;
pub mod write;


verus! {

/// Length of a section header; the section body follows immediately after.
pub const SECTION_HEADER_LEN: usize = 0x10;
/// The fixed file header length.
pub const HEADER_LEN: usize = 0x20;
/// Sections are padded to this boundary with [`PAD_BYTE`].
pub const SECTION_ALIGN: usize = 0x10;
/// MSBT pads section tails with this byte (not 0x00).
pub const PAD_BYTE: u8 = 0xAB;
/// Opens a control tag in UTF-16 text (group, type, size, payload).
pub const TAG_OPEN: u16 = 0x000E;
/// Closes a control tag in UTF-16 text (group, type).
pub const TAG_CLOSE: u16 = 0x000F;

/// Text encoding used by the `TXT2` strings.
#[derive(Debug, Clone, Copy, PartialEq, Eq, Structural)]
pub enum Encoding {
    /// UTF-8 (`0`).
    Utf8,
    /// UTF-16 (`1`), the common Switch case.
    Utf16,
    /// UTF-32 (`2`).
    Utf32,
}

/// The encoding a header byte names, if any.
pub open spec fn spec_encoding(v: u8) -> Option<Encoding> {
    if v == 0 {
        Some(Encoding::Utf8)
    } else if v == 1 {
        Some(Encoding::Utf16)
    } else if v == 2 {
        Some(Encoding::Utf32)
    } else {
        None
    }
}

/// The header byte of an encoding.
pub open spec fn spec_encoding_byte(e: Encoding) -> u8 {
    match e {
        Encoding::Utf8 => 0,
        Encoding::Utf16 => 1,
        Encoding::Utf32 => 2,
    }
}

impl Encoding {
    /// Decode the header's encoding byte.
    pub fn from_u8(v: u8) -> (r: Result<Encoding, MsbtError>)
        ensures
            match r {
                Ok(e) => spec_encoding(v) == Some(e),
                Err(e) => spec_encoding(v) is None && e@ == MsbtFault::UnsupportedEncoding(v),
            },
    {
        match v {
            0 => Ok(Encoding::Utf8),
            1 => Ok(Encoding::Utf16),
            2 => Ok(Encoding::Utf32),
            other => Err(MsbtError::UnsupportedEncoding(other)),
        }
    }

    /// The on-disk encoding byte.
    pub fn to_u8(self) -> (b: u8)
        ensures
            b == spec_encoding_byte(self),
            spec_encoding(b) == Some(self),
    {
        match self {
            Encoding::Utf8 => 0,
            Encoding::Utf16 => 1,
            Encoding::Utf32 => 2,
        }
    }

    /// A short label for diagnostics.
    pub fn label(self) -> (s: &'static str)
        ensures
            s@ == match self {
                Encoding::Utf8 => "UTF-8"@,
                Encoding::Utf16 => "UTF-16"@,
                Encoding::Utf32 => "UTF-32"@,
            },
    {
        match self {
            Encoding::Utf8 => "UTF-8",
            Encoding::Utf16 => "UTF-16",
            Encoding::Utf32 => "UTF-32",
        }
    }
}

/// A single `LBL1` label: its name and the `TXT2` message index it points at.
#[derive(Debug, Clone, PartialEq, Eq)]
pub struct Label {
    /// The label name (e.g. `Talk_Greeting_01`).
    pub name: String,
    /// Index into the text section's message list.
    pub index: u32,
}

/// A label as a value.
pub type LabelModel = (Seq<char>, u32);

impl View for Label {
    type V = LabelModel;

    open spec fn view(&self) -> LabelModel {
        (self.name@, self.index)
    }
}

/// A message: the exact encoded bytes of the entry (between this message's
/// offset and the next, terminator included).
#[derive(Debug, Clone, PartialEq, Eq)]
pub struct Message {
    /// The encoded bytes.
    pub raw: Vec<u8>,
}

impl View for Message {
    type V = Seq<u8>;

    open spec fn view(&self) -> Seq<u8> {
        self.raw@
    }
}

/// One chunk of a decoded [`Message`]: literal text or a control tag.
#[derive(Debug, Clone, PartialEq, Eq)]
pub enum TextChunk {
    /// A run of literal text.
    Text(String),
    /// An opening control tag (`0x000E`): group, type and opaque payload.
    Tag { group: u16, ty: u16, data: Vec<u8> },
    /// A closing control tag (`0x000F`): group and type.
    TagClose { group: u16, ty: u16 },
}

/// A chunk as a value.
pub enum ChunkModel {
    Text(Seq<char>),
    Tag { group: u16, ty: u16, data: Seq<u8> },
    TagClose { group: u16, ty: u16 },
}

impl View for TextChunk {
    type V = ChunkModel;

    open spec fn view(&self) -> ChunkModel {
        match self {
            TextChunk::Text(t) => ChunkModel::Text(t@),
            TextChunk::Tag { group, ty, data } => ChunkModel::Tag { group: *group, ty: *ty, data: data@ },
            TextChunk::TagClose { group, ty } => ChunkModel::TagClose { group: *group, ty: *ty },
        }
    }
}

/// Chunks as values.
pub open spec fn chunks_view(s: Seq<TextChunk>) -> Seq<ChunkModel> {
    s.map_values(|c: TextChunk| c@)
}

/// Decoded payload of an MSBT section.
#[derive(Debug, Clone)]
pub enum SectionData {
    /// `LBL1`: the label table.
    Labels(Vec<Label>),
    /// `TXT2`: the message list.
    Text(Vec<Message>),
    /// Any other section, retained as raw body bytes.
    Opaque(Vec<u8>),
}

/// A section payload as a value.
pub enum SectionModel {
    Labels(Seq<LabelModel>),
    Text(Seq<Seq<u8>>),
    Opaque(Seq<u8>),
}

/// Labels as values.
pub open spec fn labels_view(s: Seq<Label>) -> Seq<LabelModel> {
    s.map_values(|l: Label| l@)
}

/// Messages as values.
pub open spec fn messages_view(s: Seq<Message>) -> Seq<Seq<u8>> {
    s.map_values(|m: Message| m@)
}

impl View for SectionData {
    type V = SectionModel;

    open spec fn view(&self) -> SectionModel {
        match self {
            SectionData::Labels(l) => SectionModel::Labels(labels_view(l@)),
            SectionData::Text(t) => SectionModel::Text(messages_view(t@)),
            SectionData::Opaque(b) => SectionModel::Opaque(b@),
        }
    }
}

/// A parsed MSBT section: its 4-byte magic and decoded payload.
#[derive(Debug, Clone)]
pub struct Section {
    /// The 4-byte section magic (`LBL1`, `TXT2`, `ATR1`, ...).
    pub magic: [u8; 4],
    /// The decoded payload.
    pub data: SectionData,
}

/// A section as a value: magic and payload.
pub type SectionValue = (Seq<u8>, SectionModel);

impl View for Section {
    type V = SectionValue;

    open spec fn view(&self) -> SectionValue {
        (self.magic@, self.data@)
    }
}

/// Sections as values.
pub open spec fn sections_view(s: Seq<Section>) -> Seq<SectionValue> {
    s.map_values(|x: Section| x@)
}

impl Section {
    /// The magic as a string (invalid UTF-8 replaced) for diagnostics.
    pub fn magic_str(&self) -> (s: String)
        ensures
            s@ == text::utf8_lossy(self.magic@),
    {
        text::utf8_lossy_string(&self.magic)
    }
}

/// A parsed MSBT document. Keeps the original bytes (`raw`) so an
/// unmodified document re-emits byte-identically via [`write_msbt`].
#[derive(Debug, Clone)]
pub struct MsbtDocument {
    /// `true` for big-endian (`FEFF`), `false` for little-endian (`FFFE`).
    pub big_endian: bool,
    /// Text encoding of the `TXT2` strings.
    pub encoding: Encoding,
    /// Format version (3 for Tears of the Kingdom).
    pub version: u8,
    /// Sections in file order.
    pub sections: Vec<Section>,
    /// The `LBL1` hash-bucket count captured at read time (0 if no `LBL1`).
    pub lbl1_groups: u32,
    /// The original file bytes, used for the verbatim [`write_msbt`] path.
    pub raw: Vec<u8>,
}

/// A document as a value.
pub type DocModel = (bool, Encoding, u8, Seq<SectionValue>, u32, Seq<u8>);

impl View for MsbtDocument {
    type V = DocModel;

    open spec fn view(&self) -> DocModel {
        (self.big_endian, self.encoding, self.version, sections_view(self.sections@), self.lbl1_groups, self.raw@)
    }
}

/// An error reading or writing an MSBT document.
#[derive(Debug)]
pub enum MsbtError {
    /// Buffer is smaller than the fixed 0x20-byte header.
    TooSmall(usize),
    /// The 8-byte magic was not `MsgStdBn`.
    BadMagic([u8; 8]),
    /// The byte-order mark at 0x08 was neither `FFFE` (LE) nor `FEFF` (BE).
    BadBom([u8; 2]),
    /// The encoding byte at 0x0C was outside the documented `0..=2` range.
    UnsupportedEncoding(u8),
    /// A read ran past the end of the buffer.
    Truncated { offset: usize, need: usize, len: usize },
    /// A section's declared size ran past the end of the buffer.
    SectionOutOfRange { magic: String, index: usize, offset: usize, size: usize, len: usize },
    /// A label name or string offset referenced a slot past the end of its section.
    OffsetOutOfRange { section: &'static str, index: usize, offset: usize, size: usize },
    /// A label name was not valid UTF-8 (MSBT labels are ASCII).
    NonUtf8 { offset: usize, source: std::str::Utf8Error },
}

/// An [`MsbtError`] as a value.
pub enum MsbtFault {
    TooSmall(int),
    BadMagic(Seq<u8>),
    BadBom(Seq<u8>),
    UnsupportedEncoding(u8),
    Truncated { offset: int, need: int, len: int },
    SectionOutOfRange { magic: Seq<char>, index: int, offset: int, size: int, len: int },
    OffsetOutOfRange { section: Seq<char>, index: int, offset: int, size: int },
    NonUtf8 { offset: int },
}

impl View for MsbtError {
    type V = MsbtFault;

    open spec fn view(&self) -> MsbtFault {
        match self {
            MsbtError::TooSmall(n) => MsbtFault::TooSmall(*n as int),
            MsbtError::BadMagic(m) => MsbtFault::BadMagic(m@),
            MsbtError::BadBom(m) => MsbtFault::BadBom(m@),
            MsbtError::UnsupportedEncoding(v) => MsbtFault::UnsupportedEncoding(*v),
            MsbtError::Truncated { offset, need, len } => MsbtFault::Truncated {
                offset: *offset as int,
                need: *need as int,
                len: *len as int,
            },
            MsbtError::SectionOutOfRange { magic, index, offset, size, len } => MsbtFault::SectionOutOfRange {
                magic: magic@,
                index: *index as int,
                offset: *offset as int,
                size: *size as int,
                len: *len as int,
            },
            MsbtError::OffsetOutOfRange { section, index, offset, size } => MsbtFault::OffsetOutOfRange {
                section: section@,
                index: *index as int,
                offset: *offset as int,
                size: *size as int,
            },
            MsbtError::NonUtf8 { offset, source } => MsbtFault::NonUtf8 { offset: *offset as int },
        }
    }
}

/// The LMS label hash: `h = h * 0x492 + byte` (wrapping at 32 bits) over the
/// label's bytes.
pub open spec fn spec_label_hash(s: Seq<u8>) -> u32
    decreases s.len(),
{
    if s.len() == 0 {
        0
    } else {
        vstd::wrapping::u32_specs::wrapping_add(
            vstd::wrapping::u32_specs::wrapping_mul(spec_label_hash(s.drop_last()), 0x492),
            s.last() as u32,
        )
    }
}

/// The LMS label hash of a name; its bucket is `hash % group_count`.
pub fn label_hash(name: &str) -> (h: u32)
    ensures
        h == spec_label_hash(vstd::utf8::encode_utf8(name@)),
{
    let b = name.as_bytes();
    let mut h: u32 = 0;
    let mut i: usize = 0;
    while i < b.len()
        invariant
            i <= b@.len(),
            b@ == vstd::utf8::encode_utf8(name@),
            h == spec_label_hash(b@.subrange(0, i as int)),
        decreases b@.len() - i,
    {
        proof {
            assert(b@.subrange(0, i + 1).drop_last() =~= b@.subrange(0, i as int));
        }
        h = h.wrapping_mul(0x492).wrapping_add(b[i] as u32);
        i += 1;
    }
    proof {
        assert(b@.subrange(0, b@.len() as int) =~= b@);
    }
    h
}

} // verus!
