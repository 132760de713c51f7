use nx_layout_toolbox::msbt::{
    label_hash, read_msbt, write_msbt, write_msbt_canonical, Encoding, Message, MsbtError, TextChunk, HEADER_LEN,
    PAD_BYTE, SECTION_ALIGN, TAG_CLOSE, TAG_OPEN,
};

fn pad_to(b: &mut Vec<u8>, align: usize) {
    while b.len() % align != 0 {
        b.push(PAD_BYTE);
    }
}

fn utf16(s: &str) -> Vec<u8> {
    let mut v = Vec::new();
    for u in s.encode_utf16() {
        v.extend_from_slice(&u.to_le_bytes());
    }
    v
}

/// A hand-built little-endian UTF-16 MSBT: one LBL1 group with two labels
/// and a TXT2 of two messages, the second carrying a control tag.
fn minimal_msbt() -> Vec<u8> {
    let mut m0 = utf16("Hi");
    m0.extend_from_slice(&0u16.to_le_bytes());
    let mut m1 = utf16("A");
    m1.extend_from_slice(&TAG_OPEN.to_le_bytes());
    m1.extend_from_slice(&1u16.to_le_bytes());
    m1.extend_from_slice(&2u16.to_le_bytes());
    let tag_data = utf16("!");
    m1.extend_from_slice(&(tag_data.len() as u16).to_le_bytes());
    m1.extend_from_slice(&tag_data);
    m1.extend_from_slice(&0u16.to_le_bytes());

    let mut txt2 = Vec::new();
    txt2.extend_from_slice(&2u32.to_le_bytes());
    let table = 4 + 2 * 4;
    txt2.extend_from_slice(&(table as u32).to_le_bytes());
    txt2.extend_from_slice(&((table + m0.len()) as u32).to_le_bytes());
    txt2.extend_from_slice(&m0);
    txt2.extend_from_slice(&m1);

    let mut lbl1 = Vec::new();
    lbl1.extend_from_slice(&1u32.to_le_bytes());
    lbl1.extend_from_slice(&2u32.to_le_bytes());
    lbl1.extend_from_slice(&12u32.to_le_bytes());
    for (name, idx) in [("Greeting", 0u32), ("Reply", 1u32)] {
        lbl1.push(name.len() as u8);
        lbl1.extend_from_slice(name.as_bytes());
        lbl1.extend_from_slice(&idx.to_le_bytes());
    }

    let mut b = Vec::new();
    b.extend_from_slice(b"MsgStdBn");
    b.extend_from_slice(&[0xFF, 0xFE]);
    b.extend_from_slice(&0u16.to_le_bytes());
    b.push(1);
    b.push(3);
    b.extend_from_slice(&2u16.to_le_bytes());
    b.extend_from_slice(&0u16.to_le_bytes());
    let fsize_pos = b.len();
    b.extend_from_slice(&0u32.to_le_bytes());
    b.extend_from_slice(&[0u8; 10]);
    assert_eq!(b.len(), HEADER_LEN);

    for (magic, body) in [(b"LBL1", &lbl1), (b"TXT2", &txt2)] {
        b.extend_from_slice(magic);
        b.extend_from_slice(&(body.len() as u32).to_le_bytes());
        b.extend_from_slice(&[0u8; 8]);
        b.extend_from_slice(body);
        pad_to(&mut b, SECTION_ALIGN);
    }

    let fsize = b.len() as u32;
    b[fsize_pos..fsize_pos + 4].copy_from_slice(&fsize.to_le_bytes());
    b
}

#[test]
fn parses_minimal() {
    let bytes = minimal_msbt();
    let doc = read_msbt(&bytes).expect("parse");
    assert_eq!(doc.version, 3);
    assert!(!doc.big_endian);
    assert_eq!(doc.encoding, Encoding::Utf16);
    assert_eq!(doc.sections.len(), 2);

    let labels = doc.labels().expect("labels");
    assert_eq!(labels.len(), 2);
    let messages = doc.messages().expect("messages");
    assert_eq!(messages.len(), 2);

    let entries = doc.entries();
    assert_eq!(entries.len(), 2);
    assert_eq!(entries[0].0, "Greeting");
    assert_eq!(entries[1].0, "Reply");

    assert_eq!(messages[0].chunks(Encoding::Utf16, false), vec![TextChunk::Text("Hi".into())]);
    assert_eq!(
        messages[1].chunks(Encoding::Utf16, false),
        vec![
            TextChunk::Text("A".into()),
            TextChunk::Tag { group: 1, ty: 2, data: "!".encode_utf16().flat_map(u16::to_le_bytes).collect() },
        ]
    );

    assert_eq!(write_msbt(&doc).unwrap(), bytes);
}

#[test]
fn canonical_writer_semantic_round_trips() {
    let bytes = minimal_msbt();
    let doc = read_msbt(&bytes).expect("parse");
    let rebuilt = write_msbt_canonical(&doc).expect("canonical write");
    let doc2 = read_msbt(&rebuilt).expect("re-parse canonical");
    assert_eq!(doc2.labels(), doc.labels());
    assert_eq!(doc2.messages(), doc.messages());
    assert_eq!(doc2.entries(), doc.entries());
    assert_eq!(doc2.lbl1_groups, doc.lbl1_groups);
}

#[test]
fn rejects_section_out_of_range() {
    let mut b = minimal_msbt();
    b[HEADER_LEN + 4..HEADER_LEN + 8].copy_from_slice(&0xFFFF_u32.to_le_bytes());
    assert!(matches!(read_msbt(&b), Err(MsbtError::SectionOutOfRange { .. })));
}

#[test]
fn rejects_unknown_encoding() {
    let mut b = minimal_msbt();
    b[0x0C] = 7;
    assert!(matches!(read_msbt(&b), Err(MsbtError::UnsupportedEncoding(7))));
}

#[test]
fn set_message_by_label_replaces_only_that_message() {
    let bytes = minimal_msbt();
    let mut doc = read_msbt(&bytes).unwrap();
    let new = Message::from_chunks(&[TextChunk::Text("Yo".into())], Encoding::Utf16, false);
    assert!(doc.set_message_by_label("Reply", new.clone()));
    assert!(!doc.set_message_by_label("Missing", new.clone()));
    let messages = doc.messages().unwrap();
    assert_eq!(messages[1], new);
    assert_eq!(messages[0].chunks(Encoding::Utf16, false), vec![TextChunk::Text("Hi".into())]);
}

#[test]
fn chunks_round_trip_through_from_chunks() {
    let chunks = vec![
        TextChunk::Text("Hé!".into()),
        TextChunk::Tag { group: 3, ty: 4, data: vec![1, 2, 3, 4] },
        TextChunk::TagClose { group: 3, ty: 4 },
        TextChunk::Text("end".into()),
    ];
    let m = Message::from_chunks(&chunks, Encoding::Utf16, false);
    assert_eq!(m.chunks(Encoding::Utf16, false), chunks);
    let m = Message::from_chunks(&chunks, Encoding::Utf16, true);
    assert_eq!(m.chunks(Encoding::Utf16, true), chunks);
    // UTF-16 close tags are the 0x000F marker, group and type.
    let close = Message::from_chunks(&[TextChunk::TagClose { group: 3, ty: 4 }], Encoding::Utf16, false);
    assert_eq!(&close.raw[0..2], &TAG_CLOSE.to_le_bytes());
    // UTF-8 keeps only the text and the tag payloads, concatenated.
    let m8 = Message::from_chunks(&chunks, Encoding::Utf8, false);
    assert_eq!(m8.chunks(Encoding::Utf8, false), vec![TextChunk::Text("Hé!\u{1}\u{2}\u{3}\u{4}end".into())]);
}

#[test]
fn display_renders_tags() {
    let m = Message::from_chunks(
        &[
            TextChunk::Text("A".into()),
            TextChunk::Tag { group: 1, ty: 2, data: vec![0xAB, 0xCD] },
            TextChunk::TagClose { group: 1, ty: 2 },
        ],
        Encoding::Utf16,
        false,
    );
    assert_eq!(m.to_display(Encoding::Utf16, false), "A[tag g=1 t=2 n=2][/tag g=1 t=2]");
}

#[test]
fn encoding_codes() {
    assert_eq!(Encoding::from_u8(0).unwrap(), Encoding::Utf8);
    assert_eq!(Encoding::from_u8(1).unwrap(), Encoding::Utf16);
    assert_eq!(Encoding::from_u8(2).unwrap(), Encoding::Utf32);
    assert!(matches!(Encoding::from_u8(3), Err(MsbtError::UnsupportedEncoding(3))));
    assert_eq!(Encoding::Utf16.to_u8(), 1);
}

#[test]
fn label_hash_is_multiply_add() {
    assert_eq!(label_hash(""), 0);
    assert_eq!(label_hash("a"), 0x61);
    assert_eq!(label_hash("ab"), 0x61 * 0x492 + 0x62);
}

#[test]
fn msbt_read_rejects_too_small() {
    assert!(matches!(read_msbt(&[0u8; 8]), Err(MsbtError::TooSmall(8))));
}

#[test]
fn msbt_read_rejects_bad_magic() {
    let mut b = vec![0u8; HEADER_LEN];
    b[0..8].copy_from_slice(b"NOTMSBT!");
    assert!(matches!(read_msbt(&b), Err(MsbtError::BadMagic(_))));
}

#[test]
fn msbt_read_rejects_bad_bom() {
    let mut b = vec![0u8; HEADER_LEN];
    b[0..8].copy_from_slice(b"MsgStdBn");
    b[8] = 0x12;
    b[9] = 0x34;
    assert!(matches!(read_msbt(&b), Err(MsbtError::BadBom(_))));
}
