//! Codebook chunks.

use cinepak::codebook::{
    CHUNK_HEADER_SIZE, Codebook, CodebookChunkKind, CodebookEntry, PixelMode, UpdateStyle,
    WhichCodebook, apply_codebook_chunk, apply_codebook_chunk_with, encode_full_chunk,
    encode_header_only_chunk, encode_selective_chunk,
};

#[test]
fn classifies_chunk_ids() {
    let f = CodebookChunkKind::from_id(0x2000).unwrap();
    assert_eq!(
        f,
        CodebookChunkKind {
            which: WhichCodebook::V4,
            style: UpdateStyle::Full,
            mode: PixelMode::Yuv12
        }
    );
    assert_eq!(f.to_id(), 0x2000);

    let f = CodebookChunkKind::from_id(0x2200).unwrap();
    assert_eq!(f.which, WhichCodebook::V1);
    assert_eq!(f.mode, PixelMode::Yuv12);

    let f = CodebookChunkKind::from_id(0x2400).unwrap();
    assert_eq!(f.mode, PixelMode::Gray8);
    assert_eq!(f.which, WhichCodebook::V4);

    let f = CodebookChunkKind::from_id(0x2700).unwrap();
    assert_eq!(f.style, UpdateStyle::Selective);
    assert_eq!(f.which, WhichCodebook::V1);
    assert_eq!(f.mode, PixelMode::Gray8);

    assert!(CodebookChunkKind::from_id(0x3000).is_none());
    assert!(CodebookChunkKind::from_id(0x1000).is_none());
    assert!(CodebookChunkKind::from_id(0x2001).is_none());
}

#[test]
fn applies_t1a_v1_full_replace() {
    let kind = CodebookChunkKind::from_id(0x2200).unwrap();
    let payload = [0x48u8, 0x48, 0x48, 0x48, 0xdb, 0x5a];
    let mut cb = Codebook::default();
    apply_codebook_chunk(kind, &payload, &mut cb).unwrap();
    assert_eq!(
        cb.entries[0],
        CodebookEntry::from_yuv(72, 72, 72, 72, -37, 90)
    );
}

#[test]
fn applies_selective_single_bit() {
    let kind = CodebookChunkKind::from_id(0x2300).unwrap();
    let mut payload = vec![0x80, 0x00, 0x00, 0x00];
    payload.extend_from_slice(&[0x10, 0x20, 0x30, 0x40, 0x50, 0x60]);
    let mut cb = Codebook::default();
    cb.entries[0] = CodebookEntry::from_yuv(1, 2, 3, 4, 5, 6);
    cb.entries[1] = CodebookEntry::from_yuv(99, 99, 99, 99, 99, 99);
    apply_codebook_chunk(kind, &payload, &mut cb).unwrap();
    assert_eq!(
        cb.entries[0],
        CodebookEntry::from_yuv(0x10, 0x20, 0x30, 0x40, 0x50, 0x60)
    );
    assert_eq!(
        cb.entries[1],
        CodebookEntry::from_yuv(99, 99, 99, 99, 99, 99)
    );
}

#[test]
fn selective_bit_scan_msb_first() {
    let kind = CodebookChunkKind::from_id(0x2300).unwrap();
    let mut payload = vec![0x00, 0x00, 0x00, 0x01];
    payload.extend_from_slice(&[1, 2, 3, 4, 5, 6]);
    let mut cb = Codebook::default();
    apply_codebook_chunk(kind, &payload, &mut cb).unwrap();
    assert_eq!(cb.entries[31], CodebookEntry::from_yuv(1, 2, 3, 4, 5, 6));
    assert_eq!(cb.entries[0], CodebookEntry::default());
}

#[test]
fn header_only_chunk_is_noop() {
    let kind = CodebookChunkKind::from_id(0x2000).unwrap();
    let mut buf = Vec::new();
    encode_header_only_chunk(kind, &mut buf);
    assert_eq!(buf, vec![0x20, 0x00, 0x00, 0x04]);
}

#[test]
fn applies_selective_v4_yuv_2100() {
    let kind = CodebookChunkKind::from_id(0x2100).unwrap();
    let mut payload = vec![0xe0, 0x00, 0x00, 0x00];
    payload.extend_from_slice(&[10, 20, 30, 40, 5, 6]);
    payload.extend_from_slice(&[50, 60, 70, 80, 7, 8]);
    payload.extend_from_slice(&[90, 100, 110, 120, 9, 10]);
    let mut cb = Codebook::default();
    apply_codebook_chunk(kind, &payload, &mut cb).unwrap();
    assert_eq!(cb.entries[0], CodebookEntry::from_yuv(10, 20, 30, 40, 5, 6));
    assert_eq!(
        cb.entries[2],
        CodebookEntry::from_yuv(90, 100, 110, 120, 9, 10)
    );
    assert_eq!(cb.entries[3], CodebookEntry::default());
}

#[test]
fn applies_selective_v4_gray_2500() {
    let kind = CodebookChunkKind::from_id(0x2500).unwrap();
    let mut payload = vec![0x00, 0x00, 0x00, 0x00, 0x40, 0x00, 0x00, 0x00];
    payload.extend_from_slice(&[11, 22, 33, 44]);
    let mut cb = Codebook::default();
    apply_codebook_chunk(kind, &payload, &mut cb).unwrap();
    assert_eq!(cb.entries[33], CodebookEntry::from_y(11, 22, 33, 44));
    assert_eq!(cb.entries[32], CodebookEntry::default());
}

#[test]
fn applies_selective_v1_gray_2700() {
    let kind = CodebookChunkKind::from_id(0x2700).unwrap();
    let mut payload = vec![0x00; 4 * 7];
    payload.extend_from_slice(&[0x00, 0x00, 0x00, 0x01]);
    payload.extend_from_slice(&[1, 2, 3, 4]);
    let mut cb = Codebook::default();
    apply_codebook_chunk(kind, &payload, &mut cb).unwrap();
    assert_eq!(cb.entries[255], CodebookEntry::from_y(1, 2, 3, 4));
}

#[test]
fn selective_chunk_encode_roundtrip() {
    let kind = CodebookChunkKind::from_id(0x2300).unwrap();
    let mut cb = Codebook::default();
    cb.entries[0] = CodebookEntry::from_yuv(1, 2, 3, 4, 5, 6);
    cb.entries[33] = CodebookEntry::from_yuv(7, 8, 9, 10, 11, 12);
    cb.entries[200] = CodebookEntry::from_yuv(13, 14, 15, 16, -1, -2);
    let slots = [0u8, 33, 200];
    let mut buf = Vec::new();
    encode_selective_chunk(kind, &cb, &slots, &mut buf);
    let payload = &buf[CHUNK_HEADER_SIZE..];
    let mut out = Codebook::default();
    apply_codebook_chunk(kind, payload, &mut out).unwrap();
    for &s in &slots {
        assert_eq!(out.entries[s as usize], cb.entries[s as usize]);
    }
    assert_eq!(out.entries[1], CodebookEntry::default());
}

#[test]
fn deviant_full_chunk_tolerates_trailing_pad() {
    let kind = CodebookChunkKind::from_id(0x2000).unwrap();
    let mut payload = Vec::with_capacity(255 * 6 + 2);
    for i in 0..255u16 {
        let y = (i & 0xff) as u8;
        payload.extend_from_slice(&[
            y,
            y.wrapping_add(1),
            y.wrapping_add(2),
            y.wrapping_add(3),
            0,
            0,
        ]);
    }
    payload.extend_from_slice(&[0xAB, 0xCD]);
    assert_eq!(payload.len(), 0x5FC);

    let mut cb_strict = Codebook::default();
    assert!(apply_codebook_chunk(kind, &payload, &mut cb_strict).is_err());

    let mut cb = Codebook::default();
    apply_codebook_chunk_with(kind, &payload, &mut cb, true).unwrap();
    assert_eq!(cb.entries[0], CodebookEntry::from_yuv(0, 1, 2, 3, 0, 0));
    assert_eq!(
        cb.entries[254],
        CodebookEntry::from_yuv(254, 255, 0, 1, 0, 0)
    );
    assert_eq!(cb.entries[255], CodebookEntry::default());
}

#[test]
fn deviant_tolerate_trailing_no_op_when_clean() {
    let kind = CodebookChunkKind::from_id(0x2000).unwrap();
    let mut payload = Vec::new();
    for i in 0..16u8 {
        payload.extend_from_slice(&[i, i, i, i, 0, 0]);
    }
    let mut cb = Codebook::default();
    apply_codebook_chunk_with(kind, &payload, &mut cb, true).unwrap();
    assert_eq!(cb.entries[0], CodebookEntry::from_yuv(0, 0, 0, 0, 0, 0));
    assert_eq!(
        cb.entries[15],
        CodebookEntry::from_yuv(15, 15, 15, 15, 0, 0)
    );
}

#[test]
fn full_chunk_roundtrip() {
    let kind = CodebookChunkKind::from_id(0x2000).unwrap();
    let mut cb = Codebook::default();
    cb.entries[0] = CodebookEntry::from_yuv(10, 20, 30, 40, -5, 7);
    cb.entries[1] = CodebookEntry::from_yuv(50, 60, 70, 80, 11, -13);
    let mut bytes = Vec::new();
    encode_full_chunk(kind, &cb, 2, &mut bytes);
    let payload = &bytes[CHUNK_HEADER_SIZE..];
    let mut out = Codebook::default();
    apply_codebook_chunk(kind, payload, &mut out).unwrap();
    assert_eq!(out.entries[0], cb.entries[0]);
    assert_eq!(out.entries[1], cb.entries[1]);
}

#[test]
fn selective_chunk_without_slots_is_its_header() {
    let kind = CodebookChunkKind {
        which: WhichCodebook::V1,
        style: UpdateStyle::Selective,
        mode: PixelMode::Gray8,
    };
    let mut out = vec![9];
    encode_selective_chunk(kind, &Codebook::default(), &[], &mut out);
    assert_eq!(out, [9, 0x27, 0x00, 0x00, 0x04]);
}
