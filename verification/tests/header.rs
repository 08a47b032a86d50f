//! Frame and strip headers.

use cinepak::header::{
    FRAME_HEADER_SIZE, FrameHeader, FrameStrips, RawStripHeader, STRIP_HEADER_SIZE, STRIP_ID_INTRA,
    StripHeader,
};

#[test]
fn parses_o1_frame_header() {
    let bytes = [0x00, 0x00, 0x26, 0x7d, 0x01, 0x40, 0x00, 0xf0, 0x00, 0x01];
    let h = FrameHeader::parse(&bytes).unwrap();
    assert_eq!(h.flags, 0x00);
    assert_eq!(h.frame_length, 0x267d);
    assert_eq!(h.width, 320);
    assert_eq!(h.height, 240);
    assert_eq!(h.strip_count, 1);
}

#[test]
fn parses_o1_strip_header() {
    let bytes = [
        0x10, 0x00, 0x26, 0x73, 0x00, 0x00, 0x00, 0x00, 0x00, 0xf0, 0x01, 0x40,
    ];
    let raw = RawStripHeader::parse(&bytes).unwrap();
    assert_eq!(raw.strip_id, STRIP_ID_INTRA);
    assert_eq!(raw.strip_size, 0x2673);
    assert_eq!(raw.y_top, 0);
    assert_eq!(raw.y_bottom, 240);
    assert_eq!(raw.x_top, 0);
    assert_eq!(raw.x_bottom, 320);
}

#[test]
fn applies_y_sentinel_rule() {
    let raw = RawStripHeader {
        strip_id: STRIP_ID_INTRA,
        strip_size: 100,
        y_top: 0,
        x_top: 0,
        y_bottom: 80,
        x_bottom: 320,
    };
    let s0 = StripHeader::resolve(raw, true, 0);
    assert_eq!((s0.actual_y_top, s0.actual_y_bottom), (0, 80));
    let s1 = StripHeader::resolve(raw, false, 80);
    assert_eq!((s1.actual_y_top, s1.actual_y_bottom), (80, 160));
    let s2 = StripHeader::resolve(raw, false, 160);
    assert_eq!((s2.actual_y_top, s2.actual_y_bottom), (160, 240));
}

#[test]
fn rejects_non_4_dims() {
    let mut buf = [0u8; FRAME_HEADER_SIZE];
    let h = FrameHeader {
        flags: 0,
        frame_length: 100,
        width: 33,
        height: 32,
        strip_count: 1,
    };
    h.encode(&mut buf);
    assert!(FrameHeader::parse(&buf).is_err());
}

#[test]
fn header_rejects_zero_strip_count() {
    let mut buf = [0u8; FRAME_HEADER_SIZE];
    let h = FrameHeader {
        flags: 0,
        frame_length: 100,
        width: 32,
        height: 32,
        strip_count: 0,
    };
    h.encode(&mut buf);
    assert!(FrameHeader::parse(&buf).is_err());
}

#[test]
fn rejects_unknown_strip_id() {
    let mut buf = [0u8; STRIP_HEADER_SIZE];
    let raw = RawStripHeader {
        strip_id: 0x1234,
        strip_size: 16,
        y_top: 0,
        x_top: 0,
        y_bottom: 4,
        x_bottom: 4,
    };
    raw.encode(&mut buf);
    assert!(RawStripHeader::parse(&buf).is_err());
}

#[test]
fn frame_header_roundtrip() {
    let h = FrameHeader {
        flags: 0x01,
        frame_length: 0x00ab_cdef,
        width: 320,
        height: 240,
        strip_count: 3,
    };
    let mut buf = [0u8; FRAME_HEADER_SIZE];
    h.encode(&mut buf);
    let h2 = FrameHeader::parse(&buf).unwrap();
    assert_eq!(h, h2);
}

fn build_synthetic_frame(
    width: u16,
    strips_height_each: u16,
    strip_count: u16,
    first_y_top_literal: bool,
) -> Vec<u8> {
    let mut buf = Vec::new();
    buf.extend_from_slice(&[0u8; FRAME_HEADER_SIZE]);
    for i in 0..strip_count {
        let raw = RawStripHeader {
            strip_id: STRIP_ID_INTRA,
            strip_size: STRIP_HEADER_SIZE as u16,
            y_top: if i == 0 && first_y_top_literal { 1 } else { 0 },
            x_top: 0,
            y_bottom: strips_height_each,
            x_bottom: width,
        };
        let mut s = [0u8; STRIP_HEADER_SIZE];
        raw.encode(&mut s);
        buf.extend_from_slice(&s);
    }
    let total_strips_bytes = STRIP_HEADER_SIZE * strip_count as usize;
    let frame_len = FRAME_HEADER_SIZE + total_strips_bytes;
    let header = FrameHeader {
        flags: 0x00,
        frame_length: frame_len as u32,
        width,
        height: strips_height_each * strip_count,
        strip_count,
    };
    let mut hb = [0u8; FRAME_HEADER_SIZE];
    header.encode(&mut hb);
    buf[..FRAME_HEADER_SIZE].copy_from_slice(&hb);
    buf
}

#[test]
fn frame_strips_walks_three_strips_sentinel() {
    let bytes = build_synthetic_frame(320, 80, 3, false);
    let mut it = FrameStrips::new(&bytes).unwrap();
    assert_eq!(it.header().strip_count, 3);
    assert_eq!(it.remaining(), 3);
    let (lo, hi) = it.size_hint();
    assert_eq!((lo, hi), (3, Some(3)));

    let s0 = it.next().unwrap().unwrap();
    assert_eq!(s0.index, 0);
    assert_eq!(s0.header.actual_y_top, 0);
    assert_eq!(s0.header.actual_y_bottom, 80);
    assert_eq!(s0.payload.len(), 0);

    let s1 = it.next().unwrap().unwrap();
    assert_eq!(s1.index, 1);
    assert_eq!(s1.header.actual_y_top, 80);
    assert_eq!(s1.header.actual_y_bottom, 160);

    let s2 = it.next().unwrap().unwrap();
    assert_eq!(s2.index, 2);
    assert_eq!(s2.header.actual_y_top, 160);
    assert_eq!(s2.header.actual_y_bottom, 240);

    assert!(it.next().is_none());
    assert_eq!(it.remaining(), 0);
}

#[test]
fn frame_strips_first_strip_literal_when_y_top_nonzero() {
    let bytes = build_synthetic_frame(64, 4, 1, true);
    let mut it = FrameStrips::new(&bytes).unwrap();
    let s = it.next().unwrap().unwrap();
    assert_eq!(s.header.raw.y_top, 1);
    assert_eq!(s.header.actual_y_top, 1);
    assert_eq!(s.header.actual_y_bottom, 4);
    assert!(it.next().is_none());
}

#[test]
fn frame_strips_walks_o1_single_strip() {
    let header = FrameHeader {
        flags: 0x00,
        frame_length: (FRAME_HEADER_SIZE + STRIP_HEADER_SIZE) as u32,
        width: 320,
        height: 240,
        strip_count: 1,
    };
    let mut hbuf = [0u8; FRAME_HEADER_SIZE];
    header.encode(&mut hbuf);
    let strip = RawStripHeader {
        strip_id: STRIP_ID_INTRA,
        strip_size: STRIP_HEADER_SIZE as u16,
        y_top: 0,
        x_top: 0,
        y_bottom: 240,
        x_bottom: 320,
    };
    let mut sbuf = [0u8; STRIP_HEADER_SIZE];
    strip.encode(&mut sbuf);
    let mut bytes = Vec::with_capacity(FRAME_HEADER_SIZE + STRIP_HEADER_SIZE);
    bytes.extend_from_slice(&hbuf);
    bytes.extend_from_slice(&sbuf);

    let mut it = FrameStrips::new(&bytes).unwrap();
    let s = it.next().unwrap().unwrap();
    assert_eq!(s.index, 0);
    assert!(s.header.raw.is_intra());
    assert_eq!(s.header.actual_y_top, 0);
    assert_eq!(s.header.actual_y_bottom, 240);
    assert_eq!(s.payload.len(), 0);
    assert!(it.next().is_none());
}

#[test]
fn frame_strips_fuses_on_strip_header_truncation() {
    let mut hbuf = [0u8; FRAME_HEADER_SIZE];
    let header = FrameHeader {
        flags: 0x00,
        frame_length: FRAME_HEADER_SIZE as u32,
        width: 64,
        height: 64,
        strip_count: 1,
    };
    header.encode(&mut hbuf);

    let mut it = FrameStrips::new(&hbuf).unwrap();
    let first = it.next();
    assert!(matches!(first, Some(Err(_))), "expected truncation error");
    assert!(it.next().is_none());
    assert!(it.next().is_none());
}

#[test]
fn frame_strips_construction_rejects_short_buffer() {
    let mut hbuf = [0u8; FRAME_HEADER_SIZE];
    let header = FrameHeader {
        flags: 0x00,
        frame_length: 0x00_1000,
        width: 64,
        height: 64,
        strip_count: 1,
    };
    header.encode(&mut hbuf);
    let r = FrameStrips::new(&hbuf);
    assert!(r.is_err());
}

#[test]
fn frame_strips_fuses_on_strip_size_overrun() {
    let frame_len = FRAME_HEADER_SIZE + STRIP_HEADER_SIZE;
    let mut buf = vec![0u8; frame_len];
    let header = FrameHeader {
        flags: 0x00,
        frame_length: frame_len as u32,
        width: 64,
        height: 64,
        strip_count: 1,
    };
    let mut hbuf = [0u8; FRAME_HEADER_SIZE];
    header.encode(&mut hbuf);
    buf[..FRAME_HEADER_SIZE].copy_from_slice(&hbuf);
    let strip = RawStripHeader {
        strip_id: STRIP_ID_INTRA,
        strip_size: 9999,
        y_top: 0,
        x_top: 0,
        y_bottom: 64,
        x_bottom: 64,
    };
    let mut sbuf = [0u8; STRIP_HEADER_SIZE];
    strip.encode(&mut sbuf);
    buf[FRAME_HEADER_SIZE..].copy_from_slice(&sbuf);

    let mut it = FrameStrips::new(&buf).unwrap();
    assert!(matches!(it.next(), Some(Err(_))));
    assert!(it.next().is_none());
}

#[test]
fn frame_strips_yields_payload_slice() {
    let payload_len = 5u16;
    let strip_size = STRIP_HEADER_SIZE as u16 + payload_len;
    let frame_len = FRAME_HEADER_SIZE + strip_size as usize;
    let mut buf = vec![0u8; frame_len];
    let header = FrameHeader {
        flags: 0x00,
        frame_length: frame_len as u32,
        width: 64,
        height: 64,
        strip_count: 1,
    };
    let mut hbuf = [0u8; FRAME_HEADER_SIZE];
    header.encode(&mut hbuf);
    buf[..FRAME_HEADER_SIZE].copy_from_slice(&hbuf);
    let strip = RawStripHeader {
        strip_id: STRIP_ID_INTRA,
        strip_size,
        y_top: 0,
        x_top: 0,
        y_bottom: 64,
        x_bottom: 64,
    };
    let mut sbuf = [0u8; STRIP_HEADER_SIZE];
    strip.encode(&mut sbuf);
    buf[FRAME_HEADER_SIZE..FRAME_HEADER_SIZE + STRIP_HEADER_SIZE].copy_from_slice(&sbuf);
    for (i, b) in buf[FRAME_HEADER_SIZE + STRIP_HEADER_SIZE..]
        .iter_mut()
        .enumerate()
    {
        *b = (0xa0 + i) as u8;
    }

    let mut it = FrameStrips::new(&buf).unwrap();
    let s = it.next().unwrap().unwrap();
    assert_eq!(s.payload.len(), payload_len as usize);
    assert_eq!(s.payload, &[0xa0, 0xa1, 0xa2, 0xa3, 0xa4]);
    assert!(it.next().is_none());
}

#[test]
fn frame_strips_payload_lengths_total_to_spec_invariant() {
    let payload_per_strip = 7u16;
    let strip_count: u16 = 3;
    let strip_size = STRIP_HEADER_SIZE as u16 + payload_per_strip;
    let frame_len = FRAME_HEADER_SIZE + (strip_count as usize) * (strip_size as usize);
    let mut buf = Vec::with_capacity(frame_len);
    let header = FrameHeader {
        flags: 0x00,
        frame_length: frame_len as u32,
        width: 320,
        height: 240,
        strip_count,
    };
    let mut hbuf = [0u8; FRAME_HEADER_SIZE];
    header.encode(&mut hbuf);
    buf.extend_from_slice(&hbuf);
    for _ in 0..strip_count {
        let strip = RawStripHeader {
            strip_id: STRIP_ID_INTRA,
            strip_size,
            y_top: 0,
            x_top: 0,
            y_bottom: 80,
            x_bottom: 320,
        };
        let mut sbuf = [0u8; STRIP_HEADER_SIZE];
        strip.encode(&mut sbuf);
        buf.extend_from_slice(&sbuf);
        buf.extend_from_slice(&[0u8; 7]);
    }

    let mut it = FrameStrips::new(&buf).unwrap();
    let total_payload: usize = std::iter::from_fn(|| it.next()).map(|r| r.unwrap().payload.len()).sum();
    let expected = (frame_len) - FRAME_HEADER_SIZE - (strip_count as usize) * STRIP_HEADER_SIZE;
    assert_eq!(total_payload, expected);
    assert_eq!(total_payload, 21);
}
