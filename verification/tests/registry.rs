//! Recognising packets and decoding them one at a time.

use cinepak::encoder::{encode_rgb24, EncoderOptions};
use cinepak::registry::{probe_cvid, CinepakDecoderHandle, Reply};

fn build_minimal_cvid_packet() -> Vec<u8> {
    let mut bytes = Vec::new();
    bytes.extend_from_slice(&[0, 0, 0, 22, 0, 8, 0, 8, 0, 1]);
    bytes.extend_from_slice(&[0x10, 0x00, 0, 12, 0, 0, 0, 0, 0, 8, 0, 8]);
    bytes
}

/// Confidence as a fraction of one.
fn confidence(packet: Option<&[u8]>) -> f32 {
    f32::from(probe_cvid(packet)) / 100.0
}

#[test]
fn probe_accepts_valid_cvid_header() {
    let pkt = build_minimal_cvid_packet();
    assert_eq!(confidence(Some(&pkt)), 1.0);
}

#[test]
fn probe_rejects_misaligned_dims() {
    let mut pkt = build_minimal_cvid_packet();
    pkt[4..6].copy_from_slice(&7u16.to_be_bytes());
    assert_eq!(confidence(Some(&pkt)), 0.0);
}

#[test]
fn probe_rejects_bad_strip_id() {
    let mut pkt = build_minimal_cvid_packet();
    pkt[10..12].copy_from_slice(&0x1234u16.to_be_bytes());
    assert_eq!(confidence(Some(&pkt)), 0.0);
}

#[test]
fn probe_returns_partial_confidence_without_packet() {
    assert_eq!(confidence(None), 0.5);
}

#[test]
fn probe_looks_at_every_field() {
    let good = build_minimal_cvid_packet();
    let changed = |at: usize, v: &[u8]| {
        let mut p = build_minimal_cvid_packet();
        p[at..at + v.len()].copy_from_slice(v);
        probe_cvid(Some(&p))
    };
    assert_eq!(probe_cvid(Some(&good[..21])), 0);
    assert_eq!(changed(0, &[1]), 100);
    assert_eq!(changed(0, &[2]), 0);
    assert_eq!(changed(1, &[0, 0, 21]), 0);
    assert_eq!(changed(4, &[0x10, 0x04]), 0);
    assert_eq!(changed(4, &[0x10, 0x00]), 100);
    assert_eq!(changed(6, &[0, 0]), 0);
    assert_eq!(changed(8, &[0, 0]), 0);
    assert_eq!(changed(10, &[0x11, 0x00]), 100);
    assert_eq!(changed(12, &[0, 11]), 0);
    assert_eq!(changed(12, &[0, 13]), 0);
}

#[test]
fn handles_decode_one_packet_at_a_time() {
    let rgb = vec![70u8; 8 * 8 * 3];
    let bytes = encode_rgb24(&rgb, 8, 8, EncoderOptions::default()).unwrap();
    let mut h = CinepakDecoderHandle::new();
    assert!(matches!(h.receive_frame(), Reply::NeedMore));
    h.send_packet(bytes.clone(), Some(9)).unwrap();
    let e = h.send_packet(bytes.clone(), None).unwrap_err();
    assert_eq!(
        e.to_string(),
        "cinepak: Cinepak decoder: receive_frame must be called before sending another packet"
    );
    match h.receive_frame() {
        Reply::Frame(f) => assert_eq!((f.width, f.height, f.pts), (8, 8, Some(9))),
        _ => panic!("no frame"),
    }
    h.send_packet(vec![1, 2, 3], None).unwrap();
    assert!(matches!(h.receive_frame(), Reply::Failed(_)));
    h.flush();
    assert!(matches!(h.receive_frame(), Reply::Eof));
    h.reset();
    assert!(matches!(h.receive_frame(), Reply::NeedMore));
}
