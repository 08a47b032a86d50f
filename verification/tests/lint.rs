//! Finding flaws in frames.

use cinepak::encoder::{encode_gray8, encode_rgb24};
use cinepak::header::{FRAME_HEADER_SIZE, STRIP_HEADER_SIZE};
use cinepak::lint::{LintReport, LintRule, lint_frame};
use cinepak::options::EncoderOptions;
use cinepak::session::CinepakEncoder;

fn frame_one_strip(payload_len: usize) -> Vec<u8> {
    let strip_size = STRIP_HEADER_SIZE + payload_len;
    let frame_length = FRAME_HEADER_SIZE + strip_size;
    let mut v = Vec::new();
    v.push(0x00);
    v.extend_from_slice(&[
        ((frame_length >> 16) & 0xff) as u8,
        ((frame_length >> 8) & 0xff) as u8,
        (frame_length & 0xff) as u8,
    ]);
    v.extend_from_slice(&16u16.to_be_bytes());
    v.extend_from_slice(&8u16.to_be_bytes());
    v.extend_from_slice(&1u16.to_be_bytes());
    v.extend_from_slice(&0x1000u16.to_be_bytes());
    v.extend_from_slice(&(strip_size as u16).to_be_bytes());
    v.extend_from_slice(&0u16.to_be_bytes());
    v.extend_from_slice(&0u16.to_be_bytes());
    v.extend_from_slice(&8u16.to_be_bytes());
    v.extend_from_slice(&16u16.to_be_bytes());
    v.extend_from_slice(&vec![0u8; payload_len]);
    v
}

fn has_rule(rep: &LintReport, rule: LintRule) -> bool {
    rep.issues().iter().any(|i| i.rule == rule)
}

#[test]
fn encoder_output_is_frame_and_strip_clean() {
    let (w, h) = (32u32, 16u32);
    let rgb = vec![128u8; (w * h * 3) as usize];
    let bytes = encode_rgb24(&rgb, w, h, EncoderOptions::default()).unwrap();
    let rep = lint_frame(&bytes);
    assert!(rep.is_clean(), "unexpected issues: {:?}", rep.issues());
    assert_eq!(rep.strips_walked(), 1);
}

#[test]
fn multi_strip_encoder_output_is_clean() {
    let (w, h) = (16u32, 24u32);
    let rgb: Vec<u8> = (0..(w * h * 3)).map(|i| (i % 251) as u8).collect();
    let opts = EncoderOptions {
        strip_count: 3,
        ..EncoderOptions::default()
    };
    let bytes = encode_rgb24(&rgb, w, h, opts).unwrap();
    let rep = lint_frame(&bytes);
    assert!(rep.is_clean(), "unexpected issues: {:?}", rep.issues());
    assert_eq!(rep.strips_walked(), 3);
}

#[test]
fn truncated_header_is_reported() {
    let rep = lint_frame(&[0u8; 5]);
    assert!(has_rule(&rep, LintRule::FrameHeaderTruncated));
    assert!(!rep.is_conformant());
}

#[test]
fn reserved_flag_bits_warn() {
    let mut f = frame_one_strip(0);
    f[0] = 0x80;
    let rep = lint_frame(&f);
    assert!(has_rule(&rep, LintRule::FlagsReservedBitsSet));
    assert!(rep.is_conformant());
    assert_eq!(rep.warning_count(), 1);
}

#[test]
fn zero_strip_count_is_error() {
    let mut f = frame_one_strip(0);
    f[8..10].copy_from_slice(&0u16.to_be_bytes());
    let rep = lint_frame(&f);
    assert!(has_rule(&rep, LintRule::StripCountZero));
}

#[test]
fn non_multiple_of_4_dims_are_errors() {
    let mut f = frame_one_strip(0);
    f[4..6].copy_from_slice(&15u16.to_be_bytes());
    f[6..8].copy_from_slice(&9u16.to_be_bytes());
    let rep = lint_frame(&f);
    assert!(has_rule(&rep, LintRule::FrameWidthNotMultipleOf4));
    assert!(has_rule(&rep, LintRule::FrameHeightNotMultipleOf4));
}

#[test]
fn frame_length_overrun_is_reported_but_walk_continues() {
    let mut f = frame_one_strip(4);
    let declared = f.len() + 100;
    f[1] = ((declared >> 16) & 0xff) as u8;
    f[2] = ((declared >> 8) & 0xff) as u8;
    f[3] = (declared & 0xff) as u8;
    let rep = lint_frame(&f);
    assert!(has_rule(&rep, LintRule::FrameLengthOverrun));
    assert_eq!(rep.strips_walked(), 1);
}

#[test]
fn frame_length_under_header_stops_walk() {
    let mut f = frame_one_strip(0);
    f[1] = 0;
    f[2] = 0;
    f[3] = 4;
    let rep = lint_frame(&f);
    assert!(has_rule(&rep, LintRule::FrameLengthUnderHeader));
    assert_eq!(rep.strips_walked(), 0);
}

#[test]
fn frame_length_accounting_mismatch_is_error() {
    let mut f = frame_one_strip(0);
    f.extend_from_slice(&[0, 0]);
    let declared = f.len();
    f[1] = ((declared >> 16) & 0xff) as u8;
    f[2] = ((declared >> 8) & 0xff) as u8;
    f[3] = (declared & 0xff) as u8;
    let rep = lint_frame(&f);
    assert!(has_rule(&rep, LintRule::FrameLengthAccounting));
}

#[test]
fn unknown_strip_id_is_error_and_walk_continues() {
    let mut f = frame_one_strip(0);
    f[10..12].copy_from_slice(&0x1200u16.to_be_bytes());
    let rep = lint_frame(&f);
    assert!(has_rule(&rep, LintRule::UnknownStripId));
    assert_eq!(rep.strips_walked(), 1);
}

#[test]
fn strip_size_under_header_is_error() {
    let mut f = frame_one_strip(0);
    f[12..14].copy_from_slice(&4u16.to_be_bytes());
    let rep = lint_frame(&f);
    assert!(has_rule(&rep, LintRule::StripSizeUnderHeader));
}

#[test]
fn strip_overrun_is_error() {
    let mut f = frame_one_strip(0);
    f[12..14].copy_from_slice(&200u16.to_be_bytes());
    let rep = lint_frame(&f);
    assert!(has_rule(&rep, LintRule::StripOverrunsFrame));
}

#[test]
fn strip_header_truncation_is_error() {
    let mut f = frame_one_strip(0);
    f[8..10].copy_from_slice(&2u16.to_be_bytes());
    let rep = lint_frame(&f);
    assert!(has_rule(&rep, LintRule::StripHeaderTruncated));
    assert_eq!(rep.strips_walked(), 1);
}

#[test]
fn sentinel_rule_multi_strip_geometry_is_clean() {
    let strip_size = (STRIP_HEADER_SIZE as u16).to_be_bytes();
    let mut f = Vec::new();
    let frame_length = FRAME_HEADER_SIZE + 2 * STRIP_HEADER_SIZE;
    f.push(0x00);
    f.extend_from_slice(&[0, 0, frame_length as u8]);
    f.extend_from_slice(&16u16.to_be_bytes());
    f.extend_from_slice(&16u16.to_be_bytes());
    f.extend_from_slice(&2u16.to_be_bytes());
    for _ in 0..2 {
        f.extend_from_slice(&0x1000u16.to_be_bytes());
        f.extend_from_slice(&strip_size);
        f.extend_from_slice(&0u16.to_be_bytes());
        f.extend_from_slice(&0u16.to_be_bytes());
        f.extend_from_slice(&8u16.to_be_bytes());
        f.extend_from_slice(&16u16.to_be_bytes());
    }
    let rep = lint_frame(&f);
    assert!(
        !rep.issues()
            .iter()
            .any(|i| i.rule == LintRule::StripCoverageIrregular
                || i.rule == LintRule::StripOutsideFrame),
        "geometry issues: {:?}",
        rep.issues()
    );
    assert_eq!(rep.strips_walked(), 2);
}

#[test]
fn coverage_gap_warns() {
    let mut f = frame_one_strip(0);
    f[6..8].copy_from_slice(&16u16.to_be_bytes());
    let rep = lint_frame(&f);
    assert!(has_rule(&rep, LintRule::StripCoverageIrregular));
    assert!(rep.is_conformant());
}

#[test]
fn strip_outside_frame_is_error() {
    let mut f = frame_one_strip(0);
    f[18..20].copy_from_slice(&12u16.to_be_bytes());
    let rep = lint_frame(&f);
    assert!(has_rule(&rep, LintRule::StripOutsideFrame));
}

#[test]
fn partial_width_strip_warns() {
    let mut f = frame_one_strip(0);
    f[20..22].copy_from_slice(&10u16.to_be_bytes());
    let rep = lint_frame(&f);
    assert!(has_rule(&rep, LintRule::StripNotFullWidth));
    assert!(has_rule(&rep, LintRule::StripWidthNotMultipleOf4));
}

#[test]
fn empty_rect_is_error() {
    let mut f = frame_one_strip(0);
    f[14..16].copy_from_slice(&8u16.to_be_bytes());
    f[18..20].copy_from_slice(&8u16.to_be_bytes());
    let rep = lint_frame(&f);
    assert!(has_rule(&rep, LintRule::StripEmptyRect));
}

#[test]
fn mixed_strip_kinds_warn() {
    let strip_size = (STRIP_HEADER_SIZE as u16).to_be_bytes();
    let mut f = Vec::new();
    let frame_length = FRAME_HEADER_SIZE + 2 * STRIP_HEADER_SIZE;
    f.push(0x00);
    f.extend_from_slice(&[0, 0, frame_length as u8]);
    f.extend_from_slice(&16u16.to_be_bytes());
    f.extend_from_slice(&16u16.to_be_bytes());
    f.extend_from_slice(&2u16.to_be_bytes());
    for id in [0x1000u16, 0x1100] {
        f.extend_from_slice(&id.to_be_bytes());
        f.extend_from_slice(&strip_size);
        f.extend_from_slice(&0u16.to_be_bytes());
        f.extend_from_slice(&0u16.to_be_bytes());
        f.extend_from_slice(&8u16.to_be_bytes());
        f.extend_from_slice(&16u16.to_be_bytes());
    }
    let rep = lint_frame(&f);
    assert!(has_rule(&rep, LintRule::MixedStripKinds));
}

#[test]
fn inheritance_flag_on_intra_frame_warns() {
    let mut f = frame_one_strip(0);
    f[0] = 0x01;
    let rep = lint_frame(&f);
    assert!(has_rule(&rep, LintRule::FlagsInheritanceOnIntraFrame));
    assert!(rep.is_conformant());
}

#[test]
fn issue_display_carries_rule_location_and_spec_ref() {
    let mut f = frame_one_strip(0);
    f[10..12].copy_from_slice(&0x1200u16.to_be_bytes());
    let rep = lint_frame(&f);
    let issue = rep
        .issues()
        .iter()
        .find(|i| i.rule == LintRule::UnknownStripId)
        .unwrap();
    let s = issue.to_string();
    assert!(s.contains("error"), "{s}");
    assert!(s.contains("strip 0"), "{s}");
    assert!(s.contains("01-frame-and-strip.md"), "{s}");
}

fn chunk(id: u16, body: &[u8]) -> Vec<u8> {
    let mut v = Vec::with_capacity(4 + body.len());
    v.extend_from_slice(&id.to_be_bytes());
    v.extend_from_slice(&((4 + body.len()) as u16).to_be_bytes());
    v.extend_from_slice(body);
    v
}

fn wrap_frame(width: u16, height: u16, strips: &[(u16, u16, u16, Vec<u8>)]) -> Vec<u8> {
    let strips_len: usize = strips
        .iter()
        .map(|(_, _, _, p)| STRIP_HEADER_SIZE + p.len())
        .sum();
    let frame_length = FRAME_HEADER_SIZE + strips_len;
    let mut v = Vec::with_capacity(frame_length);
    v.push(0x00);
    v.extend_from_slice(&[
        ((frame_length >> 16) & 0xff) as u8,
        ((frame_length >> 8) & 0xff) as u8,
        (frame_length & 0xff) as u8,
    ]);
    v.extend_from_slice(&width.to_be_bytes());
    v.extend_from_slice(&height.to_be_bytes());
    v.extend_from_slice(&(strips.len() as u16).to_be_bytes());
    for (id, y_top, y_bottom, payload) in strips {
        v.extend_from_slice(&id.to_be_bytes());
        v.extend_from_slice(&((STRIP_HEADER_SIZE + payload.len()) as u16).to_be_bytes());
        v.extend_from_slice(&y_top.to_be_bytes());
        v.extend_from_slice(&0u16.to_be_bytes());
        v.extend_from_slice(&y_bottom.to_be_bytes());
        v.extend_from_slice(&width.to_be_bytes());
        v.extend_from_slice(payload);
    }
    v
}

fn conformant_intra_stream() -> Vec<u8> {
    let mut p = Vec::new();
    p.extend_from_slice(&chunk(0x2000, &[10, 20, 30, 40, 0, 0]));
    p.extend_from_slice(&chunk(0x2200, &[10, 20, 30, 40, 0, 0]));
    p.extend_from_slice(&chunk(0x3200, &[0u8; 8]));
    p
}

#[test]
fn handcrafted_conformant_intra_frame_is_clean() {
    let f = wrap_frame(16, 8, &[(0x1000, 0, 8, conformant_intra_stream())]);
    let rep = lint_frame(&f);
    assert!(rep.is_clean(), "unexpected issues: {:?}", rep.issues());
}

#[test]
fn selective_update_on_intra_strip_is_error() {
    let mut p = Vec::new();
    p.extend_from_slice(&chunk(0x2000, &[10, 20, 30, 40, 0, 0]));
    let mut body = 0x8000_0000u32.to_be_bytes().to_vec();
    body.extend_from_slice(&[1, 2, 3, 4, 0, 0]);
    p.extend_from_slice(&chunk(0x2300, &body));
    p.extend_from_slice(&chunk(0x3200, &[0u8; 8]));
    let f = wrap_frame(16, 8, &[(0x1000, 0, 8, p.clone())]);
    let rep = lint_frame(&f);
    assert!(has_rule(&rep, LintRule::SelectiveUpdateOnIntraStrip));
    let f = wrap_frame(16, 8, &[(0x1100, 0, 8, p)]);
    let rep = lint_frame(&f);
    assert!(!has_rule(&rep, LintRule::SelectiveUpdateOnIntraStrip));
}

#[test]
fn header_only_codebook_on_intra_strip_warns() {
    let mut p = Vec::new();
    p.extend_from_slice(&chunk(0x2000, &[]));
    p.extend_from_slice(&chunk(0x2200, &[10, 20, 30, 40, 0, 0]));
    p.extend_from_slice(&chunk(0x3200, &[0u8; 8]));
    let f = wrap_frame(16, 8, &[(0x1000, 0, 8, p.clone())]);
    let rep = lint_frame(&f);
    assert!(has_rule(&rep, LintRule::HeaderOnlyCodebookOnIntraStrip));
    assert!(rep.is_conformant());
    let f = wrap_frame(16, 8, &[(0x1100, 0, 8, p)]);
    let rep = lint_frame(&f);
    assert!(!has_rule(&rep, LintRule::HeaderOnlyCodebookOnIntraStrip));
}

#[test]
fn misaligned_codebook_payload_is_error() {
    let mut p = Vec::new();
    p.extend_from_slice(&chunk(0x2000, &[1, 2, 3, 4, 5]));
    p.extend_from_slice(&chunk(0x3200, &[0u8; 8]));
    let f = wrap_frame(16, 8, &[(0x1000, 0, 8, p)]);
    let rep = lint_frame(&f);
    assert!(has_rule(&rep, LintRule::CodebookPayloadMisaligned));
}

#[test]
fn oversized_codebook_is_error() {
    let mut p = Vec::new();
    p.extend_from_slice(&chunk(0x2000, &vec![0u8; 257 * 6]));
    p.extend_from_slice(&chunk(0x3200, &[0u8; 8]));
    let f = wrap_frame(16, 8, &[(0x1000, 0, 8, p)]);
    let rep = lint_frame(&f);
    assert!(has_rule(&rep, LintRule::CodebookTooManyEntries));
}

#[test]
fn unknown_chunk_id_is_error_and_walk_continues() {
    let mut p = Vec::new();
    p.extend_from_slice(&chunk(0x3300, &[0u8; 2]));
    p.extend_from_slice(&chunk(0x2001, &[0u8; 6]));
    p.extend_from_slice(&conformant_intra_stream());
    let f = wrap_frame(16, 8, &[(0x1000, 0, 8, p)]);
    let rep = lint_frame(&f);
    let unknown = rep
        .issues()
        .iter()
        .filter(|i| i.rule == LintRule::UnknownChunkId)
        .count();
    assert_eq!(unknown, 2, "issues: {:?}", rep.issues());
}

#[test]
fn chunk_overrun_and_undersize_are_errors() {
    let mut over = chunk(0x2000, &[0u8; 6]);
    over[3] = 60;
    let f = wrap_frame(16, 8, &[(0x1000, 0, 8, over)]);
    assert!(has_rule(&lint_frame(&f), LintRule::ChunkOverrunsStrip));

    let mut under = chunk(0x2000, &[]);
    under[3] = 2;
    let f = wrap_frame(16, 8, &[(0x1000, 0, 8, under)]);
    assert!(has_rule(&lint_frame(&f), LintRule::ChunkSizeUnderHeader));
}

#[test]
fn unclaimed_strip_bytes_are_reported() {
    let mut p = conformant_intra_stream();
    p.extend_from_slice(&[0xaa, 0xbb]);
    let f = wrap_frame(16, 8, &[(0x1000, 0, 8, p)]);
    assert!(has_rule(&lint_frame(&f), LintRule::ChunkHeaderTruncated));
}

#[test]
fn v1_before_v4_order_warns() {
    let mut p = Vec::new();
    p.extend_from_slice(&chunk(0x2200, &[10, 20, 30, 40, 0, 0]));
    p.extend_from_slice(&chunk(0x2000, &[10, 20, 30, 40, 0, 0]));
    p.extend_from_slice(&chunk(0x3200, &[0u8; 8]));
    let f = wrap_frame(16, 8, &[(0x1000, 0, 8, p)]);
    let rep = lint_frame(&f);
    assert!(has_rule(&rep, LintRule::CodebookOrderNotV4ThenV1));
    assert!(rep.is_conformant());
}

#[test]
fn duplicate_flavour_codebook_chunk_warns() {
    let mut p = Vec::new();
    p.extend_from_slice(&chunk(0x2000, &[10, 20, 30, 40, 0, 0]));
    p.extend_from_slice(&chunk(0x2000, &[11, 21, 31, 41, 0, 0]));
    p.extend_from_slice(&chunk(0x2200, &[10, 20, 30, 40, 0, 0]));
    p.extend_from_slice(&chunk(0x3200, &[0u8; 8]));
    let f = wrap_frame(16, 8, &[(0x1000, 0, 8, p)]);
    assert!(has_rule(&lint_frame(&f), LintRule::DuplicateCodebookChunk));
}

#[test]
fn chunk_after_vector_chunk_is_error() {
    let mut p = conformant_intra_stream();
    p.extend_from_slice(&chunk(0x2200, &[10, 20, 30, 40, 0, 0]));
    let f = wrap_frame(16, 8, &[(0x1000, 0, 8, p)]);
    assert!(has_rule(&lint_frame(&f), LintRule::ChunkAfterVectorChunk));
}

#[test]
fn mixed_pixel_modes_across_strips_is_error_reported_once() {
    let mut yuv = Vec::new();
    yuv.extend_from_slice(&chunk(0x2000, &[10, 20, 30, 40, 0, 0]));
    yuv.extend_from_slice(&chunk(0x2200, &[10, 20, 30, 40, 0, 0]));
    yuv.extend_from_slice(&chunk(0x3200, &[0u8; 4]));
    let mut gray = Vec::new();
    gray.extend_from_slice(&chunk(0x2400, &[10, 20, 30, 40]));
    gray.extend_from_slice(&chunk(0x2600, &[10, 20, 30, 40]));
    gray.extend_from_slice(&chunk(0x3200, &[0u8; 4]));
    let f = wrap_frame(16, 8, &[(0x1000, 0, 4, yuv), (0x1000, 0, 4, gray)]);
    let rep = lint_frame(&f);
    let mixed = rep
        .issues()
        .iter()
        .filter(|i| i.rule == LintRule::MixedPixelModes)
        .count();
    assert_eq!(mixed, 1, "issues: {:?}", rep.issues());
    assert_eq!(
        rep.issues()
            .iter()
            .find(|i| i.rule == LintRule::MixedPixelModes)
            .unwrap()
            .strip,
        Some(1)
    );
}

#[test]
fn malformed_selective_update_payload_is_error() {
    let mut p = Vec::new();
    p.extend_from_slice(&chunk(0x2100, &[0x80, 0x00]));
    p.extend_from_slice(&chunk(0x3100, &0u32.to_be_bytes()));
    let f = wrap_frame(16, 4, &[(0x1100, 0, 4, p)]);
    let rep = lint_frame(&f);
    assert!(has_rule(&rep, LintRule::SelectiveUpdatePayloadMalformed));
    assert!(!has_rule(&rep, LintRule::SelectiveUpdateOnIntraStrip));
}

#[test]
fn stateful_encoder_intra_and_inter_frames_are_clean() {
    let (w, h) = (32u32, 16u32);
    let mut enc = CinepakEncoder::new();
    let opts = EncoderOptions::default();
    let f0: Vec<u8> = (0..(w * h * 3)).map(|i| (i % 199) as u8).collect();
    let mut f1 = f0.clone();
    for px in f1.iter_mut().take(48) {
        *px = px.wrapping_add(90);
    }
    let intra = enc.encode_intra(&f0, w, h, opts).unwrap();
    let inter = enc.encode_inter(&f1, w, h, opts).unwrap();
    for (label, bytes) in [("intra", &intra), ("inter", &inter)] {
        let rep = lint_frame(bytes);
        assert!(rep.is_clean(), "{label} frame issues: {:?}", rep.issues());
    }
}

#[test]
fn gray_encoder_output_is_clean() {
    let (w, h) = (16u32, 16u32);
    let gray: Vec<u8> = (0..(w * h)).map(|i| (i * 7 % 256) as u8).collect();
    let bytes = encode_gray8(&gray, w, h, EncoderOptions::default()).unwrap();
    let rep = lint_frame(&bytes);
    assert!(rep.is_clean(), "issues: {:?}", rep.issues());
}

#[test]
fn arbitrary_bytes_never_panic() {
    let mut cases: Vec<Vec<u8>> = vec![
        vec![],
        vec![0xff; 9],
        vec![0xff; 10],
        vec![0x00; 64],
        vec![0xff; 64],
    ];
    let mut f = frame_one_strip(3);
    f[9] = 0xff;
    cases.push(f);
    for c in cases {
        let _ = lint_frame(&c);
    }
}
