//! Reading FILM files.

use cinepak::demux::FilmDemuxer;
use cinepak::film::{
    CinepakVariant, FILM_HEADER_MIN_SIZE, FilmAudioFormat, PcmEndianness, PcmSignConvention, probe_film,
};
use cinepak::stab::{
    SAMPLE_RECORD_SIZE, STAB_HEADER_SIZE, SampleKind, SampleRecord, Samples, StabHeader,
};

fn build_minimal_film() -> Vec<u8> {
    let mut out = Vec::new();
    out.extend_from_slice(b"FILM");
    out.extend_from_slice(&80u32.to_be_bytes());
    out.extend_from_slice(b"1.09");
    out.extend_from_slice(&0u32.to_be_bytes());
    out.extend_from_slice(b"FDSC");
    out.extend_from_slice(&0x20u32.to_be_bytes());
    out.extend_from_slice(b"cvid");
    out.extend_from_slice(&120u32.to_be_bytes());
    out.extend_from_slice(&160u32.to_be_bytes());
    out.push(24);
    out.push(0);
    out.push(0);
    out.push(0);
    out.extend_from_slice(&0u16.to_be_bytes());
    out.extend_from_slice(&[0u8; 6]);
    out.extend_from_slice(b"STAB");
    out.extend_from_slice(&32u32.to_be_bytes());
    out.extend_from_slice(&10u32.to_be_bytes());
    out.extend_from_slice(&1u32.to_be_bytes());
    out.extend_from_slice(&0u32.to_be_bytes());
    out.extend_from_slice(&500u32.to_be_bytes());
    out.extend_from_slice(&0u32.to_be_bytes());
    out.extend_from_slice(&1u32.to_be_bytes());
    out
}

#[test]
fn probe_recognises_signature() {
    assert!(probe_film(b"FILM\x00\x00\x00\x10"));
    assert!(!probe_film(b"RIFF"));
    assert!(!probe_film(b"FIL"));
}

#[test]
fn parses_minimal_header() {
    let bytes = build_minimal_film();
    let dem = FilmDemuxer::parse(&bytes).unwrap();
    assert_eq!(dem.film_header.header_length, 80);
    assert_eq!(&dem.film_header.version, b"1.09");
    assert!(dem.fdsc.is_standard_cinepak());
    assert_eq!(dem.fdsc.height, 120);
    assert_eq!(dem.fdsc.width, 160);
    assert_eq!(dem.fdsc.bits_per_pixel, 24);
    assert_eq!(dem.stab_header.num_entries, 1);
    assert_eq!(dem.samples.len(), 1);
    let s = &dem.samples[0];
    assert_eq!(s.sample_offset, 0);
    assert_eq!(s.sample_length, 500);
    assert!(!s.is_audio());
    assert!(s.is_keyframe());
    assert_eq!(s.timestamp_ticks(), Some(0));
    assert_eq!(dem.sample_file_offset(0), Some(80));
}

#[test]
fn keyframe_and_timestamp_classification() {
    let s0 = SampleRecord {
        sample_offset: 0,
        sample_length: 5177,
        sample_info_1: 0x00000000,
        sample_info_2: 1,
    };
    assert!(s0.is_keyframe());
    assert_eq!(s0.timestamp_ticks(), Some(0));
    let s1 = SampleRecord {
        sample_offset: 0x1439,
        sample_length: 2590,
        sample_info_1: 0x80000001,
        sample_info_2: 1,
    };
    assert!(!s1.is_keyframe());
    assert_eq!(s1.timestamp_ticks(), Some(1));
    let sa = SampleRecord {
        sample_offset: 0,
        sample_length: 0,
        sample_info_1: 0xFFFF_FFFF,
        sample_info_2: 1,
    };
    assert!(sa.is_audio());
    assert_eq!(sa.timestamp_ticks(), None);
    assert!(!sa.is_keyframe());
}

#[test]
fn rejects_wrong_signature() {
    let mut bytes = build_minimal_film();
    bytes[0] = b'X';
    assert!(FilmDemuxer::parse(&bytes).is_err());
}

#[test]
fn rejects_truncated() {
    let bytes = build_minimal_film();
    assert!(FilmDemuxer::parse(&bytes[..10]).is_err());
    assert!(FilmDemuxer::parse(&bytes[..16]).is_err());
}

#[test]
fn rejects_non_cvid_codec() {
    let mut bytes = build_minimal_film();
    bytes[16 + 8..16 + 12].copy_from_slice(b"sega");
    let dem = FilmDemuxer::parse(&bytes).unwrap();
    assert!(!dem.fdsc.is_standard_cinepak());
}

#[test]
fn parses_abbreviated_fdsc() {
    let mut out = Vec::new();
    out.extend_from_slice(b"FILM");
    out.extend_from_slice(&((16 + 0x14 + 16) as u32).to_be_bytes());
    out.extend_from_slice(b"\x00\x02\x00\x00");
    out.extend_from_slice(&0u32.to_be_bytes());
    out.extend_from_slice(b"FDSC");
    out.extend_from_slice(&0x14u32.to_be_bytes());
    out.extend_from_slice(b"cvid");
    out.extend_from_slice(&80u32.to_be_bytes());
    out.extend_from_slice(&80u32.to_be_bytes());
    out.extend_from_slice(b"STAB");
    out.extend_from_slice(&16u32.to_be_bytes());
    out.extend_from_slice(&30u32.to_be_bytes());
    out.extend_from_slice(&0u32.to_be_bytes());

    let dem = FilmDemuxer::parse(&out).unwrap();
    assert_eq!(dem.fdsc.width, 80);
    assert_eq!(dem.fdsc.height, 80);
    assert_eq!(dem.fdsc.bits_per_pixel, 0);
    assert_eq!(dem.stab_header.num_entries, 0);
    assert_eq!(dem.samples.len(), 0);
}

#[test]
fn video_samples_skips_audio() {
    let mut out = build_minimal_film();
    let num_off = 16 + 32 + 12;
    out[num_off..num_off + 4].copy_from_slice(&2u32.to_be_bytes());
    out.extend_from_slice(&500u32.to_be_bytes());
    out.extend_from_slice(&100u32.to_be_bytes());
    out.extend_from_slice(&0xFFFF_FFFFu32.to_be_bytes());
    out.extend_from_slice(&1u32.to_be_bytes());
    out[4..8].copy_from_slice(&96u32.to_be_bytes());
    let stab_len_off = 16 + 32 + 4;
    out[stab_len_off..stab_len_off + 4].copy_from_slice(&((16 + 32) as u32).to_be_bytes());
    let dem = FilmDemuxer::parse(&out).unwrap();
    let video: Vec<_> = dem.video_samples();
    assert_eq!(video.len(), 1);
    assert_eq!(video[0].0, 0);
}

fn build_film_with_records(records: &[[u32; 4]]) -> Vec<u8> {
    let mut out = Vec::new();
    let header_length: u32 = 16 + 32 + 16 + 16 * records.len() as u32;
    out.extend_from_slice(b"FILM");
    out.extend_from_slice(&header_length.to_be_bytes());
    out.extend_from_slice(b"1.09");
    out.extend_from_slice(&0u32.to_be_bytes());
    out.extend_from_slice(b"FDSC");
    out.extend_from_slice(&0x20u32.to_be_bytes());
    out.extend_from_slice(b"cvid");
    out.extend_from_slice(&64u32.to_be_bytes());
    out.extend_from_slice(&64u32.to_be_bytes());
    out.extend_from_slice(&[24u8, 0, 0, 0]);
    out.extend_from_slice(&0u16.to_be_bytes());
    out.extend_from_slice(&[0u8; 6]);
    out.extend_from_slice(b"STAB");
    let stab_chunk_length: u32 = 16 + 16 * records.len() as u32;
    out.extend_from_slice(&stab_chunk_length.to_be_bytes());
    out.extend_from_slice(&600u32.to_be_bytes());
    out.extend_from_slice(&(records.len() as u32).to_be_bytes());
    for r in records {
        out.extend_from_slice(&r[0].to_be_bytes());
        out.extend_from_slice(&r[1].to_be_bytes());
        out.extend_from_slice(&r[2].to_be_bytes());
        out.extend_from_slice(&r[3].to_be_bytes());
    }
    out
}

#[test]
fn next_frame_ticks_is_video_only() {
    let video = SampleRecord {
        sample_offset: 0,
        sample_length: 5177,
        sample_info_1: 0x00000040,
        sample_info_2: 20,
    };
    assert_eq!(video.next_frame_ticks(), Some(20));
    let audio = SampleRecord {
        sample_offset: 0,
        sample_length: 1024,
        sample_info_1: 0xFFFF_FFFF,
        sample_info_2: 1,
    };
    assert_eq!(audio.next_frame_ticks(), None);
}

#[test]
fn audio_samples_iterates_only_audio() {
    let bytes = build_film_with_records(&[
        [0, 500, 0x00000000, 20],
        [500, 100, 0xFFFF_FFFF, 1],
        [600, 300, 0x80000014, 20],
        [900, 100, 0xFFFF_FFFF, 1],
    ]);
    let dem = FilmDemuxer::parse(&bytes).unwrap();
    let audio: Vec<_> = dem.audio_samples();
    assert_eq!(audio.len(), 2);
    assert_eq!(audio[0].0, 1);
    assert_eq!(audio[1].0, 3);
}

#[test]
fn keyframes_iterates_only_video_keyframes() {
    let bytes = build_film_with_records(&[
        [0, 100, 0x00000000, 20],
        [100, 100, 0x80000014, 20],
        [200, 100, 0x00000028, 20],
        [300, 100, 0x8000003c, 20],
    ]);
    let dem = FilmDemuxer::parse(&bytes).unwrap();
    let kfs: Vec<_> = dem.keyframes();
    assert_eq!(kfs.len(), 2);
    assert_eq!(kfs[0].0, 0);
    assert_eq!(kfs[0].1.timestamp_ticks(), Some(0));
    assert_eq!(kfs[1].0, 2);
    assert_eq!(kfs[1].1.timestamp_ticks(), Some(40));
}

#[test]
fn keyframes_excludes_audio_with_top_bit_set() {
    let bytes = build_film_with_records(&[
        [0, 100, 0x00000000, 20],
        [100, 100, 0xFFFF_FFFF, 1],
    ]);
    let dem = FilmDemuxer::parse(&bytes).unwrap();
    let kfs: Vec<_> = dem.keyframes();
    assert_eq!(kfs.len(), 1);
    assert_eq!(kfs[0].0, 0);
}

#[test]
fn seek_keyframe_for_tick_snaps_to_latest_at_or_below() {
    let bytes = build_film_with_records(&[
        [0, 100, 0x00000000, 20],
        [100, 100, 0x80000014, 20],
        [200, 100, 0x00000028, 20],
        [300, 100, 0x8000003c, 20],
        [400, 100, 0x00000050, 20],
    ]);
    let dem = FilmDemuxer::parse(&bytes).unwrap();
    let (idx, s) = dem.seek_keyframe_for_tick(0).unwrap();
    assert_eq!(idx, 0);
    assert_eq!(s.timestamp_ticks(), Some(0));
    let (idx, _) = dem.seek_keyframe_for_tick(35).unwrap();
    assert_eq!(idx, 0);
    let (idx, _) = dem.seek_keyframe_for_tick(40).unwrap();
    assert_eq!(idx, 2);
    let (idx, _) = dem.seek_keyframe_for_tick(79).unwrap();
    assert_eq!(idx, 2);
    let (idx, _) = dem.seek_keyframe_for_tick(80).unwrap();
    assert_eq!(idx, 4);
    let (idx, _) = dem.seek_keyframe_for_tick(10_000).unwrap();
    assert_eq!(idx, 4);
}

#[test]
fn seek_keyframe_for_tick_returns_none_when_no_keyframes() {
    let bytes = build_film_with_records(&[
        [0, 100, 0x80000000, 20],
        [100, 100, 0x80000014, 20],
    ]);
    let dem = FilmDemuxer::parse(&bytes).unwrap();
    assert!(dem.seek_keyframe_for_tick(0).is_none());
    assert!(dem.seek_keyframe_for_tick(50).is_none());
}

#[test]
fn seek_keyframe_for_tick_handles_unsorted_table() {
    let bytes = build_film_with_records(&[
        [0, 100, 0x00000028, 20],
        [100, 100, 0x00000000, 20],
    ]);
    let dem = FilmDemuxer::parse(&bytes).unwrap();
    let (idx, _) = dem.seek_keyframe_for_tick(30).unwrap();
    assert_eq!(idx, 1);
    let (idx, _) = dem.seek_keyframe_for_tick(50).unwrap();
    assert_eq!(idx, 0);
}

#[test]
fn duration_ticks_uses_last_frame_plus_next_gap() {
    let bytes = build_film_with_records(&[
        [0, 100, 0x00000000, 20],
        [100, 100, 0x80000014, 20],
        [200, 100, 0x80000028, 20],
    ]);
    let dem = FilmDemuxer::parse(&bytes).unwrap();
    assert_eq!(dem.duration_ticks(), Some(60));
    let (ticks, base) = dem.duration_seconds().unwrap();
    assert!((f64::from(ticks) / f64::from(base) - 0.1).abs() < 1e-9);
}

#[test]
fn duration_ticks_handles_variable_frame_gap() {
    let bytes = build_film_with_records(&[
        [0, 100, 0x00000000, 2],
        [100, 100, 0x80000002, 3],
        [200, 100, 0x80000005, 2],
        [300, 100, 0x80000007, 3],
    ]);
    let dem = FilmDemuxer::parse(&bytes).unwrap();
    assert_eq!(dem.duration_ticks(), Some(10));
}

#[test]
fn duration_handles_no_video_or_zero_base() {
    let bytes =
        build_film_with_records(&[[0, 100, 0xFFFF_FFFF, 1], [100, 100, 0xFFFF_FFFF, 1]]);
    let dem = FilmDemuxer::parse(&bytes).unwrap();
    assert_eq!(dem.duration_ticks(), None);
    assert_eq!(dem.duration_seconds(), None);
}

#[test]
fn duration_seconds_returns_none_for_zero_base_frequency() {
    let mut bytes = build_film_with_records(&[
        [0, 100, 0x00000000, 20],
    ]);
    let base_off = 16 + 32 + 8;
    bytes[base_off..base_off + 4].copy_from_slice(&0u32.to_be_bytes());
    let dem = FilmDemuxer::parse(&bytes).unwrap();
    assert_eq!(dem.duration_ticks(), Some(20));
    assert_eq!(dem.duration_seconds(), None);
}

fn patch_minimal_audio_fields(
    bytes: &mut [u8],
    channels: u8,
    bits: u8,
    compression: u8,
    sample_rate: u16,
) {
    let fdsc_off = 16;
    bytes[fdsc_off + 21] = channels;
    bytes[fdsc_off + 22] = bits;
    bytes[fdsc_off + 23] = compression;
    bytes[fdsc_off + 24..fdsc_off + 26].copy_from_slice(&sample_rate.to_be_bytes());
}

fn patch_film_version(bytes: &mut [u8], version: &[u8; 4]) {
    bytes[8..12].copy_from_slice(version);
}

#[test]
fn has_audio_zero_fields() {
    let bytes = build_minimal_film();
    let dem = FilmDemuxer::parse(&bytes).unwrap();
    assert!(!dem.fdsc.has_audio());
    assert_eq!(dem.audio_format(), FilmAudioFormat::NoAudio);
    assert_eq!(dem.audio_format().byte_rate_bps(), None);
    assert_eq!(dem.audio_duration_seconds(), None);
    assert!(!dem.audio_format().is_linear_pcm());
}

#[test]
fn has_audio_any_field_set() {
    for (chan, bits, comp, rate) in [
        (1, 0, 0, 0u16),
        (0, 8, 0, 0),
        (0, 0, 2, 0),
        (0, 0, 0, 22050),
    ] {
        let mut bytes = build_minimal_film();
        patch_minimal_audio_fields(&mut bytes, chan, bits, comp, rate);
        let dem = FilmDemuxer::parse(&bytes).unwrap();
        assert!(
            dem.fdsc.has_audio(),
            "expected has_audio() for chan={chan} bits={bits} comp={comp} rate={rate}"
        );
    }
}

#[test]
fn audio_format_saturn_stereo_16bit_pcm() {
    let mut bytes = build_minimal_film();
    patch_film_version(&mut bytes, b"1.07");
    patch_minimal_audio_fields(&mut bytes, 2, 16, 0, 44100);
    let dem = FilmDemuxer::parse(&bytes).unwrap();
    assert_eq!(
        dem.audio_format(),
        FilmAudioFormat::LinearPcm {
            channels: 2,
            bits_per_sample: 16,
            sample_rate_hz: 44100,
            endianness: PcmEndianness::BigEndian,
            sign_convention: PcmSignConvention::TwosComplement,
        }
    );
    assert_eq!(dem.audio_format().byte_rate_bps(), Some(176_400));
    assert!(dem.audio_format().is_linear_pcm());
}

#[test]
fn audio_format_saturn_8bit_pcm_endianness_not_applicable() {
    let mut bytes = build_minimal_film();
    patch_film_version(&mut bytes, b"1.09");
    patch_minimal_audio_fields(&mut bytes, 1, 8, 0, 22050);
    let dem = FilmDemuxer::parse(&bytes).unwrap();
    let fmt = dem.audio_format();
    match fmt {
        FilmAudioFormat::LinearPcm {
            endianness,
            sign_convention,
            ..
        } => {
            assert_eq!(endianness, PcmEndianness::NotApplicable);
            assert_eq!(sign_convention, PcmSignConvention::TwosComplement);
        }
        _ => panic!("expected LinearPcm, got {fmt:?}"),
    }
    assert_eq!(fmt.byte_rate_bps(), Some(22050));
}

#[test]
fn audio_format_sega_cd_sign_magnitude_inferred_from_null_version() {
    let mut bytes = build_minimal_film();
    patch_film_version(&mut bytes, b"\x00\x00\x00\x00");
    patch_minimal_audio_fields(&mut bytes, 1, 8, 0, 16000);
    let dem = FilmDemuxer::parse(&bytes).unwrap();
    match dem.audio_format() {
        FilmAudioFormat::LinearPcm {
            sign_convention, ..
        } => assert_eq!(sign_convention, PcmSignConvention::SignMagnitude),
        other => panic!("expected sign/magnitude LinearPcm, got {other:?}"),
    }
}

#[test]
fn audio_format_cri_adx_adpcm_branch() {
    let mut bytes = build_minimal_film();
    patch_minimal_audio_fields(&mut bytes, 2, 0, 2, 22050);
    let dem = FilmDemuxer::parse(&bytes).unwrap();
    assert_eq!(
        dem.audio_format(),
        FilmAudioFormat::CriAdxAdpcm {
            channels: 2,
            sample_rate_hz: 22050,
        }
    );
    assert_eq!(dem.audio_format().byte_rate_bps(), None);
    assert!(!dem.audio_format().is_linear_pcm());
    assert_eq!(dem.audio_duration_seconds(), None);
}

#[test]
fn audio_format_unknown_compression_preserves_fields() {
    let mut bytes = build_minimal_film();
    patch_minimal_audio_fields(&mut bytes, 1, 8, 7, 11025);
    let dem = FilmDemuxer::parse(&bytes).unwrap();
    assert_eq!(
        dem.audio_format(),
        FilmAudioFormat::Unknown {
            channels: 1,
            bits_per_sample: 8,
            sample_rate_hz: 11025,
            compression: 7,
        }
    );
    assert_eq!(dem.audio_format().byte_rate_bps(), None);
}

#[test]
fn byte_rate_returns_none_on_zero_or_non_multiple_of_8_bits() {
    let fmt = FilmAudioFormat::LinearPcm {
        channels: 2,
        bits_per_sample: 12,
        sample_rate_hz: 44100,
        endianness: PcmEndianness::BigEndian,
        sign_convention: PcmSignConvention::TwosComplement,
    };
    assert_eq!(fmt.byte_rate_bps(), None);
    let fmt = FilmAudioFormat::LinearPcm {
        channels: 0,
        bits_per_sample: 16,
        sample_rate_hz: 44100,
        endianness: PcmEndianness::BigEndian,
        sign_convention: PcmSignConvention::TwosComplement,
    };
    assert_eq!(fmt.byte_rate_bps(), None);
    let fmt = FilmAudioFormat::LinearPcm {
        channels: 2,
        bits_per_sample: 16,
        sample_rate_hz: 0,
        endianness: PcmEndianness::BigEndian,
        sign_convention: PcmSignConvention::TwosComplement,
    };
    assert_eq!(fmt.byte_rate_bps(), None);
}

#[test]
fn audio_duration_seconds_sums_audio_sample_lengths() {
    let mut bytes =
        build_film_with_records(&[[0, 4096, 0xFFFF_FFFF, 1], [4096, 8192, 0xFFFF_FFFF, 1]]);
    patch_film_version(&mut bytes, b"1.09");
    patch_minimal_audio_fields(&mut bytes, 1, 8, 0, 22050);
    let dem = FilmDemuxer::parse(&bytes).unwrap();
    let (bytes, rate) = dem.audio_duration_seconds().unwrap();
    let dur = bytes as f64 / rate as f64;
    let expected = 12288.0 / 22050.0;
    assert!(
        (dur - expected).abs() < 1e-9,
        "audio duration {dur} ≠ expected {expected}"
    );
}

#[test]
fn audio_duration_seconds_returns_none_when_no_audio_records() {
    let mut bytes = build_film_with_records(&[[0, 500, 0x00000000, 1]]);
    patch_film_version(&mut bytes, b"1.07");
    patch_minimal_audio_fields(&mut bytes, 1, 8, 0, 22050);
    let dem = FilmDemuxer::parse(&bytes).unwrap();
    assert_eq!(dem.audio_duration_seconds(), None);
}

#[test]
fn well_formed_audio_requires_sample_info_2_eq_one() {
    let ok = SampleRecord {
        sample_offset: 0,
        sample_length: 1024,
        sample_info_1: 0xFFFF_FFFF,
        sample_info_2: 1,
    };
    let bad = SampleRecord {
        sample_offset: 0,
        sample_length: 1024,
        sample_info_1: 0xFFFF_FFFF,
        sample_info_2: 7,
    };
    let video = SampleRecord {
        sample_offset: 0,
        sample_length: 1024,
        sample_info_1: 0x00000000,
        sample_info_2: 20,
    };
    assert!(ok.is_well_formed_audio());
    assert!(!bad.is_well_formed_audio());
    assert!(!video.is_well_formed_audio());
}

#[test]
fn first_malformed_audio_sample_pinpoints_offender() {
    let bytes = build_film_with_records(&[
        [0, 1024, 0xFFFF_FFFF, 1],
        [1024, 1024, 0xFFFF_FFFF, 2],
        [2048, 1024, 0xFFFF_FFFF, 1],
    ]);
    let dem = FilmDemuxer::parse(&bytes).unwrap();
    assert_eq!(dem.first_malformed_audio_sample(), Some(1));

    let bytes =
        build_film_with_records(&[[0, 1024, 0xFFFF_FFFF, 1], [1024, 1024, 0xFFFF_FFFF, 1]]);
    let dem = FilmDemuxer::parse(&bytes).unwrap();
    assert_eq!(dem.first_malformed_audio_sample(), None);

    let bytes = build_film_with_records(&[[0, 500, 0x00000000, 20]]);
    let dem = FilmDemuxer::parse(&bytes).unwrap();
    assert_eq!(dem.first_malformed_audio_sample(), None);
}

#[test]
fn audio_format_unaffected_by_strip_count_or_video_fields() {
    let mut a = build_minimal_film();
    patch_film_version(&mut a, b"1.07");
    patch_minimal_audio_fields(&mut a, 2, 16, 0, 44100);
    let mut b = a.clone();
    b[16 + 8..16 + 12].copy_from_slice(b"cvid");
    b[16 + 20] = 16;
    let dem_a = FilmDemuxer::parse(&a).unwrap();
    let dem_b = FilmDemuxer::parse(&b).unwrap();
    assert_eq!(dem_a.audio_format(), dem_b.audio_format());
}

#[test]
fn abbreviated_fdsc_reports_no_audio() {
    let mut out = Vec::new();
    out.extend_from_slice(b"FILM");
    out.extend_from_slice(&((16 + 0x14 + 16) as u32).to_be_bytes());
    out.extend_from_slice(b"\x00\x02\x00\x00");
    out.extend_from_slice(&0u32.to_be_bytes());
    out.extend_from_slice(b"FDSC");
    out.extend_from_slice(&0x14u32.to_be_bytes());
    out.extend_from_slice(b"cvid");
    out.extend_from_slice(&80u32.to_be_bytes());
    out.extend_from_slice(&80u32.to_be_bytes());
    out.extend_from_slice(b"STAB");
    out.extend_from_slice(&16u32.to_be_bytes());
    out.extend_from_slice(&30u32.to_be_bytes());
    out.extend_from_slice(&0u32.to_be_bytes());
    let dem = FilmDemuxer::parse(&out).unwrap();
    assert!(!dem.fdsc.has_audio());
    assert_eq!(dem.audio_format(), FilmAudioFormat::NoAudio);
}

fn enc_record(off: u32, len: u32, si1: u32, si2: u32) -> [u8; 16] {
    let mut r = [0u8; 16];
    r[0..4].copy_from_slice(&off.to_be_bytes());
    r[4..8].copy_from_slice(&len.to_be_bytes());
    r[8..12].copy_from_slice(&si1.to_be_bytes());
    r[12..16].copy_from_slice(&si2.to_be_bytes());
    r
}

#[test]
fn samples_empty_records_yields_none() {
    let mut it = Samples::new(&[]).unwrap();
    assert_eq!(it.remaining(), 0);
    assert_eq!(it.cursor(), 0);
    assert_eq!(it.next_index(), 0);
    let collected: Vec<_> = std::iter::from_fn(|| it.next()).collect();
    assert!(collected.is_empty());
}

#[test]
fn samples_rejects_misaligned_slice() {
    let buf = [0u8; 17];
    assert!(Samples::new(&buf).is_err());
    assert!(Samples::new(&buf[..0]).is_ok());
    assert!(Samples::new(&buf[..16]).is_ok());
    assert!(Samples::new(&buf[..15]).is_err());
}

#[test]
fn samples_single_video_keyframe() {
    let rec = enc_record(0, 500, 0x0000_0000, 1);
    let mut it = Samples::new(&rec).unwrap();
    assert_eq!(it.remaining(), 1);
    let e = it.next().unwrap();
    assert_eq!(e.index, 0);
    assert_eq!(e.record.sample_offset, 0);
    assert_eq!(e.record.sample_length, 500);
    assert_eq!(
        e.kind,
        SampleKind::VideoKeyframe {
            timestamp_ticks: 0,
            next_frame_ticks: 1,
        }
    );
    assert!(e.kind.is_keyframe());
    assert!(e.kind.is_video());
    assert!(!e.kind.is_audio());
    assert_eq!(it.next_index(), 1);
    assert_eq!(it.remaining(), 0);
    assert!(it.next().is_none());
}

#[test]
fn samples_c3_fixture_five_video_samples() {
    let mut records = Vec::with_capacity(5 * 16);
    records.extend_from_slice(&enc_record(0, 5177, 0x0000_0000, 1));
    records.extend_from_slice(&enc_record(0x1439, 2590, 0x8000_0001, 1));
    records.extend_from_slice(&enc_record(0x1e57, 2400, 0x8000_0002, 1));
    records.extend_from_slice(&enc_record(0x27b7, 2300, 0x8000_0003, 1));
    records.extend_from_slice(&enc_record(0x30b3, 2200, 0x8000_0004, 1));
    let mut it = Samples::new(&records).unwrap();
    assert_eq!(it.remaining(), 5);
    let entries: Vec<_> = std::iter::from_fn(|| it.next()).collect();
    assert_eq!(entries.len(), 5);
    assert_eq!(
        entries[0].kind,
        SampleKind::VideoKeyframe {
            timestamp_ticks: 0,
            next_frame_ticks: 1,
        }
    );
    for (i, e) in entries.iter().enumerate().skip(1) {
        assert_eq!(e.index as usize, i);
        assert_eq!(
            e.kind,
            SampleKind::VideoInter {
                timestamp_ticks: i as u32,
                next_frame_ticks: 1,
            }
        );
    }
}

#[test]
fn samples_audio_sentinel_classified() {
    let rec = enc_record(0x500, 100, 0xFFFF_FFFF, 1);
    let mut it = Samples::new(&rec).unwrap();
    let e = it.next().unwrap();
    assert_eq!(e.kind, SampleKind::Audio { well_formed: true });
    assert!(e.kind.is_audio());
    assert!(!e.kind.is_video());
    assert!(!e.kind.is_keyframe());
    assert_eq!(e.record.sample_info_1, 0xFFFF_FFFF);
    assert_eq!(e.record.sample_info_2, 1);
}

#[test]
fn samples_audio_malformed_si2_flagged() {
    let rec = enc_record(0x500, 100, 0xFFFF_FFFF, 7);
    let mut it = Samples::new(&rec).unwrap();
    let e = it.next().unwrap();
    assert_eq!(e.kind, SampleKind::Audio { well_formed: false });
}

#[test]
fn samples_interleaved_video_audio() {
    let mut records = Vec::new();
    records.extend_from_slice(&enc_record(0, 1000, 0x0000_0000, 1));
    records.extend_from_slice(&enc_record(0x3e8, 200, 0xFFFF_FFFF, 1));
    records.extend_from_slice(&enc_record(0x4b0, 800, 0x8000_0014, 20));
    let entries: Vec<_> = {
        let mut walk = Samples::new(&records).unwrap();
        std::iter::from_fn(move || walk.next()).collect()
    };
    assert!(matches!(entries[0].kind, SampleKind::VideoKeyframe { .. }));
    assert!(matches!(entries[1].kind, SampleKind::Audio { .. }));
    assert!(matches!(entries[2].kind, SampleKind::VideoInter { .. }));
    if let SampleKind::VideoInter {
        timestamp_ticks,
        next_frame_ticks,
    } = entries[2].kind
    {
        assert_eq!(timestamp_ticks, 0x14);
        assert_eq!(next_frame_ticks, 20);
    } else {
        unreachable!();
    }
}

#[test]
fn samples_inter_timestamp_strips_top_bit() {
    let rec = enc_record(0, 1234, 0x8000_007B, 5);
    let mut it = Samples::new(&rec).unwrap();
    let e = it.next().unwrap();
    assert_eq!(
        e.kind,
        SampleKind::VideoInter {
            timestamp_ticks: 0x7B,
            next_frame_ticks: 5,
        }
    );
}

#[test]
fn samples_inter_timestamp_max_low31() {
    let rec = enc_record(0, 0, 0xFFFF_FFFE, 1);
    let mut it = Samples::new(&rec).unwrap();
    let e = it.next().unwrap();
    assert_eq!(
        e.kind,
        SampleKind::VideoInter {
            timestamp_ticks: 0x7FFF_FFFE,
            next_frame_ticks: 1,
        }
    );
}

#[test]
fn samples_cursor_and_next_index_advance() {
    let mut records = Vec::new();
    records.extend_from_slice(&enc_record(0, 100, 0, 1));
    records.extend_from_slice(&enc_record(100, 200, 0x8000_0001, 1));
    records.extend_from_slice(&enc_record(300, 0, 0xFFFF_FFFF, 1));
    let mut it = Samples::new(&records).unwrap();
    assert_eq!(it.cursor(), 0);
    assert_eq!(it.next_index(), 0);
    it.next().unwrap();
    assert_eq!(it.cursor(), SAMPLE_RECORD_SIZE);
    assert_eq!(it.next_index(), 1);
    it.next().unwrap();
    assert_eq!(it.cursor(), 2 * SAMPLE_RECORD_SIZE);
    assert_eq!(it.next_index(), 2);
    it.next().unwrap();
    assert_eq!(it.cursor(), 3 * SAMPLE_RECORD_SIZE);
    assert_eq!(it.next_index(), 3);
    assert!(it.next().is_none());
    assert_eq!(it.remaining(), 0);
}

#[test]
fn samples_exact_size_hint() {
    let records: Vec<u8> = (0..4u32)
        .flat_map(|i| enc_record(i * 100, 100, 0x8000_0000 | i, 1).to_vec())
        .collect();
    let mut it = Samples::new(&records).unwrap();
    assert_eq!(it.size_hint(), (4, Some(4)));
    assert_eq!(it.len(), 4);
    it.next();
    assert_eq!(it.size_hint(), (3, Some(3)));
    assert_eq!(it.len(), 3);
    while it.next().is_some() {}
    assert_eq!(it.size_hint(), (0, Some(0)));
}

#[test]
fn samples_fused_after_exhaustion() {
    let rec = enc_record(0, 0, 0, 1);
    let mut it = Samples::new(&rec).unwrap();
    assert!(it.next().is_some());
    assert!(it.next().is_none());
    assert!(it.next().is_none());
    assert!(it.next().is_none());
}

#[test]
fn samples_records_bytes_round_trip() {
    let records: Vec<u8> = (0..3u32)
        .flat_map(|i| enc_record(i, i + 1, i + 2, i + 3).to_vec())
        .collect();
    let it = Samples::new(&records).unwrap();
    assert_eq!(it.records_bytes(), &records[..]);
}

#[test]
fn samples_kind_matches_record_predicates() {
    let mut records = Vec::new();
    records.extend_from_slice(&enc_record(0, 0, 0x0000_0000, 1));
    records.extend_from_slice(&enc_record(0, 0, 0x8000_0005, 1));
    records.extend_from_slice(&enc_record(0, 0, 0xFFFF_FFFF, 1));
    let mut it = Samples::new(&records).unwrap();
    while let Some(e) = it.next() {
        assert_eq!(e.kind.is_audio(), e.record.is_audio());
        assert_eq!(e.kind.is_keyframe(), e.record.is_keyframe());
    }
}

#[test]
fn samples_agrees_with_film_demuxer() {
    let mut out = build_minimal_film();
    let num_off = 16 + 32 + 12;
    out[num_off..num_off + 4].copy_from_slice(&3u32.to_be_bytes());
    out.extend_from_slice(&enc_record(0x500, 100, 0xFFFF_FFFF, 1));
    out.extend_from_slice(&enc_record(0x6c0, 400, 0x8000_0002, 1));
    out[4..8].copy_from_slice(&((80 + 32) as u32).to_be_bytes());
    let dem = FilmDemuxer::parse(&out).unwrap();
    assert_eq!(dem.samples.len(), 3);

    let records_start = 16 + 32 + 16;
    let records_end = records_start + 3 * SAMPLE_RECORD_SIZE;
    let it_records = &out[records_start..records_end];
    let typed: Vec<_> = {
        let mut walk = Samples::new(it_records).unwrap();
        std::iter::from_fn(move || walk.next()).collect()
    };
    assert_eq!(typed.len(), dem.samples.len());
    for (e, expected) in typed.iter().zip(dem.samples.iter()) {
        assert_eq!(e.record, *expected);
    }
    assert!(matches!(typed[0].kind, SampleKind::VideoKeyframe { .. }));
    assert!(matches!(typed[1].kind, SampleKind::Audio { .. }));
    assert!(matches!(
        typed[2].kind,
        SampleKind::VideoInter {
            timestamp_ticks: 2,
            next_frame_ticks: 1,
        }
    ));
}

#[test]
fn sample_kind_from_record_standalone() {
    let key = SampleRecord {
        sample_offset: 0,
        sample_length: 0,
        sample_info_1: 0x0000_0042,
        sample_info_2: 7,
    };
    assert_eq!(
        SampleKind::from_record(key),
        SampleKind::VideoKeyframe {
            timestamp_ticks: 0x42,
            next_frame_ticks: 7,
        }
    );
    let inter = SampleRecord {
        sample_offset: 0,
        sample_length: 0,
        sample_info_1: 0x8000_0042,
        sample_info_2: 7,
    };
    assert_eq!(
        SampleKind::from_record(inter),
        SampleKind::VideoInter {
            timestamp_ticks: 0x42,
            next_frame_ticks: 7,
        }
    );
    let audio_ok = SampleRecord {
        sample_offset: 0,
        sample_length: 0,
        sample_info_1: 0xFFFF_FFFF,
        sample_info_2: 1,
    };
    assert_eq!(
        SampleKind::from_record(audio_ok),
        SampleKind::Audio { well_formed: true }
    );
    let audio_bad = SampleRecord {
        sample_offset: 0,
        sample_length: 0,
        sample_info_1: 0xFFFF_FFFF,
        sample_info_2: 99,
    };
    assert_eq!(
        SampleKind::from_record(audio_bad),
        SampleKind::Audio { well_formed: false }
    );
}

#[test]
fn samples_keyframe_with_nonzero_ts() {
    let rec = enc_record(0, 0, 0x0000_03e8, 1);
    let mut it = Samples::new(&rec).unwrap();
    let e = it.next().unwrap();
    assert_eq!(
        e.kind,
        SampleKind::VideoKeyframe {
            timestamp_ticks: 1000,
            next_frame_ticks: 1,
        }
    );
}

fn enc_stab_chunk(base_freq: u32, records: &[u8], chunk_length: u32) -> Vec<u8> {
    assert_eq!(records.len() % 16, 0);
    let num_entries = (records.len() / 16) as u32;
    let mut out = Vec::with_capacity(16 + records.len());
    out.extend_from_slice(b"STAB");
    out.extend_from_slice(&chunk_length.to_be_bytes());
    out.extend_from_slice(&base_freq.to_be_bytes());
    out.extend_from_slice(&num_entries.to_be_bytes());
    out.extend_from_slice(records);
    out
}

#[test]
fn stab_header_const_matches_record_header_split() {
    assert_eq!(STAB_HEADER_SIZE, 16);
}

#[test]
fn stab_parse_chunk_empty_table() {
    let chunk = enc_stab_chunk(30, &[], 16);
    let (hdr, recs) = StabHeader::parse_chunk(&chunk).unwrap();
    assert_eq!(hdr.base_frequency, 30);
    assert_eq!(hdr.num_entries, 0);
    assert!(recs.is_empty());
    let mut it = Samples::new(recs).unwrap();
    assert_eq!(it.remaining(), 0);
}

#[test]
fn stab_parse_chunk_single_record_feeds_samples() {
    let rec = enc_record(0, 500, 0x0000_0000, 1);
    let chunk = enc_stab_chunk(600, &rec, 16 + 16);
    let (hdr, recs) = StabHeader::parse_chunk(&chunk).unwrap();
    assert_eq!(hdr.base_frequency, 600);
    assert_eq!(hdr.num_entries, 1);
    assert_eq!(recs.len(), 16);
    assert_eq!(recs, &rec[..]);
    let mut it = Samples::new(recs).unwrap();
    let e = it.next().unwrap();
    assert_eq!(e.index, 0);
    assert_eq!(e.record.sample_length, 500);
    assert_eq!(
        e.kind,
        SampleKind::VideoKeyframe {
            timestamp_ticks: 0,
            next_frame_ticks: 1,
        }
    );
    assert!(it.next().is_none());
}

#[test]
fn stab_parse_chunk_c3_five_samples() {
    let mut records = Vec::with_capacity(5 * 16);
    records.extend_from_slice(&enc_record(0, 5177, 0x0000_0000, 1));
    records.extend_from_slice(&enc_record(0x1439, 2590, 0x8000_0001, 1));
    records.extend_from_slice(&enc_record(0x1e57, 2400, 0x8000_0002, 1));
    records.extend_from_slice(&enc_record(0x27b7, 2300, 0x8000_0003, 1));
    records.extend_from_slice(&enc_record(0x30b3, 2200, 0x8000_0004, 1));
    let chunk = enc_stab_chunk(600, &records, 16 + 5 * 16);
    let (hdr, recs) = StabHeader::parse_chunk(&chunk).unwrap();
    assert_eq!(hdr.num_entries, 5);
    assert_eq!(recs.len(), 5 * 16);
    let entries: Vec<_> = {
        let mut walk = Samples::new(recs).unwrap();
        std::iter::from_fn(move || walk.next()).collect()
    };
    assert_eq!(entries.len(), 5);
    assert!(entries[0].kind.is_keyframe());
    for (i, e) in entries.iter().enumerate().skip(1) {
        assert_eq!(
            e.kind,
            SampleKind::VideoInter {
                timestamp_ticks: i as u32,
                next_frame_ticks: 1,
            }
        );
    }
}

#[test]
fn stab_parse_chunk_ignores_short_length_field() {
    let rec = enc_record(7, 11, 0x8000_0005, 3);
    let chunk = enc_stab_chunk(30, &rec, 16);
    let (hdr, recs) = StabHeader::parse_chunk(&chunk).unwrap();
    assert_eq!(hdr.base_frequency, 30);
    assert_eq!(hdr.num_entries, 1);
    let e = Samples::new(recs).unwrap().next().unwrap();
    assert_eq!(e.record.sample_offset, 7);
    assert_eq!(e.record.sample_length, 11);
    assert_eq!(
        e.kind,
        SampleKind::VideoInter {
            timestamp_ticks: 5,
            next_frame_ticks: 3,
        }
    );
}

#[test]
fn stab_parse_chunk_trailing_bytes_excluded() {
    let rec = enc_record(0, 1, 0, 1);
    let mut chunk = enc_stab_chunk(30, &rec, 32);
    chunk.extend_from_slice(&[0xAA, 0xBB, 0xCC]);
    let (hdr, recs) = StabHeader::parse_chunk(&chunk).unwrap();
    assert_eq!(hdr.num_entries, 1);
    assert_eq!(recs.len(), 16);
    assert_eq!(recs, &rec[..]);
}

#[test]
fn stab_parse_chunk_rejects_truncated_header() {
    let buf = [0u8; 15];
    assert!(StabHeader::parse_chunk(&buf).is_err());
    let chunk = enc_stab_chunk(30, &[], 16);
    assert!(StabHeader::parse_chunk(&chunk).is_ok());
}

#[test]
fn stab_parse_chunk_rejects_bad_signature() {
    let mut chunk = enc_stab_chunk(30, &[], 16);
    chunk[0] = b'X';
    assert!(StabHeader::parse_chunk(&chunk).is_err());
}

#[test]
fn stab_parse_chunk_rejects_truncated_records() {
    let rec = enc_record(0, 1, 0, 1);
    let mut chunk = Vec::new();
    chunk.extend_from_slice(b"STAB");
    chunk.extend_from_slice(&48u32.to_be_bytes());
    chunk.extend_from_slice(&30u32.to_be_bytes());
    chunk.extend_from_slice(&2u32.to_be_bytes());
    chunk.extend_from_slice(&rec);
    assert!(StabHeader::parse_chunk(&chunk).is_err());
}

#[test]
fn stab_parse_chunk_agrees_with_film_demuxer() {
    let film = build_minimal_film();
    let dem = FilmDemuxer::parse(&film).unwrap();
    let stab_off = FILM_HEADER_MIN_SIZE + 32;
    let (hdr, recs) = StabHeader::parse_chunk(&film[stab_off..]).unwrap();
    assert_eq!(hdr, dem.stab_header);
    let entries: Vec<_> = {
        let mut walk = Samples::new(recs).unwrap();
        std::iter::from_fn(move || walk.next()).collect()
    };
    assert_eq!(entries.len(), dem.samples.len());
    for (e, d) in entries.iter().zip(dem.samples.iter()) {
        assert_eq!(e.record, *d);
    }
}

#[test]
fn version_and_codec_give_the_variant() {
    let variant = |codec: &[u8; 4], version: &[u8; 4]| {
        let mut bytes = build_minimal_film();
        patch_film_version(&mut bytes, version);
        let mut dem = FilmDemuxer::parse(&bytes).unwrap();
        dem.fdsc.video_codec = *codec;
        dem.variant()
    };
    for version in [b"1.00", b"1.09", b"1.1a", b"2.00", b"10.0"] {
        assert_eq!(variant(b"cvid", version), CinepakVariant::DeviantSaturn);
    }
    for version in [b"0.99", b".100", b"1..0", b"1.0\0", b"\x01\0\0\0"] {
        assert_eq!(variant(b"cvid", version), CinepakVariant::Standard);
    }
    assert_eq!(variant(b"cvid", &[0; 4]), CinepakVariant::DeviantLemmings3do);
    assert_eq!(variant(b"sega", b"1.09"), CinepakVariant::OutOfScope);
}
