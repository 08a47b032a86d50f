//! Audio samples of FILM files.

use cinepak::film::{
    pcm_decode_16be_to_i16, pcm_decode_8bit, pcm_deinterleave_stereo_16be,
    pcm_deinterleave_stereo_8bit, FilmAudioFormat, PcmEndianness, PcmSignConvention,
};

fn linear(bits: u8, channels: u8, sign: PcmSignConvention) -> FilmAudioFormat {
    FilmAudioFormat::LinearPcm {
        channels,
        bits_per_sample: bits,
        sample_rate_hz: 22050,
        endianness: if bits == 8 {
            PcmEndianness::NotApplicable
        } else {
            PcmEndianness::BigEndian
        },
        sign_convention: sign,
    }
}

#[test]
fn eight_bit_samples_follow_the_sign_convention() {
    let src = [0x00, 0x01, 0x7f, 0x80, 0x81, 0xff];
    let mut dst = [0i8; 6];
    pcm_decode_8bit(&src, PcmSignConvention::TwosComplement, &mut dst).unwrap();
    assert_eq!(dst, [0, 1, 127, -128, -127, -1]);
    pcm_decode_8bit(&src, PcmSignConvention::SignMagnitude, &mut dst).unwrap();
    assert_eq!(dst, [0, 1, 127, 0, -1, -127]);
}

#[test]
fn eight_bit_target_must_have_the_length_of_the_source() {
    let mut dst = [9i8; 2];
    let err = pcm_decode_8bit(&[1, 2, 3], PcmSignConvention::TwosComplement, &mut dst).unwrap_err();
    assert_eq!(
        err.to_string(),
        "cinepak: invalid data: FILM PCM: 8-bit decode length mismatch (src 3 != dst 2)",
    );
    assert_eq!(dst, [9, 9]);
}

#[test]
fn sixteen_bit_samples_are_big_endian() {
    let mut dst = [0i16; 3];
    pcm_decode_16be_to_i16(&[0x01, 0x02, 0xff, 0xfe, 0x80, 0x00], &mut dst).unwrap();
    assert_eq!(dst, [0x0102, -2, -32768]);
    assert!(pcm_decode_16be_to_i16(&[1, 2, 3], &mut dst).is_err());
    assert!(pcm_decode_16be_to_i16(&[1, 2, 3, 4], &mut dst).is_err());
    assert_eq!(dst, [0x0102, -2, -32768]);
}

#[test]
fn stereo_halves_are_interleaved() {
    let mut bytes = [0u8; 6];
    pcm_deinterleave_stereo_8bit(&[1, 2, 3, 11, 12, 13], &mut bytes).unwrap();
    assert_eq!(bytes, [1, 11, 2, 12, 3, 13]);
    let mut words = [0i16; 4];
    pcm_deinterleave_stereo_16be(&[0, 1, 0, 2, 0xff, 0xff, 0xff, 0xfe], &mut words).unwrap();
    assert_eq!(words, [1, -1, 2, -2]);
}

#[test]
fn stereo_lengths_are_checked() {
    let mut bytes = [7u8; 4];
    let err = pcm_deinterleave_stereo_8bit(&[1, 2, 3], &mut bytes).unwrap_err();
    assert_eq!(
        err.to_string(),
        "cinepak: invalid data: FILM PCM: stereo 8-bit chunk length must be even, got 3",
    );
    let err = pcm_deinterleave_stereo_8bit(&[1, 2], &mut bytes).unwrap_err();
    assert_eq!(
        err.to_string(),
        "cinepak: invalid data: FILM PCM: stereo 8-bit interleave length mismatch (src 2 != dst 4)",
    );
    assert_eq!(bytes, [7; 4]);
    let mut words = [7i16; 2];
    assert!(pcm_deinterleave_stereo_16be(&[1, 2], &mut words).is_err());
    assert!(pcm_deinterleave_stereo_16be(&[], &mut []).is_err());
    assert!(pcm_deinterleave_stereo_16be(&[1, 2, 3, 4, 5, 6, 7, 8], &mut words).is_err());
    assert_eq!(words, [7; 2]);
}

#[test]
fn chunks_decode_by_width_and_channels() {
    let twos = PcmSignConvention::TwosComplement;
    let sign = PcmSignConvention::SignMagnitude;
    assert_eq!(
        linear(8, 1, twos).decode_chunk_to_i16(&[0x7f, 0x80, 0xff]),
        Some(vec![127, -128, -1])
    );
    assert_eq!(
        linear(8, 2, sign).decode_chunk_to_i16(&[0x01, 0x02, 0x81, 0x82]),
        Some(vec![1, -1, 2, -2])
    );
    assert_eq!(
        linear(16, 1, twos).decode_chunk_to_i16(&[0x12, 0x34, 0xff, 0x00]),
        Some(vec![0x1234, -256])
    );
    assert_eq!(
        linear(16, 2, twos).decode_chunk_to_i16(&[0, 1, 0, 2, 0, 3, 0, 4]),
        Some(vec![1, 3, 2, 4])
    );
    assert_eq!(linear(8, 1, twos).decode_chunk_to_i16(&[]), Some(vec![]));
}

#[test]
fn chunks_of_other_kinds_do_not_decode() {
    let twos = PcmSignConvention::TwosComplement;
    assert_eq!(linear(8, 2, twos).decode_chunk_to_i16(&[1, 2, 3]), None);
    assert_eq!(linear(16, 1, twos).decode_chunk_to_i16(&[1]), None);
    assert_eq!(linear(16, 2, twos).decode_chunk_to_i16(&[1, 2]), None);
    assert_eq!(linear(24, 1, twos).decode_chunk_to_i16(&[1, 2, 3]), None);
    assert_eq!(linear(8, 3, twos).decode_chunk_to_i16(&[1, 2, 3]), None);
    assert_eq!(FilmAudioFormat::NoAudio.decode_chunk_to_i16(&[1]), None);
    let adx = FilmAudioFormat::CriAdxAdpcm {
        channels: 1,
        sample_rate_hz: 22050,
    };
    assert_eq!(adx.decode_chunk_to_i16(&[1]), None);
}
