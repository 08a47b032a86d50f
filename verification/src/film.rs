//! The Sega FILM container, which carries Cinepak video and PCM audio.
//!
//! A file starts with a `FILM` header of sixteen bytes, an `FDSC` chunk
//! that describes the streams, and a `STAB` chunk with one record of
//! sixteen bytes for each sample. All numbers are big-endian.

use vstd::prelude::*;
use crate::bits::{self, read16, read32};
use crate::codebook::{self, to_signed};
use crate::error::{self, invalid, CinepakError, ErrorView, Result};
use crate::text::{self, cat, cat_dec, cat_hex, lit};

pub use crate::demux::FilmDemuxer;
pub use crate::stab::{SampleKind, SampleRecord, SampleRecordEntry, Samples, StabHeader};
pub use crate::stab::{SAMPLE_RECORD_SIZE, STAB_HEADER_SIZE};

verus! {

/// Bytes of the `FILM` header.
pub const FILM_HEADER_MIN_SIZE: usize = 16;

/// The four characters `FILM`, as a big-endian number.
pub const FILM_SIGNATURE: u32 = 0x46494c4d;

/// The four characters `FDSC`, as a big-endian number.
pub const FDSC_SIGNATURE: u32 = 0x46445343;

/// The four characters `STAB`, as a big-endian number.
pub const STAB_SIGNATURE: u32 = 0x53544142;

/// The four bytes at `b[i..]`.
pub open spec fn tag_at(b: Seq<u8>, i: int) -> [u8; 4] {
    [b[i], b[i + 1], b[i + 2], b[i + 3]]
}

/// Four bytes listed in a message.
pub open spec fn tag_text(t: [u8; 4]) -> Seq<char> {
    "["@ + text::dec(t[0] as nat) + ", "@ + text::dec(t[1] as nat) + ", "@ + text::dec(t[2] as nat) + ", "@ + text::dec(
        t[3] as nat,
    ) + "]"@
}

pub(crate) fn cat_tag(s: String, b: &[u8], i: usize) -> (r: String)
    requires
        i + 4 <= b@.len(),
    ensures
        r@ == s@ + tag_text(tag_at(b@, i as int)),
{
    let t = cat(cat_dec(lit("["), b[i] as u64), ", ");
    let t = cat(cat_dec(t, b[i + 1] as u64), ", ");
    let t = cat(cat_dec(t, b[i + 2] as u64), ", ");
    let t = cat(cat_dec(t, b[i + 3] as u64), "]");
    cat(s, t.as_str())
}

fn read_tag(b: &[u8], i: usize) -> (r: [u8; 4])
    requires
        i + 4 <= b@.len(),
    ensures
        r == tag_at(b@, i as int),
{
    [b[i], b[i + 1], b[i + 2], b[i + 3]]
}

/// Whether the buffer starts with the characters `FILM`.
pub fn probe_film(bytes: &[u8]) -> (r: bool)
    ensures
        r == (bytes@.len() >= 4 && bits::be32(bytes@, 0) == FILM_SIGNATURE),
{
    bytes.len() >= 4 && read32(bytes, 0) == FILM_SIGNATURE
}

/// The `FILM` header.
#[derive(Clone, Copy, Debug, PartialEq, Eq)]
pub struct FilmHeader {
    /// Length of the headers; where the sample data starts in the file.
    pub header_length: u32,
    /// Version, four characters or zeros.
    pub version: [u8; 4],
    /// Reserved.
    pub reserved: u32,
}

/// Message of a file that ends inside the `FILM` header.
pub open spec fn film_short(len: nat) -> ErrorView {
    ErrorView::InvalidData("FILM: header truncated ("@ + text::dec(len) + " < 16)"@)
}

/// Message of a file without the `FILM` signature.
pub open spec fn film_unsigned() -> ErrorView {
    ErrorView::InvalidData("FILM: missing 'FILM' signature at offset 0"@)
}

/// Message of headers that are shorter than the `FILM` header.
pub open spec fn film_length_small(n: u32) -> ErrorView {
    ErrorView::InvalidData(
        "FILM: header_length "@ + text::dec(n as nat) + " smaller than 16-byte minimum"@,
    )
}

/// The `FILM` header at the start of `b`, or what is wrong with it.
pub open spec fn film_header(b: Seq<u8>) -> core::result::Result<FilmHeader, ErrorView> {
    if b.len() < FILM_HEADER_MIN_SIZE {
        Err(film_short(b.len()))
    } else if bits::be32(b, 0) != FILM_SIGNATURE {
        Err(film_unsigned())
    } else if bits::be32(b, 4) < FILM_HEADER_MIN_SIZE {
        Err(film_length_small(bits::be32(b, 4)))
    } else {
        Ok(
            FilmHeader {
                header_length: bits::be32(b, 4),
                version: tag_at(b, 8),
                reserved: bits::be32(b, 12),
            },
        )
    }
}

impl FilmHeader {
    /// Reads the header at the start of `bytes`.
    pub fn parse(bytes: &[u8]) -> (r: Result<Self>)
        ensures
            error::outcome(r) == film_header(bytes@),
    {
        if bytes.len() < FILM_HEADER_MIN_SIZE {
            return Err(
                CinepakError::invalid(
                    cat(cat_dec(lit("FILM: header truncated ("), bytes.len() as u64), " < 16)"),
                ),
            );
        }
        if read32(bytes, 0) != FILM_SIGNATURE {
            return Err(invalid("FILM: missing 'FILM' signature at offset 0"));
        }
        let header_length: u32 = read32(bytes, 4);
        if (header_length as usize) < FILM_HEADER_MIN_SIZE {
            return Err(
                CinepakError::invalid(
                    cat(
                        cat_dec(lit("FILM: header_length "), header_length as u64),
                        " smaller than 16-byte minimum",
                    ),
                ),
            );
        }
        Ok(
            FilmHeader {
                header_length,
                version: read_tag(bytes, 8),
                reserved: read32(bytes, 12),
            },
        )
    }
}

/// The description of a file's streams.
#[derive(Clone, Copy, Debug, PartialEq, Eq)]
pub struct Fdsc {
    /// Four characters of the video codec.
    pub video_codec: [u8; 4],
    /// Height in pixels.
    pub height: u32,
    /// Width in pixels.
    pub width: u32,
    pub bits_per_pixel: u8,
    pub audio_channels: u8,
    pub audio_bits: u8,
    /// Zero for linear PCM, two for CRI ADX.
    pub audio_compression: u8,
    pub audio_sample_rate: u16,
}

/// Which form of Cinepak a file's video samples have.
#[derive(Clone, Copy, Debug, PartialEq, Eq, Structural)]
pub enum CinepakVariant {
    /// The plain form.
    Standard,
    /// The form of the Sega Saturn and the Sega CD.
    DeviantSaturn,
    /// The form of Lemmings on the 3DO.
    DeviantLemmings3do,
    /// Another codec.
    OutOfScope,
}

/// Message of a file that ends inside the `FDSC` chunk header.
pub open spec fn fdsc_short() -> ErrorView {
    ErrorView::InvalidData("FILM: FDSC chunk header truncated"@)
}

/// Message of a chunk that is not the `FDSC` chunk.
pub open spec fn fdsc_unsigned(t: [u8; 4]) -> ErrorView {
    ErrorView::InvalidData("FILM: expected 'FDSC' signature, got "@ + tag_text(t))
}

/// Message of an `FDSC` chunk of unknown length.
pub open spec fn fdsc_length(n: u32) -> ErrorView {
    ErrorView::InvalidData(
        "FILM: FDSC chunk_length must be 0x20 or 0x14, got 0x"@ + text::hex(n as nat),
    )
}

/// Message of a file that ends inside the `FDSC` chunk.
pub open spec fn fdsc_truncated(n: u32, len: nat) -> ErrorView {
    ErrorView::InvalidData(
        "FILM: FDSC chunk_length "@ + text::dec(n as nat) + " exceeds buffer "@ + text::dec(len),
    )
}

/// The `FDSC` chunk at the start of `b` with its length, or what is wrong
/// with it. The short form has no audio fields.
pub open spec fn fdsc_chunk(b: Seq<u8>) -> core::result::Result<(Fdsc, u32), ErrorView> {
    let n = bits::be32(b, 4);
    if b.len() < 8 {
        Err(fdsc_short())
    } else if bits::be32(b, 0) != FDSC_SIGNATURE {
        Err(fdsc_unsigned(tag_at(b, 0)))
    } else if n != 32 && n != 20 {
        Err(fdsc_length(n))
    } else if b.len() < n {
        Err(fdsc_truncated(n, b.len()))
    } else {
        let whole = n == 32;
        Ok(
            (
                Fdsc {
                    video_codec: tag_at(b, 8),
                    height: bits::be32(b, 12),
                    width: bits::be32(b, 16),
                    bits_per_pixel: if whole {
                        b[20]
                    } else {
                        0
                    },
                    audio_channels: if whole {
                        b[21]
                    } else {
                        0
                    },
                    audio_bits: if whole {
                        b[22]
                    } else {
                        0
                    },
                    audio_compression: if whole {
                        b[23]
                    } else {
                        0
                    },
                    audio_sample_rate: if whole {
                        bits::be16(b, 24)
                    } else {
                        0
                    },
                },
                n,
            ),
        )
    }
}

/// Sign convention of linear PCM samples.
#[derive(Clone, Copy, Debug, PartialEq, Eq, Structural)]
pub enum PcmSignConvention {
    /// Two's complement.
    TwosComplement,
    /// A sign bit and a magnitude of seven bits.
    SignMagnitude,
}

/// Byte order of linear PCM samples.
#[derive(Clone, Copy, Debug, PartialEq, Eq, Structural)]
pub enum PcmEndianness {
    BigEndian,
    /// One byte per sample.
    NotApplicable,
}

/// The format of a file's audio.
#[derive(Clone, Copy, Debug, PartialEq, Eq, Structural)]
pub enum FilmAudioFormat {
    /// No audio.
    NoAudio,
    /// Linear PCM. A stereo chunk holds the left channel, then the right.
    LinearPcm {
        channels: u8,
        bits_per_sample: u8,
        sample_rate_hz: u16,
        endianness: PcmEndianness,
        sign_convention: PcmSignConvention,
    },
    /// CRI ADX, which this crate does not decode.
    CriAdxAdpcm { channels: u8, sample_rate_hz: u16 },
    /// A compression that is not known.
    Unknown { channels: u8, bits_per_sample: u8, sample_rate_hz: u16, compression: u8 },
}

/// Whether a byte is a letter, a digit or a full stop.
pub open spec fn stamp_char(c: u8) -> bool {
    (48 <= c <= 57) || (65 <= c <= 90) || (97 <= c <= 122) || c == 46
}

/// Whether a version is written in letters, digits and full stops.
pub open spec fn stamped(v: [u8; 4]) -> bool {
    stamp_char(v[0]) && stamp_char(v[1]) && stamp_char(v[2]) && stamp_char(v[3])
}

/// The sign convention of a file: two's complement where its version is
/// written in characters.
pub open spec fn sign_convention(v: [u8; 4]) -> PcmSignConvention {
    if stamped(v) {
        PcmSignConvention::TwosComplement
    } else {
        PcmSignConvention::SignMagnitude
    }
}

fn is_stamp_char(c: u8) -> (r: bool)
    ensures
        r == stamp_char(c),
{
    (48 <= c && c <= 57) || (65 <= c && c <= 90) || (97 <= c && c <= 122) || c == 46
}

pub(crate) fn is_stamped(v: &[u8; 4]) -> (r: bool)
    ensures
        r == stamped(*v),
{
    is_stamp_char(v[0]) && is_stamp_char(v[1]) && is_stamp_char(v[2]) && is_stamp_char(v[3])
}

fn pcm_sign_convention_for(version: &[u8; 4]) -> (r: PcmSignConvention)
    ensures
        r == sign_convention(*version),
{
    if is_stamped(version) {
        PcmSignConvention::TwosComplement
    } else {
        PcmSignConvention::SignMagnitude
    }
}

/// Whether a description has any audio field set.
pub open spec fn describes_audio(f: Fdsc) -> bool {
    f.audio_channels != 0 || f.audio_bits != 0 || f.audio_compression != 0 || f.audio_sample_rate
        != 0
}

/// The audio format of a description in a file of version `v`.
pub open spec fn audio_format_of(f: Fdsc, v: [u8; 4]) -> FilmAudioFormat {
    if !describes_audio(f) {
        FilmAudioFormat::NoAudio
    } else if f.audio_compression == 0 {
        FilmAudioFormat::LinearPcm {
            channels: f.audio_channels,
            bits_per_sample: f.audio_bits,
            sample_rate_hz: f.audio_sample_rate,
            endianness: if f.audio_bits == 16 {
                PcmEndianness::BigEndian
            } else {
                PcmEndianness::NotApplicable
            },
            sign_convention: sign_convention(v),
        }
    } else if f.audio_compression == 2 {
        FilmAudioFormat::CriAdxAdpcm {
            channels: f.audio_channels,
            sample_rate_hz: f.audio_sample_rate,
        }
    } else {
        FilmAudioFormat::Unknown {
            channels: f.audio_channels,
            bits_per_sample: f.audio_bits,
            sample_rate_hz: f.audio_sample_rate,
            compression: f.audio_compression,
        }
    }
}

/// Whether four bytes are the characters `cvid`.
pub open spec fn is_cvid(t: [u8; 4]) -> bool {
    t[0] == 99 && t[1] == 118 && t[2] == 105 && t[3] == 100
}

impl Fdsc {
    /// Reads the chunk at the start of `bytes`, and gives its length too.
    pub fn parse(bytes: &[u8]) -> (r: Result<(Self, u32)>)
        ensures
            error::outcome(r) == fdsc_chunk(bytes@),
    {
        if bytes.len() < 8 {
            return Err(invalid("FILM: FDSC chunk header truncated"));
        }
        if read32(bytes, 0) != FDSC_SIGNATURE {
            return Err(
                CinepakError::invalid(
                    cat_tag(lit("FILM: expected 'FDSC' signature, got "), bytes, 0),
                ),
            );
        }
        let chunk_length: u32 = read32(bytes, 4);
        if chunk_length != 32 && chunk_length != 20 {
            return Err(
                CinepakError::invalid(
                    cat_hex(
                        lit("FILM: FDSC chunk_length must be 0x20 or 0x14, got 0x"),
                        chunk_length as u64,
                    ),
                ),
            );
        }
        if bytes.len() < chunk_length as usize {
            return Err(
                CinepakError::invalid(
                    cat_dec(
                        cat(
                            cat_dec(lit("FILM: FDSC chunk_length "), chunk_length as u64),
                            " exceeds buffer ",
                        ),
                        bytes.len() as u64,
                    ),
                ),
            );
        }
        let video_codec = read_tag(bytes, 8);
        let height: u32 = read32(bytes, 12);
        let width: u32 = read32(bytes, 16);
        if chunk_length == 20 {
            return Ok(
                (
                    Fdsc {
                        video_codec,
                        height,
                        width,
                        bits_per_pixel: 0,
                        audio_channels: 0,
                        audio_bits: 0,
                        audio_compression: 0,
                        audio_sample_rate: 0,
                    },
                    chunk_length,
                ),
            );
        }
        Ok(
            (
                Fdsc {
                    video_codec,
                    height,
                    width,
                    bits_per_pixel: bytes[20],
                    audio_channels: bytes[21],
                    audio_bits: bytes[22],
                    audio_compression: bytes[23],
                    audio_sample_rate: read16(bytes, 24),
                },
                chunk_length,
            ),
        )
    }

    /// Whether the video codec is Cinepak.
    pub fn is_standard_cinepak(&self) -> (r: bool)
        ensures
            r == is_cvid(self.video_codec),
    {
        let t = &self.video_codec;
        t[0] == 99 && t[1] == 118 && t[2] == 105 && t[3] == 100
    }

    /// Whether the file has audio: any of the audio fields is set.
    pub fn has_audio(&self) -> (r: bool)
        ensures
            r == describes_audio(*self),
    {
        self.audio_channels != 0 || self.audio_bits != 0 || self.audio_compression != 0
            || self.audio_sample_rate != 0
    }

    /// The audio format, in a file of the given version.
    pub fn audio_format(&self, film_version: &[u8; 4]) -> (r: FilmAudioFormat)
        ensures
            r == audio_format_of(*self, *film_version),
    {
        if !self.has_audio() {
            return FilmAudioFormat::NoAudio;
        }
        if self.audio_compression == 0 {
            FilmAudioFormat::LinearPcm {
                channels: self.audio_channels,
                bits_per_sample: self.audio_bits,
                sample_rate_hz: self.audio_sample_rate,
                endianness: if self.audio_bits == 16 {
                    PcmEndianness::BigEndian
                } else {
                    PcmEndianness::NotApplicable
                },
                sign_convention: pcm_sign_convention_for(film_version),
            }
        } else if self.audio_compression == 2 {
            FilmAudioFormat::CriAdxAdpcm {
                channels: self.audio_channels,
                sample_rate_hz: self.audio_sample_rate,
            }
        } else {
            FilmAudioFormat::Unknown {
                channels: self.audio_channels,
                bits_per_sample: self.audio_bits,
                sample_rate_hz: self.audio_sample_rate,
                compression: self.audio_compression,
            }
        }
    }
}

/// Bytes of linear PCM in one second, where the format says.
pub open spec fn byte_rate(f: FilmAudioFormat) -> Option<u64> {
    match f {
        FilmAudioFormat::LinearPcm { channels, bits_per_sample, sample_rate_hz, .. } => if channels
            == 0 || bits_per_sample == 0 || sample_rate_hz == 0 || bits_per_sample % 8 != 0 {
            None
        } else {
            Some((channels * (bits_per_sample / 8) * sample_rate_hz) as u64)
        },
        _ => None,
    }
}

/// A sample of eight bits in sign and magnitude.
pub open spec fn sign_magnitude(b: u8) -> i8 {
    if b >= 128 {
        (128 - b) as i8
    } else {
        b as i8
    }
}

/// A sample of eight bits.
pub open spec fn sample8(b: u8, c: PcmSignConvention) -> i8 {
    match c {
        PcmSignConvention::TwosComplement => codebook::signed(b),
        PcmSignConvention::SignMagnitude => sign_magnitude(b),
    }
}

/// The big-endian sample of sixteen bits at `b[i..]`.
pub open spec fn sample16(b: Seq<u8>, i: int) -> i16 {
    let v = bits::be16(b, i);
    if v < 32768 {
        v as i16
    } else {
        (v - 65536) as i16
    }
}

fn read_sample16(b: &[u8], i: usize) -> (r: i16)
    requires
        i + 2 <= b@.len(),
    ensures
        r == sample16(b@, i as int),
{
    let v: u16 = read16(b, i);
    if v < 32768 {
        v as i16
    } else {
        (v as i32 - 65536) as i16
    }
}

/// Converts a sample from sign and magnitude. Both zeros give zero.
pub fn pcm_sign_magnitude_to_i8(b: u8) -> (r: i8)
    ensures
        r == sign_magnitude(b),
{
    if b >= 128 {
        (128 - b as i16) as i8
    } else {
        b as i8
    }
}

/// Message of a target of the wrong length.
pub open spec fn pcm8_length(src: nat, dst: nat) -> ErrorView {
    ErrorView::InvalidData(
        "FILM PCM: 8-bit decode length mismatch (src "@ + text::dec(src) + " != dst "@ + text::dec(dst) + ")"@,
    )
}

/// Message of a source with half a sample.
pub open spec fn pcm16_odd(src: nat) -> ErrorView {
    ErrorView::InvalidData("FILM PCM: 16-bit BE source length must be even, got "@ + text::dec(src))
}

/// Message of a target of the wrong length.
pub open spec fn pcm16_length(src: nat, dst: nat) -> ErrorView {
    ErrorView::InvalidData(
        "FILM PCM: 16-bit decode length mismatch (src "@ + text::dec(src) + " bytes ⇒ "@ + text::dec(src / 2)
            + " samples != dst "@ + text::dec(dst) + ")"@,
    )
}

/// Message of a stereo source whose channels differ in length.
pub open spec fn stereo8_odd(src: nat) -> ErrorView {
    ErrorView::InvalidData("FILM PCM: stereo 8-bit chunk length must be even, got "@ + text::dec(src))
}

/// Message of a target of the wrong length.
pub open spec fn stereo8_length(src: nat, dst: nat) -> ErrorView {
    ErrorView::InvalidData(
        "FILM PCM: stereo 8-bit interleave length mismatch (src "@ + text::dec(src) + " != dst "@ + text::dec(
            dst,
        ) + ")"@,
    )
}

/// Message of a stereo source that is empty or ends inside a sample pair.
pub open spec fn stereo16_ragged(src: nat) -> ErrorView {
    ErrorView::InvalidData(
        "FILM PCM: stereo 16-bit BE chunk length must be a multiple of 4, got "@ + text::dec(src),
    )
}

/// Message of a target of the wrong length.
pub open spec fn stereo16_length(src: nat, dst: nat) -> ErrorView {
    ErrorView::InvalidData(
        "FILM PCM: stereo 16-bit deinterleave length mismatch (src "@ + text::dec(src) + " bytes ⇒ "@
            + text::dec(src / 2) + " samples != dst "@ + text::dec(dst) + ")"@,
    )
}

/// Samples of eight bits, one after the other.
pub open spec fn samples8(src: Seq<u8>, c: PcmSignConvention) -> Seq<i8> {
    Seq::new(src.len(), |i: int| sample8(src[i], c))
}

/// Samples of sixteen bits, one after the other.
pub open spec fn samples16(src: Seq<u8>) -> Seq<i16> {
    Seq::new(src.len() / 2, |i: int| sample16(src, 2 * i))
}

/// The two halves of a sequence, taken in turn.
pub open spec fn interleaved<T>(s: Seq<T>) -> Seq<T> {
    Seq::new(
        s.len(),
        |i: int|
            if i % 2 == 0 {
                s[i / 2]
            } else {
                s[s.len() / 2 + i / 2]
            },
    )
}

/// Converts samples of eight bits. The two slices must have one length;
/// else the target is left as it was.
pub fn pcm_decode_8bit(src: &[u8], convention: PcmSignConvention, dst: &mut [i8]) -> (r: Result<
    (),
>)
    ensures
        match r {
            Ok(_) => old(dst)@.len() == src@.len() && final(dst)@ == samples8(src@, convention),
            Err(e) => old(dst)@.len() != src@.len() && final(dst)@ == old(dst)@ && e@
                == pcm8_length(src@.len(), old(dst)@.len()),
        },
{
    if dst.len() != src.len() {
        let text = cat_dec(
            lit("FILM PCM: 8-bit decode length mismatch (src "),
            src.len() as u64,
        );
        let text = cat_dec(cat(text, " != dst "), dst.len() as u64);
        return Err(CinepakError::invalid(cat(text, ")")));
    }
    let mut i: usize = 0;
    while i < src.len()
        invariant
            i <= src@.len(),
            dst@.len() == src@.len(),
            forall|j: int| 0 <= j < i ==> dst@[j] == sample8(src@[j], convention),
        decreases src@.len() - i,
    {
        dst[i] = match convention {
            PcmSignConvention::TwosComplement => to_signed(src[i]),
            PcmSignConvention::SignMagnitude => pcm_sign_magnitude_to_i8(src[i]),
        };
        i = i + 1;
    }
    assert(dst@ =~= samples8(src@, convention));
    Ok(())
}

/// Converts big-endian samples of sixteen bits. The target must have one
/// place for every two bytes; else it is left as it was.
pub fn pcm_decode_16be_to_i16(src: &[u8], dst: &mut [i16]) -> (r: Result<()>)
    ensures
        match r {
            Ok(_) => src@.len() % 2 == 0 && old(dst)@.len() == src@.len() / 2 && final(dst)@
                == samples16(src@),
            Err(e) => final(dst)@ == old(dst)@ && if src@.len() % 2 != 0 {
                e@ == pcm16_odd(src@.len())
            } else {
                old(dst)@.len() != src@.len() / 2 && e@ == pcm16_length(
                    src@.len(),
                    old(dst)@.len(),
                )
            },
        },
{
    if src.len() % 2 != 0 {
        return Err(
            CinepakError::invalid(
                cat_dec(
                    lit("FILM PCM: 16-bit BE source length must be even, got "),
                    src.len() as u64,
                ),
            ),
        );
    }
    let samples: usize = src.len() / 2;
    if dst.len() != samples {
        let text = cat_dec(
            lit("FILM PCM: 16-bit decode length mismatch (src "),
            src.len() as u64,
        );
        let text = cat_dec(cat(text, " bytes ⇒ "), samples as u64);
        let text = cat_dec(cat(text, " samples != dst "), dst.len() as u64);
        return Err(CinepakError::invalid(cat(text, ")")));
    }
    let mut i: usize = 0;
    while i < samples
        invariant
            i <= samples,
            samples == src@.len() / 2,
            src@.len() <= usize::MAX,
            dst@.len() == samples,
            forall|j: int| 0 <= j < i ==> dst@[j] == sample16(src@, 2 * j),
        decreases samples - i,
    {
        dst[i] = read_sample16(src, 2 * i);
        i = i + 1;
    }
    assert(dst@ =~= samples16(src@));
    Ok(())
}

/// Interleaves the two halves of a stereo chunk of eight-bit samples.
pub fn pcm_deinterleave_stereo_8bit(src: &[u8], dst: &mut [u8]) -> (r: Result<()>)
    ensures
        match r {
            Ok(_) => src@.len() % 2 == 0 && old(dst)@.len() == src@.len() && final(dst)@
                == interleaved(src@),
            Err(e) => final(dst)@ == old(dst)@ && if src@.len() % 2 != 0 {
                e@ == stereo8_odd(src@.len())
            } else {
                old(dst)@.len() != src@.len() && e@ == stereo8_length(src@.len(), old(dst)@.len())
            },
        },
{
    if src.len() % 2 != 0 {
        return Err(
            CinepakError::invalid(
                cat_dec(
                    lit("FILM PCM: stereo 8-bit chunk length must be even, got "),
                    src.len() as u64,
                ),
            ),
        );
    }
    if dst.len() != src.len() {
        let text = cat_dec(
            lit("FILM PCM: stereo 8-bit interleave length mismatch (src "),
            src.len() as u64,
        );
        let text = cat_dec(cat(text, " != dst "), dst.len() as u64);
        return Err(CinepakError::invalid(cat(text, ")")));
    }
    let half: usize = src.len() / 2;
    let mut i: usize = 0;
    while i < half
        invariant
            i <= half,
            2 * half == src@.len(),
            src@.len() <= usize::MAX,
            dst@.len() == src@.len(),
            forall|j: int| 0 <= j < 2 * i ==> dst@[j] == interleaved(src@)[j],
        decreases half - i,
    {
        dst[2 * i] = src[i];
        dst[2 * i + 1] = src[half + i];
        i = i + 1;
    }
    assert(dst@ =~= interleaved(src@));
    Ok(())
}

/// Converts and interleaves the two halves of a stereo chunk of big-endian
/// sixteen-bit samples. The chunk must hold at least one sample for each
/// channel.
pub fn pcm_deinterleave_stereo_16be(src: &[u8], dst: &mut [i16]) -> (r: Result<()>)
    ensures
        match r {
            Ok(_) => src@.len() > 0 && src@.len() % 4 == 0 && old(dst)@.len() == src@.len() / 2
                && final(dst)@ == interleaved(samples16(src@)),
            Err(e) => final(dst)@ == old(dst)@ && if src@.len() == 0 || src@.len() % 4 != 0 {
                e@ == stereo16_ragged(src@.len())
            } else {
                old(dst)@.len() != src@.len() / 2 && e@ == stereo16_length(
                    src@.len(),
                    old(dst)@.len(),
                )
            },
        },
{
    if src.len() == 0 || src.len() % 4 != 0 {
        return Err(
            CinepakError::invalid(
                cat_dec(
                    lit("FILM PCM: stereo 16-bit BE chunk length must be a multiple of 4, got "),
                    src.len() as u64,
                ),
            ),
        );
    }
    let samples: usize = src.len() / 2;
    if dst.len() != samples {
        let text = cat_dec(
            lit("FILM PCM: stereo 16-bit deinterleave length mismatch (src "),
            src.len() as u64,
        );
        let text = cat_dec(cat(text, " bytes ⇒ "), samples as u64);
        let text = cat_dec(cat(text, " samples != dst "), dst.len() as u64);
        return Err(CinepakError::invalid(cat(text, ")")));
    }
    let half: usize = samples / 2;
    let mut i: usize = 0;
    while i < half
        invariant
            i <= half,
            4 * half == src@.len(),
            src@.len() <= usize::MAX,
            dst@.len() == 2 * half,
            forall|j: int| 0 <= j < 2 * i ==> dst@[j] == interleaved(samples16(src@))[j],
        decreases half - i,
    {
        dst[2 * i] = read_sample16(src, 2 * i);
        dst[2 * i + 1] = read_sample16(src, 2 * (half + i));
        i = i + 1;
    }
    assert(dst@ =~= interleaved(samples16(src@)));
    Ok(())
}

/// Samples of eight bits widened to sixteen.
pub open spec fn widened(s: Seq<i8>) -> Seq<i16> {
    s.map_values(|x: i8| x as i16)
}

/// The samples of an audio chunk, in the order of playing. `None` where the
/// format is not linear PCM of eight or sixteen bits in one or two channels,
/// or where the chunk ends inside a sample.
pub open spec fn chunk_samples(f: FilmAudioFormat, src: Seq<u8>) -> Option<Seq<i16>> {
    match f {
        FilmAudioFormat::LinearPcm { channels, bits_per_sample, sign_convention, .. } => {
            if bits_per_sample == 8 && channels == 1 {
                Some(widened(samples8(src, sign_convention)))
            } else if bits_per_sample == 8 && channels == 2 && src.len() % 2 == 0 {
                Some(interleaved(widened(samples8(src, sign_convention))))
            } else if bits_per_sample == 16 && channels == 1 && src.len() % 2 == 0 {
                Some(samples16(src))
            } else if bits_per_sample == 16 && channels == 2 && src.len() > 0 && src.len() % 4
                == 0 {
                Some(interleaved(samples16(src)))
            } else {
                None
            }
        },
        _ => None,
    }
}

impl FilmAudioFormat {
    /// Bytes of linear PCM in one second; `None` for other formats and where
    /// a field is zero or a sample is not made of whole bytes.
    pub fn byte_rate_bps(&self) -> (r: Option<u64>)
        ensures
            r == byte_rate(*self),
            r matches Some(n) ==> n > 0,
    {
        match *self {
            FilmAudioFormat::LinearPcm { channels, bits_per_sample, sample_rate_hz, .. } => {
                if channels == 0 || bits_per_sample == 0 || sample_rate_hz == 0 {
                    return None;
                }
                if bits_per_sample % 8 != 0 {
                    return None;
                }
                let bytes: u64 = (bits_per_sample as u64) / 8;
                assert(0 < channels * bytes <= 255 * 31) by (nonlinear_arith)
                    requires
                        0 < channels <= 255,
                        0 < bytes,
                        bytes <= 31,
                ;
                assert(0 < channels * bytes * sample_rate_hz <= 255 * 31 * 65535) by (nonlinear_arith)
                    requires
                        0 < channels * bytes <= 255 * 31,
                        0 < sample_rate_hz,
                        sample_rate_hz <= 65535,
                ;
                Some((channels as u64) * bytes * (sample_rate_hz as u64))
            },
            _ => None,
        }
    }

    /// Whether the format is linear PCM.
    pub fn is_linear_pcm(&self) -> (r: bool)
        ensures
            r == (*self is LinearPcm),
    {
        match self {
            FilmAudioFormat::LinearPcm { .. } => true,
            _ => false,
        }
    }

    /// The samples of an audio chunk, in the order of playing; samples of
    /// eight bits keep their values.
    pub fn decode_chunk_to_i16(&self, src: &[u8]) -> (r: Option<Vec<i16>>)
        ensures
            match r {
                Some(v) => chunk_samples(*self, src@) == Some(v@),
                None => chunk_samples(*self, src@) is None,
            },
    {
        match *self {
            FilmAudioFormat::LinearPcm { channels, bits_per_sample, sign_convention, .. } => {
                if bits_per_sample == 8 && channels == 1 {
                    Some(decode_8bit_mono(src, sign_convention))
                } else if bits_per_sample == 8 && channels == 2 {
                    if src.len() % 2 != 0 {
                        return None;
                    }
                    Some(decode_8bit_stereo(src, sign_convention))
                } else if bits_per_sample == 16 && channels == 1 {
                    let mut out: Vec<i16> = zero_samples(src.len() / 2);
                    match pcm_decode_16be_to_i16(src, out.as_mut_slice()) {
                        Ok(_) => Some(out),
                        Err(_) => None,
                    }
                } else if bits_per_sample == 16 && channels == 2 {
                    let mut out: Vec<i16> = zero_samples(src.len() / 2);
                    match pcm_deinterleave_stereo_16be(src, out.as_mut_slice()) {
                        Ok(_) => Some(out),
                        Err(_) => None,
                    }
                } else {
                    None
                }
            },
            _ => None,
        }
    }
}

fn zero_samples(n: usize) -> (r: Vec<i16>)
    ensures
        r@.len() == n,
{
    vec![0i16; n]
}

fn decode_8bit_mono(src: &[u8], c: PcmSignConvention) -> (r: Vec<i16>)
    ensures
        r@ == widened(samples8(src@, c)),
{
    let mut tmp: Vec<i8> = vec![0i8; src.len()];
    let _ = pcm_decode_8bit(src, c, tmp.as_mut_slice());
    let mut out: Vec<i16> = Vec::new();
    let mut i: usize = 0;
    while i < tmp.len()
        invariant
            i <= tmp@.len(),
            tmp@ == samples8(src@, c),
            out@.len() == i,
            forall|j: int| 0 <= j < i ==> out@[j] == tmp@[j] as i16,
        decreases tmp@.len() - i,
    {
        out.push(tmp[i] as i16);
        i = i + 1;
    }
    assert(out@ =~= widened(samples8(src@, c)));
    out
}

fn decode_8bit_stereo(src: &[u8], c: PcmSignConvention) -> (r: Vec<i16>)
    requires
        src@.len() % 2 == 0,
    ensures
        r@ == interleaved(widened(samples8(src@, c))),
{
    let mono = decode_8bit_mono(src, c);
    let total: usize = mono.len();
    let half: usize = total / 2;
    let mut out: Vec<i16> = Vec::new();
    let mut i: usize = 0;
    while i < half
        invariant
            i <= half,
            2 * half == total,
            total == mono@.len(),
            out@.len() == 2 * i,
            forall|j: int| 0 <= j < 2 * i ==> out@[j] == interleaved(mono@)[j],
        decreases half - i,
    {
        out.push(mono[i]);
        out.push(mono[half + i]);
        i = i + 1;
    }
    assert(out@ =~= interleaved(mono@));
    out
}

} // verus!
