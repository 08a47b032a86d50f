//! How a FILM file and its audio are written.

use vstd::prelude::*;
use crate::demux;
use crate::film::{self, Fdsc, FilmAudioFormat, PcmSignConvention};
use crate::stab::{self, SampleKind, SampleRecord};

verus! {

/// The number that four bytes make, the first one highest.
pub open spec fn word(b: Seq<u8>, i: int) -> int {
    16777216 * b[i] + 65536 * b[i + 1] + 256 * b[i + 2] + b[i + 3]
}

/// Whether a file starts with a head of sixteen bytes: the letters `FILM`,
/// the length of all headers, a version and a spare word.
pub open spec fn has_film_head(b: Seq<u8>) -> bool {
    &&& b.len() >= 16
    &&& b[0] == 'F' as u8 && b[1] == 'I' as u8 && b[2] == 'L' as u8 && b[3] == 'M' as u8
    &&& word(b, 4) >= 16
}

/// Whether a description of 20 or 32 bytes follows: the letters `FDSC`, its
/// length, and its fields.
pub open spec fn has_description(b: Seq<u8>) -> bool {
    &&& b.len() >= 24
    &&& b[16] == 'F' as u8 && b[17] == 'D' as u8 && b[18] == 'S' as u8 && b[19] == 'C' as u8
    &&& word(b, 20) == 20 || word(b, 20) == 32
    &&& b.len() >= 16 + word(b, 20)
}

/// Whether at `p` a table of samples follows: the letters `STAB`, its length,
/// the ticks in one second, the number of records, and sixteen bytes for each
/// record.
pub open spec fn has_table(b: Seq<u8>, p: int) -> bool {
    &&& b.len() >= p + 16
    &&& b[p] == 'S' as u8 && b[p + 1] == 'T' as u8 && b[p + 2] == 'A' as u8 && b[p + 3] == 'B' as u8
    &&& b.len() >= p + 16 + 16 * word(b, p + 12)
}

proof fn signature(b: Seq<u8>, i: int, s: Seq<u8>, v: u32)
    requires
        s.len() == 4,
        word(s, 0) == v,
    ensures
        crate::bits::be32(b, i) == v <==> b[i] == s[0] && b[i + 1] == s[1] && b[i + 2] == s[2]
            && b[i + 3] == s[3],
        crate::bits::be32(b, i) == word(b, i),
{
}

proof fn signatures()
    ensures
        'F' as u8 == 0x46 && 'I' as u8 == 0x49 && 'L' as u8 == 0x4c && 'M' as u8 == 0x4d,
        'D' as u8 == 0x44 && 'S' as u8 == 0x53 && 'C' as u8 == 0x43,
        'T' as u8 == 0x54 && 'A' as u8 == 0x41 && 'B' as u8 == 0x42,
{
}

/// A file is accepted exactly where its three headers follow one another, and
/// what is read of them stands in their bytes.
pub proof fn film_headers_in_bytes(b: Seq<u8>)
    ensures
        demux::film_file(b) is Ok <==> has_film_head(b) && has_description(b) && has_table(
            b,
            16 + word(b, 20),
        ),
        demux::film_file(b) matches Ok(f) ==> {
            let p = 16 + word(b, 20);
            let long = word(b, 20) == 32;
            &&& f.film_header.header_length == word(b, 4)
            &&& f.film_header.version@ == b.subrange(8, 12)
            &&& f.film_header.reserved == word(b, 12)
            &&& f.fdsc.video_codec@ == b.subrange(24, 28)
            &&& f.fdsc.height == word(b, 28)
            &&& f.fdsc.width == word(b, 32)
            &&& long ==> f.fdsc.bits_per_pixel == b[36] && f.fdsc.audio_channels == b[37]
                && f.fdsc.audio_bits == b[38] && f.fdsc.audio_compression == b[39]
                && f.fdsc.audio_sample_rate == 256 * b[40] + b[41]
            &&& !long ==> f.fdsc.bits_per_pixel == 0 && f.fdsc.audio_channels == 0
                && f.fdsc.audio_bits == 0 && f.fdsc.audio_compression == 0
                && f.fdsc.audio_sample_rate == 0
            &&& f.stab_header.base_frequency == word(b, p + 8)
            &&& f.stab_header.num_entries == word(b, p + 12)
            &&& f.samples.len() == word(b, p + 12)
            &&& forall|i: int|
                0 <= i < f.samples.len() ==> {
                    let s = #[trigger] f.samples[i];
                    &&& s.sample_offset == word(b, p + 16 + 16 * i)
                    &&& s.sample_length == word(b, p + 16 + 16 * i + 4)
                    &&& s.sample_info_1 == word(b, p + 16 + 16 * i + 8)
                    &&& s.sample_info_2 == word(b, p + 16 + 16 * i + 12)
                }
        },
{
    signatures();
    signature(b, 0, seq![0x46u8, 0x49, 0x4c, 0x4d], 0x46494c4d);
    if b.len() >= 16 {
        let d = b.subrange(16, b.len() as int);
        if d.len() >= 8 {
            signature(d, 0, seq![0x46u8, 0x44, 0x53, 0x43], 0x46445343);
            assert(word(d, 4) == word(b, 20));
            let p = 16 + word(b, 20);
            signature(b, p, seq![0x53u8, 0x54, 0x41, 0x42], 0x53544142);
            if has_description(b) {
                assert(word(d, 12) == word(b, 28) && word(d, 16) == word(b, 32));
            }
            if demux::film_file(b) is Ok {
                let f = demux::film_file(b)->Ok_0;
                assert(f.film_header.version@ =~= b.subrange(8, 12));
                assert(f.fdsc.video_codec@ =~= b.subrange(24, 28));
                let r = b.subrange(p + 16, b.len() as int);
                assert forall|i: int| 0 <= i < f.samples.len() implies {
                    let s = #[trigger] f.samples[i];
                    &&& s.sample_offset == word(b, p + 16 + 16 * i)
                    &&& s.sample_length == word(b, p + 16 + 16 * i + 4)
                    &&& s.sample_info_1 == word(b, p + 16 + 16 * i + 8)
                    &&& s.sample_info_2 == word(b, p + 16 + 16 * i + 12)
                } by {
                    assert(f.samples[i] == stab::record_at(r, 16 * i));
                    assert(forall|j: int| 0 <= j < 16 ==> r[16 * i + j] == #[trigger] b[p + 16 + (16 * i + j)]);
                    assert(word(r, 16 * i) == word(b, p + 16 + 16 * i)) by {
                        assert(r[16 * i + 0] == b[p + 16 + (16 * i + 0)]);
                    }
                    assert(word(r, 16 * i + 4) == word(b, p + 16 + 16 * i + 4));
                    assert(word(r, 16 * i + 8) == word(b, p + 16 + 16 * i + 8));
                    assert(word(r, 16 * i + 12) == word(b, p + 16 + 16 * i + 12));
                }
            }
        }
    }
}

/// The first word of what a record says of its sample is all ones for audio;
/// for video its top bit is clear for a frame that stands alone, and the rest
/// is the timestamp.
pub proof fn record_words(s: SampleRecord)
    ensures
        stab::audio(s) <==> s.sample_info_1 == u32::MAX,
        stab::key(s) ==> stab::ticks(s) == s.sample_info_1,
        !stab::key(s) ==> stab::ticks(s) == s.sample_info_1 - 2147483648,
        stab::key(s) <==> s.sample_info_1 <= 2147483647,
{
}

/// A list of picked records holds exactly those that were to be picked, in
/// the order of the table, each with its place.
pub proof fn picked_are_listed(
    s: Seq<SampleRecord>,
    n: int,
    f: spec_fn(SampleRecord) -> bool,
)
    requires
        0 <= n <= s.len(),
        n <= usize::MAX,
    ensures
        ({
            let p = demux::picked(s, n, f);
            &&& forall|i: int|
                0 <= i < p.len() ==> 0 <= (#[trigger] p[i]).0 < n && p[i].1 == s[p[i].0 as int] && f(
                    p[i].1,
                )
            &&& forall|i: int, j: int| 0 <= i < j < p.len() ==> (#[trigger] p[i]).0 < (#[trigger] p[j]).0
            &&& forall|k: int|
                0 <= k < n && f(#[trigger] s[k]) ==> p.contains((k as usize, s[k]))
        }),
    decreases n,
{
    if n > 0 {
        picked_are_listed(s, n - 1, f);
        let before = demux::picked(s, n - 1, f);
        let p = demux::picked(s, n, f);
        assert forall|i: int| 0 <= i < p.len() implies 0 <= (#[trigger] p[i]).0 < n && p[i].1
            == s[p[i].0 as int] && f(p[i].1) by {
            if i < before.len() {
                assert(p[i] == before[i]);
            }
        }
        assert forall|i: int, j: int| 0 <= i < j < p.len() implies (#[trigger] p[i]).0 < (
        #[trigger] p[j]).0 by {
            assert(p[i] == before[i]);
            if j < before.len() {
                assert(p[j] == before[j]);
            }
        }
        assert forall|k: int| 0 <= k < n && f(#[trigger] s[k]) implies p.contains(
            (k as usize, s[k]),
        ) by {
            if k == n - 1 {
                assert(p[p.len() - 1] == (k as usize, s[k]));
            } else {
                assert(before.contains((k as usize, s[k])));
                let i = choose|i: int| 0 <= i < before.len() && before[i] == (k as usize, s[k]);
                assert(p[i] == (k as usize, s[k]));
            }
        }
    }
}

/// The lengths of listed records, added up.
pub open spec fn listed_bytes(p: Seq<(usize, SampleRecord)>, k: int) -> int
    decreases k,
{
    if k <= 0 {
        0
    } else {
        listed_bytes(p, k - 1) + p[k - 1].1.sample_length
    }
}

proof fn listed_kept(a: Seq<(usize, SampleRecord)>, b: Seq<(usize, SampleRecord)>, k: int)
    requires
        forall|i: int| 0 <= i < k ==> a[i] == b[i],
    ensures
        listed_bytes(a, k) == listed_bytes(b, k),
    decreases k,
{
    if k > 0 {
        listed_kept(a, b, k - 1);
    }
}

/// The bytes of audio are those of the listed audio samples.
pub proof fn audio_bytes_are_listed(s: Seq<SampleRecord>, n: int)
    requires
        0 <= n <= s.len(),
    ensures
        ({
            let p = demux::picked(s, n, |r: SampleRecord| stab::audio(r));
            demux::audio_bytes(s, n) == listed_bytes(p, p.len() as int)
        }),
    decreases n,
{
    if n > 0 {
        audio_bytes_are_listed(s, n - 1);
        let before = demux::picked(s, n - 1, |r: SampleRecord| stab::audio(r));
        let p = demux::picked(s, n, |r: SampleRecord| stab::audio(r));
        listed_kept(before, p, before.len() as int);
        if stab::audio(s[n - 1]) {
            assert(p == before.push(((n - 1) as usize, s[n - 1])));
        }
    }
}

/// No frame starts after the video ends, and one that ends where it does has
/// the latest timestamp.
pub proof fn video_ends_with_last_frame(s: Seq<SampleRecord>, d: u32)
    requires
        demux::is_duration(s, Some(d)),
    ensures
        forall|j: int|
            0 <= j < s.len() && (#[trigger] s[j]).sample_info_1 != u32::MAX ==> s[j].sample_info_1
                % 0x80000000 <= d,
        exists|i: int|
            {
                &&& 0 <= i < s.len()
                &&& (#[trigger] s[i]).sample_info_1 != u32::MAX
                &&& d == s[i].sample_info_1 % 0x80000000 + s[i].sample_info_2 || (d == u32::MAX
                    && s[i].sample_info_1 % 0x80000000 + s[i].sample_info_2 > u32::MAX)
                &&& forall|j: int|
                    0 <= j < s.len() && (#[trigger] s[j]).sample_info_1 != u32::MAX
                        ==> s[j].sample_info_1 % 0x80000000 <= s[i].sample_info_1 % 0x80000000
            },
{
    let i = choose|i: int| #[trigger] demux::is_last_frame(s, i) && d == demux::frame_end(s[i]);
    assert(s[i].sample_info_1 != u32::MAX);
}

/// A sample as a byte.
pub open spec fn byte_of(x: int, c: PcmSignConvention) -> u8 {
    if x >= 0 {
        x as u8
    } else {
        match c {
            PcmSignConvention::TwosComplement => (256 + x) as u8,
            PcmSignConvention::SignMagnitude => (128 - x) as u8,
        }
    }
}

/// Samples of eight bits as bytes.
pub open spec fn bytes_of8(x: Seq<i16>, c: PcmSignConvention) -> Seq<u8> {
    Seq::new(x.len(), |i: int| byte_of(x[i] as int, c))
}

/// Samples of sixteen bits as bytes, the higher one first.
pub open spec fn bytes_of16(x: Seq<i16>) -> Seq<u8> {
    Seq::new(
        2 * x.len(),
        |i: int|
            if i % 2 == 0 {
                ((65536 + x[i / 2]) / 256 % 256) as u8
            } else {
                ((65536 + x[i / 2]) % 256) as u8
            },
    )
}

/// Samples that eight bits can hold; in sign and magnitude that leaves out
/// the lowest number.
pub open spec fn small(x: Seq<i16>, c: PcmSignConvention) -> bool {
    forall|i: int|
        0 <= i < x.len() ==> -128 <= #[trigger] x[i] <= 127 && (c
            == PcmSignConvention::SignMagnitude ==> -127 <= x[i])
}

proof fn byte_comes_back(x: i16, c: PcmSignConvention)
    requires
        -128 <= x <= 127,
        c == PcmSignConvention::SignMagnitude ==> -127 <= x,
    ensures
        film::sample8(byte_of(x as int, c), c) as i16 == x,
{
}

proof fn word_comes_back(x: Seq<i16>, b: Seq<u8>, at: int, i: int)
    requires
        0 <= i < x.len(),
        0 <= at,
        at + 2 * x.len() <= b.len(),
        forall|k: int| 0 <= k < 2 * x.len() ==> b[at + k] == #[trigger] bytes_of16(x)[k],
    ensures
        film::sample16(b, at + 2 * i) == x[i],
{
    assert(b[at + 2 * i] == bytes_of16(x)[2 * i]);
    assert(b[at + (2 * i + 1)] == bytes_of16(x)[2 * i + 1]);
    let v = 65536 + x[i];
    assert((2 * i) / 2 == i && (2 * i + 1) / 2 == i);
    assert(b[at + 2 * i] == v / 256 % 256 && b[at + 2 * i + 1] == v % 256);
}

/// Samples of one channel come back from the bytes that they were written as.
pub proof fn mono_comes_back(f: FilmAudioFormat, x: Seq<i16>)
    requires
        f matches FilmAudioFormat::LinearPcm { channels, bits_per_sample, sign_convention, .. }
            && channels == 1 && (bits_per_sample == 16 || (bits_per_sample == 8 && small(
            x,
            sign_convention,
        ))),
    ensures
        f matches FilmAudioFormat::LinearPcm { bits_per_sample, sign_convention, .. }
            && film::chunk_samples(
            f,
            if bits_per_sample == 8 {
                bytes_of8(x, sign_convention)
            } else {
                bytes_of16(x)
            },
        ) == Some(x),
{
    if let FilmAudioFormat::LinearPcm { channels, bits_per_sample, sign_convention, .. } = f {
        if bits_per_sample == 8 {
            let b = bytes_of8(x, sign_convention);
            let r = film::widened(film::samples8(b, sign_convention));
            assert forall|i: int| 0 <= i < x.len() implies r[i] == x[i] by {
                byte_comes_back(x[i], sign_convention);
            }
            assert(r =~= x);
        } else {
            let b = bytes_of16(x);
            let r = film::samples16(b);
            assert forall|i: int| 0 <= i < x.len() implies r[i] == x[i] by {
                word_comes_back(x, b, 0, i);
            }
            assert(r =~= x);
        }
    }
}

/// Samples of two channels come back from the bytes that they were written
/// as, the left channel before the right one: left and right in turn.
#[verifier::rlimit(50)]
pub proof fn stereo_comes_back(f: FilmAudioFormat, left: Seq<i16>, right: Seq<i16>, i: int)
    requires
        left.len() == right.len(),
        0 <= i < left.len(),
        f matches FilmAudioFormat::LinearPcm { channels, bits_per_sample, sign_convention, .. }
            && channels == 2 && (bits_per_sample == 16 || (bits_per_sample == 8 && small(
            left,
            sign_convention,
        ) && small(right, sign_convention))),
    ensures
        f matches FilmAudioFormat::LinearPcm { bits_per_sample, sign_convention, .. } && ({
            let r = film::chunk_samples(
                f,
                if bits_per_sample == 8 {
                    bytes_of8(left, sign_convention) + bytes_of8(right, sign_convention)
                } else {
                    bytes_of16(left) + bytes_of16(right)
                },
            );
            &&& r is Some
            &&& r->0.len() == left.len() + right.len()
            &&& r->0[2 * i] == left[i]
            &&& r->0[2 * i + 1] == right[i]
        }),
{
    let n = left.len() as int;
    assert((2 * i) / 2 == i && (2 * i + 1) / 2 == i && (2 * i) % 2 == 0 && (2 * i + 1) % 2 == 1);
    if let FilmAudioFormat::LinearPcm { channels, bits_per_sample, sign_convention, .. } = f {
        if bits_per_sample == 8 {
            let b = bytes_of8(left, sign_convention) + bytes_of8(right, sign_convention);
            assert(b[i] == byte_of(left[i] as int, sign_convention));
            assert(b[n + i] == byte_of(right[i] as int, sign_convention));
            byte_comes_back(left[i], sign_convention);
            byte_comes_back(right[i], sign_convention);
            assert(b.len() / 2 == n);
        } else {
            let b = bytes_of16(left) + bytes_of16(right);
            assert(b.len() == 4 * n);
            assert forall|k: int| 0 <= k < 2 * n implies b[0 + k] == #[trigger] bytes_of16(left)[k] by {}
            assert forall|k: int| 0 <= k < 2 * n implies b[2 * n + k] == #[trigger] bytes_of16(right)[k] by {}
            word_comes_back(left, b, 0, i);
            word_comes_back(right, b, 2 * n, i);
            let s = film::samples16(b);
            assert(s.len() == 2 * n);
            assert(s[i] == left[i]);
            assert(s[n + i] == right[i]);
        }
    }
}

/// One second of linear PCM takes the bits of all channels' samples, where
/// samples are made of whole bytes.
pub proof fn second_of_audio(f: FilmAudioFormat)
    ensures
        film::byte_rate(f) matches Some(n) ==> f matches FilmAudioFormat::LinearPcm {
            channels,
            bits_per_sample,
            sample_rate_hz,
            ..
        } && 8 * n == channels * bits_per_sample * sample_rate_hz && n > 0,
        f matches FilmAudioFormat::LinearPcm { channels, bits_per_sample, sample_rate_hz, .. }
            && channels > 0 && bits_per_sample > 0 && bits_per_sample % 8 == 0 && sample_rate_hz > 0
            ==> film::byte_rate(f) is Some,
{
    if let FilmAudioFormat::LinearPcm { channels, bits_per_sample, sample_rate_hz, .. } = f {
        if film::byte_rate(f) is Some {
            let k = (bits_per_sample / 8) as int;
            assert(0 < channels * k * sample_rate_hz <= 255 * 31 * 65535) by (nonlinear_arith)
                requires
                    0 < channels <= 255,
                    0 < k <= 31,
                    0 < sample_rate_hz <= 65535,
            ;
            assert(8 * (channels * k * sample_rate_hz) == channels * bits_per_sample * sample_rate_hz)
                by (nonlinear_arith)
                requires
                    bits_per_sample == 8 * k,
            ;
        }
    }
}

/// Whether a byte is a letter, a digit or a full stop.
pub open spec fn printable(c: u8) -> bool {
    ||| '0' as u8 <= c <= '9' as u8
    ||| 'A' as u8 <= c <= 'Z' as u8
    ||| 'a' as u8 <= c <= 'z' as u8
    ||| c == '.' as u8
}

/// The format of audio says what the description does, and samples are in
/// two's complement exactly where the version is written in characters.
pub proof fn audio_as_described(f: Fdsc, v: [u8; 4])
    ensures
        f.audio_channels == 0 && f.audio_bits == 0 && f.audio_compression == 0 && f.audio_sample_rate
            == 0 <==> film::audio_format_of(f, v) is NoAudio,
        match film::audio_format_of(f, v) {
            FilmAudioFormat::NoAudio => true,
            FilmAudioFormat::LinearPcm {
                channels,
                bits_per_sample,
                sample_rate_hz,
                endianness,
                sign_convention,
            } => {
                &&& f.audio_compression == 0
                &&& channels == f.audio_channels
                &&& bits_per_sample == f.audio_bits
                &&& sample_rate_hz == f.audio_sample_rate
                &&& endianness is BigEndian <==> f.audio_bits == 16
                &&& sign_convention is TwosComplement <==> printable(v[0]) && printable(v[1])
                    && printable(v[2]) && printable(v[3])
            },
            FilmAudioFormat::CriAdxAdpcm { channels, sample_rate_hz } => {
                &&& f.audio_compression == 2
                &&& channels == f.audio_channels
                &&& sample_rate_hz == f.audio_sample_rate
            },
            FilmAudioFormat::Unknown { channels, bits_per_sample, sample_rate_hz, compression } => {
                &&& compression == f.audio_compression
                &&& compression != 0 && compression != 2
                &&& channels == f.audio_channels
                &&& bits_per_sample == f.audio_bits
                &&& sample_rate_hz == f.audio_sample_rate
            },
        },
{
}

/// Only `cvid` is Cinepak. Of its files, one whose version is written in
/// characters from `1.0` on has the Saturn's form, one without a version that
/// of the 3DO, and any other the plain one.
pub proof fn variant_by_version(codec: [u8; 4], v: [u8; 4])
    ensures
        demux::variant_of(codec, v) is OutOfScope <==> !(codec[0] == 'c' as u8 && codec[1] == 'v' as u8
            && codec[2] == 'i' as u8 && codec[3] == 'd' as u8),
        demux::variant_of(codec, v) is DeviantLemmings3do ==> v[0] == 0 && v[1] == 0 && v[2] == 0 && v[3]
            == 0,
        demux::variant_of(codec, v) is DeviantSaturn ==> printable(v[0]) && printable(v[1]) && printable(
            v[2],
        ) && printable(v[3]) && v[0] >= '1' as u8,
        demux::variant_of(codec, v) !is OutOfScope && v[0] == '1' as u8 && v[1] == '.' as u8
            && '0' as u8 <= v[2] <= '9' as u8 && printable(v[3]) ==> demux::variant_of(codec, v)
            is DeviantSaturn,
        demux::variant_of(codec, v) !is OutOfScope && v[0] == 0 && v[1] == 0 && v[2] == 0 && v[3] == 0
            ==> demux::variant_of(codec, v) is DeviantLemmings3do,
        demux::variant_of(codec, v) !is OutOfScope && v[0] == '0' as u8 ==> demux::variant_of(codec, v)
            is Standard,
{
}

/// The frame to start from for a tick is the first one at its own tick, of
/// the frames that stand alone; every other such frame with a later tick is
/// later than the tick asked for.
pub proof fn seek_goes_back(s: Seq<SampleRecord>, t: u32, i: int, j: int)
    requires
        demux::is_seek_target(s, t, i),
        0 <= j < s.len(),
        stab::key(s[j]),
    ensures
        stab::key(s[i]),
        stab::ticks(s[i]) <= t,
        stab::ticks(s[j]) > stab::ticks(s[i]) ==> stab::ticks(s[j]) > t,
        stab::ticks(s[j]) == stab::ticks(s[i]) ==> i <= j,
{
}

/// There is only one frame to start from for a tick, and none for an earlier
/// tick lies after it.
pub proof fn seek_is_settled(s: Seq<SampleRecord>, t: u32, i: int, earlier: u32, j: int)
    requires
        demux::is_seek_target(s, t, i),
        demux::is_seek_target(s, earlier, j),
        earlier <= t,
    ensures
        stab::ticks(s[j]) <= stab::ticks(s[i]),
        earlier == t ==> i == j,
        earlier >= stab::ticks(s[i]) ==> i == j,
{
}

/// Where frames share the latest tick, the first of them tells where the
/// video ends; there is no end only where there are no frames.
pub proof fn first_of_last_frames_ends(s: Seq<SampleRecord>, d: Option<u32>, i: int)
    requires
        demux::is_duration(s, d),
        0 <= i < s.len(),
        s[i].sample_info_1 != u32::MAX,
        forall|j: int|
            0 <= j < s.len() && (#[trigger] s[j]).sample_info_1 != u32::MAX ==> s[j].sample_info_1
                % 0x80000000 <= s[i].sample_info_1 % 0x80000000,
        forall|j: int|
            0 <= j < i && (#[trigger] s[j]).sample_info_1 != u32::MAX ==> s[j].sample_info_1
                % 0x80000000 < s[i].sample_info_1 % 0x80000000,
    ensures
        d is Some,
        s[i].sample_info_1 % 0x80000000 + s[i].sample_info_2 <= u32::MAX ==> d->0
            == s[i].sample_info_1 % 0x80000000 + s[i].sample_info_2,
        s[i].sample_info_1 % 0x80000000 + s[i].sample_info_2 > u32::MAX ==> d->0 == u32::MAX,
{
    assert(!stab::audio(s[i]));
    let k = choose|k: int| #[trigger] demux::is_last_frame(s, k) && d == Some(demux::frame_end(s[k]));
    assert(demux::is_last_frame(s, k));
    assert(s[k].sample_info_1 != u32::MAX);
}

/// The kind of a sample by the two words of its record: audio, well formed
/// where the second word is one; or a frame, which stands alone where the top
/// bit of the first word is clear, with its timestamp and the second word as
/// the time to the next frame.
pub proof fn kinds_in_words(s: SampleRecord)
    ensures
        s.sample_info_1 == u32::MAX ==> stab::kind_of(s) == (SampleKind::Audio {
            well_formed: s.sample_info_2 == 1,
        }),
        s.sample_info_1 <= 2147483647 ==> stab::kind_of(s) == (SampleKind::VideoKeyframe {
            timestamp_ticks: s.sample_info_1,
            next_frame_ticks: s.sample_info_2,
        }),
        2147483647 < s.sample_info_1 < u32::MAX ==> stab::kind_of(s) == (SampleKind::VideoInter {
            timestamp_ticks: (s.sample_info_1 - 2147483648) as u32,
            next_frame_ticks: s.sample_info_2,
        }),
{
}

/// A chunk of audio is read where its samples have eight or sixteen bits, in
/// one or two channels, and it holds whole samples for every channel, and at
/// least one of sixteen bits in two channels. It then has as many samples as
/// its bits hold.
pub proof fn samples_in_chunk(f: FilmAudioFormat, src: Seq<u8>)
    ensures
        film::chunk_samples(f, src) is Some ==> f is LinearPcm,
        f matches FilmAudioFormat::LinearPcm { channels, bits_per_sample, .. } ==> {
            let r = film::chunk_samples(f, src);
            &&& r is Some <==> {
                ||| bits_per_sample == 8 && channels == 1
                ||| bits_per_sample == 8 && channels == 2 && src.len() % 2 == 0
                ||| bits_per_sample == 16 && channels == 1 && src.len() % 2 == 0
                ||| bits_per_sample == 16 && channels == 2 && src.len() % 4 == 0 && src.len() > 0
            }
            &&& r matches Some(s) ==> s.len() == if bits_per_sample == 8 {
                src.len()
            } else {
                src.len() / 2
            }
        },
{
}

} // verus!
