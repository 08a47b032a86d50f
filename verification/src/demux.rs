//! The headers of a FILM file as a whole.

use vstd::prelude::*;
use crate::bits::{self, part, read32};
use crate::error::{self, invalid, CinepakError, ErrorView, Result};
use crate::film::{
    self, cat_tag, CinepakVariant, Fdsc, FilmAudioFormat, FilmHeader, FILM_HEADER_MIN_SIZE,
    STAB_SIGNATURE,
};
use crate::film::is_stamped;
use crate::stab::{self, SampleRecord, StabHeader, SAMPLE_RECORD_SIZE, STAB_HEADER_SIZE};
use crate::text::{self, cat, cat_dec, lit};

verus! {

/// The headers of a file. The samples themselves lie behind them.
#[derive(Debug)]
pub struct FilmDemuxer {
    pub film_header: FilmHeader,
    pub fdsc: Fdsc,
    pub stab_header: StabHeader,
    pub samples: Vec<SampleRecord>,
}

/// What the headers of a file hold.
pub struct FilmView {
    pub film_header: FilmHeader,
    pub fdsc: Fdsc,
    pub stab_header: StabHeader,
    pub samples: Seq<SampleRecord>,
}

impl View for FilmDemuxer {
    type V = FilmView;

    open spec fn view(&self) -> FilmView {
        FilmView {
            film_header: self.film_header,
            fdsc: self.fdsc,
            stab_header: self.stab_header,
            samples: self.samples@,
        }
    }
}

impl Clone for FilmDemuxer {
    fn clone(&self) -> (r: Self)
        ensures
            r@ == self@,
    {
        let samples = copy_records(&self.samples);
        FilmDemuxer {
            film_header: self.film_header,
            fdsc: self.fdsc,
            stab_header: self.stab_header,
            samples,
        }
    }
}

fn copy_records(v: &Vec<SampleRecord>) -> (r: Vec<SampleRecord>)
    ensures
        r@ == v@,
{
    let mut out: Vec<SampleRecord> = Vec::new();
    let mut i: usize = 0;
    while i < v.len()
        invariant
            i <= v@.len(),
            out@ == v@.subrange(0, i as int),
        decreases v@.len() - i,
    {
        out.push(v[i]);
        i = i + 1;
        assert(out@ =~= v@.subrange(0, i as int));
    }
    assert(out@ =~= v@);
    out
}

/// Message of a file that ends before the sample table.
pub open spec fn table_short() -> ErrorView {
    ErrorView::InvalidData("FILM: STAB chunk header truncated after FDSC"@)
}

/// Message of a file without a sample table.
pub open spec fn table_unsigned(t: [u8; 4]) -> ErrorView {
    ErrorView::InvalidData("FILM: expected 'STAB' signature after FDSC, got "@ + film::tag_text(t))
}

/// Message of a file that ends inside the sample table.
pub open spec fn table_truncated(needed: nat, available: nat) -> ErrorView {
    ErrorView::InvalidData(
        "FILM: STAB sample records truncated ("@ + text::dec(needed) + " needed, "@ + text::dec(available)
            + " available)"@,
    )
}

/// The sample table at `b[p..]`.
pub open spec fn film_table(b: Seq<u8>, p: int) -> core::result::Result<
    (StabHeader, Seq<SampleRecord>),
    ErrorView,
> {
    let n = bits::be32(b, p + 12);
    if b.len() < p + STAB_HEADER_SIZE {
        Err(table_short())
    } else if bits::be32(b, p) != STAB_SIGNATURE {
        Err(table_unsigned(film::tag_at(b, p)))
    } else if b.len() < p + STAB_HEADER_SIZE + n * SAMPLE_RECORD_SIZE {
        Err(
            table_truncated(
                (n * SAMPLE_RECORD_SIZE) as nat,
                (b.len() - (p + STAB_HEADER_SIZE)) as nat,
            ),
        )
    } else {
        Ok(
            (
                StabHeader { base_frequency: bits::be32(b, p + 8), num_entries: n },
                stab::records_in(b.subrange(p + STAB_HEADER_SIZE, b.len() as int), n as nat),
            ),
        )
    }
}

/// The headers of the file in `b`, or what is wrong with them.
pub open spec fn film_file(b: Seq<u8>) -> core::result::Result<FilmView, ErrorView> {
    match film::film_header(b) {
        Err(e) => Err(e),
        Ok(film_header) => match film::fdsc_chunk(
            b.subrange(FILM_HEADER_MIN_SIZE as int, b.len() as int),
        ) {
            Err(e) => Err(e),
            Ok((fdsc, n)) => match film_table(b, FILM_HEADER_MIN_SIZE + n) {
                Err(e) => Err(e),
                Ok((stab_header, samples)) => Ok(
                    FilmView { film_header, fdsc, stab_header, samples },
                ),
            },
        },
    }
}

/// The records that `f` picks among the first `n`, each with its place.
pub open spec fn picked(
    s: Seq<SampleRecord>,
    n: int,
    f: spec_fn(SampleRecord) -> bool,
) -> Seq<(usize, SampleRecord)>
    decreases n,
{
    if n <= 0 {
        Seq::empty()
    } else if f(s[n - 1]) {
        picked(s, n - 1, f).push(((n - 1) as usize, s[n - 1]))
    } else {
        picked(s, n - 1, f)
    }
}

/// The bytes of audio in the first `n` records.
pub open spec fn audio_bytes(s: Seq<SampleRecord>, n: int) -> nat
    decreases n,
{
    if n <= 0 {
        0
    } else if stab::audio(s[n - 1]) {
        audio_bytes(s, n - 1) + s[n - 1].sample_length as nat
    } else {
        audio_bytes(s, n - 1)
    }
}

/// Whether record `i` is the video frame with the latest timestamp, and the
/// first such one.
pub open spec fn is_last_frame(s: Seq<SampleRecord>, i: int) -> bool {
    &&& 0 <= i < s.len()
    &&& !stab::audio(s[i])
    &&& forall|j: int|
        0 <= j < s.len() && !stab::audio(#[trigger] s[j]) ==> stab::ticks(s[j]) < stab::ticks(s[i]) || (stab::ticks(s[j])
            == stab::ticks(s[i]) && i <= j)
}

/// Where the frame of record `s` ends, in ticks, limited to a `u32`.
pub open spec fn frame_end(s: SampleRecord) -> u32 {
    if stab::ticks(s) + s.sample_info_2 > u32::MAX {
        u32::MAX
    } else {
        (stab::ticks(s) + s.sample_info_2) as u32
    }
}

/// Whether `r` is where the video ends, in ticks.
pub open spec fn is_duration(s: Seq<SampleRecord>, r: Option<u32>) -> bool {
    match r {
        Some(d) => exists|i: int| #[trigger] is_last_frame(s, i) && d == frame_end(s[i]),
        None => forall|j: int| 0 <= j < s.len() ==> stab::audio(#[trigger] s[j]),
    }
}

/// Whether record `i` is the frame to start from for tick `t`: of the frames
/// that stand alone and are not later, the latest, and the first such one.
pub open spec fn is_seek_target(s: Seq<SampleRecord>, t: u32, i: int) -> bool {
    &&& 0 <= i < s.len()
    &&& stab::key(s[i])
    &&& stab::ticks(s[i]) <= t
    &&& forall|j: int|
        0 <= j < s.len() && stab::key(#[trigger] s[j]) && stab::ticks(s[j]) <= t ==> stab::ticks(s[j]) < stab::ticks(s[i])
            || (stab::ticks(s[j]) == stab::ticks(s[i]) && i <= j)
}

/// Whether the four bytes of a version are zero.
pub open spec fn no_version(v: [u8; 4]) -> bool {
    v[0] == 0 && v[1] == 0 && v[2] == 0 && v[3] == 0
}

/// Whether a version written in characters is 1.0 or higher.
pub open spec fn from_one(v: [u8; 4]) -> bool {
    v[0] > 49 || (v[0] == 49 && (v[1] > 46 || (v[1] == 46 && v[2] >= 48)))
}

/// The form of Cinepak in a file of codec `codec` and version `version`.
pub open spec fn variant_of(codec: [u8; 4], version: [u8; 4]) -> CinepakVariant {
    if !film::is_cvid(codec) {
        CinepakVariant::OutOfScope
    } else if film::stamped(version) && from_one(version) {
        CinepakVariant::DeviantSaturn
    } else if no_version(version) {
        CinepakVariant::DeviantLemmings3do
    } else {
        CinepakVariant::Standard
    }
}

fn parse_table(bytes: &[u8], p: usize) -> (r: Result<(StabHeader, Vec<SampleRecord>)>)
    requires
        p <= bytes@.len(),
    ensures
        match r {
            Ok((h, v)) => film_table(bytes@, p as int) == Ok::<
                (StabHeader, Seq<SampleRecord>),
                ErrorView,
            >((h, v@)),
            Err(e) => film_table(bytes@, p as int) == Err::<
                (StabHeader, Seq<SampleRecord>),
                ErrorView,
            >(e@),
        },
{
    let total: usize = bytes.len();
    if total - p < STAB_HEADER_SIZE {
        return Err(invalid("FILM: STAB chunk header truncated after FDSC"));
    }
    if read32(bytes, p) != STAB_SIGNATURE {
        return Err(
            CinepakError::invalid(
                cat_tag(lit("FILM: expected 'STAB' signature after FDSC, got "), bytes, p),
            ),
        );
    }
    let base_frequency: u32 = read32(bytes, p + 8);
    let num_entries: u32 = read32(bytes, p + 12);
    let start: usize = p + STAB_HEADER_SIZE;
    let needed: u64 = (num_entries as u64) * 16;
    if ((total - start) as u64) < needed {
        let text = cat_dec(lit("FILM: STAB sample records truncated ("), needed);
        let text = cat_dec(cat(text, " needed, "), (total - start) as u64);
        return Err(CinepakError::invalid(cat(text, " available)")));
    }
    let rest = part(bytes, start, total);
    let n: usize = num_entries as usize;
    let mut samples: Vec<SampleRecord> = Vec::new();
    let mut i: usize = 0;
    while i < n
        invariant
            i <= n,
            n * 16 <= rest@.len(),
            rest@.len() <= usize::MAX,
            samples@.len() == i,
            forall|j: int| 0 <= j < i ==> samples@[j] == stab::record_at(rest@, 16 * j),
        decreases n - i,
    {
        samples.push(SampleRecord::read(rest, i * 16));
        i = i + 1;
    }
    assert(samples@ =~= stab::records_in(rest@, n as nat));
    Ok((StabHeader { base_frequency, num_entries }, samples))
}

impl FilmDemuxer {
    /// Reads the headers at the start of `bytes`.
    pub fn parse(bytes: &[u8]) -> (r: Result<Self>)
        ensures
            match r {
                Ok(f) => film_file(bytes@) == Ok::<FilmView, ErrorView>(f@),
                Err(e) => film_file(bytes@) == Err::<FilmView, ErrorView>(e@),
            },
    {
        let film_header = match FilmHeader::parse(bytes) {
            Ok(h) => h,
            Err(e) => return Err(e),
        };
        let rest = part(bytes, FILM_HEADER_MIN_SIZE, bytes.len());
        let (fdsc, fdsc_len) = match Fdsc::parse(rest) {
            Ok(f) => f,
            Err(e) => return Err(e),
        };
        let p: usize = FILM_HEADER_MIN_SIZE + fdsc_len as usize;
        match parse_table(bytes, p) {
            Ok((stab_header, samples)) => Ok(
                FilmDemuxer { film_header, fdsc, stab_header, samples },
            ),
            Err(e) => Err(e),
        }
    }

    /// Where sample `idx` starts in the file.
    pub fn sample_file_offset(&self, idx: usize) -> (r: Option<u64>)
        ensures
            match r {
                Some(n) => idx < self.samples@.len() && n == self.film_header.header_length
                    + self.samples@[idx as int].sample_offset,
                None => idx >= self.samples@.len(),
            },
    {
        if idx >= self.samples.len() {
            return None;
        }
        Some(self.film_header.header_length as u64 + self.samples[idx].sample_offset as u64)
    }

    /// The video samples, each with its place in the table.
    pub fn video_samples(&self) -> (r: Vec<(usize, SampleRecord)>)
        ensures
            r@ == picked(
                self.samples@,
                self.samples@.len() as int,
                |s: SampleRecord| !stab::audio(s),
            ),
    {
        let mut out: Vec<(usize, SampleRecord)> = Vec::new();
        let mut i: usize = 0;
        while i < self.samples.len()
            invariant
                i <= self.samples@.len(),
                out@ == picked(self.samples@, i as int, |s: SampleRecord| !stab::audio(s)),
            decreases self.samples@.len() - i,
        {
            if !self.samples[i].is_audio() {
                out.push((i, self.samples[i]));
            }
            i = i + 1;
        }
        out
    }

    /// The audio samples, each with its place in the table.
    pub fn audio_samples(&self) -> (r: Vec<(usize, SampleRecord)>)
        ensures
            r@ == picked(
                self.samples@,
                self.samples@.len() as int,
                |s: SampleRecord| stab::audio(s),
            ),
    {
        let mut out: Vec<(usize, SampleRecord)> = Vec::new();
        let mut i: usize = 0;
        while i < self.samples.len()
            invariant
                i <= self.samples@.len(),
                out@ == picked(self.samples@, i as int, |s: SampleRecord| stab::audio(s)),
            decreases self.samples@.len() - i,
        {
            if self.samples[i].is_audio() {
                out.push((i, self.samples[i]));
            }
            i = i + 1;
        }
        out
    }

    /// The video frames that stand alone, each with its place in the table.
    pub fn keyframes(&self) -> (r: Vec<(usize, SampleRecord)>)
        ensures
            r@ == picked(
                self.samples@,
                self.samples@.len() as int,
                |s: SampleRecord| stab::key(s),
            ),
    {
        let mut out: Vec<(usize, SampleRecord)> = Vec::new();
        let mut i: usize = 0;
        while i < self.samples.len()
            invariant
                i <= self.samples@.len(),
                out@ == picked(self.samples@, i as int, |s: SampleRecord| stab::key(s)),
            decreases self.samples@.len() - i,
        {
            if self.samples[i].is_keyframe() {
                out.push((i, self.samples[i]));
            }
            i = i + 1;
        }
        out
    }

    /// The audio format.
    pub fn audio_format(&self) -> (r: FilmAudioFormat)
        ensures
            r == film::audio_format_of(self.fdsc, self.film_header.version),
    {
        self.fdsc.audio_format(&self.film_header.version)
    }

    /// The length of the audio as a fraction of seconds: its bytes, and the
    /// bytes in one second. `None` where the format has no byte rate or
    /// there are no bytes.
    pub fn audio_duration_seconds(&self) -> (r: Option<(u128, u64)>)
        ensures
            match r {
                Some((bytes, rate)) => film::byte_rate(
                    film::audio_format_of(self.fdsc, self.film_header.version),
                ) == Some(rate) && rate > 0 && bytes > 0 && bytes == audio_bytes(
                    self.samples@,
                    self.samples@.len() as int,
                ),
                None => film::byte_rate(film::audio_format_of(self.fdsc, self.film_header.version)) is None
                    || audio_bytes(self.samples@, self.samples@.len() as int) == 0,
            },
    {
        let rate: u64 = match self.audio_format().byte_rate_bps() {
            Some(n) => n,
            None => return None,
        };
        let mut bytes: u128 = 0;
        let mut i: usize = 0;
        while i < self.samples.len()
            invariant
                i <= self.samples@.len(),
                bytes == audio_bytes(self.samples@, i as int),
                bytes <= i * 0xffffffff,
            decreases self.samples@.len() - i,
        {
            if self.samples[i].is_audio() {
                bytes = bytes + self.samples[i].sample_length as u128;
            }
            i = i + 1;
        }
        if bytes == 0 {
            return None;
        }
        Some((bytes, rate))
    }

    /// Place of the first audio sample whose second word is not one.
    pub fn first_malformed_audio_sample(&self) -> (r: Option<usize>)
        ensures
            match r {
                Some(i) => i < self.samples@.len() && stab::audio(self.samples@[i as int])
                    && self.samples@[i as int].sample_info_2 != 1 && forall|j: int|
                    0 <= j < i && stab::audio(#[trigger] self.samples@[j])
                        ==> self.samples@[j].sample_info_2 == 1,
                None => forall|j: int|
                    0 <= j < self.samples@.len() && stab::audio(#[trigger] self.samples@[j])
                        ==> self.samples@[j].sample_info_2 == 1,
            },
    {
        let mut i: usize = 0;
        while i < self.samples.len()
            invariant
                i <= self.samples@.len(),
                forall|j: int|
                    0 <= j < i && stab::audio(#[trigger] self.samples@[j])
                        ==> self.samples@[j].sample_info_2 == 1,
            decreases self.samples@.len() - i,
        {
            if self.samples[i].is_audio() && !self.samples[i].is_well_formed_audio() {
                return Some(i);
            }
            i = i + 1;
        }
        None
    }

    /// The frame to start decoding from to show tick `target_ticks`: of the
    /// frames that stand alone and are not later, the latest.
    pub fn seek_keyframe_for_tick(&self, target_ticks: u32) -> (r: Option<(usize, SampleRecord)>)
        ensures
            match r {
                Some((i, s)) => is_seek_target(self.samples@, target_ticks, i as int) && s
                    == self.samples@[i as int],
                None => forall|j: int|
                    0 <= j < self.samples@.len() && stab::key(#[trigger] self.samples@[j]) ==> stab::ticks(
                        self.samples@[j],
                    ) > target_ticks,
            },
    {
        let mut best: Option<(usize, SampleRecord)> = None;
        let mut i: usize = 0;
        while i < self.samples.len()
            invariant
                i <= self.samples@.len(),
                match best {
                    Some((b, s)) => b < i && s == self.samples@[b as int] && is_seek_target(
                        self.samples@.subrange(0, i as int),
                        target_ticks,
                        b as int,
                    ),
                    None => forall|j: int|
                        0 <= j < i && stab::key(#[trigger] self.samples@[j]) ==> stab::ticks(self.samples@[j])
                            > target_ticks,
                },
            decreases self.samples@.len() - i,
        {
            let s = self.samples[i];
            let ghost before = self.samples@.subrange(0, i as int);
            let ghost after = self.samples@.subrange(0, i + 1);
            assert(forall|j: int| 0 <= j < i ==> after[j] == #[trigger] before[j]);
            assert(after[i as int] == s);
            if s.is_keyframe() {
                let ts: u32 = s.sample_info_1 % 0x80000000;
                if ts <= target_ticks {
                    let better = match best {
                        Some((_, b)) => ts > b.sample_info_1 % 0x80000000,
                        None => true,
                    };
                    if better {
                        best = Some((i, s));
                    }
                }
            }
            i = i + 1;
        }
        assert(self.samples@.subrange(0, i as int) =~= self.samples@);
        best
    }

    /// Where the video ends, in ticks: the latest timestamp and the ticks
    /// from that frame to the next.
    pub fn duration_ticks(&self) -> (r: Option<u32>)
        ensures
            is_duration(self.samples@, r),
    {
        let mut best: Option<usize> = None;
        let mut i: usize = 0;
        while i < self.samples.len()
            invariant
                i <= self.samples@.len(),
                match best {
                    Some(b) => b < i && is_last_frame(
                        self.samples@.subrange(0, i as int),
                        b as int,
                    ),
                    None => forall|j: int| 0 <= j < i ==> stab::audio(#[trigger] self.samples@[j]),
                },
            decreases self.samples@.len() - i,
        {
            let s = self.samples[i];
            let ghost before = self.samples@.subrange(0, i as int);
            let ghost after = self.samples@.subrange(0, i + 1);
            assert(forall|j: int| 0 <= j < i ==> after[j] == #[trigger] before[j]);
            assert(after[i as int] == s);
            if !s.is_audio() {
                let later = match best {
                    Some(b) => s.sample_info_1 % 0x80000000 > self.samples[b].sample_info_1
                        % 0x80000000,
                    None => true,
                };
                if later {
                    best = Some(i);
                }
            }
            i = i + 1;
        }
        assert(self.samples@.subrange(0, i as int) =~= self.samples@);
        match best {
            Some(b) => {
                let s = self.samples[b];
                assert(is_last_frame(self.samples@, b as int));
                Some((s.sample_info_1 % 0x80000000).saturating_add(s.sample_info_2))
            },
            None => None,
        }
    }

    /// Where the video ends as a fraction of seconds: in ticks, and the ticks
    /// in one second. `None` where there is no video or a second has no
    /// ticks.
    pub fn duration_seconds(&self) -> (r: Option<(u32, u32)>)
        ensures
            match r {
                Some((ticks, base)) => base == self.stab_header.base_frequency && base > 0
                    && is_duration(self.samples@, Some(ticks)),
                None => self.stab_header.base_frequency == 0 || is_duration(self.samples@, None),
            },
    {
        let base: u32 = self.stab_header.base_frequency;
        match self.duration_ticks() {
            Some(ticks) => if base == 0 {
                None
            } else {
                Some((ticks, base))
            },
            None => None,
        }
    }

    /// The form of Cinepak in the file.
    pub fn variant(&self) -> (r: CinepakVariant)
        ensures
            r == variant_of(self.fdsc.video_codec, self.film_header.version),
    {
        if !self.fdsc.is_standard_cinepak() {
            return CinepakVariant::OutOfScope;
        }
        let v = &self.film_header.version;
        let high = v[0] > 49 || (v[0] == 49 && (v[1] > 46 || (v[1] == 46 && v[2] >= 48)));
        if is_stamped(v) && high {
            CinepakVariant::DeviantSaturn
        } else if v[0] == 0 && v[1] == 0 && v[2] == 0 && v[3] == 0 {
            CinepakVariant::DeviantLemmings3do
        } else {
            CinepakVariant::Standard
        }
    }
}

/// The sample table of a file whose headers were read is the table that a
/// reader of the chunk alone finds.
pub proof fn table_agrees(b: Seq<u8>, p: int)
    requires
        0 <= p <= b.len(),
        b.len() <= usize::MAX,
        film_table(b, p) is Ok,
    ensures
        stab::stab_chunk(b.subrange(p, b.len() as int)) is Ok,
        film_table(b, p)->Ok_0.0 == stab::stab_chunk(b.subrange(p, b.len() as int))->Ok_0.0,
        film_table(b, p)->Ok_0.1 == stab::records_in(
            stab::stab_chunk(b.subrange(p, b.len() as int))->Ok_0.1,
            film_table(b, p)->Ok_0.0.num_entries as nat,
        ),
{
    let c = b.subrange(p, b.len() as int);
    let n = bits::be32(b, p + 12) as nat;
    assert(bits::be32(c, 12) == n);
    assert(bits::be32(c, 0) == bits::be32(b, p));
    let whole = b.subrange(p + STAB_HEADER_SIZE, b.len() as int);
    let records = c.subrange(
        STAB_HEADER_SIZE as int,
        STAB_HEADER_SIZE + n * SAMPLE_RECORD_SIZE,
    );
    assert(stab::records_in(whole, n).len() == n);
    assert forall|i: int| 0 <= i < n implies #[trigger] stab::records_in(whole, n)[i] == stab::records_in(
        records,
        n,
    )[i] by {
        let k = 16 * i;
        assert(forall|j: int| k <= j < k + 16 ==> whole[j] == #[trigger] records[j]);
    }
    assert(stab::records_in(whole, n) =~= stab::records_in(records, n));
}

/// Every sample of a file is either video or audio: the two lists together
/// have as many records as the table, and the frames that stand alone are
/// among the video samples.
pub proof fn samples_divided(s: Seq<SampleRecord>, n: int)
    requires
        0 <= n <= s.len(),
    ensures
        picked(s, n, |r: SampleRecord| stab::audio(r)).len() + picked(
            s,
            n,
            |r: SampleRecord| !stab::audio(r),
        ).len() == n,
        picked(s, n, |r: SampleRecord| stab::key(r)).len() <= picked(
            s,
            n,
            |r: SampleRecord| !stab::audio(r),
        ).len(),
    decreases n,
{
    if n > 0 {
        samples_divided(s, n - 1);
    }
}

/// The frame to start from is never later than the tick asked for, and a
/// frame's own timestamp leads to a frame of that timestamp.
pub proof fn seek_reaches_own_tick(s: Seq<SampleRecord>, i: int, k: int)
    requires
        0 <= k < s.len(),
        stab::key(s[k]),
        is_seek_target(s, stab::ticks(s[k]), i),
    ensures
        stab::ticks(s[i]) == stab::ticks(s[k]),
        i <= k,
{
}

} // verus!
