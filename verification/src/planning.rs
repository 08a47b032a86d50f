//! How the macroblocks of a strip are coded.

use vstd::prelude::*;
use crate::codebook::{Codebook, CodebookEntry, PixelMode};
use crate::decoder;
use crate::image::{CinepakPlane, PlaneView};
use crate::options::EncoderOptions;
use crate::quant::{self, centroid, empty_clusters, nearest, Metric};
use crate::sampling::{self, Source, SourceView, FIXED_ONE};
use crate::training::{self, lbg_refine_codebook, median_cut_seeded, Training};
use crate::vector::Mb;

verus! {

/// Left edge of macroblock `i`.
pub open spec fn mb_left(s: SourceView, i: int) -> int {
    4 * (i % (s.width / 4))
}

/// Top edge of macroblock `i` of a strip whose top is `top`.
pub open spec fn mb_top(s: SourceView, top: int, i: int) -> int {
    top + 4 * (i / (s.width / 4))
}

/// Number of macroblocks in a strip.
pub open spec fn strip_mbs(s: SourceView, top: int, bottom: int) -> int {
    (bottom - top) / 4 * (s.width / 4)
}

/// A strip of a picture, with what is known of the frame before.
pub struct StripSource {
    pub picture: SourceView,
    pub top: int,
    pub bottom: int,
    /// The plane of the previous frame, where macroblocks may be skipped.
    pub prev: Option<PlaneView>,
    pub threshold: i64,
}

/// Macroblock `i` of a strip as four entries.
pub open spec fn quads_at(x: StripSource, i: int) -> Seq<CodebookEntry> {
    sampling::block4(x.picture, mb_left(x.picture, i), mb_top(x.picture, x.top, i))
}

/// Macroblock `i` of a strip as one entry.
pub open spec fn single_at(x: StripSource, i: int) -> CodebookEntry {
    sampling::block1(x.picture, mb_left(x.picture, i), mb_top(x.picture, x.top, i))
}

/// Whether macroblock `i` of a strip is skipped.
pub open spec fn skipped_at(x: StripSource, i: int) -> bool {
    match x.prev {
        Some(p) => sampling::still(
            x.picture,
            p,
            mb_left(x.picture, i),
            mb_top(x.picture, x.top, i),
            x.threshold,
        ),
        None => false,
    }
}

/// Number of macroblocks in a strip.
pub open spec fn mb_total(x: StripSource) -> int {
    strip_mbs(x.picture, x.top, x.bottom)
}

/// The quarters of the first `k` macroblocks that are not skipped.
pub open spec fn kept_quads(x: StripSource, k: int) -> Seq<CodebookEntry>
    decreases k,
{
    if k <= 0 {
        Seq::empty()
    } else if skipped_at(x, k - 1) {
        kept_quads(x, k - 1)
    } else {
        kept_quads(x, k - 1) + quads_at(x, k - 1)
    }
}

/// The first `k` macroblocks that are not skipped, as one entry each.
pub open spec fn kept_singles(x: StripSource, k: int) -> Seq<CodebookEntry>
    decreases k,
{
    if k <= 0 {
        Seq::empty()
    } else if skipped_at(x, k - 1) {
        kept_singles(x, k - 1)
    } else {
        kept_singles(x, k - 1).push(single_at(x, k - 1))
    }
}

/// The sum of the squared luma differences of two entries.
pub open spec fn luma_error(a: CodebookEntry, b: CodebookEntry) -> int {
    quant::sq(a.y0 - b.y0) + quant::sq(a.y1 - b.y1) + quant::sq(a.y2 - b.y2) + quant::sq(a.y3 - b.y3)
}

/// The sum of the squared differences of an entry's lumas from one luma.
pub open spec fn flat_error(a: CodebookEntry, y: u8) -> int {
    quant::sq(a.y0 - y) + quant::sq(a.y1 - y) + quant::sq(a.y2 - y) + quant::sq(a.y3 - y)
}

/// The metric of a configuration. A luma weight of zero stands for one, and
/// for gray every weight does.
pub open spec fn metric_of(mode: PixelMode, o: EncoderOptions) -> Metric {
    Metric {
        mode,
        luma_weight: if mode == PixelMode::Gray8 || o.luma_weight == 0 {
            1
        } else {
            o.luma_weight
        },
    }
}

pub(crate) fn configured_metric(mode: PixelMode, o: &EncoderOptions) -> (r: Metric)
    ensures
        r == metric_of(mode, *o),
{
    Metric {
        mode,
        luma_weight: if mode == PixelMode::Gray8 || o.luma_weight == 0 {
            1
        } else {
            o.luma_weight
        },
    }
}

/// The V4 entries nearest to the four quarters of a macroblock.
pub open spec fn nearest_quads(
    m: Metric,
    n: int,
    quads: Seq<CodebookEntry>,
    v4: Seq<CodebookEntry>,
) -> Seq<int> {
    Seq::new(4, |i: int| quant::nearest_slot(m, quads[i], v4, n))
}

/// Whether a macroblock is better coded with one V1 entry than with four V4
/// entries. With a price for bits, V1 may add as much luma error as the 24
/// bits are worth that it saves; without one, the distances decide.
pub open spec fn prefers_v1(
    o: EncoderOptions,
    mode: PixelMode,
    quads: Seq<CodebookEntry>,
    single: CodebookEntry,
    v4: Seq<CodebookEntry>,
    v1: Seq<CodebookEntry>,
) -> bool {
    let m = metric_of(mode, o);
    let n4 = o.v4_entries as int;
    let q = nearest_quads(m, n4, quads, v4);
    let e = v1[quant::nearest_slot(m, single, v1, o.v1_entries as int)];
    match o.rdo_lambda {
        Some(l) => {
            let d4 = luma_error(quads[0], v4[q[0]]) + luma_error(quads[1], v4[q[1]]) + luma_error(
                quads[2],
                v4[q[2]],
            ) + luma_error(quads[3], v4[q[3]]);
            let d1 = flat_error(quads[0], e.y0) + flat_error(quads[1], e.y1) + flat_error(
                quads[2],
                e.y2,
            ) + flat_error(quads[3], e.y3);
            (d1 - d4) * FIXED_ONE <= l * 24
        },
        None => {
            quant::nearest_error(m, single, v1, o.v1_entries as int) <= quant::nearest_error(
                m,
                quads[0],
                v4,
                n4,
            ) + quant::nearest_error(m, quads[1], v4, n4) + quant::nearest_error(m, quads[2], v4, n4)
                + quant::nearest_error(m, quads[3], v4, n4)
        },
    }
}

/// How a macroblock that is not skipped is coded.
#[verifier::opaque]
pub open spec fn choice(
    o: EncoderOptions,
    mode: PixelMode,
    quads: Seq<CodebookEntry>,
    single: CodebookEntry,
    v4: Seq<CodebookEntry>,
    v1: Seq<CodebookEntry>,
) -> Mb {
    if prefers_v1(o, mode, quads, single, v4, v1) {
        Mb::V1(
            quant::nearest_slot(
                metric_of(mode, o),
                single,
                v1,
                o.v1_entries as int,
            ) as u8,
        )
    } else {
        let q = nearest_quads(metric_of(mode, o), o.v4_entries as int, quads, v4);
        Mb::V4([q[0] as u8, q[1] as u8, q[2] as u8, q[3] as u8])
    }
}

/// How the macroblocks of a strip are coded with the two codebooks.
pub open spec fn choices(
    x: StripSource,
    o: EncoderOptions,
    v4: Seq<CodebookEntry>,
    v1: Seq<CodebookEntry>,
) -> Seq<Mb> {
    Seq::new(
        mb_total(x) as nat,
        |i: int|
            if skipped_at(x, i) {
                Mb::Skip
            } else {
                choice(o, x.picture.mode, quads_at(x, i), single_at(x, i), v4, v1)
            },
    )
}

/// The quarters among the first `k` of a macroblock that entry `slot` codes.
pub open spec fn coded_quads(quads: Seq<CodebookEntry>, x: [u8; 4], slot: int, k: int) -> Seq<
    CodebookEntry,
>
    decreases k,
{
    if k <= 0 {
        Seq::empty()
    } else if x[k - 1] == slot {
        coded_quads(quads, x, slot, k - 1).push(quads[k - 1])
    } else {
        coded_quads(quads, x, slot, k - 1)
    }
}

/// The quarters of the first `k` macroblocks that V4 entry `slot` codes.
pub open spec fn v4_users(x: StripSource, mbs: Seq<Mb>, slot: int, k: int) -> Seq<CodebookEntry>
    decreases k,
{
    if k <= 0 {
        Seq::empty()
    } else {
        match mbs[k - 1] {
            Mb::V4(i) => v4_users(x, mbs, slot, k - 1) + coded_quads(quads_at(x, k - 1), i, slot, 4),
            _ => v4_users(x, mbs, slot, k - 1),
        }
    }
}

/// The macroblocks among the first `k` that V1 entry `slot` codes.
pub open spec fn v1_users(x: StripSource, mbs: Seq<Mb>, slot: int, k: int) -> Seq<CodebookEntry>
    decreases k,
{
    if k <= 0 {
        Seq::empty()
    } else {
        match mbs[k - 1] {
            Mb::V1(i) => if i == slot {
                v1_users(x, mbs, slot, k - 1).push(single_at(x, k - 1))
            } else {
                v1_users(x, mbs, slot, k - 1)
            },
            _ => v1_users(x, mbs, slot, k - 1),
        }
    }
}

/// The V4 codebook with every used entry the mean of the quarters it codes.
pub open spec fn fitted_v4(x: StripSource, mbs: Seq<Mb>, v4: Seq<CodebookEntry>) -> Seq<
    CodebookEntry,
> {
    Seq::new(
        256,
        |i: int|
            if v4_users(x, mbs, i, mbs.len() as int).len() > 0 {
                quant::centre(x.picture.mode, v4_users(x, mbs, i, mbs.len() as int))
            } else {
                v4[i]
            },
    )
}

/// The V1 codebook with every used entry the mean of the macroblocks it
/// codes.
pub open spec fn fitted_v1(x: StripSource, mbs: Seq<Mb>, v1: Seq<CodebookEntry>) -> Seq<
    CodebookEntry,
> {
    Seq::new(
        256,
        |i: int|
            if v1_users(x, mbs, i, mbs.len() as int).len() > 0 {
                quant::centre(x.picture.mode, v1_users(x, mbs, i, mbs.len() as int))
            } else {
                v1[i]
            },
    )
}

/// The codebooks of a strip, and how its macroblocks are coded with them.
pub struct PlanView {
    pub v4: Seq<CodebookEntry>,
    pub v1: Seq<CodebookEntry>,
    pub mbs: Seq<Mb>,
}

/// The plan after up to `rounds` of fitting the codebooks to their users and
/// coding the macroblocks anew. The rounds end where nothing changes.
pub open spec fn polished(x: StripSource, o: EncoderOptions, p: PlanView, rounds: nat) -> PlanView
    decreases rounds,
{
    if rounds == 0 {
        p
    } else {
        let v4 = fitted_v4(x, p.mbs, p.v4);
        let v1 = fitted_v1(x, p.mbs, p.v1);
        if v4 == p.v4 && v1 == p.v1 {
            p
        } else {
            polished(x, o, PlanView { v4, v1, mbs: choices(x, o, v4, v1) }, (rounds - 1) as nat)
        }
    }
}

/// How codebooks are made under a configuration.
pub open spec fn training_of(o: EncoderOptions) -> Training {
    Training {
        lloyd_max_iter: o.lloyd_max_iter,
        lloyd_eps: o.lloyd_eps,
        kmeans_pp_init: o.kmeans_pp_init,
        kmeans_pp_lloyd_iter: o.kmeans_pp_lloyd_iter,
    }
}

/// The V4 codebook made for a strip.
pub open spec fn first_v4(
    x: StripSource,
    o: EncoderOptions,
    seed: Option<Seq<CodebookEntry>>,
) -> Seq<CodebookEntry> {
    let m = metric_of(x.picture.mode, o);
    let vs = kept_quads(x, mb_total(x));
    let n = o.v4_entries as int;
    training::split_codebook(m, vs, training::trained(training_of(o), m, vs, n, seed), n, o.lbg_max_passes as nat)
}

/// The V1 codebook made for a strip.
pub open spec fn first_v1(
    x: StripSource,
    o: EncoderOptions,
    seed: Option<Seq<CodebookEntry>>,
) -> Seq<CodebookEntry> {
    let m = metric_of(x.picture.mode, o);
    let vs = kept_singles(x, mb_total(x));
    let n = o.v1_entries as int;
    training::split_codebook(m, vs, training::trained(training_of(o), m, vs, n, seed), n, o.lbg_max_passes as nat)
}

/// The plan for a strip: codebooks made from its macroblocks, starting from
/// former ones where there are any, and then fitted to their users.
#[verifier::opaque]
pub open spec fn strip_plan(
    x: StripSource,
    o: EncoderOptions,
    seed4: Option<Seq<CodebookEntry>>,
    seed1: Option<Seq<CodebookEntry>>,
) -> PlanView {
    let v4 = first_v4(x, o, seed4);
    let v1 = first_v1(x, o, seed1);
    polished(x, o, PlanView { v4, v1, mbs: choices(x, o, v4, v1) }, o.pcl_max_iter as nat)
}

/// Whether a strip lies in its picture, and the plane before covers it.
pub open spec fn strip_fits(x: StripSource) -> bool {
    &&& sampling::holds(x.picture)
    &&& 4 <= x.picture.width
    &&& x.picture.width % 4 == 0
    &&& 0 <= x.top <= x.bottom <= x.picture.height
    &&& x.top % 4 == 0
    &&& x.bottom % 4 == 0
    &&& x.prev matches Some(p) ==> sampling::plane_covers(
        p,
        x.picture.width,
        x.picture.height,
        decoder::mode_bpp(x.picture.mode) as int,
    )
}

/// The entries and skips of a strip's macroblocks.
pub(crate) struct StripSamples {
    pub(crate) quads: Vec<[CodebookEntry; 4]>,
    pub(crate) singles: Vec<CodebookEntry>,
    pub(crate) skips: Vec<bool>,
}

impl StripSamples {
    pub(crate) open spec fn first(self, x: StripSource, k: int) -> bool {
        &&& self.quads@.len() == k
        &&& self.singles@.len() == k
        &&& self.skips@.len() == k
        &&& forall|i: int| 0 <= i < k ==> (#[trigger] self.quads@[i])@ == quads_at(x, i)
        &&& forall|i: int| 0 <= i < k ==> #[trigger] self.singles@[i] == single_at(x, i)
        &&& forall|i: int| 0 <= i < k ==> #[trigger] self.skips@[i] == skipped_at(x, i)
    }
}

/// The plane behind an optional plane.
pub open spec fn plane_view(p: Option<&CinepakPlane>) -> Option<PlaneView> {
    match p {
        Some(q) => Some(q@),
        None => None,
    }
}

/// A strip to encode.
#[derive(Clone, Copy)]
pub struct Strip<'a> {
    pub picture: Source<'a>,
    pub top: u32,
    pub bottom: u32,
    pub prev: Option<&'a CinepakPlane>,
    pub threshold: i64,
}

impl<'a> View for Strip<'a> {
    type V = StripSource;

    open spec fn view(&self) -> StripSource {
        StripSource {
            picture: self.picture@,
            top: self.top as int,
            bottom: self.bottom as int,
            prev: plane_view(self.prev),
            threshold: self.threshold,
        }
    }
}

proof fn next_place(cols: int, i: int, row: int, col: int)
    requires
        0 < cols,
        0 <= i,
        0 <= col < cols,
        i == row * cols + col,
    ensures
        i / cols == row,
        i % cols == col,
{
    vstd::arithmetic::div_mod::lemma_fundamental_div_mod_converse(i, cols, row, col);
}

impl<'a> Strip<'a> {
    fn skips(&self, px: usize, py: usize) -> (r: bool)
        requires
            strip_fits(self@),
            px + 4 <= self.picture.width,
            py + 4 <= self.picture.height,
        ensures
            r == match self@.prev {
                Some(p) => sampling::still(self@.picture, p, px as int, py as int, self.threshold),
                None => false,
            },
    {
        match self.prev {
            Some(p) => self.picture.matches_previous(p, px, py, self.threshold),
            None => false,
        }
    }

    fn sample_row(&self, row: usize, out: &mut StripSamples)
        requires
            strip_fits(self@),
            4 * row + 4 <= self.bottom - self.top,
            old(out).first(self@, row * (self.picture.width / 4)),
        ensures
            final(out).first(self@, (row + 1) * (self.picture.width / 4)),
    {
        let cols: usize = (self.picture.width / 4) as usize;
        let py: usize = self.top as usize + 4 * row;
        let mut c: usize = 0;
        while c < cols
            invariant
                c <= cols,
                0 < cols,
                cols == self@.picture.width / 4,
                4 * cols == self.picture.width,
                strip_fits(self@),
                4 * row + 4 <= self.bottom - self.top,
                py == self.top + 4 * row,
                out.first(self@, row * cols + c),
            decreases cols - c,
        {
            let ghost k = row * cols + c;
            proof {
                assert(0 <= row * cols) by (nonlinear_arith)
                    requires
                        0 <= row,
                        0 <= cols,
                ;
                next_place(cols as int, k, row as int, c as int);
            }
            let px: usize = 4 * c;
            out.quads.push(self.picture.sample_v4_block(px, py));
            out.singles.push(self.picture.sample_v1_block(px, py));
            out.skips.push(self.skips(px, py));
            c = c + 1;
        }
        assert(row * cols + cols == (row + 1) * cols) by (nonlinear_arith);
    }

    /// Samples every macroblock.
    pub(crate) fn samples(&self) -> (r: StripSamples)
        requires
            strip_fits(self@),
        ensures
            r.first(self@, mb_total(self@)),
    {
        let mut out = StripSamples { quads: Vec::new(), singles: Vec::new(), skips: Vec::new() };
        let rows: usize = ((self.bottom - self.top) / 4) as usize;
        let mut r: usize = 0;
        assert(0 * (self.picture.width / 4) == 0);
        while r < rows
            invariant
                r <= rows,
                rows == (self.bottom - self.top) / 4,
                strip_fits(self@),
                out.first(self@, r * (self.picture.width / 4)),
            decreases rows - r,
        {
            self.sample_row(r, &mut out);
            r = r + 1;
        }
        out
    }
}

impl StripSamples {
    /// The quarters of the macroblocks that are not skipped.
    pub(crate) fn kept_quads(&self, Ghost(x): Ghost<StripSource>) -> (r: Vec<CodebookEntry>)
        requires
            self.first(x, mb_total(x)),
        ensures
            r@ == kept_quads(x, mb_total(x)),
    {
        let mut out: Vec<CodebookEntry> = Vec::new();
        let mut i: usize = 0;
        while i < self.quads.len()
            invariant
                self.first(x, mb_total(x)),
                i <= self.quads@.len(),
                out@ == kept_quads(x, i as int),
            decreases self.quads@.len() - i,
        {
            if !self.skips[i] {
                let ghost before = out@;
                let q = self.quads[i];
                out.push(q[0]);
                out.push(q[1]);
                out.push(q[2]);
                out.push(q[3]);
                assert(out@ =~= before + q@);
            }
            i = i + 1;
        }
        out
    }

    /// The macroblocks that are not skipped, as one entry each.
    pub(crate) fn kept_singles(&self, Ghost(x): Ghost<StripSource>) -> (r: Vec<CodebookEntry>)
        requires
            self.first(x, mb_total(x)),
        ensures
            r@ == kept_singles(x, mb_total(x)),
    {
        let mut out: Vec<CodebookEntry> = Vec::new();
        let mut i: usize = 0;
        while i < self.singles.len()
            invariant
                self.first(x, mb_total(x)),
                i <= self.singles@.len(),
                out@ == kept_singles(x, i as int),
            decreases self.singles@.len() - i,
        {
            if !self.skips[i] {
                out.push(self.singles[i]);
            }
            i = i + 1;
        }
        out
    }
}

fn squared(a: u8, b: u8) -> (r: i64)
    ensures
        r == quant::sq(a - b),
        0 <= r <= 65025,
{
    let d: i64 = a as i64 - b as i64;
    assert(0 <= d * d <= 65025) by (nonlinear_arith)
        requires
            -255 <= d <= 255,
    ;
    d * d
}

fn luma_difference(a: &CodebookEntry, b: &CodebookEntry) -> (r: i64)
    ensures
        r == luma_error(*a, *b),
        0 <= r <= 260100,
{
    squared(a.y0, b.y0) + squared(a.y1, b.y1) + squared(a.y2, b.y2) + squared(a.y3, b.y3)
}

fn flat_difference(a: &CodebookEntry, y: u8) -> (r: i64)
    ensures
        r == flat_error(*a, y),
        0 <= r <= 260100,
{
    squared(a.y0, y) + squared(a.y1, y) + squared(a.y2, y) + squared(a.y3, y)
}

/// The nearest V4 entries for the quarters of a macroblock, and the sum of
/// their distances.
pub fn pick_v4(m: Metric, n: usize, quads: &[CodebookEntry; 4], v4: &Codebook) -> (r: (
    [u8; 4],
    i64,
))
    requires
        1 <= n <= 256,
    ensures
        forall|i: int| 0 <= i < 4 ==> #[trigger] r.0[i] == nearest_quads(m, n as int, quads@, v4@)[i],
        forall|i: int| 0 <= i < 4 ==> #[trigger] r.0[i] < n,
        r.1 == quant::nearest_error(m, quads@[0], v4@, n as int) + quant::nearest_error(
            m,
            quads@[1],
            v4@,
            n as int,
        ) + quant::nearest_error(m, quads@[2], v4@, n as int) + quant::nearest_error(
            m,
            quads@[3],
            v4@,
            n as int,
        ),
{
    let (a, e0) = nearest(m, &quads[0], v4, n);
    let (b, e1) = nearest(m, &quads[1], v4, n);
    let (c, e2) = nearest(m, &quads[2], v4, n);
    let (d, e3) = nearest(m, &quads[3], v4, n);
    ([a, b, c, d], e0 + e1 + e2 + e3)
}

/// The luma error of a macroblock coded with four V4 entries, and with one
/// V1 entry.
fn rdo_pixel_y_sse(
    quads: &[CodebookEntry; 4],
    x: &[u8; 4],
    v4: &Codebook,
    e: &CodebookEntry,
) -> (r: (i64, i64))
    ensures
        r.0 == luma_error(quads@[0], v4@[x[0] as int]) + luma_error(
            quads@[1],
            v4@[x[1] as int],
        ) + luma_error(quads@[2], v4@[x[2] as int]) + luma_error(quads@[3], v4@[x[3] as int]),
        r.1 == flat_error(quads@[0], e.y0) + flat_error(quads@[1], e.y1) + flat_error(
            quads@[2],
            e.y2,
        ) + flat_error(quads@[3], e.y3),
        0 <= r.0 <= 1040400,
        0 <= r.1 <= 1040400,
{
    let d4: i64 = luma_difference(&quads[0], &v4.entries[x[0] as usize]) + luma_difference(
        &quads[1],
        &v4.entries[x[1] as usize],
    ) + luma_difference(&quads[2], &v4.entries[x[2] as usize]) + luma_difference(
        &quads[3],
        &v4.entries[x[3] as usize],
    );
    let d1: i64 = flat_difference(&quads[0], e.y0) + flat_difference(&quads[1], e.y1)
        + flat_difference(&quads[2], e.y2) + flat_difference(&quads[3], e.y3);
    (d4, d1)
}

/// Decides how a macroblock that is not skipped is coded.
fn choose_coding(
    o: &EncoderOptions,
    mode: PixelMode,
    quads: &[CodebookEntry; 4],
    single: &CodebookEntry,
    v4: &Codebook,
    v1: &Codebook,
) -> (r: Mb)
    requires
        1 <= o.v4_entries <= 256,
        1 <= o.v1_entries <= 256,
    ensures
        r == choice(*o, mode, quads@, *single, v4@, v1@),
{
    proof {
        reveal(choice);
    }
    let m = configured_metric(mode, o);
    let (x, e4) = pick_v4(m, o.v4_entries as usize, quads, v4);
    let ghost q = nearest_quads(m, o.v4_entries as int, quads@, v4@);
    assert(x[0] == q[0] && x[1] == q[1] && x[2] == q[2] && x[3] == q[3]);
    let (y, e1) = nearest(m, single, v1, o.v1_entries as usize);
    let pick_v1 = match o.rdo_lambda {
        Some(l) => {
            let (d4, d1) = rdo_pixel_y_sse(quads, &x, v4, &v1.entries[y as usize]);
            ((d1 - d4) as i128) * (FIXED_ONE as i128) <= (l as i128) * 24
        },
        None => e1 <= e4,
    };
    if pick_v1 {
        Mb::V1(y)
    } else {
        let ghost want = [q[0] as u8, q[1] as u8, q[2] as u8, q[3] as u8];
        assert(x@ =~= want@);
        assert(x =~= want);
        Mb::V4(x)
    }
}

/// Decides how every macroblock of a strip is coded.
fn classify_mbs(
    o: &EncoderOptions,
    mode: PixelMode,
    s: &StripSamples,
    v4: &Codebook,
    v1: &Codebook,
    Ghost(x): Ghost<StripSource>,
) -> (r: Vec<Mb>)
    requires
        1 <= o.v4_entries <= 256,
        1 <= o.v1_entries <= 256,
        s.first(x, mb_total(x)),
        mode == x.picture.mode,
    ensures
        r@ == choices(x, *o, v4@, v1@),
{
    let mut out: Vec<Mb> = Vec::new();
    let mut i: usize = 0;
    while i < s.skips.len()
        invariant
            1 <= o.v4_entries <= 256,
            1 <= o.v1_entries <= 256,
            s.first(x, mb_total(x)),
            mode == x.picture.mode,
            i <= s.skips@.len(),
            out@.len() == i,
            forall|j: int| 0 <= j < i ==> out@[j] == #[trigger] choices(x, *o, v4@, v1@)[j],
        decreases s.skips@.len() - i,
    {
        if s.skips[i] {
            out.push(Mb::Skip);
        } else {
            out.push(choose_coding(o, mode, &s.quads[i], &s.singles[i], v4, v1));
        }
        i = i + 1;
    }
    assert(out@ =~= choices(x, *o, v4@, v1@));
    out
}

fn add_coded_quads(
    quads: &[CodebookEntry; 4],
    x: &[u8; 4],
    clusters: &mut Vec<Vec<CodebookEntry>>,
)
    requires
        old(clusters)@.len() == 256,
    ensures
        final(clusters)@.len() == 256,
        forall|i: int|
            0 <= i < 256 ==> (#[trigger] final(clusters)@[i])@ == old(clusters)@[i]@ + coded_quads(
                quads@,
                *x,
                i,
                4,
            ),
{
    let ghost before = clusters@;
    let mut j: usize = 0;
    while j < 4
        invariant
            j <= 4,
            clusters@.len() == 256,
            before.len() == 256,
            forall|i: int|
                0 <= i < 256 ==> (#[trigger] clusters@[i])@ == before[i]@ + coded_quads(
                    quads@,
                    *x,
                    i,
                    j as int,
                ),
        decreases 4 - j,
    {
        let slot: usize = x[j] as usize;
        let ghost prior = clusters@;
        clusters[slot].push(quads[j]);
        assert forall|i: int| 0 <= i < 256 implies (#[trigger] clusters@[i])@ == before[i]@
            + coded_quads(quads@, *x, i, j + 1) by {
            assert(prior[i]@ == before[i]@ + coded_quads(quads@, *x, i, j as int));
            assert(clusters@[i]@ =~= before[i]@ + coded_quads(quads@, *x, i, j + 1));
        }
        j = j + 1;
    }
}

fn v4_clusters(s: &StripSamples, mbs: &Vec<Mb>, Ghost(x): Ghost<StripSource>) -> (r: Vec<
    Vec<CodebookEntry>,
>)
    requires
        s.first(x, mbs@.len() as int),
    ensures
        r@.len() == 256,
        forall|i: int|
            0 <= i < 256 ==> (#[trigger] r@[i])@ == v4_users(x, mbs@, i, mbs@.len() as int),
{
    let mut out = empty_clusters(256);
    let mut k: usize = 0;
    while k < mbs.len()
        invariant
            k <= mbs@.len(),
            s.first(x, mbs@.len() as int),
            out@.len() == 256,
            forall|i: int|
                0 <= i < 256 ==> (#[trigger] out@[i])@ == v4_users(x, mbs@, i, k as int),
        decreases mbs@.len() - k,
    {
        if let Mb::V4(idx) = mbs[k] {
            add_coded_quads(&s.quads[k], &idx, &mut out);
        }
        k = k + 1;
    }
    out
}

fn v1_clusters(s: &StripSamples, mbs: &Vec<Mb>, Ghost(x): Ghost<StripSource>) -> (r: Vec<
    Vec<CodebookEntry>,
>)
    requires
        s.first(x, mbs@.len() as int),
    ensures
        r@.len() == 256,
        forall|i: int|
            0 <= i < 256 ==> (#[trigger] r@[i])@ == v1_users(x, mbs@, i, mbs@.len() as int),
{
    let mut out = empty_clusters(256);
    let mut k: usize = 0;
    while k < mbs.len()
        invariant
            k <= mbs@.len(),
            s.first(x, mbs@.len() as int),
            out@.len() == 256,
            forall|i: int|
                0 <= i < 256 ==> (#[trigger] out@[i])@ == v1_users(x, mbs@, i, k as int),
        decreases mbs@.len() - k,
    {
        if let Mb::V1(idx) = mbs[k] {
            out[idx as usize].push(s.singles[k]);
        }
        k = k + 1;
    }
    out
}

/// A codebook with every entry whose cluster is not empty at its mean; tells
/// whether any entry changed.
fn fit(mode: PixelMode, cb: &mut Codebook, cl: &Vec<Vec<CodebookEntry>>) -> (changed: bool)
    requires
        cl@.len() == 256,
    ensures
        final(cb)@ == Seq::new(
            256,
            |i: int|
                if cl@[i]@.len() > 0 {
                    quant::centre(mode, cl@[i]@)
                } else {
                    old(cb)@[i]
                },
        ),
        changed == (final(cb)@ != old(cb)@),
{
    let ghost before = cb@;
    let ghost want = Seq::new(
        256,
        |i: int|
            if cl@[i]@.len() > 0 {
                quant::centre(mode, cl@[i]@)
            } else {
                before[i]
            },
    );
    let mut changed = false;
    let mut i: usize = 0;
    while i < 256
        invariant
            i <= 256,
            cl@.len() == 256,
            cb@.len() == 256,
            before.len() == 256,
            want == Seq::new(
                256,
                |i: int|
                    if cl@[i]@.len() > 0 {
                        quant::centre(mode, cl@[i]@)
                    } else {
                        before[i]
                    },
            ),
            forall|j: int| 0 <= j < i ==> cb@[j] == want[j],
            forall|j: int| i <= j < 256 ==> cb@[j] == before[j],
            changed ==> cb@ != before,
            !changed ==> cb@ == before,
        decreases 256 - i,
    {
        if cl[i].len() > 0 {
            let c = centroid(mode, cl[i].as_slice());
            if cb.entries[i] != c {
                let ghost prior = cb@;
                cb.entries[i] = c;
                changed = true;
                assert(cb@[i as int] != before[i as int]);
            }
        }
        i = i + 1;
    }
    assert(cb@ =~= want);
    changed
}

/// Fits the codebooks to the macroblocks they code; tells whether any entry
/// changed.
fn post_classification_polish(
    mode: PixelMode,
    s: &StripSamples,
    mbs: &Vec<Mb>,
    v4: &mut Codebook,
    v1: &mut Codebook,
    Ghost(x): Ghost<StripSource>,
) -> (changed: bool)
    requires
        s.first(x, mbs@.len() as int),
        mode == x.picture.mode,
    ensures
        final(v4)@ == fitted_v4(x, mbs@, old(v4)@),
        final(v1)@ == fitted_v1(x, mbs@, old(v1)@),
        changed == (final(v4)@ != old(v4)@ || final(v1)@ != old(v1)@),
{
    let ghost a = v4@;
    let ghost b = v1@;
    let c4 = v4_clusters(s, mbs, Ghost(x));
    let c1 = v1_clusters(s, mbs, Ghost(x));
    let x4 = fit(mode, v4, &c4);
    let x1 = fit(mode, v1, &c1);
    assert(v4@ =~= fitted_v4(x, mbs@, a));
    assert(v1@ =~= fitted_v1(x, mbs@, b));
    x4 || x1
}

/// The codebooks of a strip, and how its macroblocks are coded with them.
pub struct StripPlanResult {
    pub v4_cb: Codebook,
    pub v1_cb: Codebook,
    pub mbs: Vec<Mb>,
}

impl View for StripPlanResult {
    type V = PlanView;

    open spec fn view(&self) -> PlanView {
        PlanView { v4: self.v4_cb@, v1: self.v1_cb@, mbs: self.mbs@ }
    }
}

fn train(o: &EncoderOptions, mode: PixelMode, vs: &[CodebookEntry], n: usize, seed: Option<&Codebook>) -> (r:
    Codebook)
    requires
        1 <= n <= 256,
    ensures
        ({
            let m = metric_of(mode, *o);
            r@ == training::split_codebook(
                m,
                vs@,
                training::trained(training_of(*o), m, vs@, n as int, training::seed_view(seed)),
                n as int,
                o.lbg_max_passes as nat,
            )
        }),
{
    let m = configured_metric(mode, o);
    let t = Training {
        lloyd_max_iter: o.lloyd_max_iter,
        lloyd_eps: o.lloyd_eps,
        kmeans_pp_init: o.kmeans_pp_init,
        kmeans_pp_lloyd_iter: o.kmeans_pp_lloyd_iter,
    };
    let mut cb = median_cut_seeded(t, m, vs, n, seed);
    lbg_refine_codebook(m, &mut cb, vs, n, o.lbg_max_passes);
    cb
}

impl<'a> Strip<'a> {
    /// Makes the codebooks of the strip and decides how its macroblocks are
    /// coded.
    pub fn build_codebooks_and_decisions(
        &self,
        o: &EncoderOptions,
        seed4: Option<&Codebook>,
        seed1: Option<&Codebook>,
    ) -> (r: StripPlanResult)
        requires
            strip_fits(self@),
            1 <= o.v4_entries <= 256,
            1 <= o.v1_entries <= 256,
        ensures
            r@ == strip_plan(self@, *o, training::seed_view(seed4), training::seed_view(seed1)),
    {
        proof {
            reveal(strip_plan);
        }
        let mode = self.picture.mode;
        let ghost x = self@;
        let s = self.samples();
        let vs4 = s.kept_quads(Ghost(x));
        let vs1 = s.kept_singles(Ghost(x));
        let mut v4 = train(o, mode, vs4.as_slice(), o.v4_entries as usize, seed4);
        let mut v1 = train(o, mode, vs1.as_slice(), o.v1_entries as usize, seed1);
        let mut mbs = classify_mbs(o, mode, &s, &v4, &v1, Ghost(x));
        let ghost want = strip_plan(x, *o, training::seed_view(seed4), training::seed_view(seed1));
        let mut left: u8 = o.pcl_max_iter;
        while left > 0
            invariant
                1 <= o.v4_entries <= 256,
                1 <= o.v1_entries <= 256,
                mode == x.picture.mode,
                s.first(x, mb_total(x)),
                mbs@.len() == mb_total(x),
                x == self@,
                want == strip_plan(x, *o, training::seed_view(seed4), training::seed_view(seed1)),
                want == polished(
                    x,
                    *o,
                    PlanView { v4: v4@, v1: v1@, mbs: mbs@ },
                    left as nat,
                ),
            decreases left,
        {
            let ghost p = PlanView { v4: v4@, v1: v1@, mbs: mbs@ };
            let changed = post_classification_polish(mode, &s, &mbs, &mut v4, &mut v1, Ghost(x));
            if !changed {
                return StripPlanResult { v4_cb: v4, v1_cb: v1, mbs };
            }
            mbs = classify_mbs(o, mode, &s, &v4, &v1, Ghost(x));
            left = left - 1;
        }
        StripPlanResult { v4_cb: v4, v1_cb: v1, mbs }
    }
}

proof fn choices_in_range(
    x: StripSource,
    o: EncoderOptions,
    v4: Seq<CodebookEntry>,
    v1: Seq<CodebookEntry>,
)
    requires
        mb_total(x) >= 0,
        1 <= o.v4_entries <= 256,
        1 <= o.v1_entries <= 256,
    ensures
        plan_in_range(x, o, choices(x, o, v4, v1)),
{
    let c = choices(x, o, v4, v1);
    assert forall|i: int| 0 <= i < c.len() implies match #[trigger] c[i] {
        Mb::Skip => skipped_at(x, i),
        Mb::V1(a) => !skipped_at(x, i) && a < o.v1_entries,
        Mb::V4(a) => !skipped_at(x, i) && a[0] < o.v4_entries && a[1] < o.v4_entries && a[2]
            < o.v4_entries && a[3] < o.v4_entries,
    } by {
        reveal(choice);
        let m = metric_of(x.picture.mode, o);
        let q = quads_at(x, i);
        crate::quant::nearest_is_least(m, single_at(x, i), v1, o.v1_entries as int);
        crate::quant::nearest_is_least(m, q[0], v4, o.v4_entries as int);
        crate::quant::nearest_is_least(m, q[1], v4, o.v4_entries as int);
        crate::quant::nearest_is_least(m, q[2], v4, o.v4_entries as int);
        crate::quant::nearest_is_least(m, q[3], v4, o.v4_entries as int);
    }
}

/// Whether exactly the still macroblocks are skipped, and the others use
/// entries within the codebook sizes.
pub open spec fn plan_in_range(x: StripSource, o: EncoderOptions, mbs: Seq<Mb>) -> bool {
    &&& mbs.len() == mb_total(x)
    &&& forall|i: int|
        0 <= i < mbs.len() ==> match #[trigger] mbs[i] {
            Mb::Skip => skipped_at(x, i),
            Mb::V1(a) => !skipped_at(x, i) && a < o.v1_entries,
            Mb::V4(a) => !skipped_at(x, i) && a[0] < o.v4_entries && a[1] < o.v4_entries && a[2]
                < o.v4_entries && a[3] < o.v4_entries,
        }
}

proof fn polished_in_range(x: StripSource, o: EncoderOptions, p: PlanView, rounds: nat)
    requires
        mb_total(x) >= 0,
        1 <= o.v4_entries <= 256,
        1 <= o.v1_entries <= 256,
        plan_in_range(x, o, p.mbs),
        p.v4.len() == 256,
        p.v1.len() == 256,
    ensures
        plan_in_range(x, o, polished(x, o, p, rounds).mbs),
        polished(x, o, p, rounds).v4.len() == 256,
        polished(x, o, p, rounds).v1.len() == 256,
    decreases rounds,
{
    if rounds > 0 {
        let v4 = fitted_v4(x, p.mbs, p.v4);
        let v1 = fitted_v1(x, p.mbs, p.v1);
        choices_in_range(x, o, v4, v1);
        polished_in_range(
            x,
            o,
            PlanView { v4, v1, mbs: choices(x, o, v4, v1) },
            (rounds - 1) as nat,
        );
    }
}

/// A plan skips exactly the macroblocks that match the previous frame, every
/// index it uses lies within the codebook sizes, and its codebooks are whole.
pub proof fn plan_is_in_range(
    x: StripSource,
    o: EncoderOptions,
    seed4: Option<Seq<CodebookEntry>>,
    seed1: Option<Seq<CodebookEntry>>,
)
    requires
        mb_total(x) >= 0,
        1 <= o.v4_entries <= 256,
        1 <= o.v1_entries <= 256,
        seed4 matches Some(s) ==> s.len() == 256,
        seed1 matches Some(s) ==> s.len() == 256,
    ensures
        plan_in_range(x, o, strip_plan(x, o, seed4, seed1).mbs),
        strip_plan(x, o, seed4, seed1).v4.len() == 256,
        strip_plan(x, o, seed4, seed1).v1.len() == 256,
{
    reveal(strip_plan);
    let m = metric_of(x.picture.mode, o);
    let t = training_of(o);
    let vs4 = kept_quads(x, mb_total(x));
    let vs1 = kept_singles(x, mb_total(x));
    let n4 = o.v4_entries as int;
    let n1 = o.v1_entries as int;
    training::trained_len(t, m, vs4, n4, seed4);
    training::trained_len(t, m, vs1, n1, seed1);
    training::split_codebook_len(m, vs4, training::trained(t, m, vs4, n4, seed4), n4, o.lbg_max_passes as nat);
    training::split_codebook_len(m, vs1, training::trained(t, m, vs1, n1, seed1), n1, o.lbg_max_passes as nat);
    let v4 = first_v4(x, o, seed4);
    let v1 = first_v1(x, o, seed1);
    choices_in_range(x, o, v4, v1);
    polished_in_range(
        x,
        o,
        PlanView { v4, v1, mbs: choices(x, o, v4, v1) },
        o.pcl_max_iter as nat,
    );
}

/// Fitting keeps every V4 entry that codes nothing.
pub proof fn unused_v4_kept(x: StripSource, mbs: Seq<Mb>, v4: Seq<CodebookEntry>, slot: int)
    requires
        0 <= slot < 256,
        v4_users(x, mbs, slot, mbs.len() as int).len() == 0,
    ensures
        fitted_v4(x, mbs, v4)[slot] == v4[slot],
{
}

/// Fitting keeps every V1 entry that codes nothing.
pub proof fn unused_v1_kept(x: StripSource, mbs: Seq<Mb>, v1: Seq<CodebookEntry>, slot: int)
    requires
        0 <= slot < 256,
        v1_users(x, mbs, slot, mbs.len() as int).len() == 0,
    ensures
        fitted_v1(x, mbs, v1)[slot] == v1[slot],
{
}

} // verus!
