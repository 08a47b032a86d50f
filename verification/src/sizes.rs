//! How long encoded frames get, and which pictures always give one.

use vstd::prelude::*;
use crate::codebook::{self, PixelMode, WhichCodebook};
use crate::encoder;
use crate::options::{self, EncoderOptions};
use crate::planning::{self, StripSource};
use crate::reading;
use crate::rolling::{self, RollView, Update};
use crate::roundtrip::{self, InterScene};
use crate::sampling::SourceView;
use crate::strips::{self, StripPlan};
use crate::vector;

verus! {

/// Pixels of which every strip fits its length field, whatever they are.
pub const STRIP_PIXELS: u32 = 120000;

/// Whether a picture is so small that its strips always fit: it has few
/// pixels, and is cut into no more strips than a frame always holds.
pub open spec fn always_fits(width: u32, height: u32, o: EncoderOptions) -> bool {
    &&& width * height <= STRIP_PIXELS
    &&& o.strip_count <= 256 || height <= 1024
}

proof fn mbs_bound(x: StripSource, width: int, height: int)
    requires
        x.picture.width == width,
        0 < width,
        0 <= x.top <= x.bottom <= height,
        width * height <= STRIP_PIXELS,
    ensures
        0 <= planning::mb_total(x) <= 7500,
{
    let a = (x.bottom - x.top) / 4;
    let b = width / 4;
    let m = planning::mb_total(x);
    assert(m == b * a || m == a * b);
    assert(0 <= a * b && a * b == b * a && 16 * (a * b) <= width * height) by (nonlinear_arith)
        requires
            0 <= a,
            0 <= b,
            4 * a <= height,
            4 * b <= width,
    ;
}

proof fn emitted_bound(u: Update, r: RollView)
    requires
        u.n <= 256,
    ensures
        rolling::emitted(u, r).0.len() <= 1572,
{
    let slots = rolling::outdated(rolling::held_of_size(r, u.which, u.n), u.cb, u.used, u.n as int);
    codebook::update_len(strips::full_kind(u.which, u.mode), u.cb, u.n, slots);
    reading::emitted_bytes(u, r);
    codebook::update_len(reading::update_kind(u, r), u.cb, u.n, slots);
}

proof fn intra_strip_fits(x: StripSource, o: EncoderOptions, height: int)
    requires
        x.prev is None,
        0 < x.picture.width,
        0 <= x.top < x.bottom <= height,
        x.picture.width * height <= STRIP_PIXELS,
        options::options_error(o) is None,
    ensures
        strips::intra_strip(x, o) is Ok,
        strips::intra_strip(x, o)->Ok_0.len() <= 65535,
{
    let p = planning::strip_plan(x, o, None, None);
    let none = Seq::<u8>::empty();
    let mode = x.picture.mode;
    mbs_bound(x, x.picture.width, height);
    roundtrip::intra_plan_sound(x, o, p);
    vector::intra_bytes_len(p.mbs);
    codebook::update_len(
        strips::full_kind(WhichCodebook::V4, mode),
        p.v4,
        o.v4_entries as nat,
        none,
    );
    codebook::update_len(
        strips::full_kind(WhichCodebook::V1, mode),
        p.v1,
        o.v1_entries as nat,
        none,
    );
}

#[verifier::rlimit(50)]
#[verifier::spinoff_prover]
proof fn inter_strip_fits(
    x: StripSource,
    o: EncoderOptions,
    r: RollView,
    selective: bool,
    seeding: bool,
    height: int,
)
    requires
        0 < x.picture.width,
        0 <= x.top < x.bottom <= height,
        x.picture.width * height <= STRIP_PIXELS,
        options::options_error(o) is None,
        rolling::roll_wf(r),
    ensures
        strips::inter_strip(x, o, r, selective, seeding).bytes is Ok,
        strips::inter_strip(x, o, r, selective, seeding).bytes->Ok_0.len() <= 65535,
        rolling::roll_wf(strips::inter_strip(x, o, r, selective, seeding).roll),
{
    let p = strips::inter_plan(x, o, r, seeding).0;
    let (u4, u1, r4) = roundtrip::inter_updates(x, o, r, selective, seeding);
    mbs_bound(x, x.picture.width, height);
    roundtrip::inter_strip_parts(x, o, r, selective, seeding);
    roundtrip::inter_plan_whole(x, o, r, seeding);
    reveal(reading::script);
    emitted_bound(u4, r);
    emitted_bound(u1, r4);
    vector::inter_bytes_len(p.mbs, false);
}

proof fn joined_bound(s: Seq<Seq<u8>>, n: int)
    requires
        0 <= n <= s.len(),
        forall|i: int| 0 <= i < n ==> (#[trigger] s[i]).len() <= 65535,
    ensures
        strips::joined(s, n).len() <= n * 65535,
    decreases n,
{
    if n > 0 {
        joined_bound(s, n - 1);
    }
}

proof fn frame_fits(width: u32, height: u32, s: Seq<Seq<u8>>)
    requires
        s.len() <= 256,
        forall|i: int| 0 <= i < s.len() ==> (#[trigger] s[i]).len() <= 65535,
    ensures
        strips::frame_bytes(width, height, s) is Ok,
{
    joined_bound(s, s.len() as int);
}

proof fn few_strips(width: u32, height: u32, o: EncoderOptions)
    requires
        always_fits(width, height, o),
        height > 0,
        height % 4 == 0,
    ensures
        encoder::layout_of(height, o).len() <= 256,
{
}

proof fn intra_run_fits(s: SourceView, l: Seq<StripPlan>, o: EncoderOptions, r: RollView, n: int)
    requires
        0 < s.width,
        0 < s.height <= 0xffffffff,
        s.height % 4 == 0,
        s.width * s.height <= STRIP_PIXELS,
        options::options_error(o) is None,
        l == encoder::layout_of(s.height as u32, o),
        0 <= n <= l.len(),
    ensures
        encoder::intra_run(s, l, o, r, n).error is None,
        encoder::intra_run(s, l, o, r, n).strips.len() == n,
        forall|i: int|
            0 <= i < n ==> (#[trigger] encoder::intra_run(s, l, o, r, n).strips[i]).len() <= 65535,
    decreases n,
{
    if n > 0 {
        intra_run_fits(s, l, o, r, n - 1);
        roundtrip::layout_sound(s.height as u32, o);
        assert(l[n - 1].y_top < l[n - 1].y_bottom);
        intra_strip_fits(encoder::strip_of(s, l[n - 1], None, o), o, s.height);
    }
}

/// A small picture always gives a frame that stands alone.
pub proof fn small_picture_gives_frame(
    pixels: Seq<u8>,
    width: u32,
    height: u32,
    mode: PixelMode,
    o: EncoderOptions,
    r: RollView,
)
    requires
        options::request_error(pixels.len(), width, height, mode, o) is None,
        always_fits(width, height, o),
    ensures
        encoder::run_frame(
            width,
            height,
            encoder::whole_intra_run(pixels, width, height, mode, o, r),
        ) is Ok,
        encoder::intra_frame(pixels, width, height, mode, o) is Ok,
{
    let s = encoder::picture(pixels, width, height, mode);
    let l = encoder::layout_of(height, o);
    few_strips(width, height, o);
    intra_run_fits(s, l, o, r, l.len() as int);
    intra_run_fits(s, l, o, rolling::fresh_roll(), l.len() as int);
    frame_fits(width, height, encoder::intra_run(s, l, o, r, l.len() as int).strips);
    frame_fits(
        width,
        height,
        encoder::intra_run(s, l, o, rolling::fresh_roll(), l.len() as int).strips,
    );
}

proof fn scene_run_fits(c: InterScene, n: int)
    requires
        roundtrip::scene_ok(c),
        c.source.width * c.source.height <= STRIP_PIXELS,
        0 <= n <= c.layout.len(),
    ensures
        roundtrip::scene_run(c, n).error is None,
        roundtrip::scene_run(c, n).strips.len() == n,
        rolling::roll_wf(roundtrip::scene_run(c, n).roll),
        forall|i: int|
            0 <= i < n ==> (#[trigger] roundtrip::scene_run(c, n).strips[i]).len() <= 65535,
    decreases n,
{
    if n > 0 {
        scene_run_fits(c, n - 1);
        roundtrip::layout_sound(c.source.height as u32, c.options);
        assert(c.layout[n - 1].y_top < c.layout[n - 1].y_bottom);
        inter_strip_fits(
            roundtrip::scene_strip(c, n - 1),
            c.options,
            roundtrip::scene_run(c, n - 1).roll,
            c.selective,
            c.seeding,
            c.source.height,
        );
    }
}

/// A small picture always gives a frame that builds on what came before.
pub proof fn small_scene_gives_frame(c: InterScene)
    requires
        roundtrip::scene_ok(c),
        always_fits(c.source.width as u32, c.source.height as u32, c.options),
    ensures
        encoder::run_frame(
            c.source.width as u32,
            c.source.height as u32,
            roundtrip::scene_run(c, c.layout.len() as int),
        ) is Ok,
{
    let n = c.layout.len() as int;
    few_strips(c.source.width as u32, c.source.height as u32, c.options);
    scene_run_fits(c, n);
    frame_fits(
        c.source.width as u32,
        c.source.height as u32,
        roundtrip::scene_run(c, n).strips,
    );
}

} // verus!
