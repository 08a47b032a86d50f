//! What the strips of a frame and the frames of a sequence add up to.

use vstd::prelude::*;
use crate::codebook::{self, CodebookChunkKind, CodebookEntry, PixelMode, UpdateStyle, WhichCodebook};
use crate::encoder;
use crate::image::{self, CinepakPixelFormat, FrameView};
use crate::inspection;
use crate::options::EncoderOptions;
use crate::planning::{self, PlanView, StripSource};
use crate::rate;
use crate::reclaim;
use crate::rolling::{self, RollView, Update};
use crate::roundtrip::{self, InterScene};
use crate::sampling::SourceView;
use crate::session::{self, EncoderState};
use crate::strips::{self, InterView, StripPlan};
use crate::text;
use crate::vector::{self, Mb};

verus! {

/// Strip `i` of a frame that builds on what came before, as it was encoded.
pub open spec fn strip_done(c: InterScene, i: int) -> InterView {
    strips::inter_strip(
        roundtrip::scene_strip(c, i),
        c.options,
        roundtrip::scene_run(c, i).roll,
        c.selective,
        c.seeding,
    )
}

/// The numbers of V4 and of V1 entries renewed in the strips from `i` up to
/// `n`, added up, and how many updates had to be full for that.
pub open spec fn renewed_in(c: InterScene, i: int, n: int) -> (nat, nat, nat)
    decreases n - i,
{
    if i >= n {
        (0, 0, 0)
    } else {
        let v = strip_done(c, i);
        let r = renewed_in(c, i + 1, n);
        (
            v.reclaimed_v4.len() + r.0,
            v.reclaimed_v1.len() + r.1,
            (if v.reclaimed_v4.len() > 0 {
                1nat
            } else {
                0nat
            }) + (if v.reclaimed_v1.len() > 0 {
                1nat
            } else {
                0nat
            }) + r.2,
        )
    }
}

proof fn renewed_from_end(c: InterScene, i: int, n: int)
    requires
        i < n,
    ensures
        ({
            let a = renewed_in(c, i, n);
            let b = renewed_in(c, i, n - 1);
            let d = renewed_in(c, n - 1, n);
            a.0 == b.0 + d.0 && a.1 == b.1 + d.1 && a.2 == b.2 + d.2
        }),
    decreases n - i,
{
    assert(renewed_in(c, n, n) == (0nat, 0nat, 0nat));
    if i < n - 1 {
        renewed_from_end(c, i + 1, n);
    } else {
        assert(renewed_in(c, i, n - 1) == (0nat, 0nat, 0nat));
    }
}

/// A frame counts as used every entry that one of its strips uses, and adds
/// up the entries that its strips renew.
pub proof fn frame_adds_up_strips(c: InterScene, n: int, slot: int)
    requires
        0 <= n,
        0 <= slot < 256,
        roundtrip::scene_run(c, n).error is None,
    ensures
        ({
            let run = roundtrip::scene_run(c, n);
            &&& run.used_v4[slot] <==> exists|i: int|
                0 <= i < n && (#[trigger] strip_done(c, i)).used_v4[slot]
            &&& run.used_v1[slot] <==> exists|i: int|
                0 <= i < n && (#[trigger] strip_done(c, i)).used_v1[slot]
            &&& (run.reclaimed_v4, run.reclaimed_v1, run.forced) == renewed_in(c, 0, n)
            &&& run.strips.len() == n
        }),
    decreases n,
{
    if n > 0 {
        let before = roundtrip::scene_run(c, n - 1);
        let run = roundtrip::scene_run(c, n);
        assert(before.error is None);
        frame_adds_up_strips(c, n - 1, slot);
        renewed_from_end(c, 0, n);
        assert(renewed_in(c, n, n) == (0nat, 0nat, 0nat));
        let v = strip_done(c, n - 1);
        assert(run.used_v4[slot] == (before.used_v4[slot] || v.used_v4[slot]));
        assert(run.used_v1[slot] == (before.used_v1[slot] || v.used_v1[slot]));
        if before.used_v4[slot] {
            let i = choose|i: int| 0 <= i < n - 1 && (#[trigger] strip_done(c, i)).used_v4[slot];
            assert(0 <= i < n && strip_done(c, i).used_v4[slot]);
        }
        if before.used_v1[slot] {
            let i = choose|i: int| 0 <= i < n - 1 && (#[trigger] strip_done(c, i)).used_v1[slot];
            assert(0 <= i < n && strip_done(c, i).used_v1[slot]);
        }
    }
}

/// The entries that a strip uses are those that its macroblocks name.
pub proof fn strip_uses_named(c: InterScene, i: int, slot: int)
    requires
        0 <= slot < 256,
    ensures
        strip_done(c, i).used_v4[slot] <==> exists|k: int|
            0 <= k < roundtrip::scene_plan(c, i).mbs.len() && (
            #[trigger] roundtrip::scene_plan(c, i).mbs[k] matches Mb::V4(x) && (x[0] == slot || x[1]
                == slot || x[2] == slot || x[3] == slot)),
        strip_done(c, i).used_v1[slot] <==> exists|k: int|
            0 <= k < roundtrip::scene_plan(c, i).mbs.len()
                && #[trigger] roundtrip::scene_plan(c, i).mbs[k] == Mb::V1(slot as u8),
{
    reveal(strips::inter_strip);
    let mbs = roundtrip::scene_plan(c, i).mbs;
    assert(strip_done(c, i).used_v4 == rolling::used_v4(mbs));
    assert(strip_done(c, i).used_v1 == rolling::used_v1(mbs));
    assert forall|k: int| 0 <= k < mbs.len() implies rolling::mb_uses_v4(#[trigger] mbs[k], slot) == (
    mbs[k] matches Mb::V4(x) && (x[0] == slot || x[1] == slot || x[2] == slot || x[3] == slot)) by {}
    assert forall|k: int| 0 <= k < mbs.len() implies rolling::mb_uses_v1(#[trigger] mbs[k], slot) == (
    mbs[k] == Mb::V1(slot as u8)) by {}
}

/// Renewed entries count as just used; the others keep their counts.
pub proof fn renewed_counts(s: Seq<u16>, slots: Seq<u8>, k: int, i: int)
    requires
        s.len() == 256,
        0 <= k <= slots.len(),
        0 <= i < 256,
    ensures
        rolling::renewed(s, slots, k).len() == 256,
        slots.take(k).contains(i as u8) ==> rolling::renewed(s, slots, k)[i] == 0,
        !slots.take(k).contains(i as u8) ==> rolling::renewed(s, slots, k)[i] == s[i],
    decreases k,
{
    if k > 0 {
        renewed_counts(s, slots, k - 1, i);
        let now = slots.take(k);
        let before = slots.take(k - 1);
        assert(now[k - 1] == slots[k - 1]);
        if now.contains(i as u8) && slots[k - 1] != i as u8 {
            let j = choose|j: int| 0 <= j < now.len() && now[j] == i as u8;
            assert(before[j] == i as u8);
        }
        if before.contains(i as u8) {
            let j = choose|j: int| 0 <= j < before.len() && before[j] == i as u8;
            assert(now[j] == i as u8);
        }
    }
}

/// A strip starts from the codebook that the decoder holds where it may, and
/// that has the size asked for: from that very codebook where entries never
/// go stale, and else from one whose other entries are as in that.
pub proof fn strip_starts_from_held(
    samples: Seq<CodebookEntry>,
    mode: PixelMode,
    o: EncoderOptions,
    r: RollView,
    which: WhichCodebook,
    n: int,
    seeding: bool,
    slot: int,
)
    requires
        1 <= n <= 256,
        0 <= slot < 256,
        rolling::roll_wf(r),
    ensures
        ({
            let (seed, fresh) = strips::strip_seed(samples, mode, o, r, which, n, seeding);
            let held = match which {
                WhichCodebook::V4 => r.v4,
                WhichCodebook::V1 => r.v1,
            };
            let counts = match which {
                WhichCodebook::V4 => r.v4_stale,
                WhichCodebook::V1 => r.v1_stale,
            };
            &&& seed is Some <==> seeding && held is Some && (held->0).1 == n
            &&& seed is None ==> fresh.len() == 0
            &&& seed is Some && o.stale_slot_threshold is None ==> seed->0 == (held->0).0 && fresh.len()
                == 0
            &&& seed is Some && !fresh.contains(slot as u8) ==> seed->0[slot] == (held->0).0[slot]
            &&& seed is Some && fresh.contains(slot as u8) ==> (
            o.stale_slot_threshold matches Some(t) && counts[slot] > t && slot < n)
        }),
{
    let (seed, fresh) = strips::strip_seed(samples, mode, o, r, which, n, seeding);
    if seed is Some {
        if let Some(t) = o.stale_slot_threshold {
            let m = planning::metric_of(mode, o);
            let held = rolling::held_of_size(r, which, n as nat)->0;
            let chosen = crate::renewal::stale_entries_are_renewed(
                m,
                samples,
                held,
                n,
                rolling::stale(r, which),
                t,
            );
            if fresh.contains(slot as u8) {
                let j = choose|j: int| 0 <= j < fresh.len() && fresh[j] == slot as u8;
                assert(fresh[j] == slot);
            }
        }
    }
}

/// A strip in which nothing moved sends no codebook, where the decoder holds
/// both, none of their entries is renewed, and updates may be selective.
pub proof fn still_strip_sends_no_codebook(x: StripSource, o: EncoderOptions, r: RollView, seeding: bool)
    requires
        rolling::roll_wf(r),
        1 <= o.v4_entries <= 256,
        1 <= o.v1_entries <= 256,
        r.v4 matches Some((_, n)) && n == o.v4_entries,
        r.v1 matches Some((_, n)) && n == o.v1_entries,
        planning::mb_total(x) >= 0,
        forall|i: int| 0 <= i < planning::mb_total(x) ==> planning::skipped_at(x, i),
        strips::inter_strip(x, o, r, true, seeding).reclaimed_v4.len() == 0,
        strips::inter_strip(x, o, r, true, seeding).reclaimed_v1.len() == 0,
    ensures
        ({
            let v = strips::inter_strip(x, o, r, true, seeding);
            &&& v.roll.v4 == r.v4
            &&& v.roll.v1 == r.v1
            &&& v.bytes == strips::strip_bytes(
                0x1100,
                strips::rows_of(x),
                x.picture.width as u32,
                crate::codebook::chunk_bytes(
                    0x3100,
                    crate::vector::inter_bytes(
                        Seq::new(planning::mb_total(x) as nat, |i: int| Mb::Skip),
                        false,
                    ),
                ),
            )
        }),
{
    reveal(strips::inter_strip);
    let (p, new4, new1) = strips::inter_plan(x, o, r, seeding);
    let q4 = planning::kept_quads(x, planning::mb_total(x));
    let q1 = planning::kept_singles(x, planning::mb_total(x));
    let s4 = strips::strip_seed(
        q4,
        x.picture.mode,
        o,
        r,
        WhichCodebook::V4,
        o.v4_entries as int,
        seeding,
    ).0;
    let s1 = strips::strip_seed(
        q1,
        x.picture.mode,
        o,
        r,
        WhichCodebook::V1,
        o.v1_entries as int,
        seeding,
    ).0;
    if let Some(t) = o.stale_slot_threshold {
        let m = planning::metric_of(x.picture.mode, o);
        reclaim::reclaimed_len(m, q4, (r.v4->0).0, o.v4_entries as int, r.v4_stale, t);
        reclaim::reclaimed_len(m, q1, (r.v1->0).0, o.v1_entries as int, r.v1_stale, t);
    }
    planning::plan_is_in_range(x, o, s4, s1);
    assert(p.mbs =~= Seq::new(planning::mb_total(x) as nat, |i: int| Mb::Skip)) by {
        assert forall|i: int| 0 <= i < p.mbs.len() implies p.mbs[i] == Mb::Skip by {
            assert(planning::skipped_at(x, i));
        }
    }
    let used4 = rolling::used_v4(p.mbs);
    let used1 = rolling::used_v1(p.mbs);
    assert forall|s: int| 0 <= s < 256 implies !used4[s] && !used1[s] by {
        assert forall|i: int| 0 <= i < p.mbs.len() implies !rolling::mb_uses_v4(
            #[trigger] p.mbs[i],
            s,
        ) && !rolling::mb_uses_v1(p.mbs[i], s) by {}
    }
    nothing_outdated((r.v4->0).0, p.v4, used4, o.v4_entries as int);
    nothing_outdated((r.v1->0).0, p.v1, used1, o.v1_entries as int);
    let v = strips::inter_strip(x, o, r, true, seeding);
    let chunk = crate::codebook::chunk_bytes(0x3100, crate::vector::inter_bytes(p.mbs, false));
    assert(Seq::<u8>::empty() + Seq::<u8>::empty() + chunk =~= chunk);
}

proof fn nothing_outdated(
    held: Seq<CodebookEntry>,
    cb: Seq<CodebookEntry>,
    used: Seq<bool>,
    k: int,
)
    requires
        k <= 256,
        forall|s: int| 0 <= s < 256 ==> !used[s],
    ensures
        rolling::outdated(Some(held), cb, used, k).len() == 0,
    decreases k,
{
    if k > 0 {
        nothing_outdated(held, cb, used, k - 1);
    }
}

/// The sizes that a pass for statistics records are those of its frames, each
/// encoded from the state after the one before.
pub proof fn recorded_sizes(
    frames: Seq<Seq<u8>>,
    width: u32,
    height: u32,
    o: EncoderOptions,
    n: int,
    i: int,
)
    requires
        0 <= i < n,
        rate::stats_run(frames, width, height, o, n).error is None,
    ensures
        ({
            let run = rate::stats_run(frames, width, height, o, n);
            let before = rate::stats_run(frames, width, height, o, i);
            let after = rate::stats_run(frames, width, height, o, i + 1);
            let call = rate::sequence_call(before.state, i, frames[i], width, height, o);
            &&& run.sizes.len() == n
            &&& before.error is None
            &&& after.error is None
            &&& call.0 == after.state
            &&& call.1 matches Ok(b) && run.sizes[i] == b.len()
        }),
    decreases n,
{
    let last = rate::stats_run(frames, width, height, o, n - 1);
    if n > 1 {
        recorded_sizes(frames, width, height, o, n - 1, if i < n - 1 { i } else { 0 });
    }
    crate::pacing::frame_has_header(last.state, n - 1, frames[n - 1], width, height, o);
}

/// The first frame of a sequence stands alone, and every other builds on the
/// one before.
pub proof fn first_stands_alone(
    st: session::EncoderState,
    i: int,
    rgb: Seq<u8>,
    width: u32,
    height: u32,
    o: EncoderOptions,
)
    requires
        i >= 0,
    ensures
        rate::sequence_call(st, i, rgb, width, height, o) == if i == 0 {
            session::intra_call(st, rgb, width, height, o)
        } else {
            session::inter_call(st, rgb, width, height, o)
        },
{
}

/// Recorded sizes, added up from place `i` on.
pub open spec fn size_total(s: Seq<usize>, i: int) -> int
    decreases s.len() - i,
{
    if i < 0 || i >= s.len() {
        0
    } else {
        s[i] + size_total(s, i + 1)
    }
}

/// The sum of recorded sizes is that of all of them.
pub proof fn sizes_add_up(s: Seq<usize>, k: int)
    requires
        0 <= k <= s.len(),
    ensures
        rate::sizes_sum(s, k) == size_total(s, 0) - size_total(s, k),
        k == s.len() ==> rate::sizes_sum(s, k) == size_total(s, 0),
    decreases k,
{
    assert(size_total(s, s.len() as int) == 0);
    if k > 0 {
        sizes_add_up(s, k - 1);
    }
}

/// The number that a digit stands for.
pub open spec fn digit_value(c: char) -> int {
    if '0' <= c <= '9' {
        c as int - '0' as int
    } else {
        c as int - 'a' as int + 10
    }
}

/// The number that digits stand for, the highest first.
pub open spec fn value_of(s: Seq<char>, base: int) -> int
    decreases s.len(),
{
    if s.len() == 0 {
        0
    } else {
        base * value_of(s.drop_last(), base) + digit_value(s.last())
    }
}

/// A numeral stands for its number, and does not start with a zero unless
/// that is all there is.
pub proof fn numeral_reads_back(n: nat, base: nat)
    requires
        2 <= base <= 16,
    ensures
        value_of(text::numeral(n, base), base as int) == n,
        text::numeral(n, base).len() > 0,
        n > 0 ==> text::numeral(n, base)[0] != '0',
        forall|i: int|
            0 <= i < text::numeral(n, base).len() ==> 0 <= digit_value(
                #[trigger] text::numeral(n, base)[i],
            ) < base,
    decreases n,
{
    if n < base {
        let s = seq![text::digit(n as int)];
        assert(s.drop_last() =~= Seq::empty());
        assert(value_of(s.drop_last(), base as int) == 0);
        assert(base * 0 == 0);
    } else {
        let q = n / base;
        assert(q < n && q > 0 && n == base * q + n % base) by (nonlinear_arith)
            requires
                q == n / base,
                n >= base,
                base >= 2,
        ;
        numeral_reads_back(q, base);
        let s = text::numeral(q, base);
        let t = text::numeral(n, base);
        assert(t == s.push(text::digit((n % base) as int)));
        assert(t.drop_last() =~= s);
        assert(t[0] == s[0]);
        assert forall|i: int| 0 <= i < t.len() implies 0 <= digit_value(#[trigger] t[i]) < base by {
            if i < s.len() {
                assert(t[i] == s[i]);
            }
        }
    }
}

proof fn value_of_pushed(s: Seq<char>, c: char, base: int)
    ensures
        value_of(s.push(c), base) == base * value_of(s, base) + digit_value(c),
{
    assert(s.push(c).drop_last() =~= s);
}

proof fn value_of_two(a: char, b: char)
    ensures
        value_of(seq![a, b], 16) == 16 * digit_value(a) + digit_value(b),
{
    let e = Seq::<char>::empty();
    value_of_pushed(e, a, 16);
    value_of_pushed(e.push(a), b, 16);
    assert(seq![a, b] =~= e.push(a).push(b));
}

proof fn value_of_four(a: char, b: char, c: char, d: char)
    ensures
        value_of(seq![a, b, c, d], 16) == 4096 * digit_value(a) + 256 * digit_value(b) + 16
            * digit_value(c) + digit_value(d),
{
    let s = seq![a, b];
    value_of_two(a, b);
    value_of_pushed(s, c, 16);
    value_of_pushed(s.push(c), d, 16);
    assert(seq![a, b, c, d] =~= s.push(c).push(d));
}

/// Decimal and hexadecimal numerals stand for their numbers.
#[verifier::rlimit(50)]
#[verifier::spinoff_prover]
pub proof fn texts_read_back(n: nat, a: u8, b: u16)
    ensures
        value_of(text::dec(n), 10) == n,
        value_of(text::hex(n), 16) == n,
        value_of(text::hex2(a), 16) == a && text::hex2(a).len() == 2,
        value_of(text::hex4(b), 16) == b && text::hex4(b).len() == 4,
{
    reveal(text::dec);
    reveal(text::hex);
    reveal(text::hex2);
    reveal(text::hex4);
    numeral_reads_back(n, 10);
    numeral_reads_back(n, 16);
    assert forall|d: int| 0 <= d < 16 implies digit_value(#[trigger] text::digit(d)) == d by {}
    value_of_two(text::digit((a / 16) as int), text::digit((a % 16) as int));
    value_of_four(
        text::digit((b / 4096) as int),
        text::digit((b / 256 % 16) as int),
        text::digit((b / 16 % 16) as int),
        text::digit((b % 16) as int),
    );
}

/// Strips share the rows of macroblocks: there are as many as asked for, one
/// at least and no more than rows, and none is lower than a later one.
pub proof fn strips_share_rows(mb_rows: int, requested: int, i: int, j: int)
    requires
        1 <= mb_rows <= 0x3fffffff,
    ensures
        ({
            let l = strips::strip_layout(mb_rows, requested);
            &&& l.len() >= 1
            &&& l.len() <= mb_rows
            &&& 1 <= requested <= mb_rows ==> l.len() == requested
            &&& requested < 1 ==> l.len() == 1
            &&& requested > mb_rows ==> l.len() == mb_rows
            &&& 0 <= i <= j < l.len() ==> l[i].y_bottom - l[i].y_top >= l[j].y_bottom - l[j].y_top
        }),
{
    let l = strips::strip_layout(mb_rows, requested);
    let n = strips::strip_number(mb_rows, requested);
    if 0 <= i <= j < l.len() {
        strips::rows_before_step(mb_rows, n, i);
        strips::rows_before_step(mb_rows, n, j);
        strips::rows_before_bound(mb_rows, n, i);
        strips::rows_before_bound(mb_rows, n, i + 1);
        strips::rows_before_bound(mb_rows, n, j);
        strips::rows_before_bound(mb_rows, n, j + 1);
    }
}

/// The bytes of the strips from `i` on.
pub open spec fn bytes_from(s: Seq<Seq<u8>>, i: int) -> int
    decreases s.len() - i,
{
    if i < 0 || i >= s.len() {
        0
    } else {
        s[i].len() + bytes_from(s, i + 1)
    }
}

proof fn joined_len(s: Seq<Seq<u8>>, k: int)
    requires
        0 <= k <= s.len(),
    ensures
        strips::joined(s, k).len() == bytes_from(s, 0) - bytes_from(s, k),
        bytes_from(s, k) >= 0,
    decreases k,
{
    bytes_from_positive(s, k);
    if k > 0 {
        joined_len(s, k - 1);
    }
}

proof fn bytes_from_positive(s: Seq<Seq<u8>>, i: int)
    ensures
        bytes_from(s, i) >= 0,
    decreases s.len() - i,
{
    if 0 <= i < s.len() {
        bytes_from_positive(s, i + 1);
    }
}

proof fn strip_in_joined(s: Seq<Seq<u8>>, n: int, k: int, j: int)
    requires
        0 <= k < n <= s.len(),
        0 <= j < s[k].len(),
    ensures
        0 <= bytes_from(s, 0) - bytes_from(s, k) + j < strips::joined(s, n).len(),
        strips::joined(s, n)[bytes_from(s, 0) - bytes_from(s, k) + j] == s[k][j],
    decreases n,
{
    joined_len(s, n);
    joined_len(s, n - 1);
    joined_len(s, k);
    if k < n - 1 {
        strip_in_joined(s, n - 1, k, j);
    }
}

/// A frame is its header, which tells its length, size and number of strips,
/// with no flag set, and then its strips one after the other; it is refused
/// only where its length is beyond 24 bits.
pub proof fn frame_in_bytes(width: u32, height: u32, s: Seq<Seq<u8>>, k: int, j: int)
    requires
        width <= 65535,
        height <= 65535,
        s.len() <= 65535,
    ensures
        strips::frame_bytes(width, height, s) is Ok <==> 10 + bytes_from(s, 0) <= 0xffffff,
        strips::frame_bytes(width, height, s) matches Ok(b) ==> {
            &&& b.len() == 10 + bytes_from(s, 0)
            &&& b[0] == 0
            &&& 65536 * b[1] + 256 * b[2] + b[3] == b.len()
            &&& 256 * b[4] + b[5] == width
            &&& 256 * b[6] + b[7] == height
            &&& 256 * b[8] + b[9] == s.len()
            &&& 0 <= k < s.len() && 0 <= j < s[k].len() ==> b[10 + (bytes_from(s, 0) - bytes_from(s, k))
                + j] == s[k][j]
        },
{
    joined_len(s, s.len() as int);
    assert(bytes_from(s, s.len() as int) == 0);
    if 0 <= k < s.len() && 0 <= j < s[k].len() {
        strip_in_joined(s, s.len() as int, k, j);
    }
}

/// A strip is its header, which tells its id, size and rectangle, and then
/// its chunks; it is refused only where its size is beyond 16 bits.
pub proof fn strip_in_bytes(id: u16, rows: StripPlan, width: u32, chunks: Seq<u8>)
    requires
        rows.y_bottom <= 65535,
        rows.y_top <= rows.y_bottom,
        width <= 65535,
    ensures
        strips::strip_bytes(id, rows, width, chunks) is Ok <==> 12 + chunks.len() <= 65535,
        strips::strip_bytes(id, rows, width, chunks) matches Ok(b) ==> {
            &&& b.len() == 12 + chunks.len()
            &&& 256 * b[0] + b[1] == id
            &&& 256 * b[2] + b[3] == b.len()
            &&& 256 * b[4] + b[5] == rows.y_top
            &&& 256 * b[6] + b[7] == 0
            &&& 256 * b[8] + b[9] == rows.y_bottom
            &&& 256 * b[10] + b[11] == width
            &&& b.skip(12) == chunks
        },
{
    if let Ok(b) = strips::strip_bytes(id, rows, width, chunks) {
        assert(b.skip(12) =~= chunks);
    }
}

/// The scene of a frame that an encoder builds on what came before.
pub open spec fn scene_of(
    st: session::EncoderState,
    rgb: Seq<u8>,
    width: u32,
    height: u32,
    o: EncoderOptions,
) -> InterScene {
    InterScene {
        source: encoder::picture(rgb, width, height, PixelMode::Yuv12),
        layout: encoder::layout_of(height, o),
        plane: session::compared_plane(st.prev, width, height),
        options: o,
        roll: st.roll,
        selective: true,
        seeding: st.persistence,
    }
}

/// After a frame that builds on what came before, the encoder tells how many
/// entries its strips renewed and how many updates were full for that, and
/// has counted the frame against every entry that none of them used.
pub proof fn frame_is_accounted_for(
    st: session::EncoderState,
    rgb: Seq<u8>,
    width: u32,
    height: u32,
    o: EncoderOptions,
    slot: int,
)
    requires
        session::inter_one(st, rgb, width, height, o).1 is Ok,
        0 <= slot < 256,
    ensures
        ({
            let c = scene_of(st, rgb, width, height, o);
            let n = c.layout.len() as int;
            let after = session::inter_one(st, rgb, width, height, o).0;
            let counts = roundtrip::scene_run(c, n).roll;
            let r = renewed_in(c, 0, n);
            let used4 = exists|i: int| 0 <= i < n && (#[trigger] strip_done(c, i)).used_v4[slot];
            let used1 = exists|i: int| 0 <= i < n && (#[trigger] strip_done(c, i)).used_v1[slot];
            &&& r.0 <= usize::MAX ==> after.stats.reclaimed_v4_slots == r.0
            &&& r.1 <= usize::MAX ==> after.stats.reclaimed_v1_slots == r.1
            &&& r.2 <= usize::MAX ==> after.stats.forced_full_chunks == r.2
            &&& slot < o.v4_entries && used4 ==> after.roll.v4_stale[slot] == 0
            &&& slot < o.v4_entries && !used4 && counts.v4_stale[slot] < u16::MAX
                ==> after.roll.v4_stale[slot] == counts.v4_stale[slot] + 1
            &&& slot < o.v1_entries && used1 ==> after.roll.v1_stale[slot] == 0
            &&& slot < o.v1_entries && !used1 && counts.v1_stale[slot] < u16::MAX
                ==> after.roll.v1_stale[slot] == counts.v1_stale[slot] + 1
            &&& after.roll.v4 == counts.v4 && after.roll.v1 == counts.v1
        }),
{
    reveal(session::inter_one);
    let c = scene_of(st, rgb, width, height, o);
    let n = c.layout.len() as int;
    frame_adds_up_strips(c, n, slot);
}

/// How a count goes on by a frame: it starts again where the entry is used,
/// and else grows by one up to the largest number.
pub open spec fn goes_on(before: u16, after: u16, used: bool) -> bool {
    &&& used ==> after == 0
    &&& !used && before < 65535 ==> after == before + 1
    &&& !used && before == 65535 ==> after == 65535
}

/// A frame that builds on what came before lets the count of every entry in
/// use go on, of V4 entries by what the V4 macroblocks used and of V1 entries
/// by what the V1 macroblocks used. The codebooks are those that its strips
/// left, and the statistics are of its strips. The settings stay.
pub proof fn counts_go_on(
    st: EncoderState,
    rgb: Seq<u8>,
    width: u32,
    height: u32,
    o: EncoderOptions,
    slot: int,
)
    requires
        0 <= slot < 256,
    ensures
        ({
            let run = encoder::whole_inter_run(
                rgb,
                width,
                height,
                session::compared_plane(st.prev, width, height),
                o,
                st.roll,
                true,
                st.persistence,
            );
            let after = session::inter_one(st, rgb, width, height, o).0;
            &&& after.persistence == st.persistence
            &&& after.target == st.target
            &&& after.rate == st.rate
            &&& after.roll.v4 == run.roll.v4
            &&& after.roll.v1 == run.roll.v1
            &&& run.error is None ==> {
                &&& slot < o.v4_entries ==> goes_on(
                    run.roll.v4_stale[slot],
                    after.roll.v4_stale[slot],
                    run.used_v4[slot],
                )
                &&& slot < o.v1_entries ==> goes_on(
                    run.roll.v1_stale[slot],
                    after.roll.v1_stale[slot],
                    run.used_v1[slot],
                )
                &&& slot >= o.v4_entries ==> after.roll.v4_stale[slot] == run.roll.v4_stale[slot]
                &&& slot >= o.v1_entries ==> after.roll.v1_stale[slot] == run.roll.v1_stale[slot]
                &&& run.reclaimed_v4 <= usize::MAX ==> after.stats.reclaimed_v4_slots
                    == run.reclaimed_v4
                &&& run.reclaimed_v1 <= usize::MAX ==> after.stats.reclaimed_v1_slots
                    == run.reclaimed_v1
                &&& run.forced <= usize::MAX ==> after.stats.forced_full_chunks == run.forced
            }
        }),
{
    reveal(session::inter_one);
}

proof fn intra_strips_keep_counts(
    s: SourceView,
    layout: Seq<StripPlan>,
    o: EncoderOptions,
    r: RollView,
    n: int,
)
    ensures
        encoder::intra_run(s, layout, o, r, n).roll.v4_stale == r.v4_stale,
        encoder::intra_run(s, layout, o, r, n).roll.v1_stale == r.v1_stale,
    decreases n,
{
    if n > 0 {
        intra_strips_keep_counts(s, layout, o, r, n - 1);
    }
}

/// A frame that stands alone starts the counts again, renews nothing, and
/// leaves the settings as they are.
pub proof fn counts_start_again(
    st: EncoderState,
    rgb: Seq<u8>,
    width: u32,
    height: u32,
    o: EncoderOptions,
)
    ensures
        ({
            let after = session::intra_one(st, rgb, width, height, o).0;
            &&& after.persistence == st.persistence
            &&& after.target == st.target
            &&& after.rate == st.rate
            &&& after.stats.reclaimed_v4_slots == 0
            &&& after.stats.reclaimed_v1_slots == 0
            &&& after.stats.forced_full_chunks == 0
            &&& after.roll.v4_stale =~= Seq::new(256, |i: int| 0u16)
            &&& after.roll.v1_stale =~= Seq::new(256, |i: int| 0u16)
        }),
{
    reveal(session::intra_one);
    let layout = encoder::layout_of(height, o);
    intra_strips_keep_counts(
        encoder::picture(rgb, width, height, PixelMode::Yuv12),
        layout,
        o,
        rolling::fresh_roll(),
        layout.len() as int,
    );
}

/// A picture is compared with the one shown before, where that has its size.
pub proof fn compared_with_shown(f: FrameView, width: u32, height: u32)
    requires
        image::packed(f),
        f.pixel_format == CinepakPixelFormat::Rgb24,
        f.width == width,
        f.height == height,
    ensures
        session::compared_plane(Some(f), width, height) == Some(f.planes[0]),
        session::compared_plane(None, width, height) is None,
{
    let stride = f.planes[0].stride as int;
    assert(stride == 3 * width);
    assert((height - 1) * stride + stride == height * stride) by (nonlinear_arith);
    assert(height * stride == stride * height) by (nonlinear_arith);
}

/// A strip starts the counts of the entries that it renews again, and leaves
/// the others for the end of the frame.
pub proof fn strip_renews_counts(
    x: StripSource,
    o: EncoderOptions,
    r: RollView,
    selective: bool,
    seeding: bool,
    slot: int,
)
    requires
        0 <= slot < 256,
        r.v4_stale.len() == 256,
        r.v1_stale.len() == 256,
    ensures
        ({
            let v = strips::inter_strip(x, o, r, selective, seeding);
            &&& v.reclaimed_v4.contains(slot as u8) ==> v.roll.v4_stale[slot] == 0
            &&& !v.reclaimed_v4.contains(slot as u8) ==> v.roll.v4_stale[slot] == r.v4_stale[slot]
            &&& v.reclaimed_v1.contains(slot as u8) ==> v.roll.v1_stale[slot] == 0
            &&& !v.reclaimed_v1.contains(slot as u8) ==> v.roll.v1_stale[slot] == r.v1_stale[slot]
        }),
{
    reveal(strips::inter_strip);
    let v = strips::inter_strip(x, o, r, selective, seeding);
    renewed_counts(r.v4_stale, v.reclaimed_v4, v.reclaimed_v4.len() as int, slot);
    renewed_counts(r.v1_stale, v.reclaimed_v1, v.reclaimed_v1.len() as int, slot);
    assert(v.reclaimed_v4.take(v.reclaimed_v4.len() as int) =~= v.reclaimed_v4);
    assert(v.reclaimed_v1.take(v.reclaimed_v1.len() as int) =~= v.reclaimed_v1);
}

/// The chunks of a strip that stands alone: all V4 entries, all V1 entries,
/// and then the macroblocks, each behind its id and size.
pub proof fn intra_chunks_in_bytes(mode: PixelMode, o: EncoderOptions, p: PlanView)
    requires
        o.v4_entries <= 256,
        o.v1_entries <= 256,
        vector::intra_bytes(p.mbs).len() <= 65531,
    ensures
        ({
            let b = strips::intra_chunks(mode, o, p);
            let size = if mode == PixelMode::Gray8 {
                4int
            } else {
                6int
            };
            let id = if mode == PixelMode::Gray8 {
                0x2400int
            } else {
                0x2000int
            };
            let n4 = 4 + o.v4_entries * size;
            let n1 = 4 + o.v1_entries * size;
            let body = vector::intra_bytes(p.mbs);
            &&& b.len() == n4 + n1 + 4 + body.len()
            &&& inspection::pair(b, 0) == id
            &&& inspection::pair(b, 2) == n4
            &&& b.subrange(4, n4) == codebook::entries_bytes(mode, p.v4, o.v4_entries as nat)
            &&& inspection::pair(b, n4) == id + 0x200
            &&& inspection::pair(b, n4 + 2) == n1
            &&& b.subrange(n4 + 4, n4 + n1) == codebook::entries_bytes(
                mode,
                p.v1,
                o.v1_entries as nat,
            )
            &&& inspection::pair(b, n4 + n1) == 0x3000
            &&& inspection::pair(b, n4 + n1 + 2) == 4 + body.len()
            &&& b.skip(n4 + n1 + 4) == body
        }),
{
    let b = strips::intra_chunks(mode, o, p);
    let e4 = codebook::entries_bytes(mode, p.v4, o.v4_entries as nat);
    let e1 = codebook::entries_bytes(mode, p.v1, o.v1_entries as nat);
    let body = vector::intra_bytes(p.mbs);
    codebook::entries_bytes_len(mode, p.v4, o.v4_entries as nat);
    codebook::entries_bytes_len(mode, p.v1, o.v1_entries as nat);
    let c4 = codebook::full_chunk(strips::full_kind(WhichCodebook::V4, mode), p.v4, o.v4_entries as nat);
    let c1 = codebook::full_chunk(strips::full_kind(WhichCodebook::V1, mode), p.v1, o.v1_entries as nat);
    let cv = codebook::chunk_bytes(0x3000u16, body);
    chunk_in_bytes(codebook::kind_id(strips::full_kind(WhichCodebook::V4, mode)), e4);
    chunk_in_bytes(codebook::kind_id(strips::full_kind(WhichCodebook::V1, mode)), e1);
    chunk_in_bytes(0x3000u16, body);
    assert(b == c4 + c1 + cv);
    assert(b.subrange(4, c4.len() as int) =~= e4);
    assert(b.subrange((c4.len() + 4) as int, (c4.len() + c1.len()) as int) =~= e1);
    assert(b.skip((c4.len() + c1.len() + 4) as int) =~= body);
}

proof fn chunk_in_bytes(id: u16, payload: Seq<u8>)
    requires
        payload.len() <= 65531,
    ensures
        ({
            let b = codebook::chunk_bytes(id, payload);
            &&& b.len() == 4 + payload.len()
            &&& inspection::pair(b, 0) == id
            &&& inspection::pair(b, 2) == b.len()
            &&& b.skip(4) == payload
        }),
{
    assert(codebook::chunk_bytes(id, payload).skip(4) =~= payload);
}

proof fn chunk_has_id(id: u16, payload: Seq<u8>)
    ensures
        inspection::pair(codebook::chunk_bytes(id, payload), 0) == id,
        codebook::chunk_bytes(id, payload).len() == 4 + payload.len(),
{
}

proof fn update_has_id(u: Update, r: RollView)
    ensures
        ({
            let b = rolling::emitted(u, r).0;
            let id = 0x2000 + (if u.mode == PixelMode::Gray8 {
                0x400int
            } else {
                0int
            }) + (if u.which == WhichCodebook::V1 {
                0x200int
            } else {
                0int
            });
            b.len() == 0 || inspection::pair(b, 0) == id || inspection::pair(b, 0) == id + 0x100
        }),
{
    let prev = rolling::held_of_size(r, u.which, u.n);
    let slots = rolling::outdated(prev, u.cb, u.used, u.n as int);
    let full = CodebookChunkKind { which: u.which, style: UpdateStyle::Full, mode: u.mode };
    let part = CodebookChunkKind { which: u.which, style: UpdateStyle::Selective, mode: u.mode };
    chunk_has_id(codebook::kind_id(full), codebook::entries_bytes(u.mode, u.cb, u.n));
    chunk_has_id(
        codebook::kind_id(part),
        codebook::slot_groups(u.mode, u.cb, slots, codebook::group_count(slots)),
    );
}

/// The chunks of a strip that builds on what came before: an update of V4
/// entries or none, one of V1 entries or none, and then the macroblocks.
#[verifier::rlimit(50)]
#[verifier::spinoff_prover]
pub proof fn inter_chunks_in_order(
    x: StripSource,
    o: EncoderOptions,
    r: RollView,
    selective: bool,
    seeding: bool,
) -> (parts: (Seq<u8>, Seq<u8>, Seq<u8>))
    ensures
        strips::inter_strip(x, o, r, selective, seeding).bytes matches Ok(b) ==> {
            let id = if x.picture.mode == PixelMode::Gray8 {
                0x2400int
            } else {
                0x2000int
            };
            &&& b.skip(12) == parts.0 + parts.1 + parts.2
            &&& parts.0.len() == 0 || inspection::pair(parts.0, 0) == id || inspection::pair(parts.0, 0) == id + 0x100
            &&& parts.1.len() == 0 || inspection::pair(parts.1, 0) == id + 0x200 || inspection::pair(parts.1, 0) == id + 0x300
            &&& inspection::pair(parts.2, 0) == 0x3100
            &&& parts.2.skip(4) == vector::inter_bytes(
                strips::inter_plan(x, o, r, seeding).0.mbs,
                false,
            )
        },
{
    reveal(strips::inter_strip);
    let (p, new4, new1) = strips::inter_plan(x, o, r, seeding);
    let u4 = strips::v4_update(x, o, p, selective, new4.len() > 0);
    let u1 = strips::v1_update(x, o, p, selective, new1.len() > 0);
    let e4 = rolling::emitted(u4, r);
    let r4 = rolling::with_held(r, WhichCodebook::V4, e4.1, o.v4_entries as nat);
    let e1 = rolling::emitted(u1, r4);
    update_has_id(u4, r);
    update_has_id(u1, r4);
    let body = vector::inter_bytes(p.mbs, false);
    let chunk = codebook::chunk_bytes(0x3100u16, body);
    chunk_has_id(0x3100u16, body);
    assert(chunk.skip(4) =~= body);
    if let Ok(b) = strips::inter_strip(x, o, r, selective, seeding).bytes {
        assert(b.skip(12) =~= e4.0 + e1.0 + chunk);
    }
    (e4.0, e1.0, chunk)
}

} // verus!
