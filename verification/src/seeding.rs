//! Codebooks whose first entries are drawn at random from the vectors, far
//! ones more often than near ones.
//!
//! The random numbers come from the vectors themselves, so the same vectors
//! give the same codebook.

use vstd::prelude::*;
use crate::codebook::{self, Codebook, CodebookEntry};
use crate::quant::{self, entry_distance, limited_add, lloyd_rounds, luma_factor, Metric};

verus! {

/// Stirs `v` into `s`.
pub open spec fn mixed(s: u32, v: u32) -> u32 {
    let a = s.wrapping_add(v);
    let b = (a ^ (a >> 16u32)).wrapping_mul(0x85ebca6b);
    let c = (b ^ (b >> 13u32)).wrapping_mul(0xc2b2ae35);
    c ^ (c >> 16u32)
}

/// The four lumas of an entry as one number.
pub open spec fn packed_lumas(e: CodebookEntry) -> u32 {
    (e.y0 + 256 * e.y1 + 65536 * e.y2 + 16777216 * e.y3) as u32
}

/// The state that the vectors start the random numbers from. A luma weight
/// of zero counts as one.
pub open spec fn seed_state(vs: Seq<CodebookEntry>, n: int, luma_weight: u8) -> u32 {
    let w: u32 = if luma_weight == 0 {
        1
    } else {
        luma_weight as u32
    };
    let s = mixed(
        mixed(mixed(0x9e3779b9, (vs.len() as usize) as u32), (n as usize) as u32),
        w,
    );
    let s = if vs.len() > 0 {
        mixed(
            mixed(
                mixed(s, packed_lumas(vs[0])),
                packed_lumas(vs[(vs.len() / 2) as int]),
            ),
            packed_lumas(vs[vs.len() - 1]),
        )
    } else {
        s
    };
    if s == 0 {
        0xdeadbeef
    } else {
        s
    }
}

/// The state after `s`.
pub open spec fn next_state(s: u32) -> u32 {
    let a = s ^ (s << 13u32);
    let b = a ^ (a >> 17u32);
    b ^ (b << 5u32)
}

/// A number below `bound` drawn from state `s`: two states make a signed
/// number of 64 bits, of which the remainder is taken.
pub open spec fn drawn(s: u32, bound: int) -> int {
    let hi = next_state(s);
    let lo = next_state(hi);
    let v = hi * 0x100000000 + lo;
    if v >= 0x8000000000000000 {
        (v - 0x10000000000000000) % bound
    } else {
        v % bound
    }
}

/// Random numbers that start from the vectors.
pub struct ContentSeededRng {
    state: u32,
}

impl View for ContentSeededRng {
    type V = u32;

    closed spec fn view(&self) -> u32 {
        self.state
    }
}

fn mix(s: u32, v: u32) -> (r: u32)
    ensures
        r == mixed(s, v),
{
    let a: u32 = s.wrapping_add(v);
    let b: u32 = (a ^ (a >> 16u32)).wrapping_mul(0x85ebca6b);
    let c: u32 = (b ^ (b >> 13u32)).wrapping_mul(0xc2b2ae35);
    c ^ (c >> 16u32)
}

fn entry_to_u32(e: &CodebookEntry) -> (r: u32)
    ensures
        r == packed_lumas(*e),
{
    e.y0 as u32 + 256 * e.y1 as u32 + 65536 * e.y2 as u32 + 16777216 * e.y3 as u32
}

proof fn negated_remainder(a: int, b: int)
    requires
        b > 1,
        a > 0,
    ensures
        (-a) % b == if a % b == 0 {
            0
        } else {
            b - a % b
        },
{
    let q = a / b;
    let r = a % b;
    vstd::arithmetic::div_mod::lemma_fundamental_div_mod(a, b);
    if r == 0 {
        assert(-a == (-q) * b) by (nonlinear_arith)
            requires
                a == b * q,
        ;
        vstd::arithmetic::div_mod::lemma_fundamental_div_mod_converse(-a, b, -q, 0);
    } else {
        assert(-a == (-q - 1) * b + (b - r)) by (nonlinear_arith)
            requires
                a == b * q + r,
        ;
        vstd::arithmetic::div_mod::lemma_fundamental_div_mod_converse(-a, b, -q - 1, b - r);
    }
}

impl ContentSeededRng {
    /// Starts from the vectors, the number of entries and the luma weight.
    pub fn new(vs: &[CodebookEntry], n: usize, luma_weight: u8) -> (r: Self)
        ensures
            r@ == seed_state(vs@, n as int, luma_weight),
    {
        let w: u32 = if luma_weight == 0 {
            1
        } else {
            luma_weight as u32
        };
        #[verifier::truncate]
        let len: u32 = vs.len() as u32;
        #[verifier::truncate]
        let entries: u32 = n as u32;
        let mut s: u32 = mix(0x9e3779b9, len);
        s = mix(s, entries);
        s = mix(s, w);
        if vs.len() > 0 {
            s = mix(s, entry_to_u32(&vs[0]));
            s = mix(s, entry_to_u32(&vs[vs.len() / 2]));
            s = mix(s, entry_to_u32(&vs[vs.len() - 1]));
        }
        if s == 0 {
            s = 0xdeadbeef;
        }
        ContentSeededRng { state: s }
    }

    /// The next state.
    pub fn next_u32(&mut self) -> (r: u32)
        ensures
            r == next_state(old(self)@),
            final(self)@ == r,
    {
        let s: u32 = self.state;
        let a: u32 = s ^ (s << 13u32);
        let b: u32 = a ^ (a >> 17u32);
        let c: u32 = b ^ (b << 5u32);
        self.state = c;
        c
    }

    /// A place in a list of `len`. A list of one takes no random number.
    pub fn next_index(&mut self, len: usize) -> (r: usize)
        ensures
            len <= 1 ==> r == 0 && final(self)@ == old(self)@,
            len > 1 ==> r == next_state(old(self)@) as int % len as int && final(self)@
                == next_state(old(self)@) && r < len,
    {
        if len <= 1 {
            return 0;
        }
        (self.next_u32() as usize) % len
    }

    /// A number below `bound`. A bound of one takes no random number.
    pub fn next_range_i64(&mut self, bound: i64) -> (r: i64)
        requires
            bound >= 1,
        ensures
            bound == 1 ==> r == 0 && final(self)@ == old(self)@,
            bound > 1 ==> r == drawn(old(self)@, bound as int) && final(self)@ == next_state(
                next_state(old(self)@),
            ),
            0 <= r < bound,
    {
        if bound <= 1 {
            return 0;
        }
        let hi: u64 = self.next_u32() as u64;
        let lo: u64 = self.next_u32() as u64;
        let v: u64 = hi * 0x100000000 + lo;
        if v >= 0x8000000000000000 {
            let away: u64 = (u64::MAX - v) + 1;
            let rem: u64 = away % (bound as u64);
            let ghost b = bound as int;
            let ghost a = away as int;
            proof {
                negated_remainder(a, b);
            }
            if rem == 0 {
                0
            } else {
                (bound as u64 - rem) as i64
            }
        } else {
            (v % (bound as u64)) as i64
        }
    }
}

/// The first vector, from place `i` on, whose sum of distances so far
/// exceeds `r`; the last vector where none does.
pub open spec fn picked_from(
    m: Metric,
    vs: Seq<CodebookEntry>,
    cb: Seq<CodebookEntry>,
    k: int,
    r: int,
    i: int,
) -> int
    decreases vs.len() - i,
{
    if i >= vs.len() {
        vs.len() - 1
    } else if quant::limited(quant::error_sum(m, vs, cb, k, i + 1)) > r {
        i
    } else {
        picked_from(m, vs, cb, k, r, i + 1)
    }
}

/// The codebook with entries from `k` to `n` drawn from state `s`. Where
/// every vector is an entry already, the rest are copies of the first.
pub open spec fn seeded_rest(
    m: Metric,
    vs: Seq<CodebookEntry>,
    cb: Seq<CodebookEntry>,
    k: int,
    n: int,
    s: u32,
) -> Seq<CodebookEntry>
    decreases n - k,
{
    if k >= n {
        cb
    } else {
        let total = quant::total_error(m, vs, cb, k);
        if total <= 0 {
            Seq::new(
                256,
                |i: int|
                    if k <= i < n {
                        cb[0]
                    } else {
                        cb[i]
                    },
            )
        } else if total == 1 {
            seeded_rest(
                m,
                vs,
                cb.update(k, vs[picked_from(m, vs, cb, k, 0, 0)]),
                k + 1,
                n,
                s,
            )
        } else {
            seeded_rest(
                m,
                vs,
                cb.update(k, vs[picked_from(m, vs, cb, k, drawn(s, total as int), 0)]),
                k + 1,
                n,
                next_state(next_state(s)),
            )
        }
    }
}

/// The codebook of `n` entries drawn from the vectors.
pub open spec fn seeded(m: Metric, vs: Seq<CodebookEntry>, n: int) -> Seq<CodebookEntry> {
    let s = seed_state(vs, n, quant::weight(m) as u8);
    if vs.len() == 1 {
        seeded_rest(m, vs, codebook::zero_codebook().update(0, vs[0]), 1, n, s)
    } else {
        seeded_rest(
            m,
            vs,
            codebook::zero_codebook().update(0, vs[next_state(s) as int % vs.len() as int]),
            1,
            n,
            next_state(s),
        )
    }
}

fn first_distances(m: Metric, vs: &[CodebookEntry], cb: &Codebook) -> (r: Vec<i64>)
    ensures
        r@.len() == vs@.len(),
        forall|i: int|
            0 <= i < vs@.len() ==> #[trigger] r@[i] == quant::nearest_error(m, vs@[i], cb@, 1),
{
    let mut out: Vec<i64> = Vec::new();
    let mut i: usize = 0;
    while i < vs.len()
        invariant
            i <= vs@.len(),
            out@.len() == i,
            forall|j: int| 0 <= j < i ==> #[trigger] out@[j] == quant::nearest_error(m, vs@[j], cb@, 1),
        decreases vs@.len() - i,
    {
        out.push(entry_distance(m, &vs[i], &cb.entries[0]));
        i = i + 1;
    }
    out
}

fn sum_distances(
    m: Metric,
    d: &Vec<i64>,
    Ghost(vs): Ghost<Seq<CodebookEntry>>,
    Ghost(cb): Ghost<Seq<CodebookEntry>>,
    Ghost(k): Ghost<int>,
) -> (r: i64)
    requires
        d@.len() == vs.len(),
        forall|i: int| 0 <= i < vs.len() ==> #[trigger] d@[i] == quant::nearest_error(m, vs[i], cb, k),
    ensures
        r == quant::total_error(m, vs, cb, k),
        r >= 0,
{
    let mut sum: i64 = 0;
    let mut i: usize = 0;
    while i < d.len()
        invariant
            i <= d@.len(),
            d@.len() == vs.len(),
            forall|j: int|
                0 <= j < vs.len() ==> #[trigger] d@[j] == quant::nearest_error(m, vs[j], cb, k),
            sum == quant::limited(quant::error_sum(m, vs, cb, k, i as int)),
        decreases d@.len() - i,
    {
        proof {
            quant::error_sum_positive(m, vs, cb, k, i as int);
            quant::distance_bound(m, vs[i as int], cb[quant::nearest_slot(m, vs[i as int], cb, k)]);
        }
        sum = limited_add(sum, d[i], Ghost(quant::error_sum(m, vs, cb, k, i as int)));
        i = i + 1;
    }
    proof {
        quant::error_sum_positive(m, vs, cb, k, i as int);
    }
    sum
}

fn pick(
    m: Metric,
    d: &Vec<i64>,
    r: i64,
    Ghost(vs): Ghost<Seq<CodebookEntry>>,
    Ghost(cb): Ghost<Seq<CodebookEntry>>,
    Ghost(k): Ghost<int>,
) -> (p: usize)
    requires
        d@.len() == vs.len(),
        vs.len() > 0,
        forall|i: int| 0 <= i < vs.len() ==> #[trigger] d@[i] == quant::nearest_error(m, vs[i], cb, k),
    ensures
        p == picked_from(m, vs, cb, k, r as int, 0),
        p < vs.len(),
{
    let mut sum: i64 = 0;
    let mut i: usize = 0;
    while i < d.len()
        invariant
            i <= d@.len(),
            d@.len() == vs.len(),
            forall|j: int|
                0 <= j < vs.len() ==> #[trigger] d@[j] == quant::nearest_error(m, vs[j], cb, k),
            sum == quant::limited(quant::error_sum(m, vs, cb, k, i as int)),
            picked_from(m, vs, cb, k, r as int, 0) == picked_from(
                m,
                vs,
                cb,
                k,
                r as int,
                i as int,
            ),
        decreases d@.len() - i,
    {
        proof {
            quant::error_sum_positive(m, vs, cb, k, i as int);
            quant::distance_bound(m, vs[i as int], cb[quant::nearest_slot(m, vs[i as int], cb, k)]);
        }
        sum = limited_add(sum, d[i], Ghost(quant::error_sum(m, vs, cb, k, i as int)));
        if sum > r {
            return i;
        }
        i = i + 1;
    }
    d.len() - 1
}

proof fn nearest_same(
    m: Metric,
    t: CodebookEntry,
    a: Seq<CodebookEntry>,
    b: Seq<CodebookEntry>,
    k: int,
)
    requires
        forall|i: int| 0 <= i < k ==> a[i] == b[i],
    ensures
        quant::nearest_slot(m, t, a, k) == quant::nearest_slot(m, t, b, k),
        k >= 1 ==> 0 <= quant::nearest_slot(m, t, a, k) < k,
    decreases k,
{
    if k > 1 {
        nearest_same(m, t, a, b, k - 1);
    }
}

fn update_distances(m: Metric, vs: &[CodebookEntry], cb: &Codebook, k: usize, d: &mut Vec<i64>)
    requires
        1 <= k < 256,
        old(d)@.len() == vs@.len(),
        forall|i: int|
            0 <= i < vs@.len() ==> #[trigger] old(d)@[i] == quant::nearest_error(
                m,
                vs@[i],
                cb@,
                k as int,
            ),
    ensures
        final(d)@.len() == vs@.len(),
        forall|i: int|
            0 <= i < vs@.len() ==> #[trigger] final(d)@[i] == quant::nearest_error(
                m,
                vs@[i],
                cb@,
                k + 1,
            ),
{
    let mut i: usize = 0;
    while i < vs.len()
        invariant
            1 <= k < 256,
            i <= vs@.len(),
            d@.len() == vs@.len(),
            forall|j: int|
                0 <= j < i ==> #[trigger] d@[j] == quant::nearest_error(m, vs@[j], cb@, k + 1),
            forall|j: int|
                i <= j < vs@.len() ==> #[trigger] d@[j] == quant::nearest_error(
                    m,
                    vs@[j],
                    cb@,
                    k as int,
                ),
        decreases vs@.len() - i,
    {
        let e: i64 = entry_distance(m, &vs[i], &cb.entries[k]);
        if e < d[i] {
            d.set(i, e);
        }
        i = i + 1;
    }
}

fn draw_entries(m: Metric, vs: &[CodebookEntry], n: usize) -> (r: Codebook)
    requires
        1 <= n <= 256,
        vs@.len() > 0,
    ensures
        r@ == seeded(m, vs@, n as int),
{
    let mut cb = Codebook::default();
    let mut rng = ContentSeededRng::new(vs, n, luma_factor(m) as u8);
    let first: usize = rng.next_index(vs.len());
    cb.entries[0] = vs[first];
    assert(cb@ =~= codebook::zero_codebook().update(0, vs@[first as int]));
    let mut d = first_distances(m, vs, &cb);
    let mut k: usize = 1;
    while k < n
        invariant
            1 <= k <= n <= 256,
            vs@.len() > 0,
            cb@.len() == 256,
            d@.len() == vs@.len(),
            forall|i: int|
                0 <= i < vs@.len() ==> #[trigger] d@[i] == quant::nearest_error(
                    m,
                    vs@[i],
                    cb@,
                    k as int,
                ),
            seeded(m, vs@, n as int) == seeded_rest(m, vs@, cb@, k as int, n as int, rng@),
        decreases n - k,
    {
        let ghost before = cb@;
        let sum: i64 = sum_distances(m, &d, Ghost(vs@), Ghost(cb@), Ghost(k as int));
        if sum <= 0 {
            let mut i: usize = k;
            let e = cb.entries[0];
            while i < n
                invariant
                    1 <= k <= i <= n <= 256,
                    cb@.len() == 256,
                    e == before[0],
                    forall|j: int| k <= j < i ==> cb@[j] == before[0],
                    forall|j: int| 0 <= j < k ==> cb@[j] == before[j],
                    forall|j: int| i <= j < 256 ==> cb@[j] == before[j],
                decreases n - i,
            {
                cb.entries[i] = e;
                i = i + 1;
            }
            assert(cb@ =~= Seq::new(
                256,
                |i: int|
                    if k <= i < n {
                        before[0]
                    } else {
                        before[i]
                    },
            ));
            return cb;
        }
        let r: i64 = rng.next_range_i64(sum);
        let p: usize = pick(m, &d, r, Ghost(vs@), Ghost(cb@), Ghost(k as int));
        cb.entries[k] = vs[p];
        assert(cb@ =~= before.update(k as int, vs@[p as int]));
        assert forall|i: int| 0 <= i < vs@.len() implies #[trigger] d@[i] == quant::nearest_error(
            m,
            vs@[i],
            cb@,
            k as int,
        ) by {
            nearest_same(m, vs@[i], before, cb@, k as int);
        }
        update_distances(m, vs, &cb, k, &mut d);
        k = k + 1;
    }
    cb
}

/// The codebook of `n` entries, at most 256, drawn from the vectors and then
/// recentred. A single entry stays as it was drawn, and without vectors
/// there is nothing to draw.
pub open spec fn seeded_codebook(
    m: Metric,
    vs: Seq<CodebookEntry>,
    n: int,
    iter: nat,
    eps: u32,
) -> Seq<CodebookEntry> {
    if vs.len() == 0 || n <= 0 {
        codebook::zero_codebook()
    } else if n == 1 {
        seeded(m, vs, 1)
    } else if n <= 256 {
        quant::lloyd(m, vs, seeded(m, vs, n), n, iter, eps)
    } else {
        quant::lloyd(m, vs, seeded(m, vs, 256), 256, iter, eps)
    }
}

/// Makes a codebook of `n` entries, at most 256, by drawing vectors, far ones more often
/// than near ones, and recentring.
pub fn kmeans_pp_init_cold(
    m: Metric,
    vs: &[CodebookEntry],
    n: usize,
    lloyd_iter: u8,
    lloyd_eps: u32,
) -> (r: Codebook)
    ensures
        r@ == seeded_codebook(m, vs@, n as int, lloyd_iter as nat, lloyd_eps),
{
    if vs.len() == 0 || n == 0 {
        return Codebook::default();
    }
    let n: usize = if n > 256 {
        256
    } else {
        n
    };
    let cb = draw_entries(m, vs, n);
    if n == 1 {
        return cb;
    }
    lloyd_rounds(m, vs, cb, n, lloyd_iter, lloyd_eps)
}

/// A luma weight of zero starts the random numbers as a weight of one does.
pub proof fn seed_ignores_zero_weight(vs: Seq<CodebookEntry>, n: int)
    ensures
        seed_state(vs, n, 0) == seed_state(vs, n, 1),
{
}

proof fn seeded_rest_len(
    m: Metric,
    vs: Seq<CodebookEntry>,
    cb: Seq<CodebookEntry>,
    k: int,
    n: int,
    s: u32,
)
    requires
        cb.len() == 256,
        0 <= k,
        n <= 256,
    ensures
        seeded_rest(m, vs, cb, k, n, s).len() == 256,
    decreases n - k,
{
    if k < n {
        let total = quant::total_error(m, vs, cb, k);
        if total == 1 {
            seeded_rest_len(
                m,
                vs,
                cb.update(k, vs[picked_from(m, vs, cb, k, 0, 0)]),
                k + 1,
                n,
                s,
            );
        } else if total > 1 {
            seeded_rest_len(
                m,
                vs,
                cb.update(k, vs[picked_from(m, vs, cb, k, drawn(s, total as int), 0)]),
                k + 1,
                n,
                next_state(next_state(s)),
            );
        }
    }
}

/// A codebook drawn from the vectors is whole.
pub proof fn seeded_codebook_len(
    m: Metric,
    vs: Seq<CodebookEntry>,
    n: int,
    iter: nat,
    eps: u32,
)
    requires
        1 <= n <= 256,
    ensures
        seeded_codebook(m, vs, n, iter, eps).len() == 256,
{
    let s = seed_state(vs, n, quant::weight(m) as u8);
    if vs.len() == 1 {
        seeded_rest_len(m, vs, codebook::zero_codebook().update(0, vs[0]), 1, n, s);
    } else {
        seeded_rest_len(
            m,
            vs,
            codebook::zero_codebook().update(0, vs[next_state(s) as int % vs.len() as int]),
            1,
            n,
            next_state(s),
        );
    }
    quant::lloyd_len(m, vs, seeded(m, vs, n), n, iter, eps);
}

proof fn error_sum_grows(
    m: Metric,
    vs: Seq<CodebookEntry>,
    cb: Seq<CodebookEntry>,
    k: int,
    i: int,
    j: int,
)
    requires
        i <= j,
    ensures
        0 <= quant::error_sum(m, vs, cb, k, i) <= quant::error_sum(m, vs, cb, k, j),
    decreases j - i,
{
    quant::error_sum_positive(m, vs, cb, k, i);
    if i < j {
        error_sum_grows(m, vs, cb, k, i, j - 1);
        if j > 0 {
            quant::distance_bound(m, vs[j - 1], cb[quant::nearest_slot(m, vs[j - 1], cb, k)]);
        }
    }
}

proof fn picked_between(
    m: Metric,
    vs: Seq<CodebookEntry>,
    cb: Seq<CodebookEntry>,
    k: int,
    r: int,
    i: int,
)
    requires
        0 <= i < vs.len(),
        0 <= r < quant::total_error(m, vs, cb, k),
        quant::error_sum(m, vs, cb, k, i) <= r,
    ensures
        ({
            let p = picked_from(m, vs, cb, k, r, i);
            &&& i <= p < vs.len()
            &&& quant::error_sum(m, vs, cb, k, p) <= r < quant::error_sum(m, vs, cb, k, p + 1)
        }),
    decreases vs.len() - i,
{
    quant::error_sum_positive(m, vs, cb, k, i + 1);
    if quant::limited(quant::error_sum(m, vs, cb, k, i + 1)) <= r {
        if i + 1 < vs.len() {
            picked_between(m, vs, cb, k, r, i + 1);
        }
    }
}

/// A vector is drawn by its distance: of the numbers below the sum of the
/// distances to the nearest entries, it is drawn by those from the sum of the
/// vectors before it up to its own distance more.
pub proof fn drawn_by_distance(
    m: Metric,
    vs: Seq<CodebookEntry>,
    cb: Seq<CodebookEntry>,
    k: int,
    r: int,
    i: int,
)
    requires
        0 <= i < vs.len(),
        1 <= k,
        0 <= r < quant::total_error(m, vs, cb, k),
    ensures
        picked_from(m, vs, cb, k, r, 0) == i <==> quant::error_sum(m, vs, cb, k, i) <= r
            < quant::error_sum(m, vs, cb, k, i) + quant::nearest_error(m, vs[i], cb, k),
{
    picked_between(m, vs, cb, k, r, 0);
    let p = picked_from(m, vs, cb, k, r, 0);
    if p < i {
        error_sum_grows(m, vs, cb, k, p + 1, i);
    } else if i < p {
        error_sum_grows(m, vs, cb, k, i + 1, p);
    }
}

proof fn rest_keeps_entries(
    m: Metric,
    vs: Seq<CodebookEntry>,
    cb: Seq<CodebookEntry>,
    k: int,
    n: int,
    s: u32,
    j: int,
)
    requires
        cb.len() == 256,
        0 <= k,
        n <= 256,
        0 <= j < 256,
        j < k || n <= j,
    ensures
        seeded_rest(m, vs, cb, k, n, s)[j] == cb[j],
    decreases n - k,
{
    if k < n {
        let total = quant::total_error(m, vs, cb, k);
        if total == 1 {
            let next = cb.update(k, vs[picked_from(m, vs, cb, k, 0, 0)]);
            rest_keeps_entries(m, vs, next, k + 1, n, s, j);
        } else if total > 1 {
            let next = cb.update(k, vs[picked_from(m, vs, cb, k, drawn(s, total as int), 0)]);
            rest_keeps_entries(m, vs, next, k + 1, n, next_state(next_state(s)), j);
        }
    }
}

/// Whether entry `k` lies apart from all entries before it.
pub open spec fn apart_from_earlier(m: Metric, cb: Seq<CodebookEntry>, k: int) -> bool {
    forall|j: int| 0 <= j < k ==> quant::distance(m, cb[k], #[trigger] cb[j]) > 0
}

/// Whether every vector has no distance to one of the first `k` entries.
pub open spec fn all_met(m: Metric, vs: Seq<CodebookEntry>, cb: Seq<CodebookEntry>, k: int) -> bool {
    forall|i: int|
        0 <= i < vs.len() ==> exists|j: int|
            0 <= j < k && quant::distance(m, #[trigger] vs[i], #[trigger] cb[j]) == 0
}

/// Whether entry `k` is a vector that was worth drawing, or stands in for
/// one where no vector was left.
pub open spec fn well_drawn(m: Metric, vs: Seq<CodebookEntry>, cb: Seq<CodebookEntry>, k: int) -> bool {
    ||| vs.contains(cb[k]) && apart_from_earlier(m, cb, k)
    ||| cb[k] == cb[0] && all_met(m, vs, cb, k)
}

proof fn no_error_meets_all(
    m: Metric,
    vs: Seq<CodebookEntry>,
    cb: Seq<CodebookEntry>,
    k: int,
    to: Seq<CodebookEntry>,
)
    requires
        1 <= k,
        quant::total_error(m, vs, cb, k) <= 0,
        forall|j: int| 0 <= j < k ==> to[j] == cb[j],
    ensures
        all_met(m, vs, to, k),
{
    assert forall|i: int| 0 <= i < vs.len() implies exists|j: int|
        0 <= j < k && quant::distance(m, #[trigger] vs[i], #[trigger] to[j]) == 0 by {
        error_sum_grows(m, vs, cb, k, 0, i);
        error_sum_grows(m, vs, cb, k, i + 1, vs.len() as int);
        quant::nearest_is_least(m, vs[i], cb, k);
        let b = quant::nearest_slot(m, vs[i], cb, k);
        quant::distance_bound(m, vs[i], cb[b]);
        assert(to[b] == cb[b]);
        assert(quant::distance(m, vs[i], to[b]) == 0);
    }
}

proof fn rest_well_drawn(
    m: Metric,
    vs: Seq<CodebookEntry>,
    cb: Seq<CodebookEntry>,
    k: int,
    n: int,
    s: u32,
    at: int,
)
    requires
        cb.len() == 256,
        1 <= k <= at < n <= 256,
        vs.len() > 0,
    ensures
        well_drawn(m, vs, seeded_rest(m, vs, cb, k, n, s), at),
    decreases n - k,
{
    let total = quant::total_error(m, vs, cb, k);
    let all = seeded_rest(m, vs, cb, k, n, s);
    if total <= 0 {
        no_error_meets_all(m, vs, cb, k, all);
        assert(all_met(m, vs, all, at)) by {
            assert forall|i: int| 0 <= i < vs.len() implies exists|j: int|
                0 <= j < at && quant::distance(m, #[trigger] vs[i], #[trigger] all[j]) == 0 by {
                let j = choose|j: int|
                    0 <= j < k && quant::distance(m, #[trigger] vs[i], #[trigger] all[j]) == 0;
                assert(0 <= j < at && quant::distance(m, vs[i], all[j]) == 0);
            }
        }
    } else {
        let r = if total == 1 {
            0
        } else {
            drawn(s, total as int)
        };
        let then = if total == 1 {
            s
        } else {
            next_state(next_state(s))
        };
        assert(0 <= r < total);
        error_sum_grows(m, vs, cb, k, 0, 0);
        picked_between(m, vs, cb, k, r, 0);
        let p = picked_from(m, vs, cb, k, r, 0);
        let next = cb.update(k, vs[p]);
        assert(all == seeded_rest(m, vs, next, k + 1, n, then));
        if at == k {
            rest_keeps_entries(m, vs, next, k + 1, n, then, k);
            assert(all[k] == vs[p]);
            assert(apart_from_earlier(m, all, k)) by {
                assert forall|j: int| 0 <= j < k implies quant::distance(
                    m,
                    all[k],
                    #[trigger] all[j],
                ) > 0 by {
                    rest_keeps_entries(m, vs, next, k + 1, n, then, j);
                    quant::nearest_is_least(m, vs[p], cb, k);
                    assert(quant::nearest_error(m, vs[p], cb, k) <= quant::distance(
                        m,
                        vs[p],
                        cb[j],
                    ));
                }
            }
        } else {
            rest_well_drawn(m, vs, next, k + 1, n, then, at);
        }
    }
}

/// The first entry drawn is a vector. Every later one is a vector apart from
/// all entries before it, or where no vector is left apart from these, equal
/// to the first.
pub proof fn entries_are_well_drawn(m: Metric, vs: Seq<CodebookEntry>, n: int, k: int)
    requires
        vs.len() > 0,
        1 <= n <= 256,
        0 <= k < n,
    ensures
        vs.contains(seeded(m, vs, n)[0]),
        k > 0 ==> well_drawn(m, vs, seeded(m, vs, n), k),
{
    let s = seed_state(vs, n, quant::weight(m) as u8);
    let z = codebook::zero_codebook();
    if vs.len() == 1 {
        rest_keeps_entries(m, vs, z.update(0, vs[0]), 1, n, s, 0);
        if k > 0 {
            rest_well_drawn(m, vs, z.update(0, vs[0]), 1, n, s, k);
        }
    } else {
        let i = next_state(s) as int % vs.len() as int;
        rest_keeps_entries(m, vs, z.update(0, vs[i]), 1, n, next_state(s), 0);
        if k > 0 {
            rest_well_drawn(m, vs, z.update(0, vs[i]), 1, n, next_state(s), k);
        }
    }
}

/// A state of the random numbers with the last step undone.
pub open spec fn state_before(t: u32) -> u32 {
    let b = t ^ (t << 5u32) ^ (t << 10u32) ^ (t << 15u32) ^ (t << 20u32) ^ (t << 25u32) ^ (t
        << 30u32);
    let a = b ^ (b >> 17u32);
    a ^ (a << 13u32) ^ (a << 26u32)
}

/// Every state follows exactly one other, which can be told from it.
pub proof fn step_can_be_undone(s: u32)
    ensures
        state_before(next_state(s)) == s,
        next_state(s) == 0 <==> s == 0,
{
    assert(state_before(next_state(s)) == s) by (bit_vector);
    assert(next_state(s) == 0 <==> s == 0) by (bit_vector);
}

/// A state with `v` stirred out of it again.
pub open spec fn unmixed(t: u32, v: u32) -> u32 {
    let c = t ^ (t >> 16u32);
    let p = c.wrapping_mul(0x7ed1b41d);
    let b = p ^ (p >> 13u32) ^ (p >> 26u32);
    let q = b.wrapping_mul(0xa5cb9243);
    let a = q ^ (q >> 16u32);
    a.wrapping_sub(v)
}

proof fn times_inverse(x: u32, k: u32, inverse: u32)
    requires
        k * inverse % 0x100000000 == 1,
    ensures
        x.wrapping_mul(k).wrapping_mul(inverse) == x,
{
    let m = 0x100000000int;
    let y = x * k;
    vstd::arithmetic::div_mod::lemma_mul_mod_noop_left(y, inverse as int, m);
    assert(y * inverse == x * (k * inverse)) by (nonlinear_arith)
        requires
            y == x * k,
    ;
    vstd::arithmetic::div_mod::lemma_mul_mod_noop_right(x as int, k * inverse, m);
    assert(x * 1 == x);
}

/// What was stirred into a state can be stirred out of it.
pub proof fn stirring_can_be_undone(s: u32, v: u32)
    ensures
        unmixed(mixed(s, v), v) == s,
{
    let a = s.wrapping_add(v);
    let x = a ^ (a >> 16u32);
    let b = x.wrapping_mul(0x85ebca6b);
    let y = b ^ (b >> 13u32);
    let c = y.wrapping_mul(0xc2b2ae35);
    let t = c ^ (c >> 16u32);
    assert(t ^ (t >> 16u32) == c) by (bit_vector)
        requires
            t == c ^ (c >> 16u32),
    ;
    times_inverse(y, 0xc2b2ae35, 0x7ed1b41d);
    assert(y ^ (y >> 13u32) ^ (y >> 26u32) == b) by (bit_vector)
        requires
            y == b ^ (b >> 13u32),
    ;
    times_inverse(x, 0x85ebca6b, 0xa5cb9243);
    assert(x ^ (x >> 16u32) == a) by (bit_vector)
        requires
            x == a ^ (a >> 16u32),
    ;
}

/// The random numbers start from how many vectors and entries there are, from
/// the luma weight, and from the lumas of the first, the middle and the last
/// vector: stirred out in reverse, they leave the number that all start from,
/// unless that would have them start from nothing.
pub proof fn start_tells_vectors(vs: Seq<CodebookEntry>, n: int, luma_weight: u8)
    requires
        0 < vs.len() <= u32::MAX,
        0 <= n <= u32::MAX,
        luma_weight > 0,
        seed_state(vs, n, luma_weight) != 0xdeadbeef,
    ensures
        ({
            let lumas = |e: CodebookEntry|
                (e.y0 + 256 * e.y1 + 65536 * e.y2 + 16777216 * e.y3) as u32;
            let a = unmixed(seed_state(vs, n, luma_weight), lumas(vs[vs.len() - 1]));
            let b = unmixed(a, lumas(vs[vs.len() as int / 2]));
            let c = unmixed(b, lumas(vs[0]));
            let d = unmixed(c, luma_weight as u32);
            let e = unmixed(d, n as u32);
            unmixed(e, vs.len() as u32) == 0x9e3779b9
        }),
{
    let l = vs.len() as u32;
    assert((vs.len() as usize) as u32 == l && (n as usize) as u32 == n as u32);
    let s1 = mixed(0x9e3779b9, l);
    let s2 = mixed(s1, n as u32);
    let s3 = mixed(s2, luma_weight as u32);
    let s4 = mixed(s3, packed_lumas(vs[0]));
    let s5 = mixed(s4, packed_lumas(vs[(vs.len() / 2) as int]));
    let s6 = mixed(s5, packed_lumas(vs[vs.len() - 1]));
    stirring_can_be_undone(0x9e3779b9, l);
    stirring_can_be_undone(s1, n as u32);
    stirring_can_be_undone(s2, luma_weight as u32);
    stirring_can_be_undone(s3, packed_lumas(vs[0]));
    stirring_can_be_undone(s4, packed_lumas(vs[(vs.len() / 2) as int]));
    stirring_can_be_undone(s5, packed_lumas(vs[vs.len() - 1]));
}

/// The state of the random numbers after `k` steps.
pub open spec fn after_steps(s: u32, k: nat) -> u32
    decreases k,
{
    if k == 0 {
        s
    } else {
        next_state(after_steps(s, (k - 1) as nat))
    }
}

/// The first entry drawn is the vector that the first random number picks,
/// where there is a choice.
pub proof fn first_entry_is_drawn(m: Metric, vs: Seq<CodebookEntry>, n: int)
    requires
        1 <= n <= 256,
        vs.len() > 1,
    ensures
        ({
            let s = after_steps(seed_state(vs, n, quant::weight(m) as u8), 1);
            seeded(m, vs, n)[0] == vs[s as int % vs.len() as int]
        }),
{
    let s = seed_state(vs, n, quant::weight(m) as u8);
    reveal_with_fuel(after_steps, 2);
    let i = next_state(s) as int % vs.len() as int;
    rest_keeps_entries(m, vs, codebook::zero_codebook().update(0, vs[i]), 1, n, next_state(s), 0);
}

/// Every later entry is drawn by a number below the sum of the distances to
/// the entries before it, of 64 bits from two steps, signed.
pub proof fn next_entry_is_drawn(
    m: Metric,
    vs: Seq<CodebookEntry>,
    cb: Seq<CodebookEntry>,
    k: int,
    n: int,
    s: u32,
    i: int,
)
    requires
        cb.len() == 256,
        1 <= k < n <= 256,
        0 <= i < vs.len(),
        quant::total_error(m, vs, cb, k) > 1,
    ensures
        ({
            let hi = after_steps(s, 1);
            let lo = after_steps(s, 2);
            let v = if hi < 0x80000000 {
                0x100000000 * hi + lo
            } else {
                0x100000000 * (hi - 0x100000000) + lo
            };
            let r = v % (quant::total_error(m, vs, cb, k) as int);
            let before = quant::error_sum(m, vs, cb, k, i);
            before <= r < before + quant::nearest_error(m, vs[i], cb, k) ==> seeded_rest(
                m,
                vs,
                cb,
                k,
                n,
                s,
            ) == seeded_rest(m, vs, cb.update(k, vs[i]), k + 1, n, after_steps(s, 2))
        }),
{
    reveal_with_fuel(after_steps, 3);
    let total = quant::total_error(m, vs, cb, k) as int;
    let r = drawn(s, total);
    drawn_by_distance(m, vs, cb, k, r, i);
}

} // verus!
