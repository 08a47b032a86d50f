//! Configurations to try.

use vstd::prelude::*;
use crate::options::EncoderOptions;
use crate::sampling::FIXED_ONE;

verus! {

/// Three values without repetition, in order.
pub open spec fn distinct<T>(a: T, b: T, c: T) -> Seq<T> {
    if a == b {
        if b == c {
            seq![a]
        } else {
            seq![a, c]
        }
    } else if c == a || c == b {
        seq![a, b]
    } else {
        seq![a, b, c]
    }
}

/// A configuration with strips, the price of bits and the luma weight
/// replaced.
pub open spec fn tuned(o: EncoderOptions, strips: u16, lambda: Option<i64>, luma: u8) -> EncoderOptions {
    EncoderOptions { strip_count: strips, rdo_lambda: lambda, luma_weight: luma, ..o }
}

/// The configurations with the first `k` luma weights.
pub open spec fn luma_row(
    o: EncoderOptions,
    strips: u16,
    lambda: Option<i64>,
    lumas: Seq<u8>,
    k: int,
) -> Seq<EncoderOptions>
    decreases k,
{
    if k <= 0 {
        Seq::empty()
    } else {
        luma_row(o, strips, lambda, lumas, k - 1).push(tuned(o, strips, lambda, lumas[k - 1]))
    }
}

/// The configurations with the first `k` prices of bits and all luma
/// weights.
pub open spec fn lambda_rows(
    o: EncoderOptions,
    strips: u16,
    lambdas: Seq<Option<i64>>,
    lumas: Seq<u8>,
    k: int,
) -> Seq<EncoderOptions>
    decreases k,
{
    if k <= 0 {
        Seq::empty()
    } else {
        lambda_rows(o, strips, lambdas, lumas, k - 1) + luma_row(
            o,
            strips,
            lambdas[k - 1],
            lumas,
            lumas.len() as int,
        )
    }
}

/// The configurations with the first `k` numbers of strips, and all prices of
/// bits and luma weights.
pub open spec fn grid_rows(
    o: EncoderOptions,
    strips: Seq<u16>,
    lambdas: Seq<Option<i64>>,
    lumas: Seq<u8>,
    k: int,
) -> Seq<EncoderOptions>
    decreases k,
{
    if k <= 0 {
        Seq::empty()
    } else {
        grid_rows(o, strips, lambdas, lumas, k - 1) + lambda_rows(
            o,
            strips[k - 1],
            lambdas,
            lumas,
            lambdas.len() as int,
        )
    }
}

/// Every combination of strips, prices of bits and luma weights; the luma
/// weight changes fastest.
pub open spec fn grid(
    o: EncoderOptions,
    strips: Seq<u16>,
    lambdas: Seq<Option<i64>>,
    lumas: Seq<u8>,
) -> Seq<EncoderOptions> {
    grid_rows(o, strips, lambdas, lumas, strips.len() as int)
}

/// The luma weights that a search tries.
pub open spec fn luma_choices(o: EncoderOptions) -> Seq<u8> {
    distinct(
        if o.luma_weight == 0 {
            1
        } else {
            o.luma_weight
        },
        4u8,
        8u8,
    )
}

/// The price of bits of a configuration, or the default one.
pub open spec fn lambda_or_default(o: EncoderOptions) -> Option<i64> {
    match o.rdo_lambda {
        Some(l) => Some(l),
        None => Some((5 * FIXED_ONE) as i64),
    }
}

/// The prices of bits that a search tries, from free on.
pub open spec fn lambda_choices(o: EncoderOptions) -> Seq<Option<i64>> {
    distinct(Some(0i64), Some((FIXED_ONE * 5 / 2) as i64), lambda_or_default(o))
}

/// The prices of bits that a search within a budget tries, down to free.
pub open spec fn budget_lambdas(o: EncoderOptions) -> Seq<Option<i64>> {
    distinct(lambda_or_default(o), Some((FIXED_ONE * 5 / 2) as i64), Some(0i64))
}

/// The numbers of strips that a search tries.
pub open spec fn strip_choices() -> Seq<u16> {
    seq![1u16, 2u16, 4u16]
}

/// The configurations that a search within a budget tries.
pub open spec fn budget_grid(o: EncoderOptions) -> Seq<EncoderOptions> {
    grid(o, strip_choices(), budget_lambdas(o), luma_choices(o))
}

fn same_lambda(a: Option<i64>, b: Option<i64>) -> (r: bool)
    ensures
        r == (a == b),
{
    match (a, b) {
        (Some(x), Some(y)) => x == y,
        (None, None) => true,
        _ => false,
    }
}

fn distinct_lambdas(a: Option<i64>, b: Option<i64>, c: Option<i64>) -> (r: Vec<Option<i64>>)
    ensures
        r@ == distinct(a, b, c),
{
    let mut out: Vec<Option<i64>> = Vec::new();
    out.push(a);
    if !same_lambda(a, b) {
        out.push(b);
    }
    if !same_lambda(c, a) && !same_lambda(c, b) {
        out.push(c);
    }
    assert(out@ =~= distinct(a, b, c));
    out
}

pub(crate) fn search_lumas(o: &EncoderOptions) -> (r: Vec<u8>)
    ensures
        r@ == luma_choices(*o),
{
    let a: u8 = if o.luma_weight == 0 {
        1
    } else {
        o.luma_weight
    };
    let mut out: Vec<u8> = Vec::new();
    out.push(a);
    if a != 4 {
        out.push(4);
    }
    if a != 8 {
        out.push(8);
    }
    assert(out@ =~= luma_choices(*o));
    out
}

fn default_lambda(o: &EncoderOptions) -> (r: Option<i64>)
    ensures
        r == lambda_or_default(*o),
{
    match o.rdo_lambda {
        Some(l) => Some(l),
        None => Some(5 * FIXED_ONE),
    }
}

pub(crate) fn search_lambdas(o: &EncoderOptions) -> (r: Vec<Option<i64>>)
    ensures
        r@ == lambda_choices(*o),
{
    distinct_lambdas(Some(0), Some(FIXED_ONE * 5 / 2), default_lambda(o))
}

pub(crate) fn search_strips() -> (r: Vec<u16>)
    ensures
        r@ == strip_choices(),
{
    let mut out: Vec<u16> = Vec::new();
    out.push(1);
    out.push(2);
    out.push(4);
    assert(out@ =~= strip_choices());
    out
}

/// Every combination of strips, prices of bits and luma weights.
pub fn grid_candidates(
    base: &EncoderOptions,
    strips: &[u16],
    lambdas: &[Option<i64>],
    lumas: &[u8],
) -> (r: Vec<EncoderOptions>)
    ensures
        r@ == grid(*base, strips@, lambdas@, lumas@),
{
    let mut out: Vec<EncoderOptions> = Vec::new();
    let mut i: usize = 0;
    while i < strips.len()
        invariant
            i <= strips@.len(),
            out@ == grid_rows(*base, strips@, lambdas@, lumas@, i as int),
        decreases strips@.len() - i,
    {
        let ghost a = out@;
        let mut j: usize = 0;
        assert(out@ =~= a + lambda_rows(*base, strips@[i as int], lambdas@, lumas@, 0));
        while j < lambdas.len()
            invariant
                i < strips@.len(),
                j <= lambdas@.len(),
                out@ == a + lambda_rows(*base, strips@[i as int], lambdas@, lumas@, j as int),
            decreases lambdas@.len() - j,
        {
            let ghost b = out@;
            let mut k: usize = 0;
            assert(out@ =~= b + luma_row(
                *base,
                strips@[i as int],
                lambdas@[j as int],
                lumas@,
                0,
            ));
            while k < lumas.len()
                invariant
                    i < strips@.len(),
                    j < lambdas@.len(),
                    k <= lumas@.len(),
                    out@ == b + luma_row(
                        *base,
                        strips@[i as int],
                        lambdas@[j as int],
                        lumas@,
                        k as int,
                    ),
                decreases lumas@.len() - k,
            {
                out.push(
                    EncoderOptions {
                        strip_count: strips[i],
                        rdo_lambda: lambdas[j],
                        luma_weight: lumas[k],
                        ..*base
                    },
                );
                k = k + 1;
                assert(out@ =~= b + luma_row(
                    *base,
                    strips@[i as int],
                    lambdas@[j as int],
                    lumas@,
                    k as int,
                ));
            }
            j = j + 1;
            assert(out@ =~= a + lambda_rows(
                *base,
                strips@[i as int],
                lambdas@,
                lumas@,
                j as int,
            ));
        }
        i = i + 1;
    }
    out
}

/// The configurations that a search within a budget tries.
pub fn budget_grid_candidates(base: &EncoderOptions) -> (r: Vec<EncoderOptions>)
    ensures
        r@ == budget_grid(*base),
{
    let lambdas = distinct_lambdas(default_lambda(base), Some(FIXED_ONE * 5 / 2), Some(0));
    grid_candidates(
        base,
        search_strips().as_slice(),
        lambdas.as_slice(),
        search_lumas(base).as_slice(),
    )
}

/// Whether a configuration departs from another in nothing but the strips,
/// the price of bits and the luma weight.
pub open spec fn variation_of(c: EncoderOptions, o: EncoderOptions) -> bool {
    c == tuned(o, c.strip_count, c.rdo_lambda, c.luma_weight)
}

proof fn luma_row_members(
    o: EncoderOptions,
    strips: u16,
    lambda: Option<i64>,
    lumas: Seq<u8>,
    k: int,
)
    ensures
        forall|i: int|
            0 <= i < luma_row(o, strips, lambda, lumas, k).len() ==> variation_of(
                #[trigger] luma_row(o, strips, lambda, lumas, k)[i],
                o,
            ) && luma_row(o, strips, lambda, lumas, k)[i].strip_count == strips,
    decreases k,
{
    if k > 0 {
        luma_row_members(o, strips, lambda, lumas, k - 1);
        let a = luma_row(o, strips, lambda, lumas, k - 1);
        let s = luma_row(o, strips, lambda, lumas, k);
        assert forall|i: int| 0 <= i < s.len() implies variation_of(#[trigger] s[i], o)
            && s[i].strip_count == strips by {
            if i < a.len() {
                assert(s[i] == a[i]);
            }
        }
    }
}

proof fn lambda_rows_members(
    o: EncoderOptions,
    strips: u16,
    lambdas: Seq<Option<i64>>,
    lumas: Seq<u8>,
    k: int,
)
    ensures
        forall|i: int|
            0 <= i < lambda_rows(o, strips, lambdas, lumas, k).len() ==> variation_of(
                #[trigger] lambda_rows(o, strips, lambdas, lumas, k)[i],
                o,
            ) && lambda_rows(o, strips, lambdas, lumas, k)[i].strip_count == strips,
    decreases k,
{
    if k > 0 {
        lambda_rows_members(o, strips, lambdas, lumas, k - 1);
        luma_row_members(o, strips, lambdas[k - 1], lumas, lumas.len() as int);
        let a = lambda_rows(o, strips, lambdas, lumas, k - 1);
        let b = luma_row(o, strips, lambdas[k - 1], lumas, lumas.len() as int);
        let s = lambda_rows(o, strips, lambdas, lumas, k);
        assert forall|i: int| 0 <= i < s.len() implies variation_of(#[trigger] s[i], o)
            && s[i].strip_count == strips by {
            if i < a.len() {
                assert(s[i] == a[i]);
            } else {
                assert(s[i] == b[i - a.len()]);
            }
        }
    }
}

proof fn grid_rows_members(
    o: EncoderOptions,
    strips: Seq<u16>,
    lambdas: Seq<Option<i64>>,
    lumas: Seq<u8>,
    k: int,
)
    requires
        k <= strips.len(),
    ensures
        forall|i: int|
            0 <= i < grid_rows(o, strips, lambdas, lumas, k).len() ==> variation_of(
                #[trigger] grid_rows(o, strips, lambdas, lumas, k)[i],
                o,
            ) && strips.contains(grid_rows(o, strips, lambdas, lumas, k)[i].strip_count),
    decreases k,
{
    if k > 0 {
        grid_rows_members(o, strips, lambdas, lumas, k - 1);
        lambda_rows_members(o, strips[k - 1], lambdas, lumas, lambdas.len() as int);
        let a = grid_rows(o, strips, lambdas, lumas, k - 1);
        let b = lambda_rows(o, strips[k - 1], lambdas, lumas, lambdas.len() as int);
        let s = grid_rows(o, strips, lambdas, lumas, k);
        assert forall|i: int| 0 <= i < s.len() implies variation_of(#[trigger] s[i], o)
            && strips.contains(s[i].strip_count) by {
            if i < a.len() {
                assert(s[i] == a[i]);
            } else {
                assert(s[i] == b[i - a.len()]);
                assert(strips[k - 1] == s[i].strip_count);
            }
        }
    }
}

/// Every configuration of a grid departs from its base in nothing but the
/// three settings, and has one of the numbers of strips.
pub proof fn grid_members(
    o: EncoderOptions,
    strips: Seq<u16>,
    lambdas: Seq<Option<i64>>,
    lumas: Seq<u8>,
)
    ensures
        forall|i: int|
            0 <= i < grid(o, strips, lambdas, lumas).len() ==> variation_of(
                #[trigger] grid(o, strips, lambdas, lumas)[i],
                o,
            ) && strips.contains(grid(o, strips, lambdas, lumas)[i].strip_count),
{
    grid_rows_members(o, strips, lambdas, lumas, strips.len() as int);
}

/// A grid of something has a first configuration.
pub proof fn grid_not_empty(
    o: EncoderOptions,
    strips: Seq<u16>,
    lambdas: Seq<Option<i64>>,
    lumas: Seq<u8>,
)
    requires
        strips.len() >= 1,
        lambdas.len() >= 1,
        lumas.len() >= 1,
    ensures
        grid(o, strips, lambdas, lumas).len() >= 1,
{
    luma_row_members(o, strips[strips.len() - 1], lambdas[lambdas.len() - 1], lumas, lumas.len() as int);
}

proof fn luma_row_len(o: EncoderOptions, strips: u16, lambda: Option<i64>, lumas: Seq<u8>, k: int)
    requires
        0 <= k,
    ensures
        luma_row(o, strips, lambda, lumas, k).len() == k,
    decreases k,
{
    if k > 0 {
        luma_row_len(o, strips, lambda, lumas, k - 1);
    }
}

proof fn lambda_rows_len(
    o: EncoderOptions,
    strips: u16,
    lambdas: Seq<Option<i64>>,
    lumas: Seq<u8>,
    k: int,
)
    requires
        0 <= k,
        lumas.len() <= 3,
    ensures
        lambda_rows(o, strips, lambdas, lumas, k).len() <= 3 * k,
    decreases k,
{
    if k > 0 {
        lambda_rows_len(o, strips, lambdas, lumas, k - 1);
        luma_row_len(o, strips, lambdas[k - 1], lumas, lumas.len() as int);
    }
}

proof fn grid_rows_len(
    o: EncoderOptions,
    strips: Seq<u16>,
    lambdas: Seq<Option<i64>>,
    lumas: Seq<u8>,
    k: int,
)
    requires
        0 <= k,
        lambdas.len() <= 3,
        lumas.len() <= 3,
    ensures
        grid_rows(o, strips, lambdas, lumas, k).len() <= 9 * k,
    decreases k,
{
    if k > 0 {
        grid_rows_len(o, strips, lambdas, lumas, k - 1);
        lambda_rows_len(o, strips[k - 1], lambdas, lumas, lambdas.len() as int);
    }
}

/// A search within a budget tries no more than three choices of each kind.
pub proof fn budget_grid_len(o: EncoderOptions)
    ensures
        budget_grid(o).len() <= 27,
{
    grid_rows_len(o, strip_choices(), budget_lambdas(o), luma_choices(o), 3);
}

} // verus!
