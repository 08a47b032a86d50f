//! Natural numbers of any size.

use vstd::prelude::*;

verus! {

/// What the digits from `i` on stand for, the lowest first.
pub open spec fn digits_value(s: Seq<u32>, i: int) -> int
    decreases s.len() - i,
{
    if i >= s.len() {
        0
    } else {
        s[i] + 0x100000000 * digits_value(s, i + 1)
    }
}

/// A natural number.
pub(crate) struct Wide {
    digits: Vec<u32>,
}

/// What digit `i` counts.
spec fn place(i: int) -> int
    decreases i,
{
    if i <= 0 {
        1
    } else {
        0x100000000 * place(i - 1)
    }
}

/// What the first `i` digits stand for.
spec fn low_value(s: Seq<u32>, i: int) -> int
    decreases i,
{
    if i <= 0 {
        0
    } else {
        low_value(s, i - 1) + s[i - 1] * place(i - 1)
    }
}

proof fn low_kept(a: Seq<u32>, b: Seq<u32>, i: int)
    requires
        forall|k: int| 0 <= k < i ==> a[k] == b[k],
    ensures
        low_value(a, i) == low_value(b, i),
    decreases i,
{
    if i > 0 {
        low_kept(a, b, i - 1);
    }
}

proof fn split_value(s: Seq<u32>, i: int)
    requires
        0 <= i <= s.len(),
    ensures
        digits_value(s, 0) == low_value(s, i) + place(i) * digits_value(s, i),
    decreases i,
{
    if i > 0 {
        split_value(s, i - 1);
        let p = place(i - 1);
        let d = s[i - 1] as int;
        let v = digits_value(s, i);
        assert(p * (d + 0x100000000 * v) == d * p + (0x100000000 * p) * v) by (nonlinear_arith);
    }
}

proof fn value_not_negative(s: Seq<u32>, i: int)
    ensures
        digits_value(s, i) >= 0,
    decreases s.len() - i,
{
    if i < s.len() {
        value_not_negative(s, i + 1);
    }
}

/// Where one number exceeds another from a digit on, it exceeds it.
proof fn exceeds_below(a: Seq<u32>, b: Seq<u32>, i: int)
    requires
        0 <= i,
        i <= a.len() || i <= b.len(),
        digits_value(a, i) > digits_value(b, i),
    ensures
        digits_value(a, 0) > digits_value(b, 0),
    decreases i,
{
    if i > 0 {
        value_not_negative(b, i);
        value_not_negative(a, i);
        value_not_negative(b, i - 1);
        value_not_negative(a, i - 1);
        if i > a.len() {
            assert(digits_value(a, i) == 0);
        }
        exceeds_below(a, b, i - 1);
    }
}

impl Wide {
    /// The number.
    pub closed spec fn value(self) -> int {
        digits_value(self.digits@, 0)
    }

    fn digit(&self, i: usize) -> (r: u32)
        ensures
            r == if i < self.digits@.len() {
                self.digits@[i as int]
            } else {
                0
            },
    {
        if i < self.digits.len() {
            self.digits[i]
        } else {
            0
        }
    }

    /// A number that a machine word holds.
    pub(crate) fn of(n: u128) -> (r: Wide)
        ensures
            r.value() == n,
    {
        let mut digits: Vec<u32> = Vec::new();
        let a: u32 = (n % 0x100000000) as u32;
        let m: u128 = n / 0x100000000;
        let b: u32 = (m % 0x100000000) as u32;
        let m2: u128 = m / 0x100000000;
        let c: u32 = (m2 % 0x100000000) as u32;
        let d: u32 = (m2 / 0x100000000) as u32;
        digits.push(a);
        digits.push(b);
        digits.push(c);
        digits.push(d);
        assert(m2 / 0x100000000 <= 0xffffffff);
        proof {
            reveal_with_fuel(digits_value, 5);
        }
        Wide { digits }
    }

    /// A sum with a multiple of another number.
    fn plus_times(&self, other: &Wide, by: u32) -> (r: Wide)
        ensures
            r.value() == self.value() + other.value() * by,
    {
        let x = &self.digits;
        let y = &other.digits;
        let n: usize = if x.len() < y.len() {
            y.len()
        } else {
            x.len()
        };
        let mut digits: Vec<u32> = Vec::new();
        let mut carry: u32 = 0;
        let mut i: usize = 0;
        proof {
            value_not_negative(y@, 0);
        }
        while i < n
            invariant
                i <= n,
                x@ == self.digits@,
                y@ == other.digits@,
                n >= x@.len(),
                n >= y@.len(),
                n == x@.len() || n == y@.len(),
                digits@.len() == i,
                low_value(digits@, i as int) + place(i as int) * (carry + digits_value(x@, i as int)
                    + digits_value(y@, i as int) * by) == digits_value(x@, 0) + digits_value(
                    y@,
                    0,
                ) * by,
            decreases n - i,
        {
            let a: u32 = self.digit(i);
            let b: u32 = other.digit(i);
            assert(b * by <= 0xffffffff * 0xffffffff) by (nonlinear_arith)
                requires
                    0 <= b <= 0xffffffff,
                    0 <= by <= 0xffffffff,
            ;
            let t: u64 = a as u64 + b as u64 * by as u64 + carry as u64;
            let d: u32 = (t % 0x100000000) as u32;
            let next: u32 = (t / 0x100000000) as u32;
            let ghost before = digits@;
            digits.push(d);
            proof {
                low_kept(before, digits@, i as int);
                let p = place(i as int);
                let vx = digits_value(x@, i + 1);
                let vy = digits_value(y@, i + 1);
                assert(digits_value(x@, i as int) == a + 0x100000000 * vx);
                assert(digits_value(y@, i as int) == b + 0x100000000 * vy);
                assert((b + 0x100000000 * vy) * by == b * by + 0x100000000 * (vy * by))
                    by (nonlinear_arith);
                assert(carry + a + b * by == d + 0x100000000 * next);
                assert(p * (d + 0x100000000 * (next + vx + vy * by)) == d * p + (0x100000000 * p)
                    * (next + vx + vy * by)) by (nonlinear_arith);
                assert(place(i + 1) == 0x100000000 * p);
                assert(carry + digits_value(x@, i as int) + digits_value(y@, i as int) * by == d
                    + 0x100000000 * (next + vx + vy * by));
            }
            carry = next;
            i = i + 1;
        }
        let ghost before = digits@;
        digits.push(carry);
        proof {
            low_kept(before, digits@, n as int);
            split_value(digits@, n as int);
            assert(digits_value(digits@, n + 1) == 0);
            assert(digits_value(digits@, n as int) == carry);
            assert(digits_value(x@, n as int) == 0);
            assert(digits_value(y@, n as int) * by == 0) by (nonlinear_arith)
                requires
                    digits_value(y@, n as int) == 0,
            ;
        }
        Wide { digits }
    }

    /// The sum of two numbers.
    pub(crate) fn plus(&self, other: &Wide) -> (r: Wide)
        ensures
            r.value() == self.value() + other.value(),
    {
        self.plus_times(other, 1)
    }

    /// The number with a zero put below its digits.
    fn raised(&self) -> (r: Wide)
        ensures
            r.value() == 0x100000000 * self.value(),
    {
        let mut digits: Vec<u32> = Vec::new();
        digits.push(0);
        let mut i: usize = 0;
        while i < self.digits.len()
            invariant
                i <= self.digits@.len(),
                digits@ == seq![0u32] + self.digits@.subrange(0, i as int),
            decreases self.digits@.len() - i,
        {
            digits.push(self.digits[i]);
            i = i + 1;
            assert(digits@ =~= seq![0u32] + self.digits@.subrange(0, i as int));
        }
        proof {
            assert(digits@ =~= seq![0u32] + self.digits@);
            raised_value(self.digits@, 0);
            assert(digits_value(digits@, 0) == 0x100000000 * digits_value(digits@, 1));
        }
        Wide { digits }
    }

    /// The product of two numbers.
    pub(crate) fn times(&self, other: &Wide) -> (r: Wide)
        ensures
            r.value() == self.value() * other.value(),
    {
        let mut acc = Wide::of(0);
        let mut i: usize = other.digits.len();
        assert(self.value() * digits_value(other.digits@, i as int) == 0) by (nonlinear_arith)
            requires
                digits_value(other.digits@, i as int) == 0,
        ;
        while i > 0
            invariant
                i <= other.digits@.len(),
                acc.value() == self.value() * digits_value(other.digits@, i as int),
            decreases i,
        {
            i = i - 1;
            let d: u32 = other.digits[i];
            let ghost v = digits_value(other.digits@, i + 1);
            acc = acc.raised().plus_times(self, d);
            assert(0x100000000 * (self.value() * v) + self.value() * d == self.value() * (d
                + 0x100000000 * v)) by (nonlinear_arith);
        }
        acc
    }

    /// Whether the number exceeds another.
    pub(crate) fn exceeds(&self, other: &Wide) -> (r: bool)
        ensures
            r == (self.value() > other.value()),
    {
        let n: usize = if self.digits.len() < other.digits.len() {
            other.digits.len()
        } else {
            self.digits.len()
        };
        let mut i: usize = n;
        while i > 0
            invariant
                i <= n,
                n >= self.digits@.len(),
                n >= other.digits@.len(),
                n == self.digits@.len() || n == other.digits@.len(),
                digits_value(self.digits@, i as int) == digits_value(other.digits@, i as int),
            decreases i,
        {
            i = i - 1;
            let a: u32 = self.digit(i);
            let b: u32 = other.digit(i);
            assert(digits_value(self.digits@, i as int) == a + 0x100000000 * digits_value(
                self.digits@,
                i + 1,
            ));
            assert(digits_value(other.digits@, i as int) == b + 0x100000000 * digits_value(
                other.digits@,
                i + 1,
            ));
            if a > b {
                proof {
                    exceeds_below(self.digits@, other.digits@, i as int);
                }
                return true;
            }
            if a < b {
                proof {
                    exceeds_below(other.digits@, self.digits@, i as int);
                }
                return false;
            }
        }
        false
    }
}

proof fn raised_value(s: Seq<u32>, i: int)
    requires
        0 <= i <= s.len(),
    ensures
        digits_value(seq![0u32] + s, i + 1) == digits_value(s, i),
    decreases s.len() - i,
{
    if i < s.len() {
        raised_value(s, i + 1);
    }
}

} // verus!
