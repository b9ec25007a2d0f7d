//! Exact integer statistics of a sample of natural numbers.
//!
//! Every statistic is the true rational value rounded to the nearest integer,
//! a half going up. Nothing is computed in floating point, so the same sample
//! gives the same result everywhere.

use vstd::arithmetic::div_mod::{lemma_fundamental_div_mod, lemma_fundamental_div_mod_converse};
use vstd::prelude::*;

verus! {

/// The sum of the sample.
pub open spec fn total(ws: Seq<nat>) -> int
    decreases ws.len(),
{
    if ws.len() == 0 {
        0
    } else {
        total(ws.drop_last()) + ws.last()
    }
}

/// The sum of the squares of the sample.
pub open spec fn total_squares(ws: Seq<nat>) -> int
    decreases ws.len(),
{
    if ws.len() == 0 {
        0
    } else {
        total_squares(ws.drop_last()) + ws.last() * ws.last()
    }
}

/// The sum over the sample of `(n * x - s) * (n * x - s)`.
pub open spec fn deviation_squares(ws: Seq<nat>, n: int, s: int) -> int
    decreases ws.len(),
{
    if ws.len() == 0 {
        0
    } else {
        deviation_squares(ws.drop_last(), n, s) + (n * ws.last() - s) * (n * ws.last() - s)
    }
}

/// The squared deviations from the mean, summed and scaled by the square of
/// the sample's size `n` so as to stay whole: with `m` the mean, `n * x - total`
/// is `n * (x - m)`.
pub open spec fn spread(ws: Seq<nat>) -> int {
    deviation_squares(ws, ws.len() as int, total(ws))
}

/// The integer nearest to `num / den`, a half going up.
pub open spec fn round_ratio(num: int, den: int) -> int
    recommends
        num >= 0,
        den > 0,
{
    (2 * num + den) / (2 * den)
}

/// The arithmetic mean of the sample, rounded; zero for an empty sample.
pub open spec fn mean_of(ws: Seq<nat>) -> int {
    if ws.len() == 0 {
        0
    } else {
        round_ratio(total(ws), ws.len() as int)
    }
}

/// The population variance of the sample, rounded: the mean of the squared
/// deviations from the mean; zero for an empty sample.
pub open spec fn variance_of(ws: Seq<nat>) -> int {
    let n = ws.len() as int;
    if n == 0 {
        0
    } else {
        round_ratio(spread(ws), n * n * n)
    }
}

/// Whether `r` is the integer nearest to the square root of `num / den`, a
/// half going up: `r - 1/2 <= sqrt(num / den) < r + 1/2`, squared and cleared
/// of fractions.
pub open spec fn is_rounded_root(r: int, num: int, den: int) -> bool {
    &&& r >= 0
    &&& 4 * num < (2 * r + 1) * (2 * r + 1) * den
    &&& r > 0 ==> (2 * r - 1) * (2 * r - 1) * den <= 4 * num
}

/// The integer nearest to the square root of `num / den`.
pub open spec fn rounded_root(num: int, den: int) -> int
    recommends
        num >= 0,
        den > 0,
{
    choose|r: int| is_rounded_root(r, num, den)
}

/// The sample standard deviation, rounded: the square root of the sum of the
/// squared deviations from the mean divided by one less than the sample's
/// size; zero for a sample of fewer than two values.
pub open spec fn stdev_of(ws: Seq<nat>) -> int {
    let n = ws.len() as int;
    if n < 2 {
        0
    } else {
        rounded_root(spread(ws), n * n * (n - 1))
    }
}

/// The largest value of the sample; zero for an empty sample.
pub open spec fn max_of(ws: Seq<nat>) -> nat
    decreases ws.len(),
{
    if ws.len() == 0 {
        0
    } else if ws.last() >= max_of(ws.drop_last()) {
        ws.last()
    } else {
        max_of(ws.drop_last())
    }
}

/// Whether `r` is the integer part of the square root of `x`.
pub open spec fn is_floor_root(r: int, x: int) -> bool {
    r >= 0 && r * r <= x < (r + 1) * (r + 1)
}

/// The sample as natural numbers.
pub open spec fn values(ws: Seq<u32>) -> Seq<nat> {
    ws.map_values(|x: u32| x as nat)
}

/// Whether every value of the sample fits in 32 bits.
pub open spec fn all_32_bit(ws: Seq<nat>) -> bool {
    forall|i: int| 0 <= i < ws.len() ==> #[trigger] ws[i] <= 0xffff_ffff
}

/// Both sums of a sample of 32-bit values are bounded by the sample's size.
pub proof fn lemma_totals_bounded(ws: Seq<nat>)
    requires
        all_32_bit(ws),
    ensures
        0 <= total(ws) <= ws.len() * 0xffff_ffff,
        0 <= total_squares(ws) <= ws.len() * 0xffff_fffe_0000_0001,
    decreases ws.len(),
{
    if ws.len() > 0 {
        lemma_totals_bounded(ws.drop_last());
        let x = ws.last() as int;
        assert(0 <= x * x <= 0xffff_fffe_0000_0001) by (nonlinear_arith)
            requires
                0 <= x <= 0xffff_ffff,
        ;
    }
}

/// The squared deviations written out in the two sums.
pub proof fn lemma_deviation_squares_expanded(ws: Seq<nat>, n: int, s: int)
    ensures
        deviation_squares(ws, n, s) == n * n * total_squares(ws) - 2 * n * s * total(ws)
            + ws.len() * s * s,
        deviation_squares(ws, n, s) >= 0,
    decreases ws.len(),
{
    if ws.len() > 0 {
        let rest = ws.drop_last();
        lemma_deviation_squares_expanded(rest, n, s);
        let x = ws.last() as int;
        let q = total_squares(rest);
        let t = total(rest);
        let k = rest.len() as int;
        assert((n * x - s) * (n * x - s) >= 0) by (nonlinear_arith);
        assert(n * n * q - 2 * n * s * t + k * s * s + (n * x - s) * (n * x - s) == n * n * (q + x
            * x) - 2 * n * s * (t + x) + (k + 1) * s * s) by (nonlinear_arith);
    }
}

/// The spread of a sample of size `n` is `n * (n * Q - S * S)`, with `S` the sum
/// and `Q` the sum of squares; so `n * Q - S * S` is never negative.
pub proof fn lemma_spread(ws: Seq<nat>)
    ensures
        spread(ws) == ws.len() * (ws.len() * total_squares(ws) - total(ws) * total(ws)),
        spread(ws) >= 0,
        ws.len() * total_squares(ws) - total(ws) * total(ws) >= 0,
{
    let n = ws.len() as int;
    let s = total(ws);
    let q = total_squares(ws);
    lemma_deviation_squares_expanded(ws, n, s);
    assert(n * n * q - 2 * n * s * s + n * s * s == n * (n * q - s * s)) by (nonlinear_arith);
    if n > 0 {
        assert(n * q - s * s >= 0) by (nonlinear_arith)
            requires
                n > 0,
                n * (n * q - s * s) >= 0,
        ;
    } else {
        assert(ws =~= Seq::<nat>::empty());
    }
}

/// A quotient is known by the multiples of the divisor around the dividend.
pub proof fn lemma_quotient(x: int, d: int, q: int)
    requires
        d > 0,
        q * d <= x < (q + 1) * d,
    ensures
        x / d == q,
{
    assert((q + 1) * d == q * d + d) by (nonlinear_arith);
    lemma_fundamental_div_mod_converse(x, d, q, x - q * d);
}

/// Rounding a ratio from its quotient and remainder.
pub proof fn lemma_round_ratio(num: int, den: int)
    requires
        num >= 0,
        den > 0,
    ensures
        round_ratio(num, den) == num / den + if 2 * (num % den) >= den {
            1int
        } else {
            0int
        },
{
    let w = num / den;
    let r = num % den;
    lemma_fundamental_div_mod(num, den);
    assert(0 <= r < den) by {
        vstd::arithmetic::div_mod::lemma_mod_bound(num, den);
    }
    let up = if 2 * r >= den {
        1int
    } else {
        0int
    };
    assert((w + up) * (2 * den) <= 2 * num + den < (w + up + 1) * (2 * den)) by (nonlinear_arith)
        requires
            num == den * w + r,
            0 <= r < den,
            up == if 2 * r >= den {
                1int
            } else {
                0int
            },
    ;
    lemma_quotient(2 * num + den, 2 * den, w + up);
}

/// A common factor of the two terms of a ratio does not move its rounding.
pub proof fn lemma_round_ratio_scaled(k: int, num: int, den: int)
    requires
        k > 0,
        num >= 0,
        den > 0,
    ensures
        round_ratio(k * num, k * den) == round_ratio(num, den),
{
    let r = round_ratio(num, den);
    lemma_fundamental_div_mod(2 * num + den, 2 * den);
    vstd::arithmetic::div_mod::lemma_mod_bound(2 * num + den, 2 * den);
    let m = (2 * num + den) % (2 * den);
    assert(r * (2 * (k * den)) <= 2 * (k * num) + k * den < (r + 1) * (2 * (k * den)))
        by (nonlinear_arith)
        requires
            k > 0,
            2 * num + den == (2 * den) * r + m,
            0 <= m < 2 * den,
    ;
    assert(k * den > 0) by (nonlinear_arith)
        requires
            k > 0,
            den > 0,
    ;
    lemma_quotient(2 * (k * num) + k * den, 2 * (k * den), r);
}

/// At most one integer is the rounded root of a ratio.
pub proof fn lemma_rounded_root_unique(r1: int, r2: int, num: int, den: int)
    requires
        den > 0,
        is_rounded_root(r1, num, den),
        is_rounded_root(r2, num, den),
    ensures
        r1 == r2,
{
    if r1 < r2 {
        assert((2 * r1 + 1) * (2 * r1 + 1) * den <= (2 * r2 - 1) * (2 * r2 - 1) * den)
            by (nonlinear_arith)
            requires
                0 <= r1 < r2,
                den > 0,
        ;
    } else if r2 < r1 {
        assert((2 * r2 + 1) * (2 * r2 + 1) * den <= (2 * r1 - 1) * (2 * r1 - 1) * den)
            by (nonlinear_arith)
            requires
                0 <= r2 < r1,
                den > 0,
        ;
    }
}

/// A common factor of the two terms of a ratio does not move its rounded root.
pub proof fn lemma_rounded_root_scaled(r: int, k: int, num: int, den: int)
    requires
        k > 0,
        is_rounded_root(r, num, den),
    ensures
        is_rounded_root(r, k * num, k * den),
{
    let hi = (2 * r + 1) * (2 * r + 1);
    let lo = (2 * r - 1) * (2 * r - 1);
    assert(4 * (k * num) < hi * (k * den)) by (nonlinear_arith)
        requires
            k > 0,
            4 * num < hi * den,
    ;
    if r > 0 {
        assert(lo * (k * den) <= 4 * (k * num)) by (nonlinear_arith)
            requires
                k > 0,
                lo * den <= 4 * num,
        ;
    }
}

/// The sum of the sample and the sum of its squares.
pub fn sums(ws: &Vec<u32>) -> (r: (u128, u128))
    ensures
        r.0 == total(values(ws@)),
        r.1 == total_squares(values(ws@)),
{
    let mut s: u128 = 0;
    let mut q: u128 = 0;
    let mut i: usize = 0;
    while i < ws.len()
        invariant
            i <= ws.len(),
            s == total(values(ws@).take(i as int)),
            q == total_squares(values(ws@).take(i as int)),
        decreases ws.len() - i,
    {
        let x: u128 = ws[i] as u128;
        proof {
            let before = values(ws@).take(i as int);
            let after = values(ws@).take(i + 1);
            assert(after.drop_last() =~= before);
            lemma_totals_bounded(before);
            assert(i * 0xffff_ffff <= 0xffff_ffff_ffff_ffff * 0xffff_ffff
                && i * 0xffff_fffe_0000_0001 <= 0xffff_ffff_ffff_ffff * 0xffff_fffe_0000_0001)
                by (nonlinear_arith)
                requires
                    0 <= i <= 0xffff_ffff_ffff_ffff,
            ;
            assert(0 <= x * x <= 0xffff_fffe_0000_0001) by (nonlinear_arith)
                requires
                    0 <= x <= 0xffff_ffff,
            ;
        }
        s = s + x;
        q = q + x * x;
        i += 1;
    }
    assert(values(ws@).take(i as int) =~= values(ws@));
    (s, q)
}

/// The arithmetic mean of the sample, rounded to the nearest integer; zero for
/// an empty sample.
pub fn mean(ws: &Vec<u32>) -> (r: u64)
    ensures
        r == mean_of(values(ws@)),
{
    let n: u128 = ws.len() as u128;
    if n == 0 {
        return 0;
    }
    let (s, _) = sums(ws);
    proof {
        lemma_totals_bounded(values(ws@));
        assert(n * 0xffff_ffff <= 0xffff_ffff_ffff_ffff * 0xffff_ffff) by (nonlinear_arith)
            requires
                0 <= n <= 0xffff_ffff_ffff_ffff,
        ;
    }
    let r: u128 = (2 * s + n) / (2 * n);
    proof {
        assert(r <= 0xffff_ffff) by {
            assert(2 * s + n < (0xffff_ffff + 1) * (2 * n)) by (nonlinear_arith)
                requires
                    n > 0,
                    0 <= s <= n * 0xffff_ffff,
            ;
            lemma_fundamental_div_mod(2 * s + n, 2 * n);
            vstd::arithmetic::div_mod::lemma_mod_bound(2 * s + n, 2 * n);
            assert(r < 0xffff_ffff + 1) by (nonlinear_arith)
                requires
                    n > 0,
                    2 * s + n < (0xffff_ffff + 1) * (2 * n),
                    2 * s + n == (2 * n) * r + (2 * s + n) % (2 * n),
                    0 <= (2 * s + n) % (2 * n),
            ;
        }
    }
    r as u64
}

/// The integer part of the square root of `x`.
pub fn floor_sqrt(x: u128) -> (r: u64)
    ensures
        is_floor_root(r as int, x as int),
{
    let mut lo: u128 = 0;
    let mut hi: u128 = 0x1_0000_0000_0000_0000;
    while hi - lo > 1
        invariant
            lo < hi <= 0x1_0000_0000_0000_0000,
            lo * lo <= x < hi * hi,
        decreases hi - lo,
    {
        let mid: u128 = lo + (hi - lo) / 2;
        assert(mid * mid <= 0xffff_ffff_ffff_ffff * 0xffff_ffff_ffff_ffff) by (nonlinear_arith)
            requires
                0 <= mid <= 0xffff_ffff_ffff_ffff,
        ;
        if mid * mid <= x {
            lo = mid;
        } else {
            hi = mid;
        }
    }
    lo as u64
}

/// What the variance and the standard deviation are computed from: the size
/// `n` of the sample and `n * Q - S * S`, with `S` its sum and `Q` the sum of
/// its squares.
fn size_and_scatter(ws: &Vec<u32>) -> (r: (u128, u128))
    requires
        0 < ws.len() <= u32::MAX,
    ensures
        r.0 == ws.len(),
        r.0 * r.1 == spread(values(ws@)),
        r.1 <= r.0 * r.0 * 0xffff_fffe_0000_0001,
{
    let n: u128 = ws.len() as u128;
    let (s, q) = sums(ws);
    proof {
        lemma_totals_bounded(values(ws@));
        lemma_spread(values(ws@));
        assert(n * q <= n * n * 0xffff_fffe_0000_0001 && n * n * 0xffff_fffe_0000_0001
            <= 0xffff_ffff * 0xffff_ffff * 0xffff_fffe_0000_0001) by (nonlinear_arith)
            requires
                0 < n <= 0xffff_ffff,
                0 <= q <= n * 0xffff_fffe_0000_0001,
        ;
        assert(0 <= s * s) by (nonlinear_arith);
    }
    (n, n * q - s * s)
}

/// The population variance of the sample, rounded to the nearest integer;
/// zero for an empty sample.
pub fn variance(ws: &Vec<u32>) -> (r: u64)
    requires
        ws.len() <= u32::MAX,
    ensures
        r == variance_of(values(ws@)),
{
    if ws.len() == 0 {
        return 0;
    }
    let (n, num) = size_and_scatter(ws);
    assert(0 < n * n <= 0xffff_ffff * 0xffff_ffff) by (nonlinear_arith)
        requires
            0 < n <= 0xffff_ffff,
    ;
    let den: u128 = n * n;
    let whole: u128 = num / den;
    let rest: u128 = num % den;
    proof {
        lemma_round_ratio(num as int, den as int);
        lemma_round_ratio_scaled(n as int, num as int, den as int);
        assert(n * den == n * n * n) by (nonlinear_arith)
            requires
                den == n * n,
        ;
        lemma_fundamental_div_mod(num as int, den as int);
        assert(whole <= 0xffff_fffe_0000_0001) by (nonlinear_arith)
            requires
                den > 0,
                num <= den * 0xffff_fffe_0000_0001,
                num == den * whole + rest,
                rest >= 0,
        ;
    }
    if 2 * rest >= den {
        (whole + 1) as u64
    } else {
        whole as u64
    }
}

/// The sample standard deviation, rounded to the nearest integer; zero for a
/// sample of fewer than two values.
pub fn stdev(ws: &Vec<u32>) -> (r: u64)
    requires
        ws.len() <= u32::MAX,
    ensures
        r == stdev_of(values(ws@)),
{
    if ws.len() < 2 {
        return 0;
    }
    let (n, num) = size_and_scatter(ws);
    assert(0 < n * (n - 1) <= 0xffff_ffff * 0xffff_ffff) by (nonlinear_arith)
        requires
            2 <= n <= 0xffff_ffff,
    ;
    let den: u128 = n * (n - 1);
    let whole: u128 = num / den;
    let rest: u128 = num % den;
    proof {
        lemma_fundamental_div_mod(num as int, den as int);
        assert(whole <= 2 * 0xffff_fffe_0000_0001) by (nonlinear_arith)
            requires
                n >= 2,
                den == n * (n - 1),
                num <= n * n * 0xffff_fffe_0000_0001,
                num == den * whole + rest,
                rest >= 0,
        ;
    }
    let fourfold: u128 = 4 * whole + (4 * rest) / den;
    let k: u64 = floor_sqrt(fourfold);
    let r: u64 = ((k as u128 + 1) / 2) as u64;
    proof {
        lemma_rounded_root_from_floor(r as int, k as int, fourfold as int, num as int, den as int);
        lemma_rounded_root_scaled(r as int, n as int, num as int, den as int);
        assert(n * den == n * n * (n - 1)) by (nonlinear_arith)
            requires
                den == n * (n - 1),
        ;
        let scaled_num = spread(values(ws@));
        let scaled_den = n * n * (n - 1);
        assert(is_rounded_root(r as int, scaled_num, scaled_den));
        lemma_rounded_root_unique(
            r as int,
            rounded_root(scaled_num, scaled_den),
            scaled_num,
            scaled_den,
        );
    }
    r
}

/// Every natural number has an integer square root.
pub proof fn lemma_floor_root_exists(x: nat)
    ensures
        exists|r: int| is_floor_root(r, x as int),
    decreases x,
{
    if x == 0 {
        assert(is_floor_root(0, 0));
    } else {
        let before = (x - 1) as int;
        lemma_floor_root_exists(before as nat);
        let r = choose|r: int| is_floor_root(r, before);
        if (r + 1) * (r + 1) <= x {
            assert((r + 1) * (r + 1) < (r + 2) * (r + 2)) by (nonlinear_arith)
                requires
                    r >= 0,
            ;
            assert(is_floor_root(r + 1, x as int));
        } else {
            assert(is_floor_root(r, x as int));
        }
    }
}

/// Every ratio that is not negative has a rounded root.
pub proof fn lemma_rounded_root_exists(num: int, den: int)
    requires
        num >= 0,
        den > 0,
    ensures
        is_rounded_root(rounded_root(num, den), num, den),
{
    let fourfold = 4 * (num / den) + (4 * (num % den)) / den;
    lemma_fundamental_div_mod(num, den);
    vstd::arithmetic::div_mod::lemma_mod_bound(num, den);
    lemma_fundamental_div_mod(4 * (num % den), den);
    vstd::arithmetic::div_mod::lemma_mod_bound(4 * (num % den), den);
    assert(num / den >= 0 && (4 * (num % den)) / den >= 0) by (nonlinear_arith)
        requires
            den > 0,
            num == den * (num / den) + num % den,
            0 <= num % den < den,
            num >= 0,
            4 * (num % den) == den * ((4 * (num % den)) / den) + (4 * (num % den)) % den,
            0 <= (4 * (num % den)) % den < den,
    ;
    lemma_floor_root_exists(fourfold as nat);
    let k = choose|k: int| is_floor_root(k, fourfold);
    let r = (k + 1) / 2;
    lemma_rounded_root_from_floor(r, k, fourfold, num, den);
}

/// Halving the integer root of four times a ratio, rounding up, gives the
/// rounded root of the ratio.
proof fn lemma_rounded_root_from_floor(r: int, k: int, fourfold: int, num: int, den: int)
    requires
        num >= 0,
        den > 0,
        fourfold == 4 * (num / den) + (4 * (num % den)) / den,
        is_floor_root(k, fourfold),
        r == (k + 1) / 2,
    ensures
        is_rounded_root(r, num, den),
{
    let w = num / den;
    let m = num % den;
    lemma_fundamental_div_mod(num, den);
    vstd::arithmetic::div_mod::lemma_mod_bound(num, den);
    let e = (4 * m) / den;
    lemma_fundamental_div_mod(4 * m, den);
    vstd::arithmetic::div_mod::lemma_mod_bound(4 * m, den);
    let f = (4 * m) % den;
    assert(fourfold * den <= 4 * num < (fourfold + 1) * den) by (nonlinear_arith)
        requires
            fourfold == 4 * w + e,
            num == den * w + m,
            4 * m == den * e + f,
            0 <= f < den,
    ;
    if k == 2 * r {
        assert((2 * r + 1) * (2 * r + 1) * den >= (fourfold + 1) * den) by (nonlinear_arith)
            requires
                fourfold < (k + 1) * (k + 1),
                k == 2 * r,
                den > 0,
        ;
        if r > 0 {
            assert((2 * r - 1) * (2 * r - 1) <= k * k) by (nonlinear_arith)
                requires
                    k == 2 * r,
                    r >= 1,
            ;
            assert((2 * r - 1) * (2 * r - 1) * den <= fourfold * den) by (nonlinear_arith)
                requires
                    (2 * r - 1) * (2 * r - 1) <= fourfold,
                    den > 0,
            ;
        }
    } else {
        assert(k == 2 * r - 1);
        assert((2 * r + 1) * (2 * r + 1) * den >= (fourfold + 1) * den) by (nonlinear_arith)
            requires
                fourfold < (k + 1) * (k + 1),
                k == 2 * r - 1,
                r >= 1,
                den > 0,
        ;
        assert((2 * r - 1) * (2 * r - 1) * den <= fourfold * den) by (nonlinear_arith)
            requires
                k * k <= fourfold,
                k == 2 * r - 1,
                den > 0,
        ;
    }
}

/// No value of the sample is above its largest, and in a sample that is not
/// empty the largest is one of the values.
pub proof fn lemma_max_of(ws: Seq<nat>)
    ensures
        forall|i: int| 0 <= i < ws.len() ==> #[trigger] ws[i] <= max_of(ws),
        ws.len() > 0 ==> exists|i: int| 0 <= i < ws.len() && #[trigger] ws[i] == max_of(ws),
    decreases ws.len(),
{
    if ws.len() > 0 {
        let rest = ws.drop_last();
        lemma_max_of(rest);
        assert forall|i: int| 0 <= i < ws.len() implies #[trigger] ws[i] <= max_of(ws) by {
            if i < rest.len() {
                assert(ws[i] == rest[i]);
            }
        }
        if ws.last() >= max_of(rest) {
            assert(ws[ws.len() - 1] == max_of(ws));
        } else {
            let i = choose|i: int| 0 <= i < rest.len() && #[trigger] rest[i] == max_of(rest);
            assert(ws[i] == max_of(ws));
        }
    }
}

/// Where the largest value of the sample stands; of several equal ones, the
/// last. Nowhere in an empty sample.
pub fn last_max_position(ws: &Vec<u32>) -> (r: Option<usize>)
    ensures
        r is None <==> ws.len() == 0,
        r matches Some(p) ==> {
            &&& p < ws.len()
            &&& ws[p as int] == max_of(values(ws@))
            &&& forall|j: int| p < j < ws.len() ==> ws[j] < ws[p as int]
        },
{
    if ws.len() == 0 {
        return None;
    }
    let mut best: usize = 0;
    let mut i: usize = 1;
    proof {
        let first = values(ws@).take(1);
        assert(first.drop_last() =~= Seq::<nat>::empty());
        assert(max_of(first.drop_last()) == 0);
        assert(first.last() == ws[0]);
    }
    while i < ws.len()
        invariant
            best < i <= ws.len(),
            ws[best as int] == max_of(values(ws@).take(i as int)),
            forall|j: int| best < j < i ==> ws[j] < ws[best as int],
        decreases ws.len() - i,
    {
        assert(values(ws@).take(i + 1).drop_last() =~= values(ws@).take(i as int));
        if ws[i] >= ws[best] {
            best = i;
        }
        i += 1;
    }
    assert(values(ws@).take(i as int) =~= values(ws@));
    Some(best)
}

/// The largest value of the sample; zero for an empty sample.
pub fn max(ws: &Vec<u32>) -> (r: u32)
    ensures
        r == max_of(values(ws@)),
{
    match last_max_position(ws) {
        Some(p) => ws[p],
        None => {
            assert(values(ws@) =~= Seq::<nat>::empty());
            0
        },
    }
}

} // verus!
