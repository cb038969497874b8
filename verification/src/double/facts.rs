//! What holds of rounded results: their signs, their order and their bounds.
use crate::double::arith::UNIT;
use crate::double::grid::{
    lemma_magnitude_at, lemma_nearest, lemma_nearest_exact, lemma_nearest_is,
    lemma_nearest_monotone, lemma_order, lemma_step, magnitude, nearest, rounds_to, spacing,
    FRACTION, TOP,
};
use crate::double::number::{distance, Double};
use crate::double::remainder::lemma_representable;
use crate::double::root::lemma_nearest_root;
use vstd::arithmetic::power2::{
    lemma2_to64, lemma_pow2_adds, lemma_pow2_pos, lemma_pow2_strictly_increases, lemma_pow2_unfold,
    pow2,
};
use vstd::prelude::*;

verus! {

/// How many units make one.
pub open spec fn one() -> nat {
    pow2(UNIT as nat)
}

/// The value that an exact value of `n / d` units is rounded to.
pub open spec fn settled_value(negative: bool, n: nat, d: nat) -> int {
    if negative {
        -(magnitude(nearest(n, d)) as int)
    } else {
        magnitude(nearest(n, d)) as int
    }
}

/// A rounded number is a number with the rounded value.
pub proof fn lemma_rounding(negative: bool, n: nat, d: nat)
    requires
        d > 0,
    ensures
        !Double::rounding(negative, n, d).nan(),
        Double::rounding(negative, n, d).index() == nearest(n, d),
        Double::rounding(negative, n, d).negative() == negative,
        Double::rounding(negative, n, d).value() == settled_value(negative, n, d),
        nearest(n, d) <= TOP,
{
    lemma_nearest(n, d);
}

/// Zero, as a ratio, is zero.
pub proof fn lemma_zero()
    ensures
        Double::ratio(0, 1) == Double::of(false, 0),
        Double::ratio(0, 1).value() == 0,
        Double::ratio(0, 1).finite(),
{
    reveal(Double::quotient);
    assert(0 * pow2(UNIT as nat) == 0);
    lemma_nearest_exact(0, 1, 0);
}

/// A ratio of natural numbers is a number and is not negative.
pub proof fn lemma_ratio(n: u64, d: u64)
    requires
        d > 0,
    ensures
        !Double::ratio(n, d).nan(),
        !Double::ratio(n, d).negative(),
        Double::ratio(n, d).value() >= 0,
        Double::ratio(n, d).index() == nearest(n as nat * one(), d as nat),
{
    reveal(Double::quotient);
    lemma_nearest(n as nat * one(), d as nat);
}

/// A whole number of at most 53 bits is exact.
pub proof fn lemma_whole(n: u64)
    requires
        n < 2 * FRACTION,
    ensures
        Double::ratio(n, 1).value() == n * one(),
        Double::ratio(n, 1).finite(),
        !Double::ratio(n, 1).negative(),
{
    reveal(Double::quotient);
    let k = lemma_representable(n as nat, UNIT as nat);
    assert(n as nat * one() == magnitude(k) * 1);
    lemma_nearest_exact(n as nat * one(), 1, k);
}

/// Ratios have the order of what they stand for.
pub proof fn lemma_ratio_order(n1: u64, d1: u64, n2: u64, d2: u64)
    requires
        d1 > 0,
        d2 > 0,
        n1 * d2 <= n2 * d1,
    ensures
        Double::ratio(n1, d1) <= Double::ratio(n2, d2),
{
    lemma_ratio(n1, d1);
    lemma_ratio(n2, d2);
    let a = n1 as nat * one();
    let b = n2 as nat * one();
    assert(a * d2 as nat <= b * d1 as nat) by (nonlinear_arith)
        requires
            a == n1 as nat * one(),
            b == n2 as nat * one(),
            n1 * d2 <= n2 * d1,
    ;
    lemma_nearest_monotone(a, d1 as nat, b, d2 as nat);
    lemma_order(Double::ratio(n1, d1).index(), Double::ratio(n2, d2).index());
}

/// A ratio below one is a finite number of at most one.
pub proof fn lemma_fraction(n: u64, d: u64)
    requires
        0 < d,
        n <= d,
    ensures
        Double::ratio(n, d).finite(),
        !Double::ratio(n, d).negative(),
        0 <= Double::ratio(n, d).value() <= one(),
{
    lemma_ratio(n, d);
    lemma_whole(1);
    lemma_ratio_order(n, d, 1, 1);
    lemma_order(Double::ratio(n, d).index(), Double::ratio(1, 1).index());
}

/// The other sign gives the opposite value.
pub proof fn lemma_negated(x: Double)
    ensures
        (-x).value() == -x.value(),
        (-x).nan() == x.nan(),
        (-x).finite() == x.finite(),
        (-x).index() == x.index(),
        (-x).negative() == !x.negative(),
{
}

/// The value of a magnitude.
pub proof fn lemma_abs(x: Double)
    ensures
        x.abs().nan() == x.nan(),
        x.abs().finite() == x.finite(),
        !x.abs().negative(),
        x.abs().value() == distance(x.value()),
        x.abs().value() >= 0,
{
    lemma_order(0, x.index());
}

/// The value that a whole number of units is rounded to.
pub open spec fn near(x: int) -> int {
    settled_value(x < 0, distance(x), 1)
}

/// The value of a sum of finite numbers is the exact sum, rounded.
pub proof fn lemma_sum(a: Double, b: Double)
    requires
        a.finite(),
        b.finite(),
    ensures
        !(a + b).nan(),
        (a + b).value() == near(a.value() + b.value()),
{
    reveal(Double::spec_add);
    let x = a.value() + b.value();
    lemma_rounding(x < 0 || (x == 0 && a.negative() && b.negative()), distance(x), 1);
    if x == 0 {
        lemma_nearest_exact(0, 1, 0);
    }
}

/// The value of a difference of finite numbers is the exact difference, rounded.
pub proof fn lemma_difference(a: Double, b: Double)
    requires
        a.finite(),
        b.finite(),
    ensures
        !(a - b).nan(),
        (a - b).value() == near(a.value() - b.value()),
{
    lemma_negated(b);
    lemma_sum(a, -b);
}

/// Rounding keeps the order.
pub proof fn lemma_near_monotone(x: int, y: int)
    requires
        x <= y,
    ensures
        near(x) <= near(y),
        x >= 0 ==> near(x) >= 0,
        y <= 0 ==> near(y) <= 0,
        x == 0 ==> near(x) == 0,
{
    let i = nearest(distance(x), 1);
    let j = nearest(distance(y), 1);
    lemma_nearest_exact(0, 1, 0);
    if x >= 0 {
        lemma_nearest_monotone(distance(x), 1, distance(y), 1);
        lemma_order(i, j);
    } else if y <= 0 {
        lemma_nearest_monotone(distance(y), 1, distance(x), 1);
        lemma_order(j, i);
    }
    assert(magnitude(0) == 0);
}

/// Rounding changes nothing about the value of a number.
pub proof fn lemma_near_exact(a: Double)
    requires
        !a.nan(),
    ensures
        near(a.value()) == a.value(),
{
    let k = a.index();
    lemma_order(0, k);
    assert(magnitude(k) == magnitude(k) * 1);
    lemma_nearest_exact(magnitude(k), 1, k);
    lemma_nearest_exact(0, 1, 0);
}

/// The rounded value lies between zero and twice the exact one.
pub proof fn lemma_near_twice(x: int)
    requires
        x >= 0,
    ensures
        0 <= near(x) <= 2 * x,
{
    let k = nearest(x as nat, 1);
    lemma_nearest(x as nat, 1);
    lemma_nearest_exact(0, 1, 0);
    lemma_near_monotone(x, x);
    if k > 0 {
        assert(1 * (magnitude((k - 1) as nat) + magnitude(k)) == magnitude((k - 1) as nat) + magnitude(k));
    }
}

/// Rounding moves a number that is not tiny up by at most one part in two to the
/// power of 53.
pub proof fn lemma_nearest_close(n: nat, d: nat)
    requires
        d > 0,
    ensures
        nearest(n, d) > FRACTION ==> d * magnitude(nearest(n, d)) * (2 * FRACTION) <= n * (2 * FRACTION + 1),
{
    let k = nearest(n, d);
    let f = FRACTION as nat;
    lemma_nearest(n, d);
    if k > FRACTION {
        let j = (k - 1) as nat;
        let low = magnitude(j);
        let gap = pow2(spacing(j));
        lemma_step(j);
        assert(gap * f <= low) by (nonlinear_arith)
            requires
                low == (f + j % f) * gap,
                f > 0,
        ;
        assert(d * (low + gap) * (2 * f) <= n * (2 * f + 1)) by (nonlinear_arith)
            requires
                d * (low + (low + gap)) <= 2 * n,
                gap * f <= low,
                d > 0,
                f > 0,
        ;
    }
}

/// Above the tiny numbers, rounding the double of a number gives the double of
/// the rounded number.
pub proof fn lemma_nearest_doubled(n: nat, d: nat)
    requires
        d > 0,
        FRACTION < nearest(n, d) < TOP - FRACTION,
    ensures
        magnitude(nearest(2 * n, d)) == 2 * magnitude(nearest(n, d)),
{
    let k = nearest(n, d);
    let f = FRACTION as nat;
    lemma_nearest(n, d);
    lemma_magnitude_doubled(k);
    lemma_magnitude_doubled((k - 1) as nat);
    lemma_magnitude_doubled(k + 1);
    assert(k - 1 + f == k + f - 1 && k + 1 + f == k + f + 1);
    let low = magnitude((k - 1) as nat);
    let mid = magnitude(k);
    let high = magnitude(k + 1);
    assert(d * (2 * low + 2 * mid) == 2 * (d * (low + mid)) && d * (2 * mid + 2 * high) == 2 * (d * (mid + high)))
        by (nonlinear_arith);
    assert((k + f) % 2 == k % 2);
    assert(rounds_to(2 * n, d, k + f));
    lemma_nearest_is(2 * n, d, k + f);
}

/// Beyond the tiny numbers, one exponent further is twice as much.
proof fn lemma_magnitude_doubled(k: nat)
    requires
        k >= FRACTION,
    ensures
        magnitude(k + FRACTION as nat) == 2 * magnitude(k),
{
    let f = FRACTION as nat;
    assert((k + f) / f == k / f + 1 && (k + f) % f == k % f);
    lemma_pow2_unfold(spacing(k) + 1);
    assert((f + k % f) * (2 * pow2(spacing(k))) == 2 * ((f + k % f) * pow2(spacing(k)))) by (nonlinear_arith);
}

/// A magnitude from `2^52 * 2^q` on is a whole multiple of `2^q`.
pub proof fn lemma_multiple(k: nat, q: nat) -> (m: nat)
    requires
        magnitude(k) >= FRACTION * pow2(q),
    ensures
        magnitude(k) == m * pow2(q),
{
    let f = FRACTION as nat;
    let s = spacing(k);
    lemma_pow2_pos(q);
    lemma_pow2_pos(s);
    if k < FRACTION {
        assert(FRACTION * pow2(q) >= FRACTION) by (nonlinear_arith)
            requires
                pow2(q) >= 1,
        ;
    }
    let c = f + k % f;
    if s < q {
        lemma_pow2_unfold(q);
        if s + 1 < q {
            lemma_pow2_strictly_increases(s + 1, q);
        }
        lemma_pow2_unfold(s + 1);
        assert(c * pow2(s) < f * pow2(q)) by (nonlinear_arith)
            requires
                c < 2 * f,
                2 * pow2(s) <= pow2(q),
                pow2(s) > 0,
        ;
    }
    let g = pow2((s - q) as nat);
    lemma_pow2_adds(q, (s - q) as nat);
    assert(c * (pow2(q) * g) == (c * g) * pow2(q)) by (nonlinear_arith);
    c * g
}

/// Below `2^53 * 2^q` magnitudes are at most `2^q` apart.
pub proof fn lemma_spacing(k: nat, q: nat)
    requires
        magnitude(k) < 2 * FRACTION * pow2(q),
    ensures
        spacing(k) <= q,
        pow2(spacing(k)) <= pow2(q),
{
    let f = FRACTION as nat;
    let s = spacing(k);
    if s > q {
        lemma_pow2_unfold(q + 1);
        if q + 1 < s {
            lemma_pow2_strictly_increases(q + 1, s);
        }
        assert((f + k % f) * pow2(s) >= 2 * f * pow2(q)) by (nonlinear_arith)
            requires
                pow2(s) >= 2 * pow2(q),
                k % f >= 0,
                f > 0,
        ;
    } else if s < q {
        lemma_pow2_strictly_increases(s, q);
    }
}

/// Rounding changes nothing about a multiple of `2^q` with at most 53 bits.
pub proof fn lemma_near_multiple(m: int, q: nat)
    requires
        distance(m) < 2 * FRACTION,
        q <= 2045,
    ensures
        near(m * pow2(q)) == m * pow2(q),
{
    let k = lemma_representable(distance(m), q);
    lemma_pow2_pos(q);
    assert(distance(m * pow2(q)) == distance(m) * pow2(q) && (m < 0 <==> m * pow2(q) < 0)) by (nonlinear_arith)
        requires
            pow2(q) > 0,
    ;
    assert(magnitude(k) == magnitude(k) * 1);
    lemma_nearest_exact(magnitude(k), 1, k);
}

/// Rounding moves a number below `2^53 * 2^q` by at most half of `2^q`.
pub proof fn lemma_near_close(x: int, q: nat)
    requires
        distance(x) < 2 * FRACTION * pow2(q),
        q <= 2045,
    ensures
        2 * distance(near(x) - x) <= pow2(q),
{
    let n = distance(x);
    let k = nearest(n, 1);
    lemma_nearest(n, 1);
    lemma_pow2_pos(q);
    let last = lemma_last(q);
    assert(n * 1 <= magnitude(last) * 1);
    lemma_nearest_monotone(n, 1, magnitude(last), 1);
    lemma_nearest_exact(magnitude(last), 1, last);
    lemma_order(k, last);
    if k > 0 {
        let j = (k - 1) as nat;
        lemma_step(j);
        lemma_order(j, k);
        lemma_spacing(j, q);
        assert(1 * (magnitude(j) + magnitude(k)) == magnitude(j) + magnitude(k));
    }
    if k < last {
        lemma_order(k, last);
        lemma_step(k);
        lemma_spacing(k, q);
        assert(1 * (magnitude(k) + magnitude(k + 1)) == magnitude(k) + magnitude(k + 1));
    }
}

/// `2^53 * 2^q` is on the grid.
proof fn lemma_last(q: nat) -> (k: nat)
    requires
        q <= 2045,
    ensures
        k <= TOP,
        magnitude(k) == 2 * FRACTION * pow2(q),
{
    lemma_magnitude_at(2 * FRACTION as nat, q);
    q * FRACTION as nat + 2 * FRACTION as nat
}

/// Twice a number of at most one is exact.
pub proof fn lemma_twice(a: Double)
    requires
        !a.nan(),
        0 <= a.value() <= one(),
    ensures
        (a * Double::ratio(2, 1)).finite(),
        (a * Double::ratio(2, 1)).value() == 2 * a.value(),
{
    let two = Double::ratio(2, 1);
    let k = a.index();
    let x = magnitude(k);
    lemma_whole(1);
    lemma_whole(2);
    lemma_whole(4);
    lemma_pow2_pos(UNIT as nat);
    lemma_bounded(a, Double::ratio(1, 1));
    lemma_order(0, k);
    lemma_product(a, two);
    let j = if k < FRACTION {
        lemma_magnitude_at(2 * k, 0);
        lemma2_to64();
        assert(0 * FRACTION as nat + 2 * k == 2 * k);
        2 * k
    } else {
        lemma_magnitude_doubled(k);
        k + FRACTION as nat
    };
    assert(magnitude(j) == 2 * x);
    lemma_order(j, Double::ratio(4, 1).index());
    assert(x * (2 * one()) == magnitude(j) * one()) by (nonlinear_arith)
        requires
            magnitude(j) == 2 * x,
    ;
    lemma_nearest_exact(x * (2 * one()), one(), j);
    lemma_order(0, j);
}

/// A number between zero and a finite one is finite.
pub proof fn lemma_bounded(a: Double, b: Double)
    requires
        !a.nan(),
        b.finite(),
        0 <= a.value() <= b.value(),
    ensures
        a.finite(),
{
    lemma_order(a.index(), b.index());
    lemma_order(0, a.index());
    lemma_order(0, b.index());
}

/// One half is exact.
pub proof fn lemma_half()
    ensures
        Double::ratio(5, 10).finite(),
        !Double::ratio(5, 10).negative(),
        2 * Double::ratio(5, 10).value() == one(),
        Double::ratio(5, 10).value() > 0,
{
    reveal(Double::quotient);
    let below = (UNIT - 1) as nat;
    lemma_pow2_unfold(UNIT as nat);
    lemma_pow2_pos(below);
    let k = lemma_representable(1, below);
    assert(1 * pow2(below) == pow2(below));
    assert(5 * one() == magnitude(k) * 10);
    lemma_nearest_exact(5 * one(), 10, k);
    assert(Double::ratio(5, 10).index() == k);
}

/// Twice a half-sized number is exact.
pub proof fn lemma_product_double(half: Double)
    requires
        half.finite(),
        !half.negative(),
        2 * half.value() == one(),
    ensures
        (half * Double::ratio(2, 1)).value() == one(),
        (half * Double::ratio(2, 1)).finite(),
{
    let two = Double::ratio(2, 1);
    lemma_whole(2);
    lemma_whole(1);
    lemma_product(half, two);
    lemma_pow2_pos(UNIT as nat);
    let k = Double::ratio(1, 1).index();
    let h = magnitude(half.index());
    assert(h * (2 * one()) == magnitude(k) * one()) by (nonlinear_arith)
        requires
            2 * h == one(),
            magnitude(k) == one(),
    ;
    lemma_nearest_exact(h * (2 * one()), one(), k);
}

/// The value of a product of finite numbers is the exact product, rounded.
pub proof fn lemma_product(a: Double, b: Double)
    requires
        a.finite(),
        b.finite(),
    ensures
        !(a * b).nan(),
        (a * b).negative() == (a.negative() != b.negative()),
        (a * b).index() == nearest(magnitude(a.index()) * magnitude(b.index()), one()),
{
    reveal(Double::spec_mul);
    lemma_pow2_pos(UNIT as nat);
    lemma_rounding(
        a.negative() != b.negative(),
        magnitude(a.index()) * magnitude(b.index()),
        one(),
    );
}

/// A product with a factor of at most one is no larger than the other factor.
pub proof fn lemma_product_shrinks(a: Double, b: Double)
    requires
        a.finite(),
        b.finite(),
        -(one() as int) <= b.value() <= one(),
    ensures
        (a * b).finite(),
        distance((a * b).value()) <= distance(a.value()),
{
    let x = magnitude(a.index());
    let y = magnitude(b.index());
    lemma_product(a, b);
    lemma_pow2_pos(UNIT as nat);
    assert((x * y) * one() <= (x * one()) * one()) by (nonlinear_arith)
        requires
            y <= one(),
    ;
    lemma_nearest_monotone(x * y, one(), x * one(), one());
    lemma_nearest_exact(x * one(), one(), a.index());
    lemma_order((a * b).index(), a.index());
}

/// A product with a factor that is not negative keeps the order.
pub proof fn lemma_product_monotone(a1: Double, a2: Double, b: Double)
    requires
        a1.finite(),
        a2.finite(),
        b.finite(),
        a1 <= a2,
        !b.negative(),
    ensures
        a1 * b <= a2 * b,
        a1.value() >= 0 ==> (a1 * b).value() >= 0,
{
    lemma_product(a1, b);
    lemma_product(a2, b);
    lemma_order(0, a1.index());
    lemma_order(0, a2.index());
    lemma_pow2_pos(UNIT as nat);
    let x1 = magnitude(a1.index());
    let x2 = magnitude(a2.index());
    let y = magnitude(b.index());
    assert(0 * y == 0);
    assert(magnitude(0) * one() == 0) by (nonlinear_arith)
        requires
            magnitude(0) == 0,
    ;
    lemma_nearest_exact(0, one(), 0);
    if x1 <= x2 {
        assert((x1 * y) * one() <= (x2 * y) * one()) by (nonlinear_arith)
            requires
                x1 <= x2,
        ;
        lemma_nearest_monotone(x1 * y, one(), x2 * y, one());
        lemma_order((a1 * b).index(), (a2 * b).index());
    }
    if x2 <= x1 {
        assert((x2 * y) * one() <= (x1 * y) * one()) by (nonlinear_arith)
            requires
                x2 <= x1,
        ;
        lemma_nearest_monotone(x2 * y, one(), x1 * y, one());
        lemma_order((a2 * b).index(), (a1 * b).index());
    }
}

/// A product with zero is zero.
pub proof fn lemma_product_zero(a: Double, b: Double)
    requires
        a.finite(),
        b.finite(),
        a.value() == 0 || b.value() == 0,
    ensures
        (a * b).finite(),
        (a * b).value() == 0,
{
    let x = magnitude(a.index());
    let y = magnitude(b.index());
    lemma_product(a, b);
    lemma_pow2_pos(UNIT as nat);
    assert(x * y == 0 && magnitude(0) * one() == 0) by (nonlinear_arith)
        requires
            x == 0 || y == 0,
            magnitude(0) == 0,
    ;
    lemma_nearest_exact(0, one(), 0);
}

/// A product with a factor that is not negative has the sign of the other.
pub proof fn lemma_product_sign(a: Double, b: Double)
    requires
        a.finite(),
        b.finite(),
        b.value() >= 0,
    ensures
        !(a * b).nan(),
        a.value() >= 0 ==> (a * b).value() >= 0,
        a.value() <= 0 ==> (a * b).value() <= 0,
{
    lemma_product(a, b);
    lemma_order(0, a.index());
    lemma_order(0, b.index());
    if a.value() == 0 || b.value() == 0 {
        lemma_product_zero(a, b);
    }
}

/// Half of a rounded whole number of units is at most that number.
pub proof fn lemma_halfway(d: Double, x: nat)
    requires
        d.finite(),
        distance(d.value()) == near(x as int),
    ensures
        (d * Double::ratio(5, 10)).finite(),
        distance((d * Double::ratio(5, 10)).value()) <= x,
        d.value() >= 0 ==> (d * Double::ratio(5, 10)).value() >= 0,
        d.value() <= 0 ==> (d * Double::ratio(5, 10)).value() <= 0,
{
    let half = Double::ratio(5, 10);
    let h = d * half;
    let whole = magnitude(d.index());
    lemma_half();
    lemma_pow2_pos(UNIT as nat);
    lemma_product(d, half);
    lemma_product_shrinks(d, half);
    lemma_near_twice(x as int);
    lemma_order(0, d.index());
    let k = h.index();
    let n = whole * magnitude(half.index());
    lemma_nearest(n, one());
    if d.value() == 0 {
        lemma_product_zero(d, half);
    }
    if k > 0 {
        let down = magnitude((k - 1) as nat);
        let up = magnitude(k);
        assert(down + up <= whole) by (nonlinear_arith)
            requires
                one() * (down + up) <= 2 * n,
                n == whole * magnitude(half.index()),
                2 * magnitude(half.index()) == one(),
                one() > 0,
        ;
        lemma_order((k - 1) as nat, k);
        if up > x {
            let bound = Double::of(false, k);
            lemma_near_monotone(x as int, up as int);
            lemma_near_exact(bound);
            assert(down == 0);
            lemma_order(0, (k - 1) as nat);
            assert(magnitude(1) == 1);
            lemma_near_monotone(0, 0);
        }
    }
}

/// A power of two below one is exact.
pub proof fn lemma_power_ratio(d: u64, j: nat)
    requires
        d == pow2(j),
        j <= 63,
    ensures
        Double::ratio(1, d).finite(),
        !Double::ratio(1, d).negative(),
        Double::ratio(1, d).value() * d == one(),
        Double::ratio(1, d).value() > 0,
{
    reveal(Double::quotient);
    let below = (UNIT - j) as nat;
    lemma_pow2_adds(below, j);
    lemma_pow2_pos(below);
    lemma_pow2_pos(j);
    let k = lemma_representable(1, below);
    assert(1 * pow2(below) == pow2(below));
    assert(1 * one() == one());
    lemma_nearest_exact(one(), d as nat, k);
}

/// The value of a quotient of finite numbers is the exact quotient, rounded.
pub proof fn lemma_division(a: Double, b: Double)
    requires
        a.finite(),
        b.finite(),
        b.value() != 0,
    ensures
        !(a / b).nan(),
        (a / b).negative() == (a.negative() != b.negative()),
        (a / b).index() == nearest(magnitude(a.index()) * one(), magnitude(b.index())),
{
    reveal(Double::spec_euclidean_or_real_div);
    lemma_order(0, b.index());
    lemma_rounding(
        a.negative() != b.negative(),
        magnitude(a.index()) * one(),
        magnitude(b.index()),
    );
}

/// A number divided by a positive one is a number, with the sign of the first.
pub proof fn lemma_division_sign(a: Double, b: Double)
    requires
        !a.nan(),
        b.finite(),
        b.value() > 0,
    ensures
        !(a / b).nan(),
        a.value() <= 0 ==> (a / b).value() <= 0,
{
    lemma_order(0, a.index());
    lemma_order(0, b.index());
    if a.finite() {
        lemma_division(a, b);
        if a.value() == 0 {
            lemma_division_zero(a, b);
        }
    } else {
        reveal(Double::spec_euclidean_or_real_div);
    }
}

/// Dividing by a number that is positive keeps the order.
pub proof fn lemma_division_monotone(a1: Double, a2: Double, b: Double)
    requires
        a1.finite(),
        a2.finite(),
        b.finite(),
        a1 <= a2,
        b.value() > 0,
    ensures
        a1 / b <= a2 / b,
{
    lemma_division(a1, b);
    lemma_division(a2, b);
    lemma_order(0, a1.index());
    lemma_order(0, a2.index());
    lemma_order(0, b.index());
    let x1 = magnitude(a1.index());
    let x2 = magnitude(a2.index());
    let y = magnitude(b.index());
    if x1 <= x2 {
        assert((x1 * one()) * y <= (x2 * one()) * y) by (nonlinear_arith)
            requires
                x1 <= x2,
        ;
        lemma_nearest_monotone(x1 * one(), y, x2 * one(), y);
        lemma_order((a1 / b).index(), (a2 / b).index());
    }
    if x2 <= x1 {
        assert((x2 * one()) * y <= (x1 * one()) * y) by (nonlinear_arith)
            requires
                x2 <= x1,
        ;
        lemma_nearest_monotone(x2 * one(), y, x1 * one(), y);
        lemma_order((a2 / b).index(), (a1 / b).index());
    }
    if x1 == 0 || x2 == 0 {
        assert(0 * one() == 0 && magnitude(0) * y == 0) by (nonlinear_arith)
            requires
                magnitude(0) == 0,
        ;
        lemma_nearest_exact(0, y, 0);
    }
}

/// A number divided by itself is one.
pub proof fn lemma_division_self(b: Double)
    requires
        b.finite(),
        b.value() > 0,
    ensures
        (b / b).value() == one(),
        (b / b).finite(),
{
    lemma_division(b, b);
    lemma_order(0, b.index());
    lemma_whole(1);
    let y = magnitude(b.index());
    let k = Double::ratio(1, 1).index();
    assert(y * one() == magnitude(k) * y) by (nonlinear_arith)
        requires
            magnitude(k) == one(),
    ;
    lemma_nearest_exact(y * one(), y, k);
}

/// Zero divided by a positive number is zero.
pub proof fn lemma_division_zero(a: Double, b: Double)
    requires
        a.finite(),
        a.value() == 0,
        b.finite(),
        b.value() > 0,
    ensures
        (a / b).value() == 0,
        (a / b).finite(),
{
    lemma_division(a, b);
    lemma_order(0, a.index());
    lemma_order(0, b.index());
    let y = magnitude(b.index());
    assert(0 * one() == 0 && magnitude(0) * y == 0) by (nonlinear_arith)
        requires
            magnitude(0) == 0,
    ;
    lemma_nearest_exact(0, y, 0);
}

/// The square root of a number that is not negative is a number that is not
/// negative.
pub proof fn lemma_root_sign(a: Double)
    requires
        !a.nan(),
        a.value() >= 0,
    ensures
        !a.sqrt().nan(),
        a.sqrt().value() >= 0,
{
    reveal(Double::root);
    lemma_order(0, a.index());
    if 0 < a.index() < TOP {
        lemma_nearest_root(magnitude(a.index()) * one());
    }
}

/// A square is not negative.
pub proof fn lemma_square(a: Double)
    requires
        !a.nan(),
    ensures
        !(a * a).nan(),
        !(a * a).negative(),
        (a * a).value() >= 0,
{
    reveal(Double::spec_mul);
    if a.finite() {
        lemma_product(a, a);
    }
}

/// A sum of numbers that are not negative is not negative.
pub proof fn lemma_sum_sign(a: Double, b: Double)
    requires
        !a.nan(),
        !b.nan(),
        a.value() >= 0,
        b.value() >= 0,
    ensures
        !(a + b).nan(),
        (a + b).value() >= 0,
{
    lemma_order(0, a.index());
    lemma_order(0, b.index());
    if a.finite() && b.finite() {
        lemma_sum(a, b);
        lemma_near_monotone(a.value() + b.value(), a.value() + b.value());
    } else {
        reveal(Double::spec_add);
    }
}

/// A sum keeps the order of its first term.
pub proof fn lemma_sum_monotone(a1: Double, a2: Double, b: Double)
    requires
        a1.finite(),
        a2.finite(),
        b.finite(),
        a1 <= a2,
    ensures
        a1 + b <= a2 + b,
        b + a1 <= b + a2,
{
    lemma_sum(a1, b);
    lemma_sum(a2, b);
    lemma_sum(b, a1);
    lemma_sum(b, a2);
    lemma_near_monotone(a1.value() + b.value(), a2.value() + b.value());
}

} // verus!
