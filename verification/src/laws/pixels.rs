//! Places in the window, in millionths of a pixel: what a sum or a product of
//! lengths comes to, and by how much rounding can move it.
use crate::double::arith::UNIT;
use crate::double::errors::{
    close, lemma_large, lemma_near_error, lemma_over, lemma_product_error, lemma_times,
};
use crate::double::facts::{lemma_abs, lemma_bounded, lemma_difference, lemma_sum, lemma_whole, near, one};
use crate::double::grid::{magnitude, FRACTION};
use crate::double::number::{distance, Double};
use vstd::arithmetic::power2::lemma_pow2_pos;
use vstd::prelude::*;

verus! {

/// A length or a place of at most a million pixels.
pub open spec fn on_screen(x: Double) -> bool {
    x.finite() && distance(x.value()) <= 1_000_000 * one()
}

/// `x` is `r` millionths of a pixel, to `k` millionths of one.
pub open spec fn placed(x: Double, r: int, k: int) -> bool {
    on_screen(x) && distance(1_000_000 * x.value() - r) <= k * one()
}

/// `x` is `r` millionths of a pixel, to a thousandth of a pixel.
pub open spec fn stands_at(x: Double, r: int) -> bool {
    placed(x, r, 1000)
}

pub proof fn lemma_placed(x: Double)
    requires
        on_screen(x),
    ensures
        placed(x, 1_000_000 * x.value(), 0),
{
    lemma_pow2_pos(UNIT as nat);
    assert(0 * one() == 0);
}

pub proof fn lemma_coarser(x: Double, r: int, k: int, more: int)
    requires
        placed(x, r, k),
        k <= more,
    ensures
        placed(x, r, more),
{
    lemma_pow2_pos(UNIT as nat);
    assert(k * one() <= more * one()) by (nonlinear_arith)
        requires
            k <= more,
            one() >= 0,
    ;
}

proof fn lemma_placed_near(a: Double, x: int, r: int, k: int)
    requires
        !a.nan(),
        a.value() == near(x),
        distance(1_000_000 * x - r) <= k * one(),
        distance(x) <= 999_999 * one(),
    ensures
        placed(a, r, k + 1),
{
    lemma_pow2_pos(UNIT as nat);
    lemma_near_error(x);
    lemma_whole(1_000_000);
    lemma_abs(a);
    lemma_bounded(a.abs(), Double::ratio(1_000_000, 1));
    assert((k + 1) * one() == k * one() + one()) by (nonlinear_arith);
}

/// A sum.
pub proof fn lemma_placed_plus(a: Double, r: int, k: int, b: Double, s: int, l: int)
    requires
        placed(a, r, k),
        placed(b, s, l),
        distance(a.value()) <= 400_000 * one(),
        distance(b.value()) <= 400_000 * one(),
    ensures
        placed(a + b, r + s, k + l + 1),
        distance((a + b).value()) <= distance(a.value()) + distance(b.value()) + one(),
{
    lemma_pow2_pos(UNIT as nat);
    let x = a.value() + b.value();
    lemma_sum(a, b);
    assert((k + l) * one() == k * one() + l * one()) by (nonlinear_arith);
    lemma_placed_near(a + b, x, r + s, k + l);
    lemma_near_error(x);
}

/// A difference.
pub proof fn lemma_placed_minus(a: Double, r: int, k: int, b: Double, s: int, l: int)
    requires
        placed(a, r, k),
        placed(b, s, l),
        distance(a.value()) <= 400_000 * one(),
        distance(b.value()) <= 400_000 * one(),
    ensures
        placed(a - b, r - s, k + l + 1),
        distance((a - b).value()) <= distance(a.value()) + distance(b.value()) + one(),
{
    lemma_pow2_pos(UNIT as nat);
    let x = a.value() - b.value();
    lemma_difference(a, b);
    assert((k + l) * one() == k * one() + l * one()) by (nonlinear_arith);
    lemma_placed_near(a - b, x, r - s, k + l);
    lemma_near_error(x);
}

/// A part, or a small multiple, whatever the order of the factors.
pub proof fn lemma_placed_times(a: Double, r: int, k: int, n: u64, d: u64, s: int, l: int)
    requires
        placed(a, r, k),
        0 < n <= 4 * d,
        0 < d <= 1000,
        d * s == n * r,
        d * l >= n * (k + 1) + d,
        k >= 0,
        distance(a.value()) <= 200_000 * one(),
    ensures
        placed(a * Double::ratio(n, d), s, l),
        placed(Double::ratio(n, d) * a, s, l),
        n <= d ==> distance((a * Double::ratio(n, d)).value()) <= distance(a.value()) + one(),
        distance((a * Double::ratio(n, d)).value()) <= 4 * distance(a.value()) + one(),
{
    let o = one() as int;
    lemma_pow2_pos(UNIT as nat);
    lemma_large();
    lemma_times(a, n, d);
    let p = (a * Double::ratio(n, d)).value();
    lemma_part(o, a.value(), r, k, n as int, d as int, s, l, p);
}

/// A quotient.
pub proof fn lemma_placed_over(a: Double, r: int, k: int, n: u64, d: u64, s: int, l: int)
    requires
        placed(a, r, k),
        0 < d <= 4 * n,
        0 < n <= 1000,
        n <= 1_000_000 * d,
        n * s == d * r,
        n * l >= d * (k + 1) + n,
        k >= 0,
        distance(a.value()) <= 200_000 * one(),
    ensures
        placed(a / Double::ratio(n, d), s, l),
        d <= n ==> distance((a / Double::ratio(n, d)).value()) <= distance(a.value()) + one(),
        distance((a / Double::ratio(n, d)).value()) <= 4 * distance(a.value()) + one(),
{
    let o = one() as int;
    lemma_pow2_pos(UNIT as nat);
    lemma_large();
    lemma_over(a, n, d);
    let p = (a / Double::ratio(n, d)).value();
    lemma_part(o, a.value(), r, k, d as int, n as int, s, l, p);
}

proof fn lemma_part(o: int, x: int, r: int, k: int, n: int, d: int, s: int, l: int, p: int)
    requires
        o >= 1_000_000_000_000_000_000_000_000_000,
        0 < n <= 4 * d,
        0 < d <= 1000,
        d * s == n * r,
        d * l >= n * (k + 1) + d,
        k >= 0,
        distance(x) <= 200_000 * o,
        distance(1_000_000 * x - r) <= k * o,
        close(p, n, d, x),
    ensures
        distance(1_000_000 * p - s) <= l * o,
        n <= d ==> distance(p) <= distance(x) + o,
        distance(p) <= 4 * distance(x) + o,
        distance(p) <= 1_000_000 * o,
{
    let e = d * p - n * x;
    let g = 1_000_000 * x - r;
    let ax = distance(x) as int;
    assert(n * ax <= n * (200_000 * o) && n * ax <= 4 * (d * ax) && d * ax <= 1000 * ax && (n <= d ==> n * ax <= d * ax))
        by (nonlinear_arith)
        requires
            0 < n <= 4 * d,
            d <= 1000,
            0 <= ax <= 200_000 * o,
    ;
    let no = n * o;
    assert(n * (200_000 * o) == 200_000 * no && no >= o && no <= 4000 * o) by (nonlinear_arith)
        requires
            no == n * o,
            0 < n <= 4000,
            o > 0,
    ;
    assert(1_000_000_000_000 * distance(e) <= n * ax + 2_000_000_000_000 * d);
    assert(2_000_000 * distance(e) <= no);
    assert(d * (1_000_000 * p - s) == 1_000_000 * e + n * g) by (nonlinear_arith)
        requires
            e == d * p - n * x,
            g == 1_000_000 * x - r,
            d * s == n * r,
    ;
    assert(distance(n * g) <= n * (k * o)) by (nonlinear_arith)
        requires
            distance(g) <= k * o,
            n > 0,
    {
        assert(distance(n * g) == n * distance(g));
    }
    assert(n * (k * o) + no <= d * (l * o)) by (nonlinear_arith)
        requires
            d * l >= n * (k + 1) + d,
            no == n * o,
            d > 0,
            o > 0,
    {
        assert((d * l) * o >= (n * (k + 1)) * o);
    }
    let c = 1_000_000 * p - s;
    assert(distance(d * c) <= d * (l * o));
    assert(distance(c) <= l * o) by (nonlinear_arith)
        requires
            distance(d * c) <= d * (l * o),
            d > 0,
    {
        assert(distance(d * c) == d * distance(c));
    }
    let dp = d * p;
    assert(distance(dp) == d * distance(p)) by (nonlinear_arith)
        requires
            dp == d * p,
            d > 0,
    ;
    assert(distance(n * x) == n * ax) by (nonlinear_arith)
        requires
            ax == distance(x),
            n > 0,
    ;
    assert(d * distance(p) <= n * ax + no);
    assert(no <= 4 * (d * o)) by (nonlinear_arith)
        requires
            no == n * o,
            n <= 4 * d,
            o > 0,
    ;
    let q = distance(p) as int;
    assert(2_000_000 * (d * q) <= 2_000_000 * (n * ax) + no);
    assert(q <= 4 * ax + o && (n <= d ==> q <= ax + o)) by (nonlinear_arith)
        requires
            2_000_000 * (d * q) <= 2_000_000 * (n * ax) + no,
            no <= 4 * (d * o),
            n * ax <= 4 * (d * ax),
            n <= d ==> n * ax <= d * ax,
            d > 0,
            o > 0,
    {
        assert(d * q <= d * (4 * ax + o));
        if n <= d {
            assert(d * q <= d * (ax + o));
        }
    }
}

/// A point on a ray: a length times a cosine or a sine, to the right of or below a
/// place.
pub proof fn lemma_ray(c: Double, len: Double, r: int, k: int, f: Double)
    requires
        on_screen(c),
        distance(c.value()) <= 400_000 * one(),
        placed(len, r, k),
        0 <= k <= 100,
        distance(len.value()) <= 100_000 * one(),
        f.finite(),
        distance(f.value()) <= 2 * one(),
    ensures
        ({
            let o = one() as int;
            let p = len * f;
            &&& p.finite()
            &&& distance(p.value()) <= 200_001 * o
            &&& distance((1_000_000 * o) * (c + p).value() - ((1_000_000 * o) * c.value() + r * f.value())) <= (2 * k + 10)
                * (o * o)
            &&& distance((1_000_000 * o) * (c - p).value() - ((1_000_000 * o) * c.value() - r * f.value())) <= (2 * k + 10)
                * (o * o)
            &&& (c + p).finite() && (c - p).finite()
            &&& distance((c + p).value()) <= 700_000 * o && distance((c - p).value()) <= 700_000 * o
        }),
{
    let o = one() as int;
    let g = FRACTION as int;
    lemma_pow2_pos(UNIT as nat);
    lemma_large();
    let a = magnitude(len.index());
    let b = magnitude(f.index());
    let s = o * o;
    assert(a * b <= 200_000 * s && a * b <= (0x10_0000_0000_0000 * o) * o) by (nonlinear_arith)
        requires
            a <= 100_000 * o,
            b <= 2 * o,
            s == o * o,
            o > 0,
    ;
    lemma_product_error(len, f);
    let p = (len * f).value();
    let t = len.value() * f.value();
    assert(distance(t) == a * b) by (nonlinear_arith)
        requires
            t == len.value() * f.value(),
            len.value() == a || len.value() == -(a as int),
            f.value() == b || f.value() == -(b as int),
    ;
    assert(s >= 1_000_000_000_000_000_000 * o) by (nonlinear_arith)
        requires
            s == o * o,
            o >= 1_000_000_000_000_000_000_000_000_000,
    ;
    let e = distance(o * p - t) as int;
    assert(1_000_000_000 * e <= s) by (nonlinear_arith)
        requires
            (2 * g) * e <= a * b + (2 * g) * o,
            a * b <= 200_000 * s,
            g == 0x10_0000_0000_0000,
            s >= 1_000_000_000_000_000_000 * o,
            o > 0,
    ;
    assert(distance(p) <= 200_001 * o) by (nonlinear_arith)
        requires
            1_000_000_000 * distance(o * p - t) <= s,
            distance(t) <= 200_000 * s,
            s == o * o,
            o > 0,
    {
        assert(o * p <= o * (200_001 * o));
        assert(o * (-p) <= o * (200_001 * o));
    }
    // What the length is off by.
    let h = 1_000_000 * len.value() - r;
    assert(distance(1_000_000 * t - r * f.value()) <= (2 * k) * s) by (nonlinear_arith)
        requires
            distance(h) <= k * o,
            h == 1_000_000 * len.value() - r,
            t == len.value() * f.value(),
            distance(f.value()) <= 2 * o,
            s == o * o,
            k >= 0,
            o > 0,
    {
        assert(1_000_000 * t - r * f.value() == h * f.value());
        assert(distance(h * f.value()) == distance(h) * distance(f.value()));
        assert(distance(h) * distance(f.value()) <= (k * o) * (2 * o));
    }
    lemma_sum(c, len * f);
    lemma_difference(c, len * f);
    lemma_near_error(c.value() + p);
    lemma_near_error(c.value() - p);
    lemma_whole(700_000);
    lemma_abs(c + len * f);
    lemma_abs(c - len * f);
    lemma_bounded((c + len * f).abs(), Double::ratio(700_000, 1));
    lemma_bounded((c - len * f).abs(), Double::ratio(700_000, 1));
    lemma_on_ray(o, c.value(), p, t, r * f.value(), (c + len * f).value(), k);
    lemma_negated_on_ray(o, c.value(), p, t, r * f.value(), (c - len * f).value(), k);
}

proof fn lemma_on_ray(o: int, c: int, p: int, t: int, rf: int, x: int, k: int)
    requires
        o > 0,
        k >= 0,
        1_000_000_000 * distance(o * p - t) <= o * o,
        distance(1_000_000 * t - rf) <= (2 * k) * (o * o),
        1_000_000_000_000 * distance(x - (c + p)) <= distance(c + p),
        distance(c + p) <= 700_000 * o,
    ensures
        distance((1_000_000 * o) * x - ((1_000_000 * o) * c + rf)) <= (2 * k + 10) * (o * o),
{
    let s = o * o;
    let e1 = o * p - t;
    let e2 = 1_000_000 * t - rf;
    let e3 = x - (c + p);
    assert((1_000_000 * o) * x - ((1_000_000 * o) * c + rf) == 1_000_000 * (o * e3) + 1_000_000 * e1 + e2)
        by (nonlinear_arith)
        requires
            e1 == o * p - t,
            e2 == 1_000_000 * t - rf,
            e3 == x - (c + p),
    ;
    assert(1_000_000 * distance(o * e3) <= s) by (nonlinear_arith)
        requires
            1_000_000_000_000 * distance(e3) <= 700_000 * o,
            s == o * o,
            o > 0,
    {
        assert(distance(o * e3) == o * distance(e3));
        assert(o * (1_000_000_000_000 * distance(e3)) <= o * (700_000 * o));
    }
    assert((2 * k + 10) * s == (2 * k) * s + 10 * s) by (nonlinear_arith);
}

proof fn lemma_negated_on_ray(o: int, c: int, p: int, t: int, rf: int, x: int, k: int)
    requires
        o > 0,
        k >= 0,
        1_000_000_000 * distance(o * p - t) <= o * o,
        distance(1_000_000 * t - rf) <= (2 * k) * (o * o),
        1_000_000_000_000 * distance(x - (c - p)) <= distance(c - p),
        distance(c - p) <= 700_000 * o,
    ensures
        distance((1_000_000 * o) * x - ((1_000_000 * o) * c - rf)) <= (2 * k + 10) * (o * o),
{
    assert(o * (-p) == -(o * p)) by (nonlinear_arith);
    lemma_on_ray(o, c, -p, -t, -rf, x, k);
}

} // verus!
