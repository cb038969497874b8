//! Laws of the rate of turning, over the numbers that the gyroscope reports.
use crate::double::arith::UNIT;
use crate::double::errors::{
    lemma_below_limit, lemma_large, lemma_length_error, lemma_product_error, lemma_ratio_error, lemma_rounding_error,
};
use crate::double::facts::{lemma_division, lemma_whole, one};
use crate::double::grid::{lemma_order, magnitude, FRACTION};
use crate::double::number::{distance, Double};
use crate::imu::{ImuAction, ImuEvent, ImuPhase, ImuWatcher};
use crate::sensor::{Reading, Sensor};
use vstd::arithmetic::power2::lemma_pow2_pos;
use vstd::prelude::*;

verus! {

/// Half a turn in radians, times ten to the power of 15.
pub open spec fn half_turn() -> int {
    3_141_592_653_589_793
}

/// Half a turn in thousandths of a degree, times ten to the power of 15.
pub open spec fn half_turn_reported() -> int {
    180_000_000_000_000_000_000
}

spec fn unit_rads() -> Double {
    Double::ratio(3_141_592_653_589_793, 1_000_000_000_000_000) / Double::ratio(180_000, 1)
}

proof fn lemma_unit_rads()
    ensures
        unit_rads().finite(),
        unit_rads().value() >= 0,
        10_000_000_000_000 * distance(half_turn_reported() * unit_rads().value() - half_turn() * one()) <= half_turn()
            * one(),
{
    let g = Double::ratio(3_141_592_653_589_793, 1_000_000_000_000_000);
    let k = Double::ratio(180_000, 1);
    let c = unit_rads();
    let f = FRACTION as int;
    let o = one() as int;
    lemma_pow2_pos(UNIT as nat);
    lemma_large();
    lemma_ratio_error(3_141_592_653_589_793, 1_000_000_000_000_000);
    lemma_whole(180_000);
    lemma_division(g, k);
    let x = magnitude(g.index()) as int;
    let n = (x * o) as nat;
    let d = (180_000 * o) as nat;
    assert(x * o >= 0 && x * o <= (0x10_0000_0000_0000 * o) * (180_000 * o)) by (nonlinear_arith)
        requires
            0 <= x <= 1_000_001 * o,
            o > 0,
    ;
    lemma_below_limit(n, d);
    lemma_rounding_error(n, d);
    let v = magnitude(c.index()) as int;
    assert((2 * f) * distance(180_000 * v - x) <= x + 360_000 * f) by (nonlinear_arith)
        requires
            (2 * f) * distance(d * v - n) <= n + (2 * f) * d,
            n == x * o,
            d == 180_000 * o,
            o > 0,
            f > 0,
    {
        assert(d * v - n == o * (180_000 * v - x));
        assert(distance(o * (180_000 * v - x)) == o * distance(180_000 * v - x));
        assert((2 * f) * (o * distance(180_000 * v - x)) == o * ((2 * f) * distance(180_000 * v - x)));
        assert(n + (2 * f) * d == o * (x + 360_000 * f));
    }
    lemma_order(0, c.index());
    lemma_unit_chain(o, f, x, v);
}

proof fn lemma_unit_chain(o: int, f: int, x: int, v: int)
    requires
        f == 0x10_0000_0000_0000,
        o >= 1_000_000_000_000_000_000_000_000_000,
        x >= 0,
        (2 * f) * distance(180_000 * v - x) <= x + 360_000 * f,
        f * distance(1_000_000_000_000_000 * x - 3_141_592_653_589_793 * o) <= 3_141_592_653_589_793 * o
            + 1_000_000_000_000_000 * f,
    ensures
        10_000_000_000_000 * distance(half_turn_reported() * v - half_turn() * o) <= half_turn() * o,
{
    let a = distance(180_000 * v - x) as int;
    let b = distance(1_000_000_000_000_000 * x - 3_141_592_653_589_793 * o) as int;
    assert(9_000_000_000_000_000 * a <= x + 360_000 * 0x10_0000_0000_0000 && 4_500_000_000_000_000 * b
        <= 3_141_592_653_589_793 * o + 1_000_000_000_000_000 * 0x10_0000_0000_0000) by (nonlinear_arith)
        requires
            (2 * f) * a <= x + 360_000 * f,
            f * b <= 3_141_592_653_589_793 * o + 1_000_000_000_000_000 * f,
            f == 0x10_0000_0000_0000,
            a >= 0,
            b >= 0,
    ;
    assert(distance(half_turn_reported() * v - half_turn() * o) <= 1_000_000_000_000_000 * a + b);
}

/// A reading in rad/s.
proof fn lemma_turned(raw: Double)
    requires
        raw.finite(),
        distance(raw.value()) <= 10_000_000 * one(),
    ensures
        ({
            let t = raw * unit_rads();
            let e = half_turn_reported() * t.value() - half_turn() * raw.value();
            &&& t.finite()
            &&& distance(t.value()) <= 1_000_000 * one()
            &&& 1_000_000_000_000 * distance(e) <= half_turn() * distance(raw.value()) + 2_000_000_000_000
                * half_turn_reported()
        }),
{
    let c = unit_rads();
    let o = one() as int;
    let f = FRACTION as int;
    lemma_pow2_pos(UNIT as nat);
    lemma_large();
    lemma_unit_rads();
    lemma_order(0, c.index());
    let a = magnitude(raw.index()) as int;
    let v = c.value();
    assert(1_000 * v <= o);
    assert(a * v <= 10_000 * (o * o) && a * v <= (0x10_0000_0000_0000 * o) * o && a * v >= 0) by (nonlinear_arith)
        requires
            0 <= a <= 10_000_000 * o,
            0 <= 1_000 * v <= o,
            o > 0,
    {
        assert(a * (1_000 * v) <= (10_000_000 * o) * o);
    }
    lemma_product_error(raw, c);
    let t = (raw * c).value();
    let x = raw.value();
    lemma_turned_chain(o, f, x, v, t);
}

proof fn lemma_turned_chain(o: int, f: int, x: int, v: int, t: int)
    requires
        f == 0x10_0000_0000_0000,
        f == FRACTION,
        o == one(),
        o >= 1_000_000_000_000_000_000_000_000_000,
        distance(x) <= 10_000_000 * o,
        0 <= 1000 * v <= o,
        (2 * FRACTION) * distance(o * t - x * v) <= distance(x * v) + (2 * FRACTION) * o,
        10_000_000_000_000 * distance(half_turn_reported() * v - half_turn() * o) <= half_turn() * o,
    ensures
        distance(t) <= 1_000_000 * o,
        1_000_000_000_000 * distance(half_turn_reported() * t - half_turn() * x) <= half_turn() * distance(x)
            + 2_000_000_000_000 * half_turn_reported(),
{
    let ax = distance(x) as int;
    let k = half_turn_reported();
    let n = half_turn();
    let xv = x * v;
    let s = ax * v;
    let axo = ax * o;
    assert(distance(xv) == s && s >= 0 && 1000 * s <= axo) by (nonlinear_arith)
        requires
            xv == x * v,
            s == ax * v,
            ax == distance(x),
            0 <= 1000 * v <= o,
            axo == ax * o,
    ;
    let e1 = o * t - xv;
    assert(9_000_000_000_000_000 * distance(e1) <= s + 10_000_000_000_000_000 * o) by (nonlinear_arith)
        requires
            (2 * f) * distance(e1) <= s + (2 * f) * o,
            s >= 0,
            o > 0,
            f == 0x10_0000_0000_0000,
    ;
    let e2 = k * v - n * o;
    let w = x * e2;
    assert(10_000_000_000_000 * distance(w) <= n * axo) by (nonlinear_arith)
        requires
            10_000_000_000_000 * distance(e2) <= n * o,
            w == x * e2,
            ax == distance(x),
            axo == ax * o,
            n > 0,
    {
        assert(distance(w) == ax * distance(e2));
        assert(ax * (10_000_000_000_000 * distance(e2)) <= ax * (n * o));
        assert(ax * (n * o) == n * axo);
    }
    assert(k * s <= 2 * (n * axo)) by (nonlinear_arith)
        requires
            10_000_000_000_000 * (k * v - n * o) <= n * o,
            s == ax * v,
            axo == ax * o,
            ax >= 0,
            n > 0,
            o > 0,
    {
        assert(k * v <= 2 * (n * o));
        assert(ax * (k * v) <= ax * (2 * (n * o)));
    }
    let gap = k * t - n * x;
    assert(o * gap == k * e1 + w) by (nonlinear_arith)
        requires
            gap == k * t - n * x,
            e1 == o * t - xv,
            xv == x * v,
            w == x * e2,
            e2 == k * v - n * o,
    ;
    let z = n * axo;
    assert(1_000_000_000_000 * distance(o * gap) <= z + 1_000_000_000_000 * (k * o) + 1_000_000_000_000 * (k * o));
    assert(1_000_000_000_000 * distance(gap) <= n * ax + 2_000_000_000_000 * k) by (nonlinear_arith)
        requires
            1_000_000_000_000 * distance(o * gap) <= z + 2_000_000_000_000 * (k * o),
            z == n * axo,
            axo == ax * o,
            o > 0,
    {
        assert(distance(o * gap) == o * distance(gap));
        assert(o * (1_000_000_000_000 * distance(gap)) <= o * (n * ax + 2_000_000_000_000 * k));
    }
}

/// Squares of close numbers are close.
proof fn lemma_squared(o: int, x: int, t: int)
    requires
        o >= 1_000_000_000_000_000_000_000_000_000,
        distance(x) <= 10_000_000 * o,
        1_000_000_000_000 * distance(half_turn_reported() * t - half_turn() * x) <= half_turn() * distance(x)
            + 2_000_000_000_000 * half_turn_reported(),
    ensures
        ({
            let k2 = half_turn_reported() * half_turn_reported();
            let n2 = half_turn() * half_turn();
            &&& 100_000_000_000 * distance(k2 * (t * t) - n2 * (x * x)) <= n2 * (x * x) + 1_000_000_000_000_000 * (k2 * o)
            &&& x * x >= 0 && t * t >= 0
        }),
{
    let k = half_turn_reported();
    let n = half_turn();
    let a = k * t;
    let b = n * x;
    let bb = n * (distance(x) as int);
    let e = distance(a - b) as int;
    assert(distance(b) == bb && bb <= n * (10_000_000 * o)) by (nonlinear_arith)
        requires
            b == n * x,
            bb == n * distance(x),
            distance(x) <= 10_000_000 * o,
            n > 0,
    ;
    let m: int = 1_000_000_000_000;
    assert((k * k) * (t * t) == a * a && (n * n) * (x * x) == b * b && x * x >= 0 && t * t >= 0) by (nonlinear_arith)
        requires
            a == k * t,
            b == n * x,
    ;
    assert(distance(a * a - b * b) <= e * (2 * bb + e)) by (nonlinear_arith)
        requires
            e == distance(a - b),
            bb == distance(b),
    {
        assert(a * a - b * b == (a - b) * (a + b));
        assert(distance((a - b) * (a + b)) == e * distance(a + b));
        assert(distance(a + b) <= 2 * bb + e);
    }
    let s = bb * bb;
    assert(s == b * b) by (nonlinear_arith)
        requires
            s == bb * bb,
            bb == distance(b),
    ;
    // Each factor of the bound is at most a trillionth of the number, plus two units.
    let q = bb + 2 * (m * k);
    assert(m * (e * (2 * bb + e)) <= q * (2 * bb + e)) by (nonlinear_arith)
        requires
            m * e <= q,
            bb >= 0,
            e >= 0,
    ;
    assert(m * (q * (2 * bb + e)) <= q * (2 * (m * bb) + q)) by (nonlinear_arith)
        requires
            m * e <= q,
            q >= 0,
    ;
    let mk = m * k;
    assert(q * (2 * (m * bb) + q) == (2 * m + 1) * s + (4 * m + 4) * (mk * bb) + 4 * (mk * mk)) by (nonlinear_arith)
        requires
            q == bb + 2 * mk,
            s == bb * bb,
    ;
    let ko = (k * k) * o;
    assert(mk * bb <= 1_000_000_000_000_000 * ko) by (nonlinear_arith)
        requires
            mk == m * k,
            m == 1_000_000_000_000,
            bb <= n * (10_000_000 * o),
            k == 180_000_000_000_000_000_000,
            n == 3_141_592_653_589_793,
            ko == (k * k) * o,
            o > 0,
    {
        assert(mk * bb <= mk * (n * (10_000_000 * o)));
        assert(mk * (n * (10_000_000 * o)) == (m * n * 10_000_000) * (k * o));
        assert(ko == k * (k * o));
    }
    assert(mk * mk <= ko) by (nonlinear_arith)
        requires
            mk == m * k,
            m == 1_000_000_000_000,
            ko == (k * k) * o,
            o >= 1_000_000_000_000_000_000_000_000_000,
            k > 0,
    {
        assert(mk * mk == (m * m) * (k * k));
    }
    let ee = e * (2 * bb + e);
    let q1 = q * (2 * bb + e);
    let q2 = q * (2 * (m * bb) + q);
    let x1 = mk * bb;
    let x2 = mk * mk;
    assert(q2 == 2_000_000_000_001 * s + 4_000_000_000_004 * x1 + 4 * x2);
    assert(1_000_000_000_000 * ee <= q1);
    assert(1_000_000_000_000 * q1 <= q2);
    assert(s >= 0) by (nonlinear_arith)
        requires
            s == bb * bb,
    ;
    lemma_small(ee, q1, q2, s, x1, x2, ko);
}

proof fn lemma_small(e: int, q1: int, q2: int, s: int, x1: int, x2: int, ko: int)
    requires
        1_000_000_000_000 * e <= q1,
        1_000_000_000_000 * q1 <= q2,
        q2 == 2_000_000_000_001 * s + 4_000_000_000_004 * x1 + 4 * x2,
        x1 <= 1_000_000_000_000_000 * ko,
        x2 <= ko,
        0 <= s,
        0 <= ko,
    ensures
        100_000_000_000 * e <= s + 1_000_000_000_000_000 * ko,
{
}

/// The rate of turning is the length of what the gyroscope reports, in radians per
/// second: a turn by half a circle is 3.141592653589793 where 180 000 thousandths
/// of a degree are reported. This is stated of the squares.
pub proof fn turn_rate_is_the_length_in_radians(reading: Reading)
    requires
        reading.raw.x.finite(),
        reading.raw.y.finite(),
        reading.raw.z.finite(),
        distance(reading.raw.x.value()) <= 10_000_000 * one(),
        distance(reading.raw.y.value()) <= 10_000_000 * one(),
        distance(reading.raw.z.value()) <= 10_000_000 * one(),
    ensures
        ({
            let x = reading.raw.x.value();
            let y = reading.raw.y.value();
            let z = reading.raw.z.value();
            let v = reading.turn_rate().value();
            let k2 = half_turn_reported() * half_turn_reported();
            let n2 = half_turn() * half_turn();
            let n = n2 * (x * x + y * y + z * z);
            &&& reading.turn_rate().finite()
            &&& v >= 0
            &&& 10_000_000_000 * distance(k2 * (v * v) - n) <= n + 1_000_000_000_000_000 * (k2 * one())
        }),
{
    let o = one() as int;
    let raw = reading.raw;
    let tx = raw.x * unit_rads();
    let ty = raw.y * unit_rads();
    let tz = raw.z * unit_rads();
    lemma_pow2_pos(UNIT as nat);
    lemma_large();
    lemma_turned(raw.x);
    lemma_turned(raw.y);
    lemma_turned(raw.z);
    lemma_squared(o, raw.x.value(), tx.value());
    lemma_squared(o, raw.y.value(), ty.value());
    lemma_squared(o, raw.z.value(), tz.value());
    lemma_length_error(tx, ty, tz);
    let v = reading.turn_rate().value();
    let k2 = half_turn_reported() * half_turn_reported();
    let n2 = half_turn() * half_turn();
    let x2 = raw.x.value() * raw.x.value();
    let y2 = raw.y.value() * raw.y.value();
    let z2 = raw.z.value() * raw.z.value();
    let a2 = tx.value() * tx.value();
    let b2 = ty.value() * ty.value();
    let c2 = tz.value() * tz.value();
    lemma_rate_sum(o, v * v, a2, b2, c2, x2, y2, z2);
}

proof fn lemma_rate_sum(o: int, vv: int, a2: int, b2: int, c2: int, x2: int, y2: int, z2: int)
    requires
        o > 0,
        0 <= a2,
        0 <= b2,
        0 <= c2,
        0 <= x2,
        0 <= y2,
        0 <= z2,
        100_000_000_000 * distance(vv - (a2 + b2 + c2)) <= a2 + b2 + c2 + 1_000_000_000_000 * o,
        ({
            let k2 = half_turn_reported() * half_turn_reported();
            let n2 = half_turn() * half_turn();
            &&& 100_000_000_000 * distance(k2 * a2 - n2 * x2) <= n2 * x2 + 1_000_000_000_000_000 * (k2 * o)
            &&& 100_000_000_000 * distance(k2 * b2 - n2 * y2) <= n2 * y2 + 1_000_000_000_000_000 * (k2 * o)
            &&& 100_000_000_000 * distance(k2 * c2 - n2 * z2) <= n2 * z2 + 1_000_000_000_000_000 * (k2 * o)
        }),
    ensures
        ({
            let k2 = half_turn_reported() * half_turn_reported();
            let n2 = half_turn() * half_turn();
            let n = n2 * (x2 + y2 + z2);
            10_000_000_000 * distance(k2 * vv - n) <= n + 1_000_000_000_000_000 * (k2 * o)
        }),
{
    let k2 = half_turn_reported() * half_turn_reported();
    let n2 = half_turn() * half_turn();
    assert(n2 * (x2 + y2 + z2) == n2 * x2 + n2 * y2 + n2 * z2) by (nonlinear_arith);
    let s = a2 + b2 + c2;
    assert(k2 * s == k2 * a2 + k2 * b2 + k2 * c2) by (nonlinear_arith)
        requires
            s == a2 + b2 + c2,
    ;
    assert(100_000_000_000 * distance(k2 * vv - k2 * s) <= k2 * s + 1_000_000_000_000 * (k2 * o)) by (nonlinear_arith)
        requires
            100_000_000_000 * distance(vv - s) <= s + 1_000_000_000_000 * o,
            k2 > 0,
    {
        assert(k2 * vv - k2 * s == k2 * (vv - s));
        assert(distance(k2 * (vv - s)) == k2 * distance(vv - s));
        assert(k2 * (100_000_000_000 * distance(vv - s)) <= k2 * (s + 1_000_000_000_000 * o));
    }
    assert(k2 * o > 0) by (nonlinear_arith)
        requires
            k2 > 0,
            o > 0,
    ;
    lemma_rate_total(k2 * o, k2 * vv, k2 * a2, k2 * b2, k2 * c2, n2 * x2, n2 * y2, n2 * z2);
}

proof fn lemma_rate_total(ko: int, v: int, a: int, b: int, c: int, x: int, y: int, z: int)
    requires
        0 < ko,
        0 <= x,
        0 <= y,
        0 <= z,
        100_000_000_000 * distance(v - (a + b + c)) <= a + b + c + 1_000_000_000_000 * ko,
        100_000_000_000 * distance(a - x) <= x + 1_000_000_000_000_000 * ko,
        100_000_000_000 * distance(b - y) <= y + 1_000_000_000_000_000 * ko,
        100_000_000_000 * distance(c - z) <= z + 1_000_000_000_000_000 * ko,
    ensures
        10_000_000_000 * distance(v - (x + y + z)) <= x + y + z + 1_000_000_000_000_000 * ko,
{
}

/// A gyroscope sample gives the rate of turning for the sample of the accelerometer
/// that is polled right after it, and stays in force until the next one.
pub proof fn samples_carry_the_latest_turn_rate(w: ImuWatcher, gyro: Reading, accel: Reading)
    requires
        w.phase is PollingGyro,
    ensures
        ({
            let (turned, first) = w.next(ImuEvent::Read(gyro));
            let (after, second) = turned.next(ImuEvent::Read(accel));
            &&& first == ImuAction::Poll(Sensor::Accelerometer)
            &&& turned.phase == ImuPhase::PollingAccel(gyro.turn_rate())
            &&& second matches ImuAction::Send(sample) ==> sample.gyro_rads == gyro.turn_rate()
            &&& after.rate == gyro.turn_rate()
        }),
{
}

} // verus!
