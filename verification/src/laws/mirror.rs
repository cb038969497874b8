//! Readings with the opposite sign: of the accelerometer alone only magnitudes are
//! reported; together with the gyroscope, components with their sign.
use crate::accelerometer::{gravity_share, AccelAction, AccelEvent, AccelWatcher};
use crate::double::facts::{
    lemma_near_monotone, lemma_negated, lemma_product, lemma_product_zero, lemma_sum, near,
};
use crate::double::grid::{lemma_order, TOP};
use crate::double::number::Double;
use crate::imu::{ImuAction, ImuEvent, ImuWatcher};
use crate::sensor::{Reading, Vector};
use vstd::prelude::*;

verus! {

/// Two numbers with opposite values, or neither of them a number.
pub open spec fn opposite(a: Double, b: Double) -> bool {
    a.nan() == b.nan() && (!a.nan() ==> a.value() == -b.value())
}

pub open spec fn opposite_vectors(a: Vector, b: Vector) -> bool {
    opposite(a.x, b.x) && opposite(a.y, b.y) && opposite(a.z, b.z)
}

/// The same event, with the opposite reading.
pub open spec fn mirrored(event: AccelEvent) -> AccelEvent {
    match event {
        AccelEvent::Read(reading) => AccelEvent::Read(
            Reading {
                timestamp_us: reading.timestamp_us,
                raw: Vector { x: -reading.raw.x, y: -reading.raw.y, z: -reading.raw.z },
            },
        ),
        _ => event,
    }
}

pub open spec fn mirrored_run(events: Seq<AccelEvent>) -> Seq<AccelEvent> {
    Seq::new(events.len(), |i: int| mirrored(events[i]))
}

/// Everything that the accelerometer thread does in a run.
pub open spec fn actions(w: AccelWatcher, events: Seq<AccelEvent>) -> Seq<AccelAction>
    decreases events.len(),
{
    if events.len() == 0 {
        Seq::empty()
    } else {
        seq![w.next(events[0]).1] + actions(w.next(events[0]).0, events.drop_first())
    }
}

/// Opposite numbers have the same magnitude, and opposite signs unless they are zero.
pub(crate) proof fn lemma_opposite(a: Double, b: Double)
    requires
        opposite(a, b),
    ensures
        !a.nan() ==> a.index() == b.index(),
        !a.nan() && a.index() > 0 ==> a.negative() == !b.negative(),
        a.finite() == b.finite(),
        a.infinite() == b.infinite(),
{
    lemma_order(a.index(), b.index());
    lemma_order(0, a.index());
    lemma_order(0, b.index());
}

/// A product with the same factor keeps numbers opposite.
pub(crate) proof fn lemma_opposite_products(a: Double, b: Double, factor: Double)
    requires
        opposite(a, b),
    ensures
        opposite(a * factor, b * factor),
        opposite(factor * a, factor * b),
{
    lemma_opposite(a, b);
    reveal(Double::spec_mul);
    if a.finite() && factor.finite() {
        lemma_product(a, factor);
        lemma_product(b, factor);
        lemma_product(factor, a);
        lemma_product(factor, b);
        if a.index() == 0 {
            lemma_product_zero(a, factor);
            lemma_product_zero(b, factor);
            lemma_product_zero(factor, a);
            lemma_product_zero(factor, b);
        }
    }
}

/// Sums of opposite numbers are opposite.
pub(crate) proof fn lemma_opposite_sums(a1: Double, a2: Double, b1: Double, b2: Double)
    requires
        opposite(a1, b1),
        opposite(a2, b2),
    ensures
        opposite(a1 + a2, b1 + b2),
{
    lemma_opposite(a1, b1);
    lemma_opposite(a2, b2);
    if a1.finite() && a2.finite() {
        lemma_sum(a1, a2);
        lemma_sum(b1, b2);
        let x = a1.value() + a2.value();
        assert(b1.value() + b2.value() == -x);
        lemma_near_monotone(0, 0);
        assert(near(-x) == -near(x));
    } else {
        lemma_order(0, TOP as nat);
        reveal(Double::spec_add);
    }
}

pub(crate) proof fn lemma_opposite_differences(a1: Double, a2: Double, b1: Double, b2: Double)
    requires
        opposite(a1, b1),
        opposite(a2, b2),
    ensures
        opposite(a1 - a2, b1 - b2),
{
    lemma_negated(a2);
    lemma_negated(b2);
    lemma_opposite_sums(a1, -a2, b1, -b2);
}

/// Opposite numbers have the same square, to the last bit.
pub(crate) proof fn lemma_same_square(a: Double, b: Double)
    requires
        opposite(a, b),
    ensures
        a * a == b * b,
{
    lemma_opposite(a, b);
    reveal(Double::spec_mul);
}

proof fn lemma_scaled(a: Vector, b: Vector, factor: Double)
    requires
        opposite_vectors(a, b),
    ensures
        opposite_vectors(a.scaled(factor), b.scaled(factor)),
{
    lemma_opposite_products(a.x, b.x, factor);
    lemma_opposite_products(a.y, b.y, factor);
    lemma_opposite_products(a.z, b.z, factor);
}

proof fn lemma_filtered(alpha: Double, a1: Vector, a2: Vector, b1: Vector, b2: Vector)
    requires
        opposite_vectors(a1, b1),
        opposite_vectors(a2, b2),
    ensures
        opposite_vectors(a1.low_pass(alpha, a2), b1.low_pass(alpha, b2)),
{
    let rest = Double::ratio(1, 1) - alpha;
    lemma_opposite_products(a1.x, b1.x, alpha);
    lemma_opposite_products(a1.y, b1.y, alpha);
    lemma_opposite_products(a1.z, b1.z, alpha);
    lemma_opposite_products(a2.x, b2.x, rest);
    lemma_opposite_products(a2.y, b2.y, rest);
    lemma_opposite_products(a2.z, b2.z, rest);
    lemma_opposite_sums(alpha * a1.x, rest * a2.x, alpha * b1.x, rest * b2.x);
    lemma_opposite_sums(alpha * a1.y, rest * a2.y, alpha * b1.y, rest * b2.y);
    lemma_opposite_sums(alpha * a1.z, rest * a2.z, alpha * b1.z, rest * b2.z);
}

proof fn lemma_lengths(a1: Vector, a2: Vector, b1: Vector, b2: Vector)
    requires
        opposite_vectors(a1, b1),
        opposite_vectors(a2, b2),
    ensures
        a1.without(a2).norm() == b1.without(b2).norm(),
{
    lemma_opposite_differences(a1.x, a2.x, b1.x, b2.x);
    lemma_opposite_differences(a1.y, a2.y, b1.y, b2.y);
    lemma_opposite_differences(a1.z, a2.z, b1.z, b2.z);
    lemma_same_square(a1.x - a2.x, b1.x - b2.x);
    lemma_same_square(a1.y - a2.y, b1.y - b2.y);
    lemma_same_square(a1.z - a2.z, b1.z - b2.z);
}

/// The same course, with opposite estimates of gravity.
spec fn reflects(a: AccelWatcher, b: AccelWatcher) -> bool {
    &&& a.phase == b.phase
    &&& a.gravity is Some == b.gravity is Some
    &&& a.gravity is Some ==> opposite_vectors(a.gravity->0, b.gravity->0)
}

proof fn lemma_step(a: AccelWatcher, b: AccelWatcher, event: AccelEvent)
    requires
        reflects(a, b),
    ensures
        a.next(event).1 == b.next(mirrored(event)).1,
        reflects(a.next(event).0, b.next(mirrored(event)).0),
{
    if let AccelEvent::Read(reading) = event {
        let other = mirrored(event)->Read_0;
        lemma_negated(reading.raw.x);
        lemma_negated(reading.raw.y);
        lemma_negated(reading.raw.z);
        lemma_scaled(reading.raw, other.raw, Double::ratio(981, 100) / Double::ratio(1000, 1));
        let t1 = reading.acceleration();
        let t2 = other.acceleration();
        if a.gravity is Some {
            let g1 = a.gravity->0;
            let g2 = b.gravity->0;
            lemma_filtered(gravity_share(), g1, t1, g2, t2);
            lemma_lengths(t1, g1.low_pass(gravity_share(), t1), t2, g2.low_pass(gravity_share(), t2));
        }
    }
}

proof fn lemma_actions(a: AccelWatcher, b: AccelWatcher, events: Seq<AccelEvent>)
    requires
        reflects(a, b),
    ensures
        actions(a, events) == actions(b, mirrored_run(events)),
    decreases events.len(),
{
    if events.len() > 0 {
        let rest = events.drop_first();
        let others = mirrored_run(events);
        assert(others[0] == mirrored(events[0]));
        assert(others.drop_first() =~= mirrored_run(rest));
        lemma_step(a, b, events[0]);
        lemma_actions(a.next(events[0]).0, b.next(others[0]).0, rest);
    }
}

/// A run in which every reading is negated does the same, and sends the same
/// updates, to the last bit: only the magnitude of what is left without gravity
/// is reported.
pub proof fn opposite_readings_give_the_same_updates(events: Seq<AccelEvent>)
    ensures
        actions(AccelWatcher::start(), mirrored_run(events)) == actions(AccelWatcher::start(), events),
{
    lemma_actions(AccelWatcher::start(), AccelWatcher::start(), events);
}

/// The same event of the sensor thread, with the opposite reading.
pub open spec fn imu_mirrored(event: ImuEvent) -> ImuEvent {
    match event {
        ImuEvent::Read(reading) => ImuEvent::Read(
            Reading {
                timestamp_us: reading.timestamp_us,
                raw: Vector { x: -reading.raw.x, y: -reading.raw.y, z: -reading.raw.z },
            },
        ),
        _ => event,
    }
}

pub open spec fn imu_mirrored_run(events: Seq<ImuEvent>) -> Seq<ImuEvent> {
    Seq::new(events.len(), |i: int| imu_mirrored(events[i]))
}

/// Everything that the sensor thread does in a run.
pub open spec fn imu_actions(w: ImuWatcher, events: Seq<ImuEvent>) -> Seq<ImuAction>
    decreases events.len(),
{
    if events.len() == 0 {
        Seq::empty()
    } else {
        seq![w.next(events[0]).1] + imu_actions(w.next(events[0]).0, events.drop_first())
    }
}

/// The same action; of a sample, the same one with opposite components.
pub open spec fn imu_opposite(a: ImuAction, b: ImuAction) -> bool {
    match a {
        ImuAction::Send(one) => {
            let other = b->Send_0;
            &&& b is Send
            &&& other.timestamp_us == one.timestamp_us
            &&& other.linear_ms2 == one.linear_ms2
            &&& other.gyro_rads == one.gyro_rads
            &&& opposite(one.accel_x_ms2, other.accel_x_ms2)
            &&& opposite(one.accel_y_ms2, other.accel_y_ms2)
            &&& opposite(one.accel_z_ms2, other.accel_z_ms2)
        },
        _ => a == b,
    }
}

spec fn imu_reflects(a: ImuWatcher, b: ImuWatcher) -> bool {
    &&& a.phase == b.phase
    &&& a.has_gyro == b.has_gyro
    &&& a.last_accel_ts == b.last_accel_ts
    &&& a.rate == b.rate
    &&& a.gravity is Some == b.gravity is Some
    &&& a.gravity is Some ==> opposite_vectors(a.gravity->0, b.gravity->0)
}

proof fn lemma_imu_step(a: ImuWatcher, b: ImuWatcher, event: ImuEvent)
    requires
        imu_reflects(a, b),
    ensures
        imu_opposite(a.next(event).1, b.next(imu_mirrored(event)).1),
        imu_reflects(a.next(event).0, b.next(imu_mirrored(event)).0),
{
    if let ImuEvent::Read(reading) = event {
        let other = imu_mirrored(event)->Read_0;
        lemma_negated(reading.raw.x);
        lemma_negated(reading.raw.y);
        lemma_negated(reading.raw.z);
        let factor = Double::ratio(3_141_592_653_589_793, 1_000_000_000_000_000) / Double::ratio(180_000, 1);
        lemma_scaled(reading.raw, other.raw, factor);
        let r1 = reading.raw.scaled(factor);
        let r2 = other.raw.scaled(factor);
        lemma_same_square(r1.x, r2.x);
        lemma_same_square(r1.y, r2.y);
        lemma_same_square(r1.z, r2.z);
        lemma_scaled(reading.raw, other.raw, Double::ratio(981, 100) / Double::ratio(1000, 1));
        let t1 = reading.acceleration();
        let t2 = other.acceleration();
        if a.gravity is Some {
            let share = crate::imu::gravity_share();
            let g1 = a.gravity->0.low_pass(share, t1);
            let g2 = b.gravity->0.low_pass(share, t2);
            lemma_filtered(share, a.gravity->0, t1, b.gravity->0, t2);
            lemma_lengths(t1, g1, t2, g2);
            lemma_opposite_differences(t1.x, g1.x, t2.x, g2.x);
            lemma_opposite_differences(t1.y, g1.y, t2.y, g2.y);
            lemma_opposite_differences(t1.z, g1.z, t2.z, g2.z);
        }
    }
}

proof fn lemma_imu_actions(a: ImuWatcher, b: ImuWatcher, events: Seq<ImuEvent>, i: int)
    requires
        imu_reflects(a, b),
        0 <= i < events.len(),
    ensures
        imu_actions(a, events).len() == events.len(),
        imu_actions(b, imu_mirrored_run(events)).len() == events.len(),
        imu_opposite(imu_actions(a, events)[i], imu_actions(b, imu_mirrored_run(events))[i]),
    decreases events.len(),
{
    reveal_with_fuel(imu_actions, 2);
    let rest = events.drop_first();
    let others = imu_mirrored_run(events);
    assert(others[0] == imu_mirrored(events[0]));
    assert(others.drop_first() =~= imu_mirrored_run(rest));
    lemma_imu_step(a, b, events[0]);
    if rest.len() > 0 {
        let j = if i == 0 {
            0
        } else {
            i - 1
        };
        lemma_imu_actions(a.next(events[0]).0, b.next(others[0]).0, rest, j);
    }
}

/// A run of the sensor thread in which every reading is negated does the same,
/// and sends the same samples with every component negated: the magnitude, the
/// rate of turning and the time stay as they are.
pub proof fn opposite_readings_give_opposite_samples(events: Seq<ImuEvent>, i: int)
    requires
        0 <= i < events.len(),
    ensures
        ({
            let a = imu_actions(ImuWatcher::start(), events);
            let b = imu_actions(ImuWatcher::start(), imu_mirrored_run(events));
            &&& a.len() == events.len() && b.len() == events.len()
            &&& imu_opposite(a[i], b[i])
        }),
{
    lemma_imu_actions(ImuWatcher::start(), ImuWatcher::start(), events, i);
}

} // verus!
