//! Laws of where the parts of the dial are drawn, to a thousandth of a pixel.
use crate::canvas::{Command, Text};
use crate::dial::{
    dial, face, majors_of, needle, readout, scale_label, scale_marks, tick, tick_count, ticks, DialRays,
    Ray, MINOR_STEP,
};
use crate::double::arith::UNIT;
use crate::double::errors::lemma_ratio_error;
use crate::double::facts::one;
use crate::double::number::{distance, Double};
use crate::laws::pixels::{
    lemma_coarser, lemma_placed, lemma_placed_minus, lemma_placed_plus, lemma_placed_times, lemma_ray,
    placed, stands_at,
};
use crate::laws::texts::is_colour;
use vstd::arithmetic::power2::lemma_pow2_pos;
use vstd::prelude::*;

verus! {

/// A place or a length of at most a hundred thousand pixels.
pub open spec fn on_paper(x: Double) -> bool {
    x.finite() && distance(x.value()) <= 100_000 * one()
}

/// The cosine and the sine of an angle, or something not much larger.
pub open spec fn is_ray(ray: Ray) -> bool {
    &&& ray.cos.finite() && distance(ray.cos.value()) <= 2 * one()
    &&& ray.sin.finite() && distance(ray.sin.value()) <= 2 * one()
}

/// `x` is the place that lies `n` millionths of the size from `c` in the direction
/// that `f` is the cosine or the sine of, to a thousandth of a pixel.
pub open spec fn on_the_ray(x: Double, c: Double, size: Double, n: int, f: Double) -> bool {
    let o = one() as int;
    x.finite() && distance(
        (1_000_000 * o) * x.value() - ((1_000_000 * o) * c.value() + (n * size.value()) * f.value()),
    ) <= 1000 * (o * o)
}

/// A length that is placed, laid off on a ray.
proof fn lemma_laid_off(c: Double, len: Double, size: Double, n: int, k: int, f: Double)
    requires
        on_paper(c),
        placed(len, n * size.value(), k),
        0 <= k <= 100,
        on_paper(len),
        f.finite(),
        distance(f.value()) <= 2 * one(),
    ensures
        on_the_ray(c + len * f, c, size, n, f),
        on_the_ray(c - len * f, c, size, -n, f),
{
    let o = one() as int;
    let r = n * size.value();
    lemma_pow2_pos(UNIT as nat);
    lemma_ray(c, len, r, k, f);
    assert((2 * k + 10) * (o * o) <= 1000 * (o * o)) by (nonlinear_arith)
        requires
            0 <= k <= 100,
            o > 0,
    ;
    assert((-n * size.value()) * f.value() == -(r * f.value())) by (nonlinear_arith)
        requires
            r == n * size.value(),
    ;
}

/// The needle reaches from 0.0756 of the size behind the middle to 0.3696 of the
/// size before it, in its direction. It is red with a fix and grey without one, and
/// it turns around the middle of the dial.
pub proof fn needle_lies_on_its_ray(
    speed: Double,
    has_fix: bool,
    use_mph: bool,
    rays: DialRays,
    cx: Double,
    cy: Double,
    size: Double,
)
    requires
        on_paper(cx),
        on_paper(cy),
        on_paper(size),
        is_ray(rays.needle),
    ensures
        ({
            let out = dial(speed, has_fix, use_mph, rays, cx, cy, size);
            let n = out.len() as int;
            let ray = rays.needle;
            &&& out[n - 17] is MoveTo && out[n - 16] is LineTo && out[n - 15] is Stroke
            &&& on_the_ray(out[n - 17]->MoveTo_x, cx, size, -75_600, ray.cos)
            &&& on_the_ray(out[n - 17]->MoveTo_y, cy, size, -75_600, ray.sin)
            &&& on_the_ray(out[n - 16]->LineTo_x, cx, size, 369_600, ray.cos)
            &&& on_the_ray(out[n - 16]->LineTo_y, cy, size, 369_600, ray.sin)
            &&& has_fix ==> is_colour(out[n - 19], 92, 22, 22)
            &&& !has_fix ==> is_colour(out[n - 19], 55, 55, 55)
            &&& out[n - 14] is Circle && out[n - 14]->Circle_x == cx && out[n - 14]->Circle_y == cy
        }),
{
    let out = dial(speed, has_fix, use_mph, rays, cx, cy, size);
    let n = out.len() as int;
    let s = size.value();
    let part = needle(has_fix, rays.needle, cx, cy, size);
    lemma_pow2_pos(UNIT as nat);
    lemma_placed(size);
    lemma_placed_times(size, 1_000_000 * s, 0, 42, 100, 420_000 * s, 2);
    let r = size * Double::ratio(42, 100);
    lemma_placed_times(r, 420_000 * s, 2, 18, 100, 75_600 * s, 4);
    lemma_placed_times(r, 420_000 * s, 2, 88, 100, 369_600 * s, 4);
    let tail = r * Double::ratio(18, 100);
    let tip = r * Double::ratio(88, 100);
    assert(on_paper(tail) && on_paper(tip)) by {
        lemma_short(tail, 75_600, s, 4);
        lemma_short(tip, 369_600, s, 4);
    }
    lemma_laid_off(cx, tail, size, 75_600, 4, rays.needle.cos);
    lemma_laid_off(cy, tail, size, 75_600, 4, rays.needle.sin);
    lemma_laid_off(cx, tip, size, 369_600, 4, rays.needle.cos);
    lemma_laid_off(cy, tip, size, 369_600, 4, rays.needle.sin);
    lemma_ratio_error(92, 100);
    lemma_ratio_error(22, 100);
    lemma_ratio_error(55, 100);
    assert(part.len() == 17);
    assert(readout(speed, has_fix, use_mph, cx, cy, size).len() == 8);
    assert(out[n - 17] == part[8]);
    assert(out[n - 16] == part[9]);
    assert(out[n - 15] == part[10]);
    assert(out[n - 19] == part[6]);
    assert(out[n - 14] == part[11]);
}

/// A part of at most one half of the size is short.
proof fn lemma_short(x: Double, n: int, s: int, k: int)
    requires
        placed(x, n * s, k),
        0 <= n <= 500_000,
        0 <= k <= 100,
        distance(s) <= 100_000 * one(),
    ensures
        on_paper(x),
{
    let o = one() as int;
    lemma_pow2_pos(UNIT as nat);
    assert(distance(n * s) <= 500_000 * (100_000 * o)) by (nonlinear_arith)
        requires
            0 <= n <= 500_000,
            distance(s) <= 100_000 * o,
            o > 0,
    {
        assert(distance(n * s) == n * distance(s));
    }
    assert(k * o <= 100 * o) by (nonlinear_arith)
        requires
            k <= 100,
            o > 0,
    ;
}

/// The disc and the track around the middle: a disc of 0.4656, and a track on an
/// arc of 0.42 of the size, 0.038 of it wide.
pub proof fn face_is_round(speed: Double, use_mph: bool, cx: Double, cy: Double, size: Double)
    requires
        on_paper(size),
    ensures
        ({
            let out = face(speed, use_mph, cx, cy, size);
            let s = size.value();
            &&& out[0] is Circle && out[0]->Circle_x == cx && out[0]->Circle_y == cy
            &&& stands_at(out[0]->Circle_radius, 465_600 * s)
            &&& out[4] is LineWidth && stands_at(out[4]->LineWidth_0, 38_000 * s)
            &&& out[5] is Arc && stands_at(out[5]->Arc_radius, 420_000 * s)
        }),
{
    let s = size.value();
    let r = size * Double::ratio(42, 100);
    let track = size * Double::ratio(38, 1000);
    let rim = track * Double::ratio(12, 10);
    lemma_pow2_pos(UNIT as nat);
    lemma_placed(size);
    lemma_placed_times(size, 1_000_000 * s, 0, 42, 100, 420_000 * s, 2);
    lemma_placed_times(size, 1_000_000 * s, 0, 38, 1000, 38_000 * s, 2);
    lemma_short(track, 38_000, s, 2);
    lemma_placed_times(track, 38_000 * s, 2, 12, 10, 45_600 * s, 5);
    lemma_short(rim, 45_600, s, 5);
    lemma_placed_plus(r, 420_000 * s, 2, rim, 45_600 * s, 5);
    lemma_coarser(r + rim, 465_600 * s, 8, 1000);
    lemma_coarser(r, 420_000 * s, 2, 1000);
    lemma_coarser(track, 38_000 * s, 2, 1000);
}

/// The digits stand 0.22 of the size below the middle, and the unit 0.075 of it
/// further down.
pub proof fn digits_stand_below_the_middle(
    speed: Double,
    has_fix: bool,
    use_mph: bool,
    rays: DialRays,
    cx: Double,
    cy: Double,
    size: Double,
)
    requires
        on_paper(cy),
        on_paper(size),
    ensures
        ({
            let out = dial(speed, has_fix, use_mph, rays, cx, cy, size);
            let n = out.len() as int;
            let m = 1_000_000 * cy.value();
            let s = size.value();
            &&& out[n - 5] is Caption && out[n - 1] is Caption
            &&& out[n - 5]->Caption_x == cx && out[n - 1]->Caption_x == cx
            &&& stands_at(out[n - 5]->Caption_y, m + 220_000 * s)
            &&& stands_at(out[n - 1]->Caption_y, m + 295_000 * s)
            &&& out[n - 7] is FontSize && stands_at(out[n - 7]->FontSize_0, 160_000 * s)
            &&& out[n - 3] is FontSize && stands_at(out[n - 3]->FontSize_0, 55_000 * s)
        }),
{
    let out = dial(speed, has_fix, use_mph, rays, cx, cy, size);
    let n = out.len() as int;
    let tail = readout(speed, has_fix, use_mph, cx, cy, size);
    let m = 1_000_000 * cy.value();
    let s = size.value();
    lemma_pow2_pos(UNIT as nat);
    lemma_placed(size);
    lemma_placed(cy);
    lemma_placed_times(size, 1_000_000 * s, 0, 22, 100, 220_000 * s, 2);
    lemma_placed_times(size, 1_000_000 * s, 0, 75, 1000, 75_000 * s, 2);
    lemma_placed_times(size, 1_000_000 * s, 0, 16, 100, 160_000 * s, 2);
    lemma_placed_times(size, 1_000_000 * s, 0, 55, 1000, 55_000 * s, 2);
    let a = size * Double::ratio(22, 100);
    let b = size * Double::ratio(75, 1000);
    lemma_placed_plus(cy, m, 0, a, 220_000 * s, 2);
    lemma_placed_plus(cy + a, m + 220_000 * s, 3, b, 75_000 * s, 2);
    lemma_coarser(cy + a, m + 220_000 * s, 3, 1000);
    lemma_coarser(cy + a + b, m + 295_000 * s, 6, 1000);
    lemma_coarser(size * Double::ratio(16, 100), 160_000 * s, 2, 1000);
    lemma_coarser(size * Double::ratio(55, 1000), 55_000 * s, 2, 1000);
    assert(out[n - 5] == tail[3]);
    assert(out[n - 1] == tail[7]);
    assert(out[n - 7] == tail[1]);
    assert(out[n - 3] == tail[5]);
}

/// The ticks come one after the other, five commands each.
pub(crate) proof fn lemma_ticks(n: nat, rays: Seq<Ray>, use_mph: bool, cx: Double, cy: Double, size: Double, i: int)
    requires
        0 <= i < n,
    ensures
        ticks(n, rays, use_mph, cx, cy, size).len() == 5 * n,
        forall|k: int|
            0 <= k < 5 ==> #[trigger] ticks(n, rays, use_mph, cx, cy, size)[5 * i + k] == tick(
                i,
                rays[i],
                use_mph,
                cx,
                cy,
                size,
            )[k],
    decreases n,
{
    reveal_with_fuel(ticks, 2);
    if i < n - 1 {
        lemma_ticks((n - 1) as nat, rays, use_mph, cx, cy, size, i);
    } else if n > 1 {
        lemma_ticks((n - 1) as nat, rays, use_mph, cx, cy, size, n - 2);
    }
}

/// The tick of every tenth km/h or mph lies on its ray, from the circle of 0.42 of
/// the size inwards, and is longer at the labelled speeds: every fortieth km/h and
/// every twentieth mph.
pub proof fn ticks_lie_on_their_rays(i: int, rays: Seq<Ray>, use_mph: bool, cx: Double, cy: Double, size: Double)
    requires
        0 <= i < tick_count(use_mph),
        rays.len() == tick_count(use_mph),
        is_ray(rays[i]),
        on_paper(cx),
        on_paper(cy),
        on_paper(size),
    ensures
        ({
            let out = scale_marks(rays, use_mph, cx, cy, size);
            let ray = rays[i];
            let from = out[5 * i + 3];
            let to = out[5 * i + 4];
            let long = if use_mph {
                i % 2 == 0
            } else {
                i % 4 == 0
            };
            let depth = if long {
                355_000int
            } else {
                382_000
            };
            &&& from is MoveTo && to is LineTo && out[5 * i + 5] is Stroke
            &&& on_the_ray(from->MoveTo_x, cx, size, depth, ray.cos)
            &&& on_the_ray(from->MoveTo_y, cy, size, depth, ray.sin)
            &&& on_the_ray(to->LineTo_x, cx, size, 420_000, ray.cos)
            &&& on_the_ray(to->LineTo_y, cy, size, 420_000, ray.sin)
        }),
{
    lemma_tick_places(cx, size, rays[i].cos);
    lemma_tick_places(cy, size, rays[i].sin);
    lemma_tick_commands(i, rays, use_mph, cx, cy, size);
}

/// Where a tick starts and ends along one axis.
proof fn lemma_tick_places(c: Double, size: Double, f: Double)
    requires
        on_paper(c),
        on_paper(size),
        f.finite(),
        distance(f.value()) <= 2 * one(),
    ensures
        ({
            let r = size * Double::ratio(42, 100);
            &&& on_the_ray(c + r * f, c, size, 420_000, f)
            &&& on_the_ray(c + (r - size * Double::ratio(65, 1000)) * f, c, size, 355_000, f)
            &&& on_the_ray(c + (r - size * Double::ratio(38, 1000)) * f, c, size, 382_000, f)
            &&& on_the_ray(c + (r - size * Double::ratio(14, 100)) * f, c, size, 280_000, f)
        }),
{
    lemma_inner(c, size, 65, 1000, 65_000, f);
    lemma_inner(c, size, 38, 1000, 38_000, f);
    lemma_inner(c, size, 14, 100, 140_000, f);
}

/// A place on a ray, some part of the size inside the circle.
proof fn lemma_inner(c: Double, size: Double, n: u64, d: u64, m: int, f: Double)
    requires
        on_paper(c),
        on_paper(size),
        0 < n <= d <= 1000,
        d * m == 1_000_000 * n,
        0 <= m <= 400_000,
        f.finite(),
        distance(f.value()) <= 2 * one(),
    ensures
        ({
            let r = size * Double::ratio(42, 100);
            &&& on_the_ray(c + r * f, c, size, 420_000, f)
            &&& on_the_ray(c + (r - size * Double::ratio(n, d)) * f, c, size, 420_000 - m, f)
        }),
{
    let s = size.value();
    let r = size * Double::ratio(42, 100);
    let a = size * Double::ratio(n, d);
    lemma_pow2_pos(UNIT as nat);
    lemma_placed(size);
    lemma_placed_times(size, 1_000_000 * s, 0, 42, 100, 420_000 * s, 2);
    assert(d * (m * s) == n * (1_000_000 * s) && (420_000 - m) * s == 420_000 * s - m * s && d * 2 >= n * (0 + 1) + d)
        by (nonlinear_arith)
        requires
            d * m == 1_000_000 * n,
            n <= d,
    ;
    lemma_placed_times(size, 1_000_000 * s, 0, n, d, m * s, 2);
    lemma_placed_minus(r, 420_000 * s, 2, a, m * s, 2);
    lemma_short(r, 420_000, s, 2);
    lemma_short(r - a, 420_000 - m, s, 5);
    lemma_laid_off(c, r, size, 420_000, 2, f);
    lemma_laid_off(c, r - a, size, 420_000 - m, 5, f);
}

/// The commands of one tick within the scale.
proof fn lemma_tick_commands(i: int, rays: Seq<Ray>, use_mph: bool, cx: Double, cy: Double, size: Double)
    requires
        0 <= i < tick_count(use_mph),
    ensures
        ({
            let out = scale_marks(rays, use_mph, cx, cy, size);
            let r = size * Double::ratio(42, 100);
            let long = if use_mph {
                i % 2 == 0
            } else {
                i % 4 == 0
            };
            let inner = if long {
                r - size * Double::ratio(65, 1000)
            } else {
                r - size * Double::ratio(38, 1000)
            };
            &&& out[5 * i + 3] == (Command::MoveTo { x: cx + inner * rays[i].cos, y: cy + inner * rays[i].sin })
            &&& out[5 * i + 4] == (Command::LineTo { x: cx + r * rays[i].cos, y: cy + r * rays[i].sin })
            &&& out[5 * i + 5] is Stroke
        }),
{
    let out = scale_marks(rays, use_mph, cx, cy, size);
    let n = tick_count(use_mph);
    let all = ticks(n, rays, use_mph, cx, cy, size);
    let part = tick(i, rays[i], use_mph, cx, cy, size);
    lemma_ticks(n, rays, use_mph, cx, cy, size, i);
    assert(out[5 * i + 3] == all[5 * i + 2]);
    assert(out[5 * i + 4] == all[5 * i + 3]);
    assert(out[5 * i + 5] == all[5 * i + 4]);
    assert(all[5 * i + 2] == part[2]);
    assert(all[5 * i + 3] == part[3]);
    assert(all[5 * i + 4] == part[4]);
    lemma_majors(i, use_mph);
    assert(i * MINOR_STEP == i * 10);
}

/// Which ticks are long.
pub(crate) proof fn lemma_majors(i: int, use_mph: bool)
    requires
        0 <= i < tick_count(use_mph),
    ensures
        majors_of(use_mph).contains((i * 10) as u64) <==> (if use_mph {
            i % 2 == 0
        } else {
            i % 4 == 0
        }),
{
    let all = majors_of(use_mph);
    let v = (i * 10) as u64;
    if use_mph {
        if i % 2 == 0 {
            assert(all[i / 2] == v);
        }
    } else {
        if i % 4 == 0 {
            assert(all[i / 4] == v);
        }
    }
}

/// The labels show every fortieth km/h or every twentieth mph, each at 0.28 of the
/// size on the ray of its own tick.
pub proof fn labels_lie_on_their_rays(j: int, rays: Seq<Ray>, use_mph: bool, cx: Double, cy: Double, size: Double)
    requires
        rays.len() == tick_count(use_mph),
        on_paper(cx),
        on_paper(cy),
        on_paper(size),
        0 <= j < (if use_mph {
            7int
        } else {
            6
        }),
        is_ray(
            rays[if use_mph {
                2 * j
            } else {
                4 * j
            }],
        ),
    ensures
        ({
            let out = scale_marks(rays, use_mph, cx, cy, size);
            let count = if use_mph {
                7int
            } else {
                6
            };
            let at = if use_mph {
                2 * j
            } else {
                4 * j
            };
            let label = out[out.len() - count + j];
            &&& label is Label
            &&& label->Label_text == (Text::Count { before: "", value: (10 * at) as i64, after: "" })
            &&& on_the_ray(label->Label_x, cx, size, 280_000, rays[at].cos)
            &&& on_the_ray(label->Label_y, cy, size, 280_000, rays[at].sin)
        }),
{
    let at = if use_mph {
        2 * j
    } else {
        4 * j
    };
    lemma_tick_places(cx, size, rays[at].cos);
    lemma_tick_places(cy, size, rays[at].sin);
    lemma_label_commands(j, at, rays, use_mph, cx, cy, size);
}

/// The command of one label within the scale.
proof fn lemma_label_commands(j: int, at: int, rays: Seq<Ray>, use_mph: bool, cx: Double, cy: Double, size: Double)
    requires
        0 <= j < (if use_mph {
            7int
        } else {
            6
        }),
        at == (if use_mph {
            2 * j
        } else {
            4 * j
        }),
    ensures
        ({
            let out = scale_marks(rays, use_mph, cx, cy, size);
            let count = if use_mph {
                7int
            } else {
                6
            };
            out[out.len() - count + j] == scale_label((10 * at) as u64, rays, cx, cy, size)
        }),
{
    let out = scale_marks(rays, use_mph, cx, cy, size);
    let labels = majors_of(use_mph).map_values(|v: u64| scale_label(v, rays, cx, cy, size));
    assert(labels.len() == majors_of(use_mph).len());
    assert(majors_of(use_mph)[j] == 10 * at);
    assert(labels[j] == scale_label((10 * at) as u64, rays, cx, cy, size));
    assert(out[out.len() - labels.len() + j] == labels[j]);
}

/// The dial is the face, the marks of the scale, the needle and the digits, in this
/// order: later ones cover earlier ones.
pub proof fn dial_is_drawn_in_order(
    speed: Double,
    has_fix: bool,
    use_mph: bool,
    rays: DialRays,
    cx: Double,
    cy: Double,
    size: Double,
)
    ensures
        ({
            let out = dial(speed, has_fix, use_mph, rays, cx, cy, size);
            let a = face(speed, use_mph, cx, cy, size);
            let b = scale_marks(rays.ticks@, use_mph, cx, cy, size);
            &&& out.len() == a.len() + b.len() + 25
            &&& out.subrange(0, a.len() as int) == a
            &&& out.subrange(a.len() as int, (a.len() + b.len()) as int) == b
        }),
{
    let out = dial(speed, has_fix, use_mph, rays, cx, cy, size);
    let a = face(speed, use_mph, cx, cy, size);
    let b = scale_marks(rays.ticks@, use_mph, cx, cy, size);
    assert(needle(has_fix, rays.needle, cx, cy, size).len() == 17);
    assert(readout(speed, has_fix, use_mph, cx, cy, size).len() == 8);
    assert(out.subrange(0, a.len() as int) =~= a);
    assert(out.subrange(a.len() as int, (a.len() + b.len()) as int) =~= b);
}

} // verus!
