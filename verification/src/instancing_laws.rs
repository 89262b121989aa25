//! Where copies come to lie.
use glam::{DAffine2, DVec2};
use vstd::prelude::*;

use crate::exact::{
    lemma_after, lemma_cancel, lemma_factors, lemma_four_factors, lemma_less, lemma_quotient, lemma_spread, lemma_still, lemma_times, Exact, Frame, Pair,
};
use crate::geometry::{
    composition, linear_part_of, negation, number_of, offset_in, pi, product, quotient, radians_of, reciprocal_of, rotation_of, splat_of, sum, tau,
    transformed_point, translation_of, vector_of, zero,
};
use crate::instancing::{
    around_itself, circular_angle, circular_transforms, mirror_transform, mirrored, reflection_of, repeat_angle, repeat_transform,
    row_transforms, PointsRow, Pose, RandomPlacement,
};

verus! {

/// What a frame does to vectors without a coordinate.
proof fn lemma_turn_zero(frame: Frame)
    ensures
        frame.turn(Pair::both(0 as real)) == Pair::both(0 as real),
        frame.take(Pair::both(0 as real)) == frame.origin,
{
    reveal(Frame::turn);
}

/// A copy is placed about where its row is: the transform moves the row's origin by its own, and turns the row as a
/// transform of the row would.
pub proof fn a_copy_is_placed_about_its_row(exact: Exact, row: DAffine2, transform: DAffine2, v: Pair)
    requires
        exact.wf(),
    ensures
        (exact.frame)(around_itself(row, transform)).origin == (exact.frame)(row).origin.plus((exact.frame)(transform).origin),
        (exact.frame)(around_itself(row, transform)).turn(v) == (exact.frame)(transform).turn((exact.frame)(row).turn(v)),
{
    let t = (exact.frame)(transform);
    let r = (exact.frame)(row);
    let shift = translation_of(offset_in(row));
    let s = (exact.frame)(shift);
    let flat = Frame { origin: Pair::both(0 as real), ..r };
    assert(s == (Frame { origin: r.origin, ..Frame::still() }));
    assert((exact.frame)(linear_part_of(row)) == flat);
    lemma_turn_zero(s.after(t));
    assert(flat.turn(v) == r.turn(v)) by {
        reveal(Frame::turn);
    }
    lemma_after(s.after(t), flat, v);
    lemma_after(s, t, r.turn(v));
    assert(s.turn(t.turn(r.turn(v))) == t.turn(r.turn(v))) by {
        reveal(Frame::turn);
        lemma_still(t.turn(r.turn(v)));
    }
    assert(s.turn(t.origin) == t.origin) by {
        reveal(Frame::turn);
        lemma_still(t.origin);
    }
}

/// A share of a vector, by the number of shares.
proof fn lemma_share(exact: Exact, vector: DVec2, count: nat, index: int)
    requires
        exact.wf(),
        1 < count <= u32::MAX,
        0 <= index < count,
    ensures
        ({
            let share = exact.of(quotient(product(number_of(index as u64), vector), number_of((count - 1) as u64)));
            &&& share.scaled((count - 1) as real) == exact.of(vector).scaled(index as real)
            &&& index == 0 ==> share.is_zero()
            &&& index == count - 1 ==> share == exact.of(vector)
        }),
{
    let n = (count - 1) as real;
    let i = index as real;
    let d = exact.of(vector);
    assert(exact.is_number(number_of((count - 1) as u64), n));
    assert(exact.is_number(number_of(index as u64), i));
    lemma_quotient(i * d.x, n);
    lemma_quotient(i * d.y, n);
    lemma_factors(i, d.x, n);
    lemma_factors(i, d.y, n);
    let f = exact.of(quotient(product(number_of(index as u64), vector), number_of((count - 1) as u64)));
    if index == 0 {
        lemma_cancel(f.x, 0 as real, n);
        lemma_cancel(f.y, 0 as real, n);
    }
    if index == count - 1 {
        lemma_cancel(f.x, d.x, n);
        lemma_cancel(f.y, d.y, n);
    }
}

/// The copies of a row are spread evenly: where none is turned, the first stays where the row is, the last is moved by the
/// whole direction, and each by as much more as the one before. A copy that is turned has moved as far, turned about the
/// row.
pub proof fn repeated_copies_are_spread_evenly(exact: Exact, direction: DVec2, turn: DVec2, count: nat, index: int)
    requires
        exact.wf(),
        1 < count <= u32::MAX,
        0 <= index < count,
    ensures
        ({
            let found = (exact.frame)(repeat_transform(direction, turn, count, index));
            let d = exact.of(direction);
            let t = exact.of(turn);
            &&& found.turn(Pair { x: 1 as real, y: 0 as real }) == t
            &&& found.turn(Pair { x: 0 as real, y: 1 as real }) == t.turned()
            &&& found.origin.scaled((count - 1) as real) == t.scaled(d.x).plus(t.turned().scaled(d.y)).scaled(index as real)
            &&& index == 0 ==> found.origin.is_zero()
            &&& index == count - 1 ==> found.origin == t.scaled(d.x).plus(t.turned().scaled(d.y))
        }),
{
    let shift = quotient(product(number_of(index as u64), direction), number_of((count - 1) as u64));
    lemma_share(exact, direction, count, index);
    lemma_turned_shift(exact, turn, shift);
    let (n, i) = ((count - 1) as real, index as real);
    let (f, d, t) = (exact.of(shift), exact.of(direction), exact.of(turn));
    lemma_scaled_turn(t.x, -t.y, f, d, n, i);
    lemma_scaled_turn(t.y, t.x, f, d, n, i);
}

/// One coordinate of a turned vector that is scaled.
proof fn lemma_scaled_turn(a: real, b: real, f: Pair, d: Pair, n: real, i: real)
    requires
        f.scaled(n) == d.scaled(i),
    ensures
        (a * f.x + b * f.y) * n == (a * d.x + b * d.y) * i,
{
    lemma_spread(n, a * f.x, b * f.y);
    lemma_spread(i, a * d.x, b * d.y);
    lemma_factors(a, f.x, n);
    lemma_factors(b, f.y, n);
    lemma_factors(a, d.x, i);
    lemma_factors(b, d.y, i);
}

/// The turns of the copies of a row are spread evenly: from none at the first to the whole angle at the last.
pub proof fn repeated_turns_are_spread_evenly(exact: Exact, angle: DVec2, count: nat, index: int)
    requires
        exact.wf(),
        1 < count <= u32::MAX,
        0 <= index < count,
    ensures
        exact.of(repeat_angle(angle, count, index)).scaled((count - 1) as real) == exact.of(radians_of(angle)).scaled(index as real),
        index == 0 ==> exact.of(repeat_angle(angle, count, index)).is_zero(),
        index == count - 1 ==> exact.of(repeat_angle(angle, count, index)) == exact.of(radians_of(angle)),
{
    lemma_share(exact, radians_of(angle), count, index);
}

/// A half turn has 180 degrees.
pub proof fn a_half_turn_in_degrees(exact: Exact, degrees: DVec2, n: real)
    requires
        exact.wf(),
        exact.is_number(degrees, n),
    ensures
        exact.of(radians_of(degrees)).scaled(180 as real) == exact.of(pi()).scaled(n),
{
    let p = exact.of(pi());
    assert(exact.is_number(splat_of(180), (180 as i32) as real));
    let k = 180 as real;
    lemma_quotient(p.x, k);
    lemma_quotient(p.y, k);
    lemma_factors(n, p.x / k, k);
    lemma_factors(n, p.y / k, k);
    lemma_factors(n, p.x, k);
    lemma_factors(n, p.y, k);
}

/// What a turn makes of a vector is as long.
proof fn lemma_turned_length(turn: Pair, v: Pair)
    requires
        turn.is_unit(),
    ensures
        ({
            let found = turn.scaled(v.x).plus(turn.turned().scaled(v.y));
            found.dot(found) == v.dot(v)
        }),
{
    let (c, s, x, y) = (turn.x, turn.y, v.x, v.y);
    let (p, q) = (c * x + (-s) * y, s * x + c * y);
    lemma_squares(c, s, x, y);
    lemma_times(c * c + s * s, 1 as real, x * x + y * y);
}

proof fn lemma_squares(c: real, s: real, x: real, y: real)
    ensures
        (c * x + (-s) * y) * (c * x + (-s) * y) + (s * x + c * y) * (s * x + c * y) == (c * c + s * s) * (x * x + y * y),
{
    let (a, b, d, e) = (c * x, s * y, s * x, c * y);
    lemma_less(s, s, y);
    lemma_less(a, b, a - b);
    lemma_less(a, b, a);
    lemma_less(a, b, b);
    lemma_factors(a, b, b);
    lemma_spread(d + e, d, e);
    lemma_spread(d, d, e);
    lemma_spread(e, d, e);
    lemma_factors(d, e, e);
    lemma_four_factors(c, x, s, y);
    lemma_four_factors(s, x, c, y);
    lemma_factors(c, s, s);
    lemma_four_factors(c, x, c, x);
    lemma_four_factors(s, y, s, y);
    lemma_four_factors(s, x, s, x);
    lemma_four_factors(c, y, c, y);
    lemma_spread(x * x + y * y, c * c, s * s);
    lemma_spread(c * c, x * x, y * y);
    lemma_spread(s * s, x * x, y * y);
}

proof fn lemma_turned_shift(exact: Exact, turn: DVec2, shift: DVec2)
    requires
        exact.wf(),
    ensures
        ({
            let found = (exact.frame)(composition(rotation_of(turn), translation_of(shift)));
            &&& found.turn(Pair { x: 1 as real, y: 0 as real }) == exact.of(turn)
            &&& found.turn(Pair { x: 0 as real, y: 1 as real }) == exact.of(turn).turned()
            &&& found.origin == exact.of(turn).scaled(exact.of(shift).x).plus(exact.of(turn).turned().scaled(exact.of(shift).y))
            &&& exact.of(turn).is_unit() ==> found.origin.dot(found.origin) == exact.of(shift).dot(exact.of(shift))
        }),
{
    let outer = (exact.frame)(rotation_of(turn));
    let inner = (exact.frame)(translation_of(shift));
    assert(outer == (Frame { x_axis: exact.of(turn), y_axis: exact.of(turn).turned(), origin: Pair::both(0 as real) }));
    reveal(Frame::turn);
    let found = outer.after(inner);
    lemma_still(exact.of(shift));
    if exact.of(turn).is_unit() {
        lemma_turned_length(exact.of(turn), exact.of(shift));
    }
}

/// Copies on a circle are all as far from the row as the radius.
pub proof fn circular_copies_are_on_the_circle(exact: Exact, row: DAffine2, radius: DVec2, turns: Seq<DVec2>, i: int, r: real)
    requires
        exact.wf(),
        0 <= i < turns.len(),
        exact.is_number(radius, r),
        exact.of(turns[i]).is_unit(),
    ensures
        ({
            let away = (exact.frame)(around_itself(row, circular_transforms(radius, turns)[i])).origin.minus((exact.frame)(row).origin);
            &&& away.dot(away) == r * r
            &&& away == exact.of(turns[i]).turned().scaled(r)
        }),
{
    let transform = circular_transforms(radius, turns)[i];
    a_copy_is_placed_about_its_row(exact, row, transform, Pair::both(0 as real));
    let shift = product(radius, vector_of(0, 1));
    lemma_turned_shift(exact, turns[i], shift);
    assert(exact.of(vector_of(0, 1)) == (Pair { x: (0 as i32) as real, y: (1 as i32) as real }));
    assert(r * (0 as real) == 0 as real && r * (1 as real) == r) by (nonlinear_arith);
    assert(exact.of(shift) == (Pair { x: 0 as real, y: r }));
    let t = exact.of(turns[i]);
    assert(t.x * (0 as real) == 0 as real) by (nonlinear_arith);
    assert(t.y * (0 as real) == 0 as real) by (nonlinear_arith);
}

/// The places on a circle are evenly spread over one turn, from the angle that they start at.
pub proof fn circular_angles_are_spread_evenly(exact: Exact, angle_offset: DVec2, count: nat, index: int)
    requires
        exact.wf(),
        0 < count <= u32::MAX,
        0 <= index <= count,
    ensures
        exact.of(circular_angle(angle_offset, count, 0)) == exact.of(radians_of(angle_offset)),
        exact.of(circular_angle(angle_offset, count, count as int)) == exact.of(radians_of(angle_offset)).plus(exact.of(tau())),
        exact.of(circular_angle(angle_offset, count, index)).minus(exact.of(circular_angle(angle_offset, count, 0))).scaled(count as real)
            == exact.of(tau()).scaled(index as real),
{
    let turn = exact.of(tau());
    let n = count as real;
    let i = index as real;
    assert(exact.is_number(number_of(count as u64), n));
    assert(exact.is_number(number_of(index as u64), i));
    assert(exact.is_number(number_of(0 as u64), 0 as real));
    lemma_quotient(turn.x, n);
    lemma_quotient(turn.y, n);
    lemma_factors(turn.x / n, i, n);
    lemma_factors(turn.y / n, i, n);
    lemma_times((turn.x / n) * n, turn.x, i);
    lemma_times((turn.y / n) * n, turn.y, i);
    let f = exact.of(circular_angle(angle_offset, count, index));
    let b = exact.of(radians_of(angle_offset));
    assert(f.x == (turn.x / n) * i + b.x);
    assert(f.y == (turn.y / n) * i + b.y);
}

/// A copy at a point has its origin there, as large and as turned as its pose is.
pub proof fn a_copy_at_a_point_is_there(exact: Exact, points: PointsRow, poses: Seq<Pose>, first: int, i: int, scale: real)
    requires
        exact.wf(),
        0 <= i < points.positions@.len(),
        exact.is_number(poses[first + i].scale, scale),
    ensures
        ({
            let found = (exact.frame)(row_transforms(points, poses, first)[i]);
            &&& found.origin == (exact.frame)(points.transform).take(exact.of(points.positions@[i]))
            &&& found.x_axis == exact.of(poses[first + i].direction).scaled(scale)
            &&& found.y_axis == exact.of(poses[first + i].direction).turned().scaled(scale)
        }),
{
}

/// A translation adds to each point.
proof fn lemma_translation(exact: Exact, v: DVec2, p: Pair)
    requires
        exact.wf(),
    ensures
        (exact.frame)(translation_of(v)).take(p) == p.plus(exact.of(v)),
{
    let frame = (exact.frame)(translation_of(v));
    assert(frame == (Frame { origin: exact.of(v), ..Frame::still() }));
    lemma_still(p);
    assert(frame.turn(p) == Frame::still().turn(p)) by {
        reveal(Frame::turn);
    }
}

/// One coordinate of a reflected vector.
proof fn lemma_reflected_coordinate(a: real, b: real, x: real, y: real)
    ensures
        (1 as real - (2 as real * a) * a) * x + (((-2 as int) as real * a) * b) * y == x - a * (2 as real * (a * x + b * y)),
        (((-2 as int) as real * b) * a) * y + (1 as real - (2 as real * a) * a) * x == x - a * (2 as real * (a * x + b * y)),
{
    let two = 2 as real;
    assert((-2 as int) as real == -two);
    lemma_less(1 as real, (two * a) * a, x);
    lemma_less(two, two, a);
    lemma_less(two * a, two * a, b);
    lemma_less((two * a) * b, (two * a) * b, y);
    lemma_less(two, two, b);
    lemma_less(two * b, two * b, a);
    lemma_less((two * b) * a, (two * b) * a, y);
    lemma_spread(two, a * x, b * y);
    lemma_spread(a, two * (a * x), two * (b * y));
    lemma_factors(two * a, a, x);
    lemma_factors(two, a, a * x);
    lemma_factors(two * (a * x), a, a);
    lemma_factors(two * a, b, y);
    lemma_factors(two, a, b * y);
    lemma_factors(two * (b * y), a, a);
    lemma_factors(two * b, a, y);
    lemma_factors(two, b, y);
}

/// What the reflection makes of a vector.
proof fn lemma_reflection(exact: Exact, normal: DVec2, q: Pair)
    requires
        exact.wf(),
    ensures
        (exact.frame)(reflection_of(normal)).take(q) == q.minus(exact.of(normal).scaled(2 as real * exact.of(normal).dot(q))),
{
    let n = exact.of(normal);
    let (two, back) = (2 as real, (-2 as int) as real);
    assert(exact.is_number(splat_of(2), (2 as i32) as real));
    assert(exact.is_number(splat_of(-2 as i32), (-2 as i32) as real));
    assert(exact.is_number(splat_of(1), (1 as i32) as real));
    assert(exact.is_number(zero(), (0 as i32) as real));
    let frame = (exact.frame)(reflection_of(normal));
    assert(frame.x_axis == (Pair { x: 1 as real - (two * n.x) * n.x, y: (back * n.y) * n.x }));
    assert(frame.y_axis == (Pair { x: (back * n.x) * n.y, y: 1 as real - (two * n.y) * n.y }));
    assert(frame.origin == Pair::both(0 as real));
    lemma_reflected_coordinate(n.x, n.y, q.x, q.y);
    lemma_reflected_coordinate(n.y, n.x, q.y, q.x);
    reveal(Frame::turn);
}

/// How far a point that was moved along the normal is beyond the line.
proof fn lemma_height(n: Pair, p: Pair, o: real)
    requires
        n.is_unit(),
    ensures
        n.dot(p.minus(n.scaled(o))) == p.dot(n) - o,
{
    lemma_less(p.x, n.x * o, n.x);
    lemma_less(p.y, n.y * o, n.y);
    lemma_factors(n.x, n.x, o);
    lemma_factors(n.y, n.y, o);
    lemma_spread(o, n.x * n.x, n.y * n.y);
    lemma_times(n.dot(n), 1 as real, o);
    lemma_factors(p.x, n.x, o);
    lemma_factors(p.y, n.y, o);
}

/// Mirroring about a point reflects in the line through the point, shifted by the offset along the normal: a point goes
/// along the normal to as far beyond the line as it was before it. Points on the line stay.
pub proof fn mirroring_reflects_in_the_line(exact: Exact, reference: DVec2, offset: DVec2, normal: DVec2, p: DVec2, o: real)
    requires
        exact.wf(),
        exact.of(normal).is_unit(),
        exact.is_number(offset, o),
    ensures
        ({
            let height = exact.of(p).minus(exact.of(reference)).dot(exact.of(normal)) - o;
            let found = exact.of(transformed_point(mirror_transform(Some(reference), offset, normal), p));
            &&& found == exact.of(p).minus(exact.of(normal).scaled(2 as real * height))
            &&& height == 0 as real ==> found == exact.of(p)
        }),
{
    let about = sum(reference, product(normal, offset));
    let (n, r, q) = (exact.of(normal), exact.of(reference), exact.of(p));
    let there = (exact.frame)(translation_of(about));
    let reflection = (exact.frame)(reflection_of(normal));
    let back = (exact.frame)(translation_of(negation(about)));
    lemma_after(there.after(reflection), back, q);
    lemma_translation(exact, negation(about), q);
    let away = q.plus(exact.of(negation(about)));
    lemma_after(there, reflection, away);
    lemma_reflection(exact, normal, away);
    lemma_translation(exact, about, reflection.take(away));
    assert(exact.of(about) == r.plus(n.scaled(o)));
    assert(away == q.minus(r).minus(n.scaled(o)));
    lemma_height(n, q.minus(r), o);
    let height = q.minus(r).dot(n) - o;
    assert(n.dot(away) == height);
    if height == 0 as real {
        assert(2 as real * height == 0 as real);
        assert(n.x * (0 as real) == 0 as real) by (nonlinear_arith);
        assert(n.y * (0 as real) == 0 as real) by (nonlinear_arith);
    }
}

/// Mirrored rows stand behind the rows themselves where those are kept, and each is the row under the transform.
pub proof fn mirrored_rows_follow_the_rows(rows: Seq<DAffine2>, transform: DAffine2, i: int)
    requires
        0 <= i < rows.len() <= usize::MAX,
    ensures
        mirrored(rows, transform, true).len() == 2 * rows.len(),
        mirrored(rows, transform, false).len() == rows.len(),
        mirrored(rows, transform, true)[i].transform == rows[i],
        mirrored(rows, transform, true)[i].row == i,
        mirrored(rows, transform, true)[rows.len() + i] == mirrored(rows, transform, false)[i],
        mirrored(rows, transform, false)[i].row == i,
        forall|exact: Exact, p: DVec2| #![trigger exact.of(p)]
            exact.wf() ==> exact.of(transformed_point(mirrored(rows, transform, false)[i].transform, p)) == exact.of(
                transformed_point(transform, transformed_point(rows[i], p)),
            ),
{
    assert forall|exact: Exact, p: DVec2| #![trigger exact.of(p)] exact.wf() implies exact.of(
        transformed_point(mirrored(rows, transform, false)[i].transform, p),
    ) == exact.of(transformed_point(transform, transformed_point(rows[i], p))) by {
        lemma_after((exact.frame)(transform), (exact.frame)(rows[i]), exact.of(p));
    }
}

/// The sizes of copies go evenly from the least to the greatest.
pub proof fn sizes_go_from_least_to_greatest(exact: Exact, placing: RandomPlacement, place: DVec2, share: real)
    requires
        exact.wf(),
        exact.is_number(place, share),
    ensures
        ({
            let (least, greatest) = (exact.of(placing.scale_min), exact.of(placing.scale_max));
            let found = exact.of(placing.spec_scale(Some(place)));
            &&& share == 0 as real ==> found == least
            &&& share == 1 as real ==> found == greatest
            &&& found.minus(least) == greatest.minus(least).scaled(share)
        }),
        placing.spec_scale(None) == placing.scale_min,
{
    let range = exact.of(placing.scale_max).minus(exact.of(placing.scale_min));
    lemma_factors(range.x, share, share);
    lemma_factors(range.y, share, share);
    assert(range.x * (0 as real) == 0 as real && range.x * (1 as real) == range.x);
    assert(range.y * (0 as real) == 0 as real && range.y * (1 as real) == range.y);
}

/// The turns of copies go evenly over the rotation, in degrees, with none in the middle of it.
pub proof fn turns_go_over_the_rotation(exact: Exact, placing: RandomPlacement, number: DVec2, share: real, rotation: real)
    requires
        exact.wf(),
        exact.is_number(number, share),
        exact.is_number(placing.rotation, rotation),
    ensures
        ({
            let found = exact.of(placing.spec_angle(Some(number))).x;
            &&& found * (360 as real) == ((share - 1 as real / 2 as real) * rotation) * exact.of(tau()).x
            &&& share == 1 as real / 2 as real ==> found == 0 as real
        }),
        placing.spec_angle(None) == zero(),
{
    let half = 1 as real / 2 as real;
    assert(exact.is_number(splat_of(1), (1 as i32) as real));
    assert(exact.is_number(splat_of(2), (2 as i32) as real));
    assert(exact.is_number(splat_of(360), (360 as i32) as real));
    assert(exact.is_number(reciprocal_of(2), half));
    let (k, t) = (360 as real, exact.of(tau()).x);
    let part = (share - half) * rotation;
    lemma_quotient(part, k);
    lemma_factors(part / k, t, k);
    lemma_times((part / k) * k, part, t);
    let found = exact.of(placing.spec_angle(Some(number))).x;
    assert(found == (part / k) * t);
    if share == half {
        lemma_times(share - half, 0 as real, rotation);
        assert((0 as real) * rotation == 0 as real) by (nonlinear_arith);
        assert((0 as real) * t == 0 as real) by (nonlinear_arith);
        assert((0 as real) * k == 0 as real) by (nonlinear_arith);
        lemma_times(part, 0 as real, t);
        lemma_cancel(found, 0 as real, k);
    }
}

} // verus!
