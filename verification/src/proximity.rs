//! The proximity index: which accepted points lie near a given point, by a
//! scan of the accepted points, and what it means for a set of points to keep
//! its distance.

use crate::point::{
    closer_than, in_rectangle, lemma_distance_symmetric, lemma_distance_zero, Point,
};
use vstd::prelude::*;

verus! {

/// Some point of `points` lies strictly closer to `candidate` than
/// `separation`.
pub open spec fn too_close(points: Seq<Point>, separation: int, candidate: Point) -> bool {
    exists|i: int| 0 <= i < points.len() && closer_than(candidate, #[trigger] points[i], separation)
}

/// The points of `points` that lie strictly closer to `point` than
/// `separation`, in the order in which `points` holds them.
pub open spec fn neighbours(points: Seq<Point>, separation: int, point: Point) -> Seq<Point> {
    points.filter(|other: Point| closer_than(point, other, separation))
}

/// Any two points at different places of `points` are at least `separation`
/// apart.
pub open spec fn separated(points: Seq<Point>, separation: int) -> bool {
    forall|i: int, j: int|
        0 <= i < points.len() && 0 <= j < points.len() && i != j ==> !closer_than(
            #[trigger] points[i],
            #[trigger] points[j],
            separation,
        )
}

/// Every point of `points` lies in the rectangle `[0, width) x [0, height)`.
pub open spec fn contained(points: Seq<Point>, width: int, height: int) -> bool {
    forall|i: int| 0 <= i < points.len() ==> in_rectangle(#[trigger] points[i], width, height)
}

/// `after` continues `before`, and each point that it adds lies in the
/// rectangle and was not too close to any point in front of it.
pub open spec fn grown(
    before: Seq<Point>,
    after: Seq<Point>,
    width: int,
    height: int,
    separation: int,
) -> bool {
    &&& before.len() <= after.len()
    &&& after.take(before.len() as int) == before
    &&& forall|k: int|
        before.len() <= k < after.len() ==> in_rectangle(#[trigger] after[k], width, height)
            && !too_close(after.take(k), separation, after[k])
}

/// Points that keep their distance still do so once a point is added that is
/// not too close to any of them.
pub proof fn lemma_push_keeps_separation(points: Seq<Point>, separation: int, point: Point)
    requires
        separated(points, separation),
        !too_close(points, separation, point),
    ensures
        separated(points.push(point), separation),
{
    let longer = points.push(point);
    assert forall|i: int, j: int|
        0 <= i < longer.len() && 0 <= j < longer.len() && i != j implies !closer_than(
        #[trigger] longer[i],
        #[trigger] longer[j],
        separation,
    ) by {
        if i < points.len() && j < points.len() {
            assert(!closer_than(points[i], points[j], separation));
        } else if i < points.len() {
            assert(!closer_than(point, points[i], separation));
            lemma_distance_symmetric(point, points[i]);
        } else {
            assert(!closer_than(point, points[j], separation));
        }
    }
}

/// Points of a rectangle are still all in it once a point of the rectangle
/// is added.
pub proof fn lemma_push_keeps_containment(points: Seq<Point>, width: int, height: int, point: Point)
    requires
        contained(points, width, height),
        in_rectangle(point, width, height),
    ensures
        contained(points.push(point), width, height),
{
}

/// Adding the same point twice gives two entries at the same place, which no
/// positive separation tolerates.
pub proof fn lemma_twice_breaks_separation(points: Seq<Point>, separation: int, point: Point)
    requires
        separation > 0,
    ensures
        points.push(point).push(point).len() == points.len() + 2,
        too_close(points.push(point), separation, point),
        !separated(points.push(point).push(point), separation),
{
    let once = points.push(point);
    let twice = once.push(point);
    let n = points.len() as int;
    assert(separation * separation > 0) by (nonlinear_arith)
        requires
            separation > 0,
    ;
    lemma_distance_zero(point, point);
    assert(closer_than(point, once[n], separation));
    assert(closer_than(twice[n], twice[n + 1], separation));
}

/// A growth of `before` by one more acceptable point is a growth of `before`.
pub proof fn lemma_grown_push(
    before: Seq<Point>,
    after: Seq<Point>,
    width: int,
    height: int,
    separation: int,
    point: Point,
)
    requires
        grown(before, after, width, height, separation),
        in_rectangle(point, width, height),
        !too_close(after, separation, point),
    ensures
        grown(before, after.push(point), width, height, separation),
{
    let longer = after.push(point);
    assert(longer.take(before.len() as int) =~= after.take(before.len() as int));
    assert forall|k: int| before.len() <= k < longer.len() implies in_rectangle(
        #[trigger] longer[k],
        width,
        height,
    ) && !too_close(longer.take(k), separation, longer[k]) by {
        if k < after.len() {
            assert(longer[k] == after[k]);
            assert(longer.take(k) =~= after.take(k));
        } else {
            assert(longer.take(k) =~= after);
        }
    }
}

/// Growth keeps the distance: if the points at the start kept their distance,
/// so do all points after any growth.
pub proof fn lemma_grown_keeps_separation(
    before: Seq<Point>,
    after: Seq<Point>,
    width: int,
    height: int,
    separation: int,
)
    requires
        grown(before, after, width, height, separation),
        separated(before, separation),
    ensures
        separated(after, separation),
    decreases after.len(),
{
    if after.len() == before.len() {
        assert(after.take(before.len() as int) =~= after);
    } else {
        let shorter = after.drop_last();
        let last = after.last();
        assert(shorter.take(before.len() as int) =~= after.take(before.len() as int));
        assert forall|k: int| before.len() <= k < shorter.len() implies in_rectangle(
            #[trigger] shorter[k],
            width,
            height,
        ) && !too_close(shorter.take(k), separation, shorter[k]) by {
            assert(shorter[k] == after[k]);
            assert(shorter.take(k) =~= after.take(k));
        }
        lemma_grown_keeps_separation(before, shorter, width, height, separation);
        assert(after.take(after.len() - 1) =~= shorter);
        assert(!too_close(shorter, separation, after[after.len() - 1]));
        lemma_push_keeps_separation(shorter, separation, last);
        assert(shorter.push(last) =~= after);
    }
}

/// Growth stays in the rectangle: if the points at the start lay in it, so do
/// all points after any growth.
pub proof fn lemma_grown_keeps_containment(
    before: Seq<Point>,
    after: Seq<Point>,
    width: int,
    height: int,
    separation: int,
)
    requires
        grown(before, after, width, height, separation),
        contained(before, width, height),
    ensures
        contained(after, width, height),
{
    assert forall|i: int| 0 <= i < after.len() implies in_rectangle(
        #[trigger] after[i],
        width,
        height,
    ) by {
        if i < before.len() {
            assert(after.take(before.len() as int)[i] == after[i]);
        }
    }
}

/// Whether a point of `points` lies strictly closer to `candidate` than
/// `separation`.
pub fn is_too_close(points: &Vec<Point>, separation: i32, candidate: Point) -> (close: bool)
    ensures
        close == too_close(points@, separation as int, candidate),
{
    let mut i: usize = 0;
    while i < points.len()
        invariant
            i <= points@.len(),
            forall|j: int| 0 <= j < i ==> !closer_than(candidate, #[trigger] points@[j], separation as int),
        decreases points@.len() - i,
    {
        if candidate.is_closer_than(&points[i], separation) {
            return true;
        }
        i += 1;
    }
    false
}

/// The points of `points` that lie strictly closer to `point` than
/// `separation`, in the order of `points`.
pub fn neighbours_of(points: &Vec<Point>, separation: i32, point: Point) -> (near: Vec<Point>)
    ensures
        near@ == neighbours(points@, separation as int, point),
{
    let mut near: Vec<Point> = Vec::new();
    let mut i: usize = 0;
    while i < points.len()
        invariant
            i <= points@.len(),
            near@ == neighbours(points@.take(i as int), separation as int, point),
        decreases points@.len() - i,
    {
        let other: Point = points[i];
        proof {
            let longer = points@.take(i + 1);
            assert(longer.drop_last() =~= points@.take(i as int));
            assert(longer.last() == other);
            reveal_with_fuel(Seq::filter, 2);
        }
        if point.is_closer_than(&other, separation) {
            near.push(other);
        }
        i += 1;
    }
    assert(points@.take(i as int) =~= points@);
    near
}

} // verus!
