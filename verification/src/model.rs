//! The sampler as plain mathematical values: what a step yields, where a step
//! and a run of steps lead, and what they keep.

use crate::point::{in_rectangle, proposal, Offset, Point};
use crate::poisson_surface::Halt;
use crate::proximity::{
    contained, grown, lemma_grown_push, lemma_push_keeps_separation, separated, too_close,
};
use crate::random_queue::swap_removed;
use vstd::prelude::*;

verus! {

/// What a sampler is, as plain mathematical values.
pub struct SurfaceView {
    pub width: int,
    pub height: int,
    pub distance: int,
    pub jitter: int,
    pub candidates: int,
    pub queue: Seq<Point>,
    pub points: Seq<Point>,
}

/// The parameters that a sampler can be built from.
pub open spec fn valid_configuration(width: int, height: int, distance: int, candidates: int) -> bool {
    width > 0 && height > 0 && distance > 0 && candidates > 0
}

/// One step of a run: the place in the queue that the seed was taken from,
/// and what the step yielded.
pub struct Taken {
    pub place: int,
    pub found: Option<Point>,
}

/// The steps at `i - 1` and at `i` both found nothing.
pub open spec fn missed_twice(taken: Seq<Taken>, i: int) -> bool {
    1 <= i < taken.len() && taken[i - 1].found is None && taken[i].found is None
}

/// How many of the last two steps found nothing since the last one that
/// found a candidate.
pub open spec fn trailing_misses(taken: Seq<Taken>) -> int {
    if taken.len() == 0 || taken.last().found is Some {
        0
    } else if taken.len() == 1 || taken[taken.len() - 2].found is Some {
        1
    } else {
        2
    }
}

/// The run of steps `taken`, out of at most `rounds`, which has left `queued`
/// seeds, ended as the rules say and for the reason `halt`: no step was
/// taken after two in a row had found nothing; the run is drained exactly if
/// no seed is left, else saturated exactly if its last two steps found
/// nothing, and else it has used up its rounds.
pub open spec fn halts(taken: Seq<Taken>, rounds: int, queued: int, halt: Halt) -> bool {
    &&& forall|i: int| 1 <= i < taken.len() - 1 ==> !missed_twice(taken, i)
    &&& halt == Halt::Drained <==> queued == 0
    &&& halt == Halt::Saturated <==> queued != 0 && trailing_misses(taken) == 2
    &&& halt == Halt::Spent ==> taken.len() == rounds
}

impl SurfaceView {
    /// `candidate` may be accepted: it lies in the domain and no accepted
    /// point is too close to it.
    pub open spec fn acceptable(self, candidate: Point) -> bool {
        in_rectangle(candidate, self.width, self.height) && !too_close(
            self.points,
            self.distance,
            candidate,
        )
    }

    /// `offset` leads from `seed` to a point that may be accepted.
    pub open spec fn accepts(self, seed: Point, offset: Offset) -> bool {
        match proposal(seed, offset) {
            Some(candidate) => self.acceptable(candidate),
            None => false,
        }
    }

    /// How many of `offsets` are tried around one seed.
    pub open spec fn attempts(self, offsets: Seq<Offset>) -> int {
        if self.candidates <= offsets.len() {
            self.candidates
        } else {
            offsets.len() as int
        }
    }

    /// `found` is what trying `offsets` around `seed` yields: the point that
    /// the first accepted offset leads to, or nothing when none of the tried
    /// offsets is accepted.
    pub open spec fn yields(self, seed: Point, offsets: Seq<Offset>, found: Option<Point>) -> bool {
        match found {
            Some(candidate) => exists|k: int|
                0 <= k < self.attempts(offsets) && self.accepts(seed, #[trigger] offsets[k])
                    && proposal(seed, offsets[k]) == Some(candidate) && forall|j: int|
                    0 <= j < k ==> !self.accepts(seed, #[trigger] offsets[j]),
            None => forall|k: int|
                0 <= k < self.attempts(offsets) ==> !self.accepts(seed, #[trigger] offsets[k]),
        }
    }

    /// The same domain and parameters, whatever the queue and the accepted
    /// points.
    pub open spec fn same_configuration(self, other: SurfaceView) -> bool {
        &&& self.width == other.width
        &&& self.height == other.height
        &&& self.distance == other.distance
        &&& self.jitter == other.jitter
        &&& self.candidates == other.candidates
    }

    /// Every seed of the queue is an accepted point.
    pub open spec fn queue_accepted(self) -> bool {
        forall|i: int| 0 <= i < self.queue.len() ==> self.points.contains(#[trigger] self.queue[i])
    }

    /// The sampler after `point` has been accepted: it is the last accepted
    /// point and the last seed of the queue.
    pub open spec fn inserted(self, point: Point) -> SurfaceView {
        SurfaceView { queue: self.queue.push(point), points: self.points.push(point), ..self }
    }

    /// One step taken from the seed at `index` of the queue with `offsets`
    /// has yielded `found` and left the sampler as `after`: the seed went
    /// back to the end of the queue if a candidate was found and left the
    /// queue if none was; nothing else changed.
    pub open spec fn steps_to(
        self,
        index: int,
        offsets: Seq<Offset>,
        found: Option<Point>,
        after: SurfaceView,
    ) -> bool {
        &&& 0 <= index < self.queue.len()
        &&& self.yields(self.queue[index], offsets, found)
        &&& after == SurfaceView {
            queue: if found is Some {
                swap_removed(self.queue, index).push(self.queue[index])
            } else {
                swap_removed(self.queue, index)
            },
            ..self
        }
    }

    /// The sampler after what a step yielded has been accepted.
    pub open spec fn accepted(self, found: Option<Point>) -> SurfaceView {
        match found {
            Some(point) => self.inserted(point),
            None => self,
        }
    }

    /// The steps `taken`, each with its batch of `batches` in order and each
    /// followed by accepting what it yielded, lead from this sampler to
    /// `after`.
    pub open spec fn runs_to(
        self,
        batches: Seq<Vec<Offset>>,
        taken: Seq<Taken>,
        after: SurfaceView,
    ) -> bool
        decreases taken.len(),
    {
        if taken.len() == 0 {
            after == self
        } else {
            &&& taken.len() <= batches.len()
            &&& exists|before: SurfaceView, stepped: SurfaceView|
                self.runs_to(batches, taken.drop_last(), before) && #[trigger] before.steps_to(
                    taken.last().place,
                    batches[taken.len() - 1]@,
                    taken.last().found,
                    stepped,
                ) && after == stepped.accepted(taken.last().found)
        }
    }
}

/// What a step yields may be accepted.
pub proof fn lemma_yield_acceptable(
    view: SurfaceView,
    seed: Point,
    offsets: Seq<Offset>,
    candidate: Point,
)
    requires
        view.yields(seed, offsets, Some(candidate)),
    ensures
        view.acceptable(candidate),
{
}

/// Trying the same offsets around the same seed of the same sampler yields
/// the same.
pub proof fn lemma_yield_unique(
    view: SurfaceView,
    seed: Point,
    offsets: Seq<Offset>,
    first: Option<Point>,
    second: Option<Point>,
)
    requires
        view.yields(seed, offsets, first),
        view.yields(seed, offsets, second),
    ensures
        first == second,
{
    if first is Some && second is Some {
        let a = first->0;
        let b = second->0;
        let k = choose|k: int|
            0 <= k < view.attempts(offsets) && view.accepts(seed, #[trigger] offsets[k])
                && proposal(seed, offsets[k]) == Some(a) && forall|j: int|
                0 <= j < k ==> !view.accepts(seed, #[trigger] offsets[j]);
        let m = choose|m: int|
            0 <= m < view.attempts(offsets) && view.accepts(seed, #[trigger] offsets[m])
                && proposal(seed, offsets[m]) == Some(b) && forall|j: int|
                0 <= j < m ==> !view.accepts(seed, #[trigger] offsets[j]);
        if k < m {
            assert(!view.accepts(seed, offsets[k]));
        } else if m < k {
            assert(!view.accepts(seed, offsets[m]));
        }
    }
}

/// A step is a function of the sampler, the seed's place in the queue and the
/// offsets: two samplers in the same state, stepped from the same place with
/// the same offsets, yield the same and are in the same state afterwards.
pub proof fn lemma_step_deterministic(
    before: SurfaceView,
    index: int,
    offsets: Seq<Offset>,
    first: Option<Point>,
    first_after: SurfaceView,
    second: Option<Point>,
    second_after: SurfaceView,
)
    requires
        before.steps_to(index, offsets, first, first_after),
        before.steps_to(index, offsets, second, second_after),
    ensures
        first == second,
        first_after == second_after,
{
    lemma_yield_unique(before, before.queue[index], offsets, first, second);
}

/// A step leaves the accepted points alone, and the queue holds afterwards
/// only seeds that it held before.
pub proof fn lemma_step_keeps_queue_accepted(
    before: SurfaceView,
    index: int,
    offsets: Seq<Offset>,
    found: Option<Point>,
    after: SurfaceView,
)
    requires
        before.steps_to(index, offsets, found, after),
    ensures
        after.points == before.points,
        after.same_configuration(before),
        forall|i: int| 0 <= i < after.queue.len() ==> before.queue.contains(#[trigger] after.queue[i]),
        before.queue_accepted() ==> after.queue_accepted(),
{
    let removed = swap_removed(before.queue, index);
    assert forall|i: int| 0 <= i < removed.len() implies before.queue.contains(
        #[trigger] removed[i],
    ) by {
        if i == index {
            assert(removed[i] == before.queue[before.queue.len() - 1]);
        } else {
            assert(removed[i] == before.queue[i]);
        }
    }
    assert forall|i: int| 0 <= i < after.queue.len() implies before.queue.contains(
        #[trigger] after.queue[i],
    ) by {
        if i < removed.len() {
            assert(after.queue[i] == removed[i]);
        } else {
            assert(after.queue[i] == before.queue[index]);
        }
    }
    if before.queue_accepted() {
        assert forall|i: int| 0 <= i < after.queue.len() implies after.points.contains(
            #[trigger] after.queue[i],
        ) by {
            let j = choose|j: int| 0 <= j < before.queue.len() && before.queue[j] == after.queue[i];
            assert(before.points.contains(before.queue[j]));
        }
    }
}

/// Accepting a point keeps every seed of the queue an accepted point.
pub proof fn lemma_insert_keeps_queue_accepted(view: SurfaceView, point: Point)
    requires
        view.queue_accepted(),
    ensures
        view.inserted(point).queue_accepted(),
{
    let after = view.inserted(point);
    assert forall|i: int| 0 <= i < after.queue.len() implies after.points.contains(
        #[trigger] after.queue[i],
    ) by {
        if i < view.queue.len() {
            let j = choose|j: int| 0 <= j < view.points.len() && view.points[j] == view.queue[i];
            assert(after.points[j] == after.queue[i]);
        } else {
            assert(after.points[view.points.len() as int] == point);
        }
    }
}

/// Accepting a point that may be accepted keeps the accepted points at their
/// distance from each other and inside the domain.
pub proof fn lemma_insert_keeps_invariants(view: SurfaceView, point: Point)
    requires
        view.acceptable(point),
    ensures
        separated(view.points, view.distance) ==> separated(
            view.inserted(point).points,
            view.distance,
        ),
        contained(view.points, view.width, view.height) ==> contained(
            view.inserted(point).points,
            view.width,
            view.height,
        ),
{
    if separated(view.points, view.distance) {
        lemma_push_keeps_separation(view.points, view.distance, point);
    }
}

/// A run only grows the accepted points, by points that could be accepted
/// when they were, and by no more than one per step; it leaves the domain and
/// the parameters alone and keeps every seed of the queue an accepted point.
pub proof fn lemma_run_grows(
    start: SurfaceView,
    batches: Seq<Vec<Offset>>,
    taken: Seq<Taken>,
    end: SurfaceView,
)
    requires
        start.runs_to(batches, taken, end),
    ensures
        end.same_configuration(start),
        grown(start.points, end.points, start.width, start.height, start.distance),
        end.points.len() - start.points.len() <= taken.len(),
        start.queue_accepted() ==> end.queue_accepted(),
    decreases taken.len(),
{
    if taken.len() == 0 {
        assert(start.points.take(start.points.len() as int) =~= start.points);
    } else {
        let (before, stepped) = choose|before: SurfaceView, stepped: SurfaceView|
            start.runs_to(batches, taken.drop_last(), before) && #[trigger] before.steps_to(
                taken.last().place,
                batches[taken.len() - 1]@,
                taken.last().found,
                stepped,
            ) && end == stepped.accepted(taken.last().found);
        lemma_run_grows(start, batches, taken.drop_last(), before);
        lemma_step_keeps_queue_accepted(
            before,
            taken.last().place,
            batches[taken.len() - 1]@,
            taken.last().found,
            stepped,
        );
        match taken.last().found {
            Some(point) => {
                lemma_yield_acceptable(
                    before,
                    before.queue[taken.last().place],
                    batches[taken.len() - 1]@,
                    point,
                );
                lemma_grown_push(
                    start.points,
                    before.points,
                    start.width,
                    start.height,
                    start.distance,
                    point,
                );
                if start.queue_accepted() {
                    lemma_insert_keeps_queue_accepted(stepped, point);
                }
            },
            None => {},
        }
    }
}

/// A run is a function of the sampler, the batches and the places that the
/// seeds were taken from: two samplers in the same state, driven by the same
/// draws, yield the same points step by step and end in the same state.
pub proof fn lemma_run_deterministic(
    start: SurfaceView,
    batches: Seq<Vec<Offset>>,
    first: Seq<Taken>,
    first_end: SurfaceView,
    second: Seq<Taken>,
    second_end: SurfaceView,
)
    requires
        start.runs_to(batches, first, first_end),
        start.runs_to(batches, second, second_end),
        first.len() == second.len(),
        forall|i: int| 0 <= i < first.len() ==> first[i].place == second[i].place,
    ensures
        first == second,
        first_end == second_end,
    decreases first.len(),
{
    if first.len() == 0 {
        assert(first =~= second);
    } else {
        let (before, stepped) = choose|before: SurfaceView, stepped: SurfaceView|
            start.runs_to(batches, first.drop_last(), before) && #[trigger] before.steps_to(
                first.last().place,
                batches[first.len() - 1]@,
                first.last().found,
                stepped,
            ) && first_end == stepped.accepted(first.last().found);
        let (other_before, other_stepped) = choose|before: SurfaceView, stepped: SurfaceView|
            start.runs_to(batches, second.drop_last(), before) && #[trigger] before.steps_to(
                second.last().place,
                batches[second.len() - 1]@,
                second.last().found,
                stepped,
            ) && second_end == stepped.accepted(second.last().found);
        lemma_run_deterministic(
            start,
            batches,
            first.drop_last(),
            before,
            second.drop_last(),
            other_before,
        );
        lemma_step_deterministic(
            before,
            first.last().place,
            batches[first.len() - 1]@,
            first.last().found,
            stepped,
            second.last().found,
            other_stepped,
        );
        assert(first.last() == second.last());
        assert(first =~= first.drop_last().push(first.last()));
        assert(second =~= second.drop_last().push(second.last()));
    }
}

} // verus!
