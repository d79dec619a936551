//! The dart-throwing sampler: accepted points, active queue and the step that
//! proposes candidates around a randomly picked seed.

use crate::model::{
    halts, lemma_run_grows, missed_twice, trailing_misses, valid_configuration, SurfaceView, Taken,
};
use crate::packing::{capacity, lemma_capacity};
use crate::point::{in_rectangle, Offset, Point};
use crate::proximity::{
    contained, grown, is_too_close, lemma_grown_keeps_containment, lemma_grown_keeps_separation,
    neighbours, neighbours_of, separated, too_close,
};
use crate::random::random_below;
use crate::random_queue::{pick_at, swap_removed, RandomQueue};
use rand::XorShiftRng;
use vstd::prelude::*;

verus! {

/// Why a sampler could not be built.
#[derive(Debug, Clone, Copy, PartialEq, Eq, Structural)]
pub enum Error {
    /// A dimension of the domain or the separation is not positive, or no
    /// candidate would be tried per seed.
    InvalidConfiguration,
}

/// Why a run of steps ended.
#[derive(Debug, Clone, Copy, PartialEq, Eq, Structural)]
pub enum Halt {
    /// The queue is empty: no seed is left to step from.
    Drained,
    /// Two steps in a row found no candidate.
    Saturated,
    /// Every batch of offsets has been used.
    Spent,
}

/// How a run of steps went.
#[derive(Debug, Clone, Copy, PartialEq, Eq, Structural)]
pub struct Run {
    /// Why the run ended.
    pub halt: Halt,
    /// How many steps were taken.
    pub steps: usize,
}

/// The parameters of a sampler. Every value of this type is a valid
/// configuration.
#[derive(Debug, Clone, Copy)]
struct Configuration {
    width: i32,
    height: i32,
    distance: i32,
    jitter: i32,
    candidates: u32,
}

/// A sampler over the rectangle `[0, width) x [0, height)`.
#[derive(Debug)]
pub struct PoissonSurface {
    configuration: Configuration,
    queue: Vec<Point>,
    points: Vec<Point>,
}

impl View for PoissonSurface {
    type V = SurfaceView;

    closed spec fn view(&self) -> SurfaceView {
        SurfaceView {
            width: self.configuration.width as int,
            height: self.configuration.height as int,
            distance: self.configuration.distance as int,
            jitter: self.configuration.jitter as int,
            candidates: self.configuration.candidates as int,
            queue: self.queue@,
            points: self.points@,
        }
    }
}

impl Configuration {
    #[verifier::type_invariant]
    spec fn well_formed(&self) -> bool {
        valid_configuration(
            self.width as int,
            self.height as int,
            self.distance as int,
            self.candidates as int,
        )
    }
}

impl Default for PoissonSurface {
    /// The sampler over a domain of 640 by 480 with separation 10, jitter 2
    /// and 10 candidates per seed.
    fn default() -> (surface: PoissonSurface)
        ensures
            surface@ == (SurfaceView {
                width: 640,
                height: 480,
                distance: 10,
                jitter: 2,
                candidates: 10,
                queue: Seq::empty(),
                points: Seq::empty(),
            }),
    {
        let configuration = Configuration {
            width: 640,
            height: 480,
            distance: 10,
            jitter: 2,
            candidates: 10,
        };
        PoissonSurface { configuration, queue: Vec::new(), points: Vec::new() }
    }
}

impl PoissonSurface {
    /// A sampler with no accepted point and an empty queue, or
    /// `InvalidConfiguration` when a dimension or the separation is not
    /// positive or `candidates` is zero.
    pub fn new(width: i32, height: i32, distance: i32, jitter: i32, candidates: u32) -> (built:
        Result<PoissonSurface, Error>)
        ensures
            valid_configuration(width as int, height as int, distance as int, candidates as int)
                ==> built is Ok,
            match built {
                Ok(surface) => valid_configuration(
                    width as int,
                    height as int,
                    distance as int,
                    candidates as int,
                ) && surface@ == (SurfaceView {
                    width: width as int,
                    height: height as int,
                    distance: distance as int,
                    jitter: jitter as int,
                    candidates: candidates as int,
                    queue: Seq::empty(),
                    points: Seq::empty(),
                }),
                Err(error) => error == Error::InvalidConfiguration,
            },
    {
        if width <= 0 || height <= 0 || distance <= 0 || candidates == 0 {
            return Err(Error::InvalidConfiguration);
        }
        let configuration = Configuration { width, height, distance, jitter, candidates };
        Ok(PoissonSurface { configuration, queue: Vec::new(), points: Vec::new() })
    }

    /// The width of the domain.
    pub fn width(&self) -> (width: i32)
        ensures
            width == self@.width,
            width > 0,
    {
        proof {
            use_type_invariant(&self.configuration);
        }
        self.configuration.width
    }

    /// The height of the domain.
    pub fn height(&self) -> (height: i32)
        ensures
            height == self@.height,
            height > 0,
    {
        proof {
            use_type_invariant(&self.configuration);
        }
        self.configuration.height
    }

    /// The least distance allowed between two accepted points. Candidates
    /// are proposed no nearer to their seed than this.
    pub fn distance(&self) -> (distance: i32)
        ensures
            distance == self@.distance,
            distance > 0,
    {
        proof {
            use_type_invariant(&self.configuration);
        }
        self.configuration.distance
    }

    /// The factor by which the outer radius of the ring of proposals exceeds
    /// the separation.
    pub fn jitter(&self) -> (jitter: i32)
        ensures
            jitter == self@.jitter,
    {
        self.configuration.jitter
    }

    /// How many candidates are tried around a seed before it is given up.
    pub fn candidates(&self) -> (candidates: u32)
        ensures
            candidates == self@.candidates,
            candidates > 0,
    {
        proof {
            use_type_invariant(&self.configuration);
        }
        self.configuration.candidates
    }

    /// The accepted points, in the order in which they were accepted.
    pub fn points(&self) -> (points: &Vec<Point>)
        ensures
            points@ == self@.points,
    {
        &self.points
    }

    /// The seeds that steps may still be taken from, in storage order.
    pub fn queue(&self) -> (queue: &Vec<Point>)
        ensures
            queue@ == self@.queue,
    {
        &self.queue
    }

    /// The outer radius of the ring in which candidates are proposed around a
    /// seed: the separation times the jitter.
    pub fn outer_radius(&self) -> (radius: i64)
        ensures
            radius == self@.jitter * self@.distance,
    {
        let jitter: i64 = self.configuration.jitter as i64;
        let distance: i64 = self.configuration.distance as i64;
        assert(-0x4000_0000_0000_0000 <= jitter * distance <= 0x4000_0000_0000_0000)
            by (nonlinear_arith)
            requires
                -0x8000_0000 <= jitter <= 0x7FFF_FFFF,
                -0x8000_0000 <= distance <= 0x7FFF_FFFF,
        ;
        jitter * distance
    }

    /// A point of the domain, from two draws of `rng`: one over the width for
    /// x and one over the height for y.
    pub fn random_point(&self, rng: &mut XorShiftRng) -> (point: Point)
        ensures
            in_rectangle(point, self@.width, self@.height),
    {
        proof {
            use_type_invariant(&self.configuration);
        }
        let x: usize = random_below(rng, self.configuration.width as usize);
        let y: usize = random_below(rng, self.configuration.height as usize);
        Point::new(x as i32, y as i32)
    }

    /// Tries the offsets around `seed` in order, as many of them as the
    /// sampler tries candidates per seed, and returns the point that the first
    /// accepted one leads to: the first that lies in the domain with no
    /// accepted point too close.
    pub fn candidate_nearby(&self, seed: Point, offsets: &Vec<Offset>) -> (found: Option<Point>)
        ensures
            self@.yields(seed, offsets@, found),
    {
        let limit: usize = self.configuration.candidates as usize;
        let mut k: usize = 0;
        while k < offsets.len() && k < limit
            invariant
                limit == self@.candidates,
                0 <= k <= self@.attempts(offsets@),
                forall|j: int| 0 <= j < k ==> !self@.accepts(seed, #[trigger] offsets@[j]),
            decreases offsets@.len() - k,
        {
            if let Some(candidate) = seed.translated(offsets[k]) {
                if candidate.is_in_rectangle(self.configuration.width, self.configuration.height)
                    && !self.is_too_close(candidate) {
                    return Some(candidate);
                }
            }
            k += 1;
        }
        None
    }

    /// Accepts `point`: it becomes the last accepted point and the last seed
    /// of the queue. Nothing is tested: a point may be accepted twice.
    pub fn insert(&mut self, point: Point)
        ensures
            final(self)@ == old(self)@.inserted(point),
    {
        self.queue.push(point);
        self.points.push(point);
    }

    /// Whether an accepted point lies strictly closer to `candidate` than the
    /// separation.
    pub fn is_too_close(&self, candidate: Point) -> (close: bool)
        ensures
            close == too_close(self@.points, self@.distance, candidate),
    {
        is_too_close(&self.points, self.configuration.distance, candidate)
    }

    /// The accepted points, in the order in which they were accepted.
    pub fn points_iter(&self) -> (points: core::slice::Iter<'_, Point>)
        ensures
            vstd::std_specs::slice::into_iter_elts(points) == self@.points,
    {
        self.points.as_slice().iter()
    }

    /// The accepted points that lie strictly closer to `point` than the
    /// separation, in the order in which they were accepted.
    pub fn neighbours_iter(&self, point: Point) -> (near: Vec<Point>)
        ensures
            near@ == neighbours(self@.points, self@.distance, point),
    {
        neighbours_of(&self.points, self.configuration.distance, point)
    }

    /// One step from the seed at `index` of the queue: the seed leaves the
    /// queue, the offsets are tried around it, and it goes back to the end of
    /// the queue exactly if a candidate was found. The candidate is returned
    /// and is not accepted yet.
    pub fn generate_point_at(&mut self, index: usize, offsets: &Vec<Offset>) -> (found: Option<Point>)
        requires
            index < old(self)@.queue.len(),
        ensures
            old(self)@.steps_to(index as int, offsets@, found, final(self)@),
    {
        let seed: Point = pick_at(&mut self.queue, index);
        let found: Option<Point> = self.candidate_nearby(seed, offsets);
        if found.is_some() {
            self.queue.push(seed);
        }
        found
    }

    /// One step from a seed picked out of the queue by a draw of `rng` over
    /// its length. With an empty queue nothing is generated and nothing
    /// changes.
    pub fn generate_point(&mut self, rng: &mut XorShiftRng, offsets: &Vec<Offset>) -> (found: Option<Point>)
        ensures
            old(self)@.queue.len() == 0 ==> found is None && final(self)@ == old(self)@,
            old(self)@.queue.len() > 0 ==> exists|index: int| #[trigger]
                old(self)@.steps_to(index, offsets@, found, final(self)@),
    {
        if let Some(seed) = self.queue.pick(rng) {
            let ghost index = choose|index: int|
                0 <= index < old(self)@.queue.len() && seed == old(self)@.queue[index]
                    && self.queue@ == swap_removed(old(self)@.queue, index);
            let found: Option<Point> = self.candidate_nearby(seed, offsets);
            if found.is_some() {
                self.queue.push(seed);
            }
            assert(old(self)@.steps_to(index, offsets@, found, self@));
            return found;
        }
        None
    }

    /// Steps and accepts what the steps yield, one batch of offsets per step,
    /// until the queue is empty, two steps in a row have found nothing, or
    /// the batches are used up.
    ///
    /// The sampler ends where the steps taken lead, whatever seeds were
    /// drawn. The accepted points only grow, by points of the domain that
    /// were not too close to any point accepted before them: if they kept
    /// their distance and lay in the domain before, they do so afterwards,
    /// and are no more than the domain's capacity.
    pub fn fill(&mut self, rng: &mut XorShiftRng, batches: &Vec<Vec<Offset>>) -> (run: Run)
        ensures
            exists|taken: Seq<Taken>| #[trigger]
                old(self)@.runs_to(batches@, taken, final(self)@) && taken.len() == run.steps
                    && halts(taken, batches@.len() as int, final(self)@.queue.len() as int, run.halt),
            run.steps <= batches@.len(),
            final(self)@.same_configuration(old(self)@),
            grown(
                old(self)@.points,
                final(self)@.points,
                old(self)@.width,
                old(self)@.height,
                old(self)@.distance,
            ),
            final(self)@.points.len() - old(self)@.points.len() <= run.steps,
            separated(old(self)@.points, old(self)@.distance) ==> separated(
                final(self)@.points,
                old(self)@.distance,
            ),
            contained(old(self)@.points, old(self)@.width, old(self)@.height) ==> contained(
                final(self)@.points,
                old(self)@.width,
                old(self)@.height,
            ),
            separated(old(self)@.points, old(self)@.distance) && contained(
                old(self)@.points,
                old(self)@.width,
                old(self)@.height,
            ) ==> final(self)@.points.len() <= capacity(
                old(self)@.width,
                old(self)@.height,
                old(self)@.distance,
            ),
            old(self)@.queue_accepted() ==> final(self)@.queue_accepted(),
    {
        let ghost start = self@;
        let ghost mut taken: Seq<Taken> = Seq::empty();
        let mut misses: u8 = 0;
        let mut round: usize = 0;
        proof {
            use_type_invariant(&self.configuration);
        }
        while round < batches.len() && misses < 2 && !self.queue.is_empty()
            invariant
                round <= batches@.len(),
                taken.len() == round,
                start.runs_to(batches@, taken, self@),
                misses == trailing_misses(taken),
                forall|i: int| 1 <= i < taken.len() - 1 ==> !missed_twice(taken, i),
            decreases batches@.len() - round,
        {
            let ghost before = self@;
            let found: Option<Point> = self.generate_point(rng, &batches[round]);
            let ghost mid = self@;
            if let Some(point) = found {
                self.insert(point);
                misses = 0;
            } else {
                misses += 1;
            }
            round += 1;
            proof {
                let place = choose|place: int| #[trigger]
                    before.steps_to(place, batches@[round - 1]@, found, mid);
                let longer = taken.push(Taken { place, found });
                assert(longer.drop_last() =~= taken);
                assert(before.steps_to(
                    longer.last().place,
                    batches@[longer.len() - 1]@,
                    longer.last().found,
                    mid,
                ));
                assert(start.runs_to(batches@, longer, self@));
                assert forall|i: int| 1 <= i < longer.len() - 1 implies !missed_twice(
                    longer,
                    i,
                ) by {
                    if i < taken.len() - 1 {
                        assert(!missed_twice(taken, i));
                    }
                }
                taken = longer;
            }
        }
        let halt: Halt = if self.queue.is_empty() {
            Halt::Drained
        } else if misses >= 2 {
            Halt::Saturated
        } else {
            Halt::Spent
        };
        proof {
            lemma_run_grows(start, batches@, taken, self@);
            lemma_grown_facts(start, self@);
            if separated(start.points, start.distance) && contained(
                start.points,
                start.width,
                start.height,
            ) {
                lemma_capacity(self@.points, start.width, start.height, start.distance);
            }
        }
        Run { halt, steps: round }
    }
}

proof fn lemma_grown_facts(start: SurfaceView, end: SurfaceView)
    requires
        grown(start.points, end.points, start.width, start.height, start.distance),
    ensures
        separated(start.points, start.distance) ==> separated(end.points, start.distance),
        contained(start.points, start.width, start.height) ==> contained(
            end.points,
            start.width,
            start.height,
        ),
{
    if separated(start.points, start.distance) {
        lemma_grown_keeps_separation(
            start.points,
            end.points,
            start.width,
            start.height,
            start.distance,
        );
    }
    if contained(start.points, start.width, start.height) {
        lemma_grown_keeps_containment(
            start.points,
            end.points,
            start.width,
            start.height,
            start.distance,
        );
    }
}

} // verus!
