use poisson::{Error, Halt, Offset, Point, PoissonSurface};
use rand::{Rng, SeedableRng, XorShiftRng};

fn ring(rng: &mut XorShiftRng, inner: i32, outer: i32, count: usize) -> Vec<Offset> {
    let mut offsets = Vec::new();
    while offsets.len() < count {
        let dx = rng.gen_range(-outer, outer + 1);
        let dy = rng.gen_range(-outer, outer + 1);
        let squared = dx * dx + dy * dy;
        if inner * inner <= squared && squared <= outer * outer {
            offsets.push(Offset { dx, dy });
        }
    }
    offsets
}

fn squared_distance(a: &Point, b: &Point) -> i64 {
    let dx = (a.x - b.x) as i64;
    let dy = (a.y - b.y) as i64;
    dx * dx + dy * dy
}

fn keeps_distance(points: &[Point], separation: i64) -> bool {
    for i in 0..points.len() {
        for j in 0..i {
            if squared_distance(&points[i], &points[j]) < separation * separation {
                return false;
            }
        }
    }
    true
}

#[test]
fn test_surface() {
    let mut rng = rand::weak_rng();
    let mut s = PoissonSurface::default();
    assert!(s.candidates() == 10);
    assert!(s.random_point(&mut rng).is_in_rectangle(s.width(), s.height()));

    assert!(s.points_iter().collect::<Vec<&Point>>().is_empty());

    let first = Point::new(50, 50);
    let second = Point::new(45, 55);

    s.insert(first);
    assert!(s.points_iter().count() == 1);
    assert!(s.points_iter().collect::<Vec<&Point>>().contains(&&first));
    assert!(s.is_too_close(second));

    s.insert(second);
    let n = s.neighbours_iter(first);
    assert!(n.len() == 2);
    assert!(n.contains(&first));
    assert!(n.contains(&second));

    let offsets = ring(&mut rng, 10, 20, 10);
    if let Some(c) = s.candidate_nearby(first, &offsets) {
        assert!(!s.is_too_close(c));
    }
}

#[test]
fn default_is_640_by_480_with_separation_10() {
    let s = PoissonSurface::default();
    assert_eq!(s.width(), 640);
    assert_eq!(s.height(), 480);
    assert_eq!(s.distance(), 10);
    assert_eq!(s.jitter(), 2);
    assert_eq!(s.candidates(), 10);
    assert_eq!(s.outer_radius(), 20);
    assert!(s.points().is_empty());
    assert!(s.queue().is_empty());
}

#[test]
fn new_keeps_its_parameters() {
    let s = PoissonSurface::new(64000, 48000, 1000, 3, 7).unwrap();
    assert_eq!(s.width(), 64000);
    assert_eq!(s.height(), 48000);
    assert_eq!(s.distance(), 1000);
    assert_eq!(s.jitter(), 3);
    assert_eq!(s.candidates(), 7);
    assert_eq!(s.outer_radius(), 3000);
    assert!(s.points().is_empty());
    assert!(s.queue().is_empty());
}

#[test]
fn outer_radius_of_the_largest_parameters() {
    let s = PoissonSurface::new(1, 1, i32::MAX, i32::MAX, 1).unwrap();
    assert_eq!(s.outer_radius(), (i32::MAX as i64) * (i32::MAX as i64));
    let t = PoissonSurface::new(1, 1, i32::MAX, i32::MIN, 1).unwrap();
    assert_eq!(t.outer_radius(), (i32::MAX as i64) * (i32::MIN as i64));
}

#[test]
fn new_rejects_a_width_that_is_not_positive() {
    assert_eq!(PoissonSurface::new(0, 480, 10, 2, 10).err(), Some(Error::InvalidConfiguration));
    assert_eq!(PoissonSurface::new(-640, 480, 10, 2, 10).err(), Some(Error::InvalidConfiguration));
}

#[test]
fn new_rejects_a_height_that_is_not_positive() {
    assert_eq!(PoissonSurface::new(640, 0, 10, 2, 10).err(), Some(Error::InvalidConfiguration));
    assert_eq!(PoissonSurface::new(640, -1, 10, 2, 10).err(), Some(Error::InvalidConfiguration));
}

#[test]
fn new_rejects_a_distance_that_is_not_positive() {
    assert_eq!(PoissonSurface::new(640, 480, 0, 2, 10).err(), Some(Error::InvalidConfiguration));
    assert_eq!(PoissonSurface::new(640, 480, -10, 2, 10).err(), Some(Error::InvalidConfiguration));
}

#[test]
fn new_rejects_zero_candidates() {
    assert_eq!(PoissonSurface::new(640, 480, 10, 2, 0).err(), Some(Error::InvalidConfiguration));
}

#[test]
fn new_accepts_the_smallest_configuration() {
    assert!(PoissonSurface::new(1, 1, 1, 0, 1).is_ok());
}

#[test]
fn seed_is_listed_and_shadows_its_surroundings() {
    let mut s = PoissonSurface::new(64000, 48000, 1000, 2, 10).unwrap();
    s.insert(Point::new(50, 50));
    let listed: Vec<&Point> = s.points_iter().collect();
    assert_eq!(listed, vec![&Point::new(50, 50)]);
    assert!(s.is_too_close(Point::new(55, 45)));
}

#[test]
fn neighbours_of_a_point_hold_the_point_and_what_is_near() {
    let mut s = PoissonSurface::new(640, 480, 10, 2, 10).unwrap();
    let first = Point::new(50, 50);
    let second = Point::new(45, 55);
    s.insert(first);
    s.insert(second);
    assert_eq!(s.neighbours_iter(first), vec![first, second]);
}

#[test]
fn neighbours_come_in_the_order_of_acceptance() {
    let mut s = PoissonSurface::new(640, 480, 10, 2, 10).unwrap();
    let far = Point::new(300, 300);
    let a = Point::new(103, 100);
    let b = Point::new(100, 100);
    let c = Point::new(100, 109);
    let edge = Point::new(110, 100);
    for p in [far, a, edge, b, c] {
        s.insert(p);
    }
    assert_eq!(s.neighbours_iter(Point::new(100, 100)), vec![a, b, c]);
    assert_eq!(s.neighbours_iter(Point::new(300, 305)), vec![far]);
    assert_eq!(s.neighbours_iter(Point::new(200, 200)), Vec::<Point>::new());
}

#[test]
fn a_point_at_exactly_the_distance_is_not_too_close() {
    let mut s = PoissonSurface::new(640, 480, 10, 2, 10).unwrap();
    s.insert(Point::new(100, 100));
    assert!(!s.is_too_close(Point::new(110, 100)));
    assert!(!s.is_too_close(Point::new(106, 108)));
    assert!(s.is_too_close(Point::new(109, 100)));
    assert!(s.is_too_close(Point::new(106, 107)));
    assert!(s.is_too_close(Point::new(100, 100)));
}

#[test]
fn nothing_is_too_close_to_an_empty_sampler() {
    let s = PoissonSurface::default();
    assert!(!s.is_too_close(Point::new(0, 0)));
    assert!(s.neighbours_iter(Point::new(0, 0)).is_empty());
}

#[test]
fn insert_appends_to_points_and_queue() {
    let mut s = PoissonSurface::default();
    s.insert(Point::new(1, 2));
    s.insert(Point::new(300, 400));
    assert_eq!(s.points(), &vec![Point::new(1, 2), Point::new(300, 400)]);
    assert_eq!(s.queue(), &vec![Point::new(1, 2), Point::new(300, 400)]);
}

#[test]
fn insert_tests_nothing() {
    let mut s = PoissonSurface::default();
    s.insert(Point::new(-5, 9000));
    assert_eq!(s.points(), &vec![Point::new(-5, 9000)]);
}

#[test]
fn inserting_twice_gives_two_entries() {
    let mut s = PoissonSurface::default();
    let p = Point::new(50, 50);
    s.insert(p);
    assert!(s.is_too_close(p));
    s.insert(p);
    assert_eq!(s.points_iter().count(), 2);
    assert_eq!(s.points(), &vec![p, p]);
    assert_eq!(s.queue(), &vec![p, p]);
    assert!(!keeps_distance(s.points(), 10));
}

#[test]
fn candidate_nearby_takes_the_first_accepted_offset() {
    let mut s = PoissonSurface::new(640, 480, 10, 2, 10).unwrap();
    let seed = Point::new(5, 5);
    s.insert(seed);
    s.insert(Point::new(25, 5));
    let offsets = vec![
        Offset { dx: -10, dy: 0 },
        Offset { dx: 9, dy: 0 },
        Offset { dx: 12, dy: 0 },
        Offset { dx: 0, dy: 10 },
        Offset { dx: 10, dy: 0 },
    ];
    assert_eq!(s.candidate_nearby(seed, &offsets), Some(Point::new(5, 15)));
    assert_eq!(s.points().len(), 2);
}

#[test]
fn candidate_nearby_tries_no_more_than_the_candidates() {
    let mut s = PoissonSurface::new(640, 480, 10, 2, 2).unwrap();
    let seed = Point::new(5, 5);
    s.insert(seed);
    let offsets = vec![
        Offset { dx: -10, dy: 0 },
        Offset { dx: 0, dy: -10 },
        Offset { dx: 10, dy: 0 },
    ];
    assert_eq!(s.candidate_nearby(seed, &offsets), None);
    assert_eq!(s.candidate_nearby(seed, &offsets[1..].to_vec()), Some(Point::new(15, 5)));
}

#[test]
fn candidate_nearby_without_offsets_finds_nothing() {
    let mut s = PoissonSurface::default();
    s.insert(Point::new(5, 5));
    assert_eq!(s.candidate_nearby(Point::new(5, 5), &Vec::new()), None);
}

#[test]
fn candidate_nearby_skips_what_leaves_the_lattice() {
    let s = PoissonSurface::new(i32::MAX, i32::MAX, 10, 2, 10).unwrap();
    let seed = Point::new(i32::MAX - 1, 7);
    let offsets = vec![Offset { dx: 5, dy: 0 }, Offset { dx: -20, dy: 3 }];
    assert_eq!(s.candidate_nearby(seed, &offsets), Some(Point::new(i32::MAX - 21, 10)));
}

#[test]
fn candidate_nearby_holds_x_against_width() {
    let s = PoissonSurface::new(640, 480, 10, 2, 10).unwrap();
    let seed = Point::new(470, 100);
    assert_eq!(
        s.candidate_nearby(seed, &vec![Offset { dx: 20, dy: 0 }]),
        Some(Point::new(490, 100))
    );
    let low = Point::new(100, 470);
    assert_eq!(s.candidate_nearby(low, &vec![Offset { dx: 0, dy: 20 }]), None);
}

#[test]
fn step_with_a_candidate_puts_the_seed_back_last() {
    let mut s = PoissonSurface::new(640, 480, 10, 2, 10).unwrap();
    let a = Point::new(100, 100);
    let b = Point::new(200, 100);
    let c = Point::new(300, 100);
    for p in [a, b, c] {
        s.insert(p);
    }
    let found = s.generate_point_at(0, &vec![Offset { dx: 5, dy: 0 }, Offset { dx: 0, dy: 15 }]);
    assert_eq!(found, Some(Point::new(100, 115)));
    assert_eq!(s.queue(), &vec![c, b, a]);
    assert_eq!(s.points(), &vec![a, b, c]);
}

#[test]
fn step_without_a_candidate_drops_the_seed() {
    let mut s = PoissonSurface::new(640, 480, 10, 2, 10).unwrap();
    let a = Point::new(100, 100);
    let b = Point::new(200, 100);
    let c = Point::new(300, 100);
    for p in [a, b, c] {
        s.insert(p);
    }
    let found = s.generate_point_at(1, &vec![Offset { dx: 5, dy: 0 }, Offset { dx: 0, dy: -400 }]);
    assert_eq!(found, None);
    assert_eq!(s.queue(), &vec![a, c]);
    assert_eq!(s.points(), &vec![a, b, c]);
    let found = s.generate_point_at(1, &Vec::new());
    assert_eq!(found, None);
    assert_eq!(s.queue(), &vec![a]);
}

#[test]
fn step_from_an_empty_queue_generates_nothing() {
    let mut rng = rand::weak_rng();
    let mut s = PoissonSurface::default();
    assert_eq!(s.generate_point(&mut rng, &vec![Offset { dx: 10, dy: 0 }]), None);
    assert!(s.points().is_empty());
    assert!(s.queue().is_empty());
}

#[test]
fn step_does_not_accept_what_it_generates() {
    let mut rng = rand::weak_rng();
    let mut s = PoissonSurface::default();
    let seed = Point::new(320, 240);
    s.insert(seed);
    let found = s.generate_point(&mut rng, &vec![Offset { dx: 10, dy: 0 }]);
    assert_eq!(found, Some(Point::new(330, 240)));
    assert_eq!(s.points(), &vec![seed]);
    assert_eq!(s.queue(), &vec![seed]);
}

#[test]
fn step_that_fails_on_the_only_seed_ends_the_run() {
    let mut rng = rand::weak_rng();
    let mut s = PoissonSurface::default();
    s.insert(Point::new(320, 240));
    assert_eq!(s.generate_point(&mut rng, &vec![Offset { dx: 3, dy: 0 }]), None);
    assert!(s.queue().is_empty());
    assert_eq!(s.generate_point(&mut rng, &vec![Offset { dx: 10, dy: 0 }]), None);
    assert_eq!(s.points().len(), 1);
}

#[test]
fn generated_points_are_in_the_domain_and_keep_their_distance() {
    let mut rng = XorShiftRng::from_seed([3, 1, 4, 1]);
    let mut s = PoissonSurface::new(200, 100, 10, 2, 10).unwrap();
    let seed = s.random_point(&mut rng);
    s.insert(seed);
    for _ in 0..2000 {
        let offsets = ring(&mut rng, 10, 20, 10);
        if let Some(point) = s.generate_point(&mut rng, &offsets) {
            assert!(point.is_in_rectangle(200, 100));
            assert!(!s.is_too_close(point));
            s.insert(point);
        }
    }
    assert!(s.points().len() > 50);
    assert!(keeps_distance(s.points(), 10));
    assert!(s.points().iter().all(|p| p.is_in_rectangle(200, 100)));
    assert!(s.queue().iter().all(|q| s.points().contains(q)));
}

#[test]
fn random_points_lie_in_the_domain() {
    let mut rng = XorShiftRng::from_seed([5, 6, 7, 8]);
    let s = PoissonSurface::new(3, 2, 1, 2, 1).unwrap();
    let mut seen = [[false; 2]; 3];
    for _ in 0..500 {
        let p = s.random_point(&mut rng);
        assert!(p.is_in_rectangle(3, 2));
        seen[p.x as usize][p.y as usize] = true;
    }
    assert!(seen.iter().all(|column| column.iter().all(|&hit| hit)));
}

#[test]
fn random_point_of_a_single_cell_is_the_origin() {
    let mut rng = rand::weak_rng();
    let s = PoissonSurface::new(1, 1, 1, 2, 1).unwrap();
    assert_eq!(s.random_point(&mut rng), Point::origin());
}

#[test]
fn same_seeds_give_the_same_points() {
    let mut first_rng = XorShiftRng::from_seed([10, 20, 30, 40]);
    let mut second_rng = XorShiftRng::from_seed([10, 20, 30, 40]);
    let mut first = PoissonSurface::default();
    let mut second = PoissonSurface::default();
    let a = first.random_point(&mut first_rng);
    let b = second.random_point(&mut second_rng);
    assert_eq!(a, b);
    first.insert(a);
    second.insert(b);
    for _ in 0..500 {
        let first_offsets = ring(&mut first_rng, 10, 20, 10);
        let second_offsets = ring(&mut second_rng, 10, 20, 10);
        let x = first.generate_point(&mut first_rng, &first_offsets);
        let y = second.generate_point(&mut second_rng, &second_offsets);
        assert_eq!(x, y);
        if let Some(point) = x {
            first.insert(point);
            second.insert(point);
        }
    }
    assert_eq!(first.points(), second.points());
    assert_eq!(first.queue(), second.queue());
    assert!(first.points().len() > 10);
}

#[test]
fn same_step_from_the_same_state_gives_the_same() {
    let offsets = vec![Offset { dx: 3, dy: 3 }, Offset { dx: -12, dy: 9 }, Offset { dx: 14, dy: 0 }];
    let mut first = PoissonSurface::default();
    let mut second = PoissonSurface::default();
    for p in [Point::new(100, 100), Point::new(88, 109), Point::new(400, 400)] {
        first.insert(p);
        second.insert(p);
    }
    let x = first.generate_point_at(0, &offsets);
    let y = second.generate_point_at(0, &offsets);
    assert_eq!(x, Some(Point::new(114, 100)));
    assert_eq!(x, y);
    assert_eq!(first.queue(), second.queue());
}

#[test]
fn fill_saturates_a_small_domain() {
    let mut rng = XorShiftRng::from_seed([2, 7, 1, 8]);
    let mut s = PoissonSurface::new(60, 40, 10, 2, 10).unwrap();
    let seed = s.random_point(&mut rng);
    s.insert(seed);
    let batches: Vec<Vec<Offset>> = (0..5000).map(|_| ring(&mut rng, 10, 20, 10)).collect();
    let run = s.fill(&mut rng, &batches);
    assert!(run.steps <= 5000);
    assert!(s.points().len() - 1 <= run.steps);
    assert_eq!(run.halt == Halt::Drained, s.queue().is_empty());
    assert!(run.halt != Halt::Spent);
    assert!(keeps_distance(s.points(), 10));
    assert!(s.points().iter().all(|p| p.is_in_rectangle(60, 40)));
    assert_eq!(s.points()[0], seed);
    assert!(s.points().len() >= 6);
    assert!(s.points().len() <= 12 * 8);
}

#[test]
fn fill_without_a_seed_is_drained_at_once() {
    let mut rng = rand::weak_rng();
    let mut s = PoissonSurface::default();
    let run = s.fill(&mut rng, &vec![vec![Offset { dx: 10, dy: 0 }]]);
    assert_eq!(run.halt, Halt::Drained);
    assert_eq!(run.steps, 0);
    assert!(s.points().is_empty());
}

#[test]
fn fill_without_batches_is_spent_at_once() {
    let mut rng = rand::weak_rng();
    let mut s = PoissonSurface::default();
    s.insert(Point::new(5, 5));
    let run = s.fill(&mut rng, &Vec::new());
    assert_eq!(run.halt, Halt::Spent);
    assert_eq!(run.steps, 0);
    assert_eq!(s.points(), &vec![Point::new(5, 5)]);
    assert_eq!(s.queue(), &vec![Point::new(5, 5)]);
}

#[test]
fn fill_stops_when_the_batches_are_used_up() {
    let mut rng = rand::weak_rng();
    let mut s = PoissonSurface::default();
    s.insert(Point::new(100, 100));
    let batches = vec![
        vec![Offset { dx: 10, dy: 0 }],
        vec![Offset { dx: 0, dy: 100 }],
        vec![Offset { dx: 0, dy: 50 }],
    ];
    let run = s.fill(&mut rng, &batches);
    assert_eq!(run.halt, Halt::Spent);
    assert_eq!(run.steps, 3);
    assert_eq!(s.points().len(), 4);
    assert_eq!(s.points()[1], Point::new(110, 100));
    assert!(keeps_distance(s.points(), 10));
}

#[test]
fn fill_stops_after_two_misses_in_a_row() {
    let mut rng = rand::weak_rng();
    let mut s = PoissonSurface::default();
    for p in [Point::new(100, 100), Point::new(200, 100), Point::new(300, 100)] {
        s.insert(p);
    }
    let miss = vec![Offset { dx: 1, dy: 1 }];
    let batches = vec![miss.clone(), miss.clone(), miss.clone(), miss];
    let run = s.fill(&mut rng, &batches);
    assert_eq!(run.halt, Halt::Saturated);
    assert_eq!(run.steps, 2);
    assert_eq!(s.points().len(), 3);
    assert_eq!(s.queue().len(), 1);
}

#[test]
fn fill_drains_a_queue_of_one_after_one_miss() {
    let mut rng = rand::weak_rng();
    let mut s = PoissonSurface::default();
    s.insert(Point::new(100, 100));
    let miss = vec![Offset { dx: 1, dy: 1 }];
    let run = s.fill(&mut rng, &vec![miss.clone(), miss]);
    assert_eq!(run.halt, Halt::Drained);
    assert_eq!(run.steps, 1);
    assert!(s.queue().is_empty());
}
