use cim::cim_finder::{self, CimNeighborFinder};
use cim::neighbor_finder::{NeighborFinder, NeighborMap};
use cim::particles::{has_unique_ids, CircularParticle, Particle, Position};
use cim::simple_finder::{self, SimpleNeighborFinder};

fn particle(id: usize, x: u32, y: u32, radius: u32) -> Particle {
    Particle {
        id,
        position: Position { x, y },
        radius,
    }
}

fn brute(ps: &[Particle], cyclic: bool, radius: u32, width: u32, height: u32) -> NeighborMap {
    SimpleNeighborFinder::find_neighbors(
        ps,
        simple_finder::SystemInfo {
            cyclic,
            interaction_radius: radius,
            space_width: width,
            space_height: height,
        },
    )
}

#[allow(clippy::too_many_arguments)]
fn cells(
    ps: &[Particle],
    cyclic: bool,
    radius: u32,
    width: u32,
    height: u32,
    columns: usize,
    rows: usize,
) -> NeighborMap {
    CimNeighborFinder::find_neighbors(
        ps,
        cim_finder::SystemInfo {
            cyclic,
            interaction_radius: radius,
            space_width: width,
            space_height: height,
            columns,
            rows,
        },
    )
}

/// All ordered pairs of ids in the map, for ids below `n`.
fn pairs(map: &NeighborMap, n: usize) -> Vec<(usize, usize)> {
    let mut out = Vec::new();
    for a in 0..n {
        for b in map.get_neighbors(a) {
            out.push((a, b));
        }
    }
    out
}

/// A small deterministic generator, so that the random fixtures repeat.
struct Lcg(u64);

impl Lcg {
    fn next(&mut self, bound: u32) -> u32 {
        self.0 = self.0.wrapping_mul(6364136223846793005).wrapping_add(1442695040888963407);
        ((self.0 >> 33) % bound as u64) as u32
    }
}

fn random_particles(seed: u64, n: usize, width: u32, height: u32, max_radius: u32) -> Vec<Particle> {
    let mut rng = Lcg(seed);
    (0..n)
        .map(|id| {
            let x = rng.next(width);
            let y = rng.next(height);
            let r = rng.next(max_radius + 1);
            particle(id, x, y, r)
        })
        .collect()
}

#[test]
fn scenario_four_particles() {
    let ps = vec![
        particle(0, 10, 10, 5),
        particle(1, 20, 10, 5),
        particle(2, 30, 20, 5),
        particle(3, 10, 40, 5),
    ];
    for map in [
        brute(&ps, false, 10, 100, 100),
        cells(&ps, false, 10, 100, 100, 10, 10),
    ] {
        // distance 10 <= 10 + 5 + 5
        assert!(map.has_pair(0, 1));
        assert!(map.has_pair(1, 0));
        // distance sqrt(500) > 20
        assert!(!map.has_pair(0, 2));
        assert!(!map.has_pair(2, 0));
        // distance sqrt(200) <= 20
        assert!(map.has_pair(1, 2));
        assert!(map.get_neighbors(3).is_empty());
        assert_eq!(map.get_neighbors(0), vec![1]);
        assert_eq!(map.get_neighbors(1), vec![0, 2]);
    }
}

#[test]
fn cyclic_wraparound() {
    let ps = vec![particle(0, 1, 50, 0), particle(1, 99, 50, 0)];
    assert!(brute(&ps, true, 5, 100, 100).has_pair(0, 1));
    assert!(!brute(&ps, false, 5, 100, 100).has_pair(0, 1));
    assert!(cells(&ps, true, 5, 100, 100, 10, 10).has_pair(0, 1));
    assert!(cells(&ps, true, 5, 100, 100, 10, 10).has_pair(1, 0));
    assert!(!cells(&ps, false, 5, 100, 100, 10, 10).has_pair(0, 1));
}

#[test]
fn cyclic_wraparound_vertical_and_diagonal() {
    let vertical = vec![particle(0, 50, 2, 1), particle(1, 50, 98, 1)];
    assert!(cells(&vertical, true, 2, 100, 100, 10, 10).has_pair(0, 1));
    assert!(!cells(&vertical, false, 2, 100, 100, 10, 10).has_pair(0, 1));
    let corner = vec![particle(0, 1, 1, 0), particle(1, 98, 98, 0)];
    // gaps of 3 on both axes through the corner: 9 + 9 <= 5 * 5
    assert!(brute(&corner, true, 5, 100, 100).has_pair(0, 1));
    assert!(cells(&corner, true, 5, 100, 100, 10, 10).has_pair(0, 1));
    assert!(!cells(&corner, false, 5, 100, 100, 10, 10).has_pair(0, 1));
}

#[test]
fn threshold_is_inclusive() {
    // centres 5 apart (3-4-5 triangle), radii 1 and 1
    let ps = vec![particle(0, 10, 10, 1), particle(1, 13, 14, 1)];
    assert!(brute(&ps, false, 3, 100, 100).has_pair(0, 1));
    assert!(cells(&ps, false, 3, 100, 100, 10, 10).has_pair(0, 1));
    assert!(!brute(&ps, false, 2, 100, 100).has_pair(0, 1));
    assert!(!cells(&ps, false, 2, 100, 100, 10, 10).has_pair(0, 1));
    // one unit further on one axis: 9 + 25 > 25
    let further = vec![particle(0, 10, 10, 1), particle(1, 13, 15, 1)];
    assert!(!brute(&further, false, 3, 100, 100).has_pair(0, 1));
    assert!(!cells(&further, false, 3, 100, 100, 10, 10).has_pair(0, 1));
}

#[test]
fn zero_interaction_radius_detects_overlap() {
    let ps = vec![
        particle(0, 10, 10, 3),
        particle(1, 15, 10, 2),
        particle(2, 30, 10, 2),
    ];
    for map in [brute(&ps, false, 0, 100, 100), cells(&ps, false, 0, 100, 100, 10, 10)] {
        assert!(map.has_pair(0, 1));
        assert!(!map.has_pair(1, 2));
        assert!(!map.has_pair(0, 2));
    }
}

#[test]
fn empty_and_singleton() {
    let none: Vec<Particle> = Vec::new();
    let one = vec![particle(7, 5, 5, 100)];
    for ps in [&none, &one] {
        for map in [
            brute(ps, false, 10, 100, 100),
            brute(ps, true, 10, 100, 100),
            cells(ps, false, 10, 100, 100, 10, 10),
            cells(ps, true, 10, 100, 100, 1, 1),
        ] {
            assert!(pairs(&map, 10).is_empty());
            assert!(map.get_neighbors(7).is_empty());
            assert!(!map.has_pair(7, 7));
        }
    }
}

#[test]
fn repeated_query_same_pairs() {
    let ps = random_particles(11, 150, 1000, 1000, 5);
    let first = cells(&ps, true, 20, 1000, 1000, 33, 33);
    let second = cells(&ps, true, 20, 1000, 1000, 33, 33);
    assert_eq!(pairs(&first, 150), pairs(&second, 150));
    let first = brute(&ps, false, 20, 1000, 1000);
    let second = brute(&ps, false, 20, 1000, 1000);
    assert_eq!(pairs(&first, 150), pairs(&second, 150));
}

#[test]
fn results_are_symmetric_and_irreflexive() {
    let ps = random_particles(3, 200, 500, 500, 6);
    for map in [
        brute(&ps, true, 15, 500, 500),
        cells(&ps, true, 15, 500, 500, 18, 18),
        cells(&ps, false, 15, 500, 500, 18, 18),
    ] {
        let all = pairs(&map, 200);
        assert!(!all.is_empty());
        for &(a, b) in &all {
            assert_ne!(a, b);
            assert!(map.has_pair(b, a));
        }
    }
}

fn check_equivalence(seed: u64, n: usize, width: u32, height: u32, max_radius: u32, radius: u32) {
    let ps = random_particles(seed, n, width, height, max_radius);
    let reach = (radius + 2 * max_radius).max(1);
    let columns = ((width / reach) as usize).max(1);
    let rows = ((height / reach) as usize).max(1);
    for cyclic in [false, true] {
        let expected = pairs(&brute(&ps, cyclic, radius, width, height), n);
        let got = pairs(&cells(&ps, cyclic, radius, width, height, columns, rows), n);
        assert_eq!(expected, got, "seed {seed} n {n} cyclic {cyclic}");
    }
}

#[test]
fn cell_index_agrees_with_brute_force() {
    check_equivalence(1, 0, 100, 100, 2, 5);
    check_equivalence(2, 1, 100, 100, 2, 5);
    check_equivalence(3, 60, 100, 100, 2, 5);
    check_equivalence(4, 300, 1000, 1000, 4, 10);
    check_equivalence(5, 500, 2000, 700, 10, 0);
    check_equivalence(6, 250, 300, 300, 20, 40);
    check_equivalence(7, 120, 50, 90, 0, 3);
}

#[test]
fn single_cell_grid_matches_brute_force() {
    let ps = random_particles(9, 80, 100, 100, 3);
    for cyclic in [false, true] {
        let expected = pairs(&brute(&ps, cyclic, 8, 100, 100), 80);
        for (columns, rows) in [(1, 1), (1, 2), (2, 1), (2, 2), (3, 3)] {
            let got = pairs(&cells(&ps, cyclic, 8, 100, 100, columns, rows), 80);
            assert_eq!(expected, got, "grid {columns}x{rows} cyclic {cyclic}");
        }
    }
}

#[test]
fn coarse_grid_misses_only_far_cells() {
    // cells 10 wide, reach 20: the pair two cells apart is not examined
    let ps = vec![particle(0, 5, 5, 0), particle(1, 24, 5, 0)];
    assert!(brute(&ps, false, 20, 100, 100).has_pair(0, 1));
    assert!(!cells(&ps, false, 20, 100, 100, 10, 10).has_pair(0, 1));
}

#[test]
fn particle_outside_domain_has_no_neighbors() {
    let ps = vec![
        particle(0, 99, 50, 1),
        particle(1, 100, 50, 1),
        particle(2, 101, 50, 1),
    ];
    let map = cells(&ps, false, 5, 100, 100, 10, 10);
    assert!(map.get_neighbors(1).is_empty());
    assert!(map.get_neighbors(2).is_empty());
    assert!(map.get_neighbors(0).is_empty());
}

#[test]
fn ids_need_not_follow_positions() {
    let ps = vec![
        particle(42, 10, 10, 1),
        particle(7, 12, 10, 1),
        particle(1000, 11, 11, 1),
    ];
    for map in [brute(&ps, false, 1, 100, 100), cells(&ps, false, 1, 100, 100, 10, 10)] {
        assert_eq!(map.get_neighbors(42), vec![7, 1000]);
        assert_eq!(map.get_neighbors(7), vec![42, 1000]);
        assert_eq!(map.get_neighbors(1000), vec![7, 42]);
    }
}

#[test]
fn unique_ids_are_detected() {
    let ps = vec![particle(0, 1, 1, 1), particle(1, 2, 2, 1), particle(2, 3, 3, 1)];
    assert!(has_unique_ids(&ps));
    let dup = vec![particle(0, 1, 1, 1), particle(1, 2, 2, 1), particle(0, 3, 3, 1)];
    assert!(!has_unique_ids(&dup));
    let none: Vec<Particle> = Vec::new();
    assert!(has_unique_ids(&none));
}

#[test]
fn system_validity() {
    let ok = cim_finder::SystemInfo {
        cyclic: false,
        interaction_radius: 1,
        space_width: 10,
        space_height: 10,
        columns: 2,
        rows: 3,
    };
    assert!(ok.is_valid());
    assert!(!cim_finder::SystemInfo { rows: 0, ..ok }.is_valid());
    assert!(!cim_finder::SystemInfo { columns: 0, ..ok }.is_valid());
    assert!(!cim_finder::SystemInfo { space_width: 0, ..ok }.is_valid());
    assert!(!cim_finder::SystemInfo { space_height: 0, ..ok }.is_valid());
}

#[test]
fn within_distance_minimum_image() {
    let a = particle(0, 2, 2, 1);
    let b = particle(1, 18, 2, 1);
    // direct gap 16, wrapped gap 4 in a domain 20 wide
    assert!(a.is_within_distance_of(&b, 2, 20, 20, true));
    assert!(!a.is_within_distance_of(&b, 1, 20, 20, true));
    assert!(!a.is_within_distance_of(&b, 2, 20, 20, false));
    assert!(a.is_within_distance_of(&b, 14, 20, 20, false));
    assert_eq!(a.get_id(), 0);
    assert_eq!(b.get_position(), Position { x: 18, y: 2 });
    assert_eq!(b.get_radius(), 1);
}
