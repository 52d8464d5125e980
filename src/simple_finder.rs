use vstd::prelude::*;

use crate::neighbor_finder::{NeighborFinder, NeighborMap};
use crate::particles::{close_pair, id_pair, lemma_within_symmetric, CircularParticle, ID};

verus! {

/// Finds neighbors by testing every unordered pair of particles.
pub struct SimpleNeighborFinder;

/// The domain and interaction range of a brute-force query.
#[derive(Clone, Copy, Debug)]
pub struct SystemInfo {
    pub cyclic: bool,
    pub interaction_radius: u32,
    pub space_width: u32,
    pub space_height: u32,
}

/// Entries `i` and `j` are distinct and within reach under `system`.
pub open spec fn brute_force_close<P: CircularParticle>(
    ps: Seq<P>,
    system: SystemInfo,
    i: int,
    j: int,
) -> bool {
    close_pair(
        ps,
        i,
        j,
        system.interaction_radius as int,
        system.space_width as int,
        system.space_height as int,
        system.cyclic,
    )
}

/// The ordered id pairs of all pairs of distinct entries within reach.
pub open spec fn brute_force_pairs<P: CircularParticle>(ps: Seq<P>, system: SystemInfo) -> Set<
    (ID, ID),
> {
    Set::new(
        |p: (ID, ID)|
            exists|i: int, j: int| #[trigger]
                brute_force_close(ps, system, i, j) && id_pair(ps, i, j) == p,
    )
}

impl<P: CircularParticle> NeighborFinder<P, SystemInfo> for SimpleNeighborFinder {
    open spec fn accepts(particles: Seq<P>, system: SystemInfo) -> bool {
        true
    }

    open spec fn found(particles: Seq<P>, system: SystemInfo) -> Set<(ID, ID)> {
        brute_force_pairs(particles, system)
    }

    fn find_neighbors(particles: &[P], system: SystemInfo) -> (r: NeighborMap) {
        let ghost ps = particles@;
        let ghost found = brute_force_pairs(ps, system);
        let mut map = NeighborMap::default();
        let n = particles.len();
        let mut i: usize = 0;
        while i < n
            invariant
                n == ps.len(),
                ps == particles@,
                found == brute_force_pairs(ps, system),
                i <= n,
                forall|p: (ID, ID)| #[trigger] map@.contains(p) ==> found.contains(p),
                forall|k: int, l: int|
                    0 <= k < i && k < l && #[trigger] brute_force_close(ps, system, k, l)
                        ==> map@.contains(id_pair(ps, k, l)) && map@.contains(id_pair(ps, l, k)),
            decreases n - i,
        {
            let mut j: usize = i + 1;
            while j < n
                invariant
                    n == ps.len(),
                    ps == particles@,
                    found == brute_force_pairs(ps, system),
                    i < n,
                    i < j <= n,
                    forall|p: (ID, ID)| #[trigger] map@.contains(p) ==> found.contains(p),
                    forall|k: int, l: int|
                        (0 <= k < i || (k == i && l < j)) && k < l && #[trigger] brute_force_close(
                            ps,
                            system,
                            k,
                            l,
                        ) ==> map@.contains(id_pair(ps, k, l)) && map@.contains(
                            id_pair(ps, l, k),
                        ),
                decreases n - j,
            {
                let p = &particles[i];
                let q = &particles[j];
                if p.is_within_distance_of(
                    q,
                    system.interaction_radius,
                    system.space_width,
                    system.space_height,
                    system.cyclic,
                ) {
                    proof {
                        assert(brute_force_close(ps, system, i as int, j as int));
                        lemma_within_symmetric(
                            ps[i as int],
                            ps[j as int],
                            system.interaction_radius as int,
                            system.space_width as int,
                            system.space_height as int,
                            system.cyclic,
                        );
                        assert(brute_force_close(ps, system, j as int, i as int));
                    }
                    map.add_pair(p.get_id(), q.get_id());
                }
                j += 1;
            }
            i += 1;
        }
        proof {
            assert forall|p: (ID, ID)| found.contains(p) implies #[trigger] map@.contains(p) by {
                let (k, l) = choose|k: int, l: int| #[trigger]
                    brute_force_close(ps, system, k, l) && id_pair(ps, k, l) == p;
                if l < k {
                    lemma_within_symmetric(
                        ps[k],
                        ps[l],
                        system.interaction_radius as int,
                        system.space_width as int,
                        system.space_height as int,
                        system.cyclic,
                    );
                    assert(brute_force_close(ps, system, l, k));
                }
            }
            assert(map@ =~= found);
        }
        map
    }
}

} // verus!
