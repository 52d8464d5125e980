use std::collections::BTreeSet;

use vstd::prelude::*;

verus! {

/// Identity of a particle, unique within one query.
pub type ID = usize;

/// A point of the domain in fixed-point length units.
///
/// Coordinates are unsigned: the domain spans `[0, width) x [0, height)`.
#[derive(Clone, Copy, Debug, PartialEq, Eq, Structural)]
pub struct Position {
    pub x: u32,
    pub y: u32,
}

/// Distance along one axis between two coordinates, taking the shortcut
/// through the opposite edge when the domain wraps and the direct way is
/// longer than half the extent.
pub open spec fn axis_gap(a: int, b: int, extent: int, cyclic: bool) -> int {
    let d = if a >= b {
        a - b
    } else {
        b - a
    };
    if cyclic && 2 * d > extent {
        extent - d
    } else {
        d
    }
}

/// Two circles at `p` and `q` lie within the gap `radius` of each other:
/// the (minimum-image) distance of their centres is at most
/// `radius + rp + rq`.
pub open spec fn within_reach(
    p: Position,
    rp: int,
    q: Position,
    rq: int,
    radius: int,
    width: int,
    height: int,
    cyclic: bool,
) -> bool {
    let gx = axis_gap(p.x as int, q.x as int, width, cyclic);
    let gy = axis_gap(p.y as int, q.y as int, height, cyclic);
    let reach = radius + rp + rq;
    gx * gx + gy * gy <= reach * reach
}

/// The capability the neighbor finders need from a particle record:
/// its identity, the position of its centre and its radius.
pub trait CircularParticle: Sized {
    spec fn spec_id(&self) -> ID;

    spec fn spec_position(&self) -> Position;

    spec fn spec_radius(&self) -> u32;

    fn get_id(&self) -> (r: ID)
        ensures
            r == self.spec_id(),
    ;

    fn get_position(&self) -> (r: Position)
        ensures
            r == self.spec_position(),
    ;

    fn get_radius(&self) -> (r: u32)
        ensures
            r == self.spec_radius(),
    ;

    /// Whether `self` and `other` are within the gap `radius` of each other
    /// in a domain of the given extents.
    fn is_within_distance_of(
        &self,
        other: &Self,
        radius: u32,
        space_width: u32,
        space_height: u32,
        cyclic: bool,
    ) -> (r: bool)
        ensures
            r == within_reach(
                self.spec_position(),
                self.spec_radius() as int,
                other.spec_position(),
                other.spec_radius() as int,
                radius as int,
                space_width as int,
                space_height as int,
                cyclic,
            ),
    {
        let p = self.get_position();
        let q = other.get_position();
        let gx = axis_gap_exec(p.x, q.x, space_width, cyclic);
        let gy = axis_gap_exec(p.y, q.y, space_height, cyclic);
        let reach: i128 = radius as i128 + self.get_radius() as i128 + other.get_radius() as i128;
        proof {
            lemma_square_bound(gx as int);
            lemma_square_bound(gy as int);
            assert(0 <= reach * reach <= 0x10_0000_0000_0000_0000) by (nonlinear_arith)
                requires
                    0 <= reach < 0x3_0000_0000,
            ;
        }
        gx * gx + gy * gy <= reach * reach
    }
}

/// `within_reach` for two particles.
pub open spec fn particles_within<P: CircularParticle>(
    p: P,
    q: P,
    radius: int,
    width: int,
    height: int,
    cyclic: bool,
) -> bool {
    within_reach(
        p.spec_position(),
        p.spec_radius() as int,
        q.spec_position(),
        q.spec_radius() as int,
        radius,
        width,
        height,
        cyclic,
    )
}

/// Particles `i` and `j` of `ps` are two distinct entries within reach of
/// each other.
pub open spec fn close_pair<P: CircularParticle>(
    ps: Seq<P>,
    i: int,
    j: int,
    radius: int,
    width: int,
    height: int,
    cyclic: bool,
) -> bool {
    &&& 0 <= i < ps.len()
    &&& 0 <= j < ps.len()
    &&& i != j
    &&& particles_within(ps[i], ps[j], radius, width, height, cyclic)
}

/// The ids of entries `i` and `j` of `ps`, as an ordered pair.
pub open spec fn id_pair<P: CircularParticle>(ps: Seq<P>, i: int, j: int) -> (ID, ID) {
    (ps[i].spec_id(), ps[j].spec_id())
}

/// All ids of `ps` are distinct.
pub open spec fn unique_ids<P: CircularParticle>(ps: Seq<P>) -> bool {
    forall|i: int, j: int|
        0 <= i < ps.len() && 0 <= j < ps.len() && i != j ==> #[trigger] ps[i].spec_id()
            != #[trigger] ps[j].spec_id()
}

/// Whether all ids of `particles` are distinct.
pub fn has_unique_ids<P: CircularParticle>(particles: &[P]) -> (r: bool)
    ensures
        r == unique_ids(particles@),
{
    let ghost ps = particles@;
    let mut seen: BTreeSet<ID> = BTreeSet::new();
    let n = particles.len();
    let mut i: usize = 0;
    while i < n
        invariant
            ps == particles@,
            n == ps.len(),
            i <= n,
            forall|id: ID|
                #[trigger] seen@.contains(id) <==> exists|k: int|
                    0 <= k < i && #[trigger] ps[k].spec_id() == id,
            unique_ids(ps.take(i as int)),
        decreases n - i,
    {
        let id = particles[i].get_id();
        if seen.contains(&id) {
            proof {
                let k = choose|k: int| 0 <= k < i && #[trigger] ps[k].spec_id() == id;
                assert(ps[k].spec_id() == ps[i as int].spec_id());
            }
            return false;
        }
        seen.insert(id);
        proof {
            assert forall|a: int, b: int|
                0 <= a < i + 1 && 0 <= b < i + 1 && a != b implies #[trigger] ps.take(
                i + 1,
            )[a].spec_id() != #[trigger] ps.take(i + 1)[b].spec_id() by {
                if a < i && b < i {
                    assert(ps.take(i as int)[a] == ps[a]);
                    assert(ps.take(i as int)[b] == ps[b]);
                } else if a == i {
                    assert(!seen@.contains(ps[b].spec_id()) || b < i);
                }
            }
        }
        i += 1;
    }
    assert(ps.take(n as int) =~= ps);
    true
}

/// The relation is the same whichever particle is named first.
pub proof fn lemma_within_symmetric<P: CircularParticle>(
    p: P,
    q: P,
    radius: int,
    width: int,
    height: int,
    cyclic: bool,
)
    ensures
        particles_within(p, q, radius, width, height, cyclic) == particles_within(
            q,
            p,
            radius,
            width,
            height,
            cyclic,
        ),
{
}

proof fn lemma_square_bound(g: int)
    requires
        -0x1_0000_0000 < g < 0x1_0000_0000,
    ensures
        0 <= g * g < 0x1_0000_0000_0000_0000,
{
    assert(0 <= g * g < 0x1_0000_0000_0000_0000) by (nonlinear_arith)
        requires
            -0x1_0000_0000 < g < 0x1_0000_0000,
    ;
}

/// Executable `axis_gap` on the coordinates of one axis.
fn axis_gap_exec(a: u32, b: u32, extent: u32, cyclic: bool) -> (r: i128)
    ensures
        r == axis_gap(a as int, b as int, extent as int, cyclic),
        -0x1_0000_0000 < r < 0x1_0000_0000,
{
    let d: i128 = if a >= b {
        (a - b) as i128
    } else {
        (b - a) as i128
    };
    if cyclic && 2 * d > extent as i128 {
        extent as i128 - d
    } else {
        d
    }
}

/// A plain particle record: identity, centre and radius.
#[derive(Clone, Copy, Debug, PartialEq, Eq, Structural)]
pub struct Particle {
    pub id: ID,
    pub position: Position,
    pub radius: u32,
}

impl CircularParticle for Particle {
    open spec fn spec_id(&self) -> ID {
        self.id
    }

    open spec fn spec_position(&self) -> Position {
        self.position
    }

    open spec fn spec_radius(&self) -> u32 {
        self.radius
    }

    fn get_id(&self) -> (r: ID) {
        self.id
    }

    fn get_position(&self) -> (r: Position) {
        self.position
    }

    fn get_radius(&self) -> (r: u32) {
        self.radius
    }
}

} // verus!
