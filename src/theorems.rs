//! Properties of the relations the two finders report.
use vstd::arithmetic::div_mod::{lemma_fundamental_div_mod, lemma_mod_bound};
use vstd::arithmetic::mul::{
    lemma_mul_inequality, lemma_mul_strict_inequality, lemma_mul_strict_inequality_converse,
};
use vstd::prelude::*;

use crate::cim_finder::{
    as_brute_force, axis_near, band, cell_of, cim_close, cim_pairs, grid_ok, lemma_cell_in_grid,
    shift, SystemInfo,
};
use crate::neighbor_finder::{is_irreflexive, is_symmetric, NeighborFinder, NeighborMap};
use crate::particles::{axis_gap, id_pair, lemma_within_symmetric, unique_ids, CircularParticle, ID};
use crate::simple_finder::{self, brute_force_close, brute_force_pairs};

verus! {

/// Every centre lies in the domain `[0, width) x [0, height)`.
pub open spec fn in_domain<P: CircularParticle>(ps: Seq<P>, system: SystemInfo) -> bool {
    forall|i: int|
        0 <= i < ps.len() ==> {
            let pos = #[trigger] ps[i].spec_position();
            pos.x < system.space_width && pos.y < system.space_height
        }
}

/// Cells are at least as wide and as high as the reach of any particle
/// towards one of the same radius: `interaction_radius + 2 * radius`.
pub open spec fn grid_fits<P: CircularParticle>(ps: Seq<P>, system: SystemInfo) -> bool {
    forall|i: int|
        0 <= i < ps.len() ==> {
            let reach = system.interaction_radius + 2 * #[trigger] ps[i].spec_radius();
            &&& reach * system.columns <= system.space_width
            &&& reach * system.rows <= system.space_height
        }
}

proof fn lemma_band_bounds(v: int, count: int, extent: int)
    requires
        0 <= v < extent,
        count > 0,
    ensures
        band(v, count, extent) * extent <= v * count < band(v, count, extent) * extent + extent,
        0 <= band(v, count, extent) < count,
{
    let c = band(v, count, extent);
    lemma_fundamental_div_mod(v * count, extent);
    lemma_mod_bound(v * count, extent);
    assert(c * extent == extent * c) by (nonlinear_arith);
    assert(v * count >= 0) by (nonlinear_arith)
        requires
            v >= 0,
            count > 0,
    ;
    lemma_mul_strict_inequality(v, extent, count);
    assert(extent * count == count * extent) by (nonlinear_arith);
    if c >= count {
        lemma_mul_inequality(count, c, extent);
    }
    if c < 0 {
        lemma_mul_inequality(c, -1, extent);
    }
}

/// Two coordinates no further apart than a band's width lie in the same or
/// in neighbouring bands.
proof fn lemma_axis_near(a: int, b: int, count: int, extent: int, cyclic: bool, reach: int)
    requires
        0 <= a < extent,
        0 <= b < extent,
        count > 0,
        axis_gap(a, b, extent, cyclic) <= reach,
        reach * count <= extent,
    ensures
        axis_near(band(a, count, extent), band(b, count, extent), count, cyclic),
{
    let ca = band(a, count, extent);
    let cb = band(b, count, extent);
    lemma_band_bounds(a, count, extent);
    lemma_band_bounds(b, count, extent);
    let d = if a >= b {
        a - b
    } else {
        b - a
    };
    if cyclic && 2 * d > extent {
        lemma_mul_inequality(extent - d, reach, count);
        assert((extent - d) * count == extent * count - d * count) by (nonlinear_arith);
        if a < b {
            assert(d * count == b * count - a * count) by (nonlinear_arith)
                requires
                    d == b - a,
            ;
            // cb * extent + extent > b * count >= a * count + (count - 1) * extent
            assert((ca + count - 1) * extent < (cb + 1) * extent) by (nonlinear_arith)
                requires
                    ca * extent <= a * count,
                    b * count < cb * extent + extent,
                    b * count - a * count >= extent * count - extent,
            ;
            lemma_mul_strict_inequality_converse(ca + count - 1, cb + 1, extent);
            assert(shift(ca, -1, count, cyclic) == Some(cb));
        } else {
            assert(d * count == a * count - b * count) by (nonlinear_arith)
                requires
                    d == a - b,
            ;
            assert((cb + count - 1) * extent < (ca + 1) * extent) by (nonlinear_arith)
                requires
                    cb * extent <= b * count,
                    a * count < ca * extent + extent,
                    a * count - b * count >= extent * count - extent,
            ;
            lemma_mul_strict_inequality_converse(cb + count - 1, ca + 1, extent);
            assert(shift(ca, 1, count, cyclic) == Some(cb));
        }
    } else {
        lemma_mul_inequality(d, reach, count);
        if a >= b {
            assert(d * count == a * count - b * count) by (nonlinear_arith)
                requires
                    d == a - b,
            ;
            assert((ca - 1) * extent < (cb + 1) * extent) by (nonlinear_arith)
                requires
                    ca * extent <= a * count,
                    b * count < cb * extent + extent,
                    a * count - b * count <= extent,
            ;
            lemma_mul_strict_inequality_converse(ca - 1, cb + 1, extent);
            lemma_mul_inequality(b, a, count);
            assert(cb * extent < (ca + 1) * extent) by (nonlinear_arith)
                requires
                    cb * extent <= b * count,
                    b * count <= a * count,
                    a * count < ca * extent + extent,
            ;
            lemma_mul_strict_inequality_converse(cb, ca + 1, extent);
        } else {
            assert(d * count == b * count - a * count) by (nonlinear_arith)
                requires
                    d == b - a,
            ;
            assert((cb - 1) * extent < (ca + 1) * extent) by (nonlinear_arith)
                requires
                    cb * extent <= b * count,
                    a * count < ca * extent + extent,
                    b * count - a * count <= extent,
            ;
            lemma_mul_strict_inequality_converse(cb - 1, ca + 1, extent);
            lemma_mul_inequality(a, b, count);
            assert(ca * extent < (cb + 1) * extent) by (nonlinear_arith)
                requires
                    ca * extent <= a * count,
                    a * count <= b * count,
                    b * count < cb * extent + extent,
            ;
            lemma_mul_strict_inequality_converse(ca, cb + 1, extent);
        }
        assert(-1 <= cb - ca <= 1);
        if cb == ca - 1 {
            assert(shift(ca, -1, count, cyclic) == Some(cb));
        } else if cb == ca {
            assert(shift(ca, 0, count, cyclic) == Some(cb));
        } else {
            assert(shift(ca, 1, count, cyclic) == Some(cb));
        }
    }
}

/// For particles inside the domain, on a grid whose cells are at least as
/// large as the interaction reach, the cell index method reports exactly the
/// pairs that the brute-force method reports.
pub proof fn lemma_cim_matches_brute_force<P: CircularParticle>(ps: Seq<P>, system: SystemInfo)
    requires
        grid_ok(system),
        in_domain(ps, system),
        grid_fits(ps, system),
    ensures
        cim_pairs(ps, system) == brute_force_pairs(ps, as_brute_force(system)),
{
    let bsys = as_brute_force(system);
    assert forall|p: (ID, ID)| #[trigger]
        brute_force_pairs(ps, bsys).contains(p) implies cim_pairs(ps, system).contains(p) by {
        let (i, j) = choose|i: int, j: int| #[trigger]
            brute_force_close(ps, bsys, i, j) && id_pair(ps, i, j) == p;
        lemma_close_in_same_or_touching_cells(ps, system, i, j);
        assert(cim_close(ps, system, i, j));
    }
    assert forall|p: (ID, ID)| #[trigger]
        cim_pairs(ps, system).contains(p) implies brute_force_pairs(ps, bsys).contains(p) by {
        let (i, j) = choose|i: int, j: int| #[trigger]
            cim_close(ps, system, i, j) && id_pair(ps, i, j) == p;
        assert(brute_force_close(ps, bsys, i, j));
    }
    assert(cim_pairs(ps, system) =~= brute_force_pairs(ps, bsys));
}

proof fn lemma_close_in_same_or_touching_cells<P: CircularParticle>(
    ps: Seq<P>,
    system: SystemInfo,
    i: int,
    j: int,
)
    requires
        grid_ok(system),
        in_domain(ps, system),
        grid_fits(ps, system),
        brute_force_close(ps, as_brute_force(system), i, j),
    ensures
        cim_close(ps, system, i, j),
{
    let p = ps[i].spec_position();
    let q = ps[j].spec_position();
    let w = system.space_width as int;
    let h = system.space_height as int;
    let gx = axis_gap(p.x as int, q.x as int, w, system.cyclic);
    let gy = axis_gap(p.y as int, q.y as int, h, system.cyclic);
    let reach = system.interaction_radius + ps[i].spec_radius() + ps[j].spec_radius();
    let ri = system.interaction_radius + 2 * ps[i].spec_radius();
    let rj = system.interaction_radius + 2 * ps[j].spec_radius();
    let wide = if ri >= rj {
        ri
    } else {
        rj
    };
    assert(gx >= 0 && gy >= 0);
    assert(gx <= reach && gy <= reach) by (nonlinear_arith)
        requires
            gx >= 0,
            gy >= 0,
            reach >= 0,
            gx * gx + gy * gy <= reach * reach,
    ;
    assert(reach <= wide);
    lemma_mul_inequality(reach, wide, system.columns as int);
    lemma_mul_inequality(reach, wide, system.rows as int);
    lemma_axis_near(p.x as int, q.x as int, system.columns as int, w, system.cyclic, reach);
    lemma_axis_near(p.y as int, q.y as int, system.rows as int, h, system.cyclic, reach);
    lemma_band_bounds(p.x as int, system.columns as int, w);
    lemma_band_bounds(q.x as int, system.columns as int, w);
    lemma_band_bounds(p.y as int, system.rows as int, h);
    lemma_band_bounds(q.y as int, system.rows as int, h);
}

/// The brute-force relation holds in both directions.
pub proof fn lemma_brute_force_symmetric<P: CircularParticle>(
    ps: Seq<P>,
    system: simple_finder::SystemInfo,
)
    ensures
        is_symmetric(brute_force_pairs(ps, system)),
{
    assert forall|a: ID, b: ID| #[trigger]
        brute_force_pairs(ps, system).contains((a, b)) implies brute_force_pairs(
        ps,
        system,
    ).contains((b, a)) by {
        let (i, j) = choose|i: int, j: int| #[trigger]
            brute_force_close(ps, system, i, j) && id_pair(ps, i, j) == (a, b);
        lemma_within_symmetric(
            ps[i],
            ps[j],
            system.interaction_radius as int,
            system.space_width as int,
            system.space_height as int,
            system.cyclic,
        );
        assert(brute_force_close(ps, system, j, i));
    }
}

/// The cell-index relation holds in both directions.
pub proof fn lemma_cim_symmetric<P: CircularParticle>(ps: Seq<P>, system: SystemInfo)
    requires
        grid_ok(system),
    ensures
        is_symmetric(cim_pairs(ps, system)),
{
    assert forall|a: ID, b: ID| #[trigger]
        cim_pairs(ps, system).contains((a, b)) implies cim_pairs(ps, system).contains((b, a)) by {
        let (i, j) = choose|i: int, j: int| #[trigger]
            cim_close(ps, system, i, j) && id_pair(ps, i, j) == (a, b);
        lemma_cim_close_symmetric(ps, system, i, j);
        assert(cim_close(ps, system, j, i));
    }
}

proof fn lemma_cim_close_symmetric<P: CircularParticle>(
    ps: Seq<P>,
    system: SystemInfo,
    i: int,
    j: int,
)
    requires
        grid_ok(system),
        cim_close(ps, system, i, j),
    ensures
        cim_close(ps, system, j, i),
{
    lemma_within_symmetric(
        ps[i],
        ps[j],
        system.interaction_radius as int,
        system.space_width as int,
        system.space_height as int,
        system.cyclic,
    );
    lemma_cell_in_grid(ps[i], system);
    lemma_cell_in_grid(ps[j], system);
    let c = cell_of(ps[i], system).unwrap();
    let d = cell_of(ps[j], system).unwrap();
    lemma_axis_near_symmetric(c.0 as int, d.0 as int, system.rows as int, system.cyclic);
    lemma_axis_near_symmetric(c.1 as int, d.1 as int, system.columns as int, system.cyclic);
}

proof fn lemma_axis_near_symmetric(a: int, b: int, n: int, cyclic: bool)
    requires
        0 <= a < n,
        0 <= b < n,
        axis_near(a, b, n, cyclic),
    ensures
        axis_near(b, a, n, cyclic),
{
}

/// With distinct ids, no particle is reported as its own neighbor.
pub proof fn lemma_irreflexive<P: CircularParticle>(
    ps: Seq<P>,
    system: SystemInfo,
    brute_system: simple_finder::SystemInfo,
)
    requires
        unique_ids(ps),
    ensures
        is_irreflexive(brute_force_pairs(ps, brute_system)),
        is_irreflexive(cim_pairs(ps, system)),
{
    assert forall|a: ID| !#[trigger] brute_force_pairs(ps, brute_system).contains((a, a)) by {
        if brute_force_pairs(ps, brute_system).contains((a, a)) {
            let (i, j) = choose|i: int, j: int| #[trigger]
                brute_force_close(ps, brute_system, i, j) && id_pair(ps, i, j) == (a, a);
            assert(ps[i].spec_id() != ps[j].spec_id());
        }
    }
    assert forall|a: ID| !#[trigger] cim_pairs(ps, system).contains((a, a)) by {
        if cim_pairs(ps, system).contains((a, a)) {
            let (i, j) = choose|i: int, j: int| #[trigger]
                cim_close(ps, system, i, j) && id_pair(ps, i, j) == (a, a);
            assert(ps[i].spec_id() != ps[j].spec_id());
        }
    }
}

/// Fewer than two particles have no pairs.
pub proof fn lemma_fewer_than_two_particles<P: CircularParticle>(
    ps: Seq<P>,
    system: SystemInfo,
    brute_system: simple_finder::SystemInfo,
)
    requires
        ps.len() <= 1,
    ensures
        brute_force_pairs(ps, brute_system) == Set::<(ID, ID)>::empty(),
        cim_pairs(ps, system) == Set::<(ID, ID)>::empty(),
{
    assert forall|p: (ID, ID)| !#[trigger] brute_force_pairs(ps, brute_system).contains(p) by {
        if brute_force_pairs(ps, brute_system).contains(p) {
            let (i, j) = choose|i: int, j: int| #[trigger]
                brute_force_close(ps, brute_system, i, j) && id_pair(ps, i, j) == p;
        }
    }
    assert forall|p: (ID, ID)| !#[trigger] cim_pairs(ps, system).contains(p) by {
        if cim_pairs(ps, system).contains(p) {
            let (i, j) = choose|i: int, j: int| #[trigger]
                cim_close(ps, system, i, j) && id_pair(ps, i, j) == p;
        }
    }
    assert(brute_force_pairs(ps, brute_system) =~= Set::<(ID, ID)>::empty());
    assert(cim_pairs(ps, system) =~= Set::<(ID, ID)>::empty());
}

/// A query depends on its particles and system alone: two runs of the same
/// finder on the same input report the same pairs.
pub proof fn lemma_query_repeatable<P: CircularParticle, S, F: NeighborFinder<P, S>>(
    ps: Seq<P>,
    system: S,
    first: NeighborMap,
    second: NeighborMap,
)
    requires
        first@ == F::found(ps, system),
        second@ == F::found(ps, system),
    ensures
        first@ == second@,
{
}

/// Two particles are neighbors exactly when the squared distance of their
/// centres is at most the squared reach: a distance equal to
/// `interaction_radius + r_a + r_b` counts, any larger one does not.
pub proof fn lemma_threshold_inclusive<P: CircularParticle>(
    a: P,
    b: P,
    system: simple_finder::SystemInfo,
)
    ensures
        ({
            let pa = a.spec_position();
            let pb = b.spec_position();
            let gx = axis_gap(pa.x as int, pb.x as int, system.space_width as int, system.cyclic);
            let gy = axis_gap(pa.y as int, pb.y as int, system.space_height as int, system.cyclic);
            let reach = system.interaction_radius + a.spec_radius() + b.spec_radius();
            brute_force_pairs(seq![a, b], system).contains((a.spec_id(), b.spec_id())) <==> gx * gx
                + gy * gy <= reach * reach
        }),
{
    let ps = seq![a, b];
    lemma_within_symmetric(
        a,
        b,
        system.interaction_radius as int,
        system.space_width as int,
        system.space_height as int,
        system.cyclic,
    );
    if brute_force_pairs(ps, system).contains((a.spec_id(), b.spec_id())) {
        let (i, j) = choose|i: int, j: int| #[trigger]
            brute_force_close(ps, system, i, j) && id_pair(ps, i, j) == (a.spec_id(), b.spec_id());
        assert((i == 0 && j == 1) || (i == 1 && j == 0));
    } else {
        assert(!brute_force_close(ps, system, 0, 1));
    }
}

} // verus!
