use std::collections::BTreeMap;

use vstd::prelude::*;

use crate::neighbor_finder::{is_symmetric, NeighborFinder, NeighborMap};
use crate::particles::{
    close_pair, id_pair, lemma_within_symmetric, particles_within, unique_ids, CircularParticle, ID,
};
use crate::simple_finder;

verus! {

/// Finds neighbors with the cell index method: particles are bucketed into a
/// uniform grid and each one is only tested against the particles of its own
/// cell and of a fixed half of the surrounding cells.
pub struct CimNeighborFinder;

/// The domain, interaction range and grid resolution of a cell-index query.
#[derive(Clone, Copy, Debug)]
pub struct SystemInfo {
    pub cyclic: bool,
    pub interaction_radius: u32,
    pub space_width: u32,
    pub space_height: u32,
    pub columns: usize,
    pub rows: usize,
}

impl SystemInfo {
    /// Whether the grid has at least one row and one column and the domain a
    /// positive width and height.
    pub fn is_valid(&self) -> (r: bool)
        ensures
            r == grid_ok(*self),
    {
        self.rows > 0 && self.columns > 0 && self.space_width > 0 && self.space_height > 0
    }
}

/// A cell of the grid as `(row, column)`.
pub type Cell = (usize, usize);

/// The same domain and range, without the grid.
pub open spec fn as_brute_force(system: SystemInfo) -> simple_finder::SystemInfo {
    simple_finder::SystemInfo {
        cyclic: system.cyclic,
        interaction_radius: system.interaction_radius,
        space_width: system.space_width,
        space_height: system.space_height,
    }
}

/// A grid with at least one row and one column over a domain of positive
/// extent.
pub open spec fn grid_ok(system: SystemInfo) -> bool {
    &&& system.rows > 0
    &&& system.columns > 0
    &&& system.space_width > 0
    &&& system.space_height > 0
}

/// The band holding coordinate `v` when `extent` is cut into `count` equal
/// bands: `floor(v / (extent / count))`.
pub open spec fn band(v: int, count: int, extent: int) -> int {
    (v * count) / extent
}

/// The cell holding the centre of `p`, if it lies in the grid.
pub open spec fn cell_of<P: CircularParticle>(p: P, system: SystemInfo) -> Option<Cell> {
    let row = band(p.spec_position().y as int, system.rows as int, system.space_height as int);
    let col = band(p.spec_position().x as int, system.columns as int, system.space_width as int);
    if row < system.rows && col < system.columns {
        Some((row as usize, col as usize))
    } else {
        None
    }
}

/// Index `a` moved by `d` on an axis of `n` cells: modulo `n` when the
/// domain wraps, and off the grid (`None`) past an edge otherwise.
pub open spec fn shift(a: int, d: int, n: int, cyclic: bool) -> Option<int> {
    let b = a + d;
    if cyclic {
        if b < 0 {
            Some(b + n)
        } else if b >= n {
            Some(b - n)
        } else {
            Some(b)
        }
    } else if 0 <= b < n {
        Some(b)
    } else {
        None
    }
}

/// The half-stencil, as `(row, column)` offsets: the own cell and four of
/// its eight surrounding cells, no two of which are opposite.
pub open spec fn stencil(k: int) -> (int, int) {
    if k == 0 {
        (0, 0)
    } else if k == 1 {
        (1, 0)
    } else if k == 2 {
        (1, 1)
    } else if k == 3 {
        (0, 1)
    } else {
        (-1, 1)
    }
}

/// Number of offsets in the half-stencil.
pub const STENCIL_LEN: usize = 5;

/// The cell reached from `c` by stencil offset `k`, if any.
pub open spec fn stencil_target(c: Cell, k: int, system: SystemInfo) -> Option<Cell> {
    let (dr, dc) = stencil(k);
    let r = shift(c.0 as int, dr, system.rows as int, system.cyclic);
    let col = shift(c.1 as int, dc, system.columns as int, system.cyclic);
    if r is Some && col is Some {
        Some((r.unwrap() as usize, col.unwrap() as usize))
    } else {
        None
    }
}

/// Indices `a` and `b` are at most one cell apart on an axis of `n` cells.
pub open spec fn axis_near(a: int, b: int, n: int, cyclic: bool) -> bool {
    ||| shift(a, -1, n, cyclic) == Some(b)
    ||| shift(a, 0, n, cyclic) == Some(b)
    ||| shift(a, 1, n, cyclic) == Some(b)
}

/// Cells `c` and `d` are equal or touch, by a side or a corner.
pub open spec fn cells_adjacent(c: Cell, d: Cell, system: SystemInfo) -> bool {
    &&& axis_near(c.0 as int, d.0 as int, system.rows as int, system.cyclic)
    &&& axis_near(c.1 as int, d.1 as int, system.columns as int, system.cyclic)
}

/// Entries `i` and `j` are distinct, within reach, and lie in grid cells that
/// are equal or touch.
pub open spec fn cim_close<P: CircularParticle>(
    ps: Seq<P>,
    system: SystemInfo,
    i: int,
    j: int,
) -> bool {
    &&& close_pair(
        ps,
        i,
        j,
        system.interaction_radius as int,
        system.space_width as int,
        system.space_height as int,
        system.cyclic,
    )
    &&& cell_of(ps[i], system) is Some
    &&& cell_of(ps[j], system) is Some
    &&& cells_adjacent(cell_of(ps[i], system).unwrap(), cell_of(ps[j], system).unwrap(), system)
}

/// The ordered id pairs that the cell index method reports.
pub open spec fn cim_pairs<P: CircularParticle>(ps: Seq<P>, system: SystemInfo) -> Set<(ID, ID)> {
    Set::new(
        |p: (ID, ID)|
            exists|i: int, j: int| #[trigger] cim_close(ps, system, i, j) && id_pair(ps, i, j) == p,
    )
}

/// The scan from entry `i` through stencil offset `k` accepts entry `j`: it
/// lies in the cell reached, that cell is another one than `i`'s or `j` has
/// the larger id, and the two are within reach.
pub open spec fn visits<P: CircularParticle>(
    ps: Seq<P>,
    system: SystemInfo,
    i: int,
    j: int,
    k: int,
) -> bool {
    &&& 0 <= i < ps.len()
    &&& 0 <= j < ps.len()
    &&& 0 <= k < STENCIL_LEN
    &&& cell_of(ps[i], system) is Some
    &&& cell_of(ps[j], system) is Some
    &&& stencil_target(cell_of(ps[i], system).unwrap(), k, system) == cell_of(ps[j], system)
    &&& (cell_of(ps[j], system) != cell_of(ps[i], system) || ps[j].spec_id() > ps[i].spec_id())
    &&& particles_within(
        ps[i],
        ps[j],
        system.interaction_radius as int,
        system.space_width as int,
        system.space_height as int,
        system.cyclic,
    )
}

/// `cells` holds in the bucket of each cell exactly the entries below `upto`
/// whose centre lies in that cell.
pub open spec fn buckets_hold<P: CircularParticle>(
    cells: Map<Cell, Vec<usize>>,
    ps: Seq<P>,
    system: SystemInfo,
    upto: int,
) -> bool {
    &&& forall|c: Cell, t: int|
        cells.contains_key(c) && 0 <= t < cells[c]@.len() ==> {
            let j = #[trigger] cells[c]@[t];
            &&& j < upto
            &&& cell_of(ps[j as int], system) == Some(c)
        }
    &&& forall|j: int|
        0 <= j < upto && (#[trigger] cell_of(ps[j], system)) is Some ==> {
            let c = cell_of(ps[j], system).unwrap();
            cells.contains_key(c) && cells[c]@.contains(j as usize)
        }
}

proof fn lemma_band_nonneg(v: int, count: int, extent: int)
    requires
        v >= 0,
        count >= 0,
        extent > 0,
    ensures
        band(v, count, extent) >= 0,
{
    assert(v * count >= 0) by (nonlinear_arith)
        requires
            v >= 0,
            count >= 0,
    ;
}

/// The cell of a particle, when it has one, is a cell of the grid.
pub proof fn lemma_cell_in_grid<P: CircularParticle>(p: P, system: SystemInfo)
    requires
        grid_ok(system),
    ensures
        cell_of(p, system) matches Some(c) ==> c.0 < system.rows && c.1 < system.columns,
{
    lemma_band_nonneg(p.spec_position().y as int, system.rows as int, system.space_height as int);
    lemma_band_nonneg(p.spec_position().x as int, system.columns as int, system.space_width as int);
}

proof fn lemma_shift_range(a: int, d: int, n: int, cyclic: bool)
    requires
        0 <= a < n,
        -1 <= d <= 1,
    ensures
        shift(a, d, n, cyclic) matches Some(b) ==> 0 <= b < n,
        cyclic ==> shift(a, d, n, cyclic) is Some,
{
}

proof fn lemma_shift_inverse(a: int, d: int, n: int, cyclic: bool)
    requires
        0 <= a < n,
        -1 <= d <= 1,
        shift(a, d, n, cyclic) is Some,
    ensures
        shift(shift(a, d, n, cyclic).unwrap(), -d, n, cyclic) == Some(a),
{
}

/// A cell reached through the stencil touches the cell it was reached from.
proof fn lemma_stencil_adjacent(c: Cell, k: int, system: SystemInfo)
    requires
        c.0 < system.rows,
        c.1 < system.columns,
        0 <= k < STENCIL_LEN,
        stencil_target(c, k, system) is Some,
    ensures
        cells_adjacent(c, stencil_target(c, k, system).unwrap(), system),
        stencil_target(c, k, system).unwrap().0 < system.rows,
        stencil_target(c, k, system).unwrap().1 < system.columns,
{
    let (dr, dc) = stencil(k);
    lemma_shift_range(c.0 as int, dr, system.rows as int, system.cyclic);
    lemma_shift_range(c.1 as int, dc, system.columns as int, system.cyclic);
}

/// Of two touching cells, one reaches the other through the stencil.
proof fn lemma_adjacent_reached(c: Cell, d: Cell, system: SystemInfo) -> (r: (int, bool))
    requires
        c.0 < system.rows,
        c.1 < system.columns,
        d.0 < system.rows,
        d.1 < system.columns,
        cells_adjacent(c, d, system),
    ensures
        0 <= r.0 < STENCIL_LEN,
        r.1 ==> stencil_target(c, r.0, system) == Some(d),
        !r.1 ==> stencil_target(d, r.0, system) == Some(c),
{
    let rows = system.rows as int;
    let cols = system.columns as int;
    let cy = system.cyclic;
    let dr: int = if shift(c.0 as int, -1, rows, cy) == Some(d.0 as int) {
        -1
    } else if shift(c.0 as int, 0, rows, cy) == Some(d.0 as int) {
        0
    } else {
        1
    };
    let dc: int = if shift(c.1 as int, -1, cols, cy) == Some(d.1 as int) {
        -1
    } else if shift(c.1 as int, 0, cols, cy) == Some(d.1 as int) {
        0
    } else {
        1
    };
    lemma_shift_inverse(c.0 as int, dr, rows, cy);
    lemma_shift_inverse(c.1 as int, dc, cols, cy);
    if dr == 0 && dc == 0 {
        (0, true)
    } else if dr == 1 && dc == 0 {
        (1, true)
    } else if dr == 1 && dc == 1 {
        (2, true)
    } else if dr == 0 && dc == 1 {
        (3, true)
    } else if dr == -1 && dc == 1 {
        (4, true)
    } else if dr == -1 && dc == 0 {
        (1, false)
    } else if dr == -1 && dc == -1 {
        (2, false)
    } else if dr == 0 && dc == -1 {
        (3, false)
    } else {
        (4, false)
    }
}

/// What the scan accepts is a pair of the relation, in both directions.
proof fn lemma_visit_close<P: CircularParticle>(
    ps: Seq<P>,
    system: SystemInfo,
    i: int,
    j: int,
    k: int,
)
    requires
        grid_ok(system),
        visits(ps, system, i, j, k),
    ensures
        cim_close(ps, system, i, j),
        cim_close(ps, system, j, i),
{
    let c = cell_of(ps[i], system).unwrap();
    let d = cell_of(ps[j], system).unwrap();
    lemma_cell_in_grid(ps[i], system);
    lemma_cell_in_grid(ps[j], system);
    lemma_stencil_adjacent(c, k, system);
    let (k2, forward) = lemma_adjacent_reached(c, d, system);
    lemma_within_symmetric(
        ps[i],
        ps[j],
        system.interaction_radius as int,
        system.space_width as int,
        system.space_height as int,
        system.cyclic,
    );
    // touching is symmetric
    lemma_shift_inverse(c.0 as int, stencil(k).0, system.rows as int, system.cyclic);
    lemma_shift_inverse(c.1 as int, stencil(k).1, system.columns as int, system.cyclic);
}

/// Each pair of the relation is accepted by the scan from one of its two
/// entries.
proof fn lemma_close_visited<P: CircularParticle>(
    ps: Seq<P>,
    system: SystemInfo,
    i: int,
    j: int,
) -> (r: (int, bool))
    requires
        grid_ok(system),
        unique_ids(ps),
        cim_close(ps, system, i, j),
    ensures
        r.1 ==> visits(ps, system, i, j, r.0),
        !r.1 ==> visits(ps, system, j, i, r.0),
{
    let c = cell_of(ps[i], system).unwrap();
    let d = cell_of(ps[j], system).unwrap();
    lemma_cell_in_grid(ps[i], system);
    lemma_cell_in_grid(ps[j], system);
    lemma_within_symmetric(
        ps[i],
        ps[j],
        system.interaction_radius as int,
        system.space_width as int,
        system.space_height as int,
        system.cyclic,
    );
    if c == d {
        assert(stencil_target(c, 0, system) == Some(c));
        assert(ps[i].spec_id() != ps[j].spec_id());
        (0, ps[j].spec_id() > ps[i].spec_id())
    } else {
        lemma_adjacent_reached(c, d, system)
    }
}

/// `shift` on an executable index and an offset of -1, 0 or 1.
fn shift_index(a: usize, d: i8, n: usize, cyclic: bool) -> (r: Option<usize>)
    requires
        a < n,
        -1 <= d <= 1,
    ensures
        match r {
            Some(b) => shift(a as int, d as int, n as int, cyclic) == Some(b as int),
            None => shift(a as int, d as int, n as int, cyclic) is None,
        },
{
    if d < 0 {
        if a > 0 {
            Some(a - 1)
        } else if cyclic {
            Some(n - 1)
        } else {
            None
        }
    } else if d > 0 {
        if a + 1 < n {
            Some(a + 1)
        } else if cyclic {
            Some(0)
        } else {
            None
        }
    } else {
        Some(a)
    }
}

/// The cell reached from `c` by stencil offset `k`.
fn stencil_cell(c: Cell, k: usize, system: &SystemInfo) -> (r: Option<Cell>)
    requires
        c.0 < system.rows,
        c.1 < system.columns,
        k < STENCIL_LEN,
    ensures
        r == stencil_target(c, k as int, *system),
{
    let (dr, dc): (i8, i8) = if k == 0 {
        (0, 0)
    } else if k == 1 {
        (1, 0)
    } else if k == 2 {
        (1, 1)
    } else if k == 3 {
        (0, 1)
    } else {
        (-1, 1)
    };
    let row = shift_index(c.0, dr, system.rows, system.cyclic);
    let col = shift_index(c.1, dc, system.columns, system.cyclic);
    match (row, col) {
        (Some(r), Some(cl)) => Some((r, cl)),
        _ => None,
    }
}

/// The cell holding the centre of `p`.
fn cell_index<P: CircularParticle>(p: &P, system: &SystemInfo) -> (r: Option<Cell>)
    requires
        grid_ok(*system),
    ensures
        r == cell_of(*p, *system),
{
    let pos = p.get_position();
    proof {
        assert(pos.y as int * system.rows as int <= 0xffff_ffff * 0xffff_ffff_ffff_ffff)
            by (nonlinear_arith)
            requires
                pos.y <= 0xffff_ffff,
                system.rows <= 0xffff_ffff_ffff_ffff,
        ;
        assert(pos.x as int * system.columns as int <= 0xffff_ffff * 0xffff_ffff_ffff_ffff)
            by (nonlinear_arith)
            requires
                pos.x <= 0xffff_ffff,
                system.columns <= 0xffff_ffff_ffff_ffff,
        ;
    }
    let row = (pos.y as u128 * system.rows as u128) / system.space_height as u128;
    let col = (pos.x as u128 * system.columns as u128) / system.space_width as u128;
    if row < system.rows as u128 && col < system.columns as u128 {
        Some((row as usize, col as usize))
    } else {
        None
    }
}

/// Buckets every particle whose centre lies in the grid into its cell.
fn build_grid<P: CircularParticle>(particles: &[P], system: &SystemInfo) -> (cells: BTreeMap<
    Cell,
    Vec<usize>,
>)
    requires
        grid_ok(*system),
    ensures
        buckets_hold(cells@, particles@, *system, particles@.len() as int),
{
    let ghost ps = particles@;
    let mut cells: BTreeMap<Cell, Vec<usize>> = BTreeMap::new();
    let n = particles.len();
    let mut i: usize = 0;
    while i < n
        invariant
            ps == particles@,
            n == ps.len(),
            i <= n,
            grid_ok(*system),
            buckets_hold(cells@, ps, *system, i as int),
        decreases n - i,
    {
        match cell_index(&particles[i], system) {
            Some(c) => {
                let ghost before = cells@;
                let mut bucket = match cells.remove(&c) {
                    Some(b) => b,
                    None => Vec::new(),
                };
                let ghost old_bucket = bucket@;
                assert(old_bucket == (if before.contains_key(c) {
                    before[c]@
                } else {
                    Seq::<usize>::empty()
                }));
                bucket.push(i);
                cells.insert(c, bucket);
                assert forall|c2: Cell, t: int|
                    cells@.contains_key(c2) && 0 <= t < cells@[c2]@.len() implies {
                    let j = #[trigger] cells@[c2]@[t];
                    &&& j < i + 1
                    &&& cell_of(ps[j as int], *system) == Some(c2)
                } by {
                    if c2 != c {
                        assert(before.contains_key(c2) && cells@[c2] == before[c2]);
                    } else if t < old_bucket.len() {
                        assert(cells@[c2]@[t] == before[c2]@[t]);
                    }
                }
                assert forall|j: int|
                    0 <= j < i + 1 && (#[trigger] cell_of(ps[j], *system)) is Some implies {
                    let c2 = cell_of(ps[j], *system).unwrap();
                    cells@.contains_key(c2) && cells@[c2]@.contains(j as usize)
                } by {
                    let c2 = cell_of(ps[j], *system).unwrap();
                    if j < i {
                        if c2 == c {
                            let t = choose|t: int|
                                0 <= t < before[c2]@.len() && before[c2]@[t] == j as usize;
                            assert(cells@[c2]@[t] == j as usize);
                        } else {
                            assert(cells@[c2] == before[c2]);
                        }
                    } else {
                        assert(cells@[c2]@[old_bucket.len() as int] == j as usize);
                    }
                }
            },
            None => {
                assert forall|j: int|
                    0 <= j < i + 1 && (#[trigger] cell_of(ps[j], *system)) is Some implies {
                    let c2 = cell_of(ps[j], *system).unwrap();
                    cells@.contains_key(c2) && cells@[c2]@.contains(j as usize)
                } by {
                    assert(j < i);
                }
            },
        }
        i += 1;
    }
    cells
}

impl<P: CircularParticle> NeighborFinder<P, SystemInfo> for CimNeighborFinder {
    open spec fn accepts(particles: Seq<P>, system: SystemInfo) -> bool {
        grid_ok(system) && unique_ids(particles)
    }

    open spec fn found(particles: Seq<P>, system: SystemInfo) -> Set<(ID, ID)> {
        cim_pairs(particles, system)
    }

    fn find_neighbors(particles: &[P], system: SystemInfo) -> (r: NeighborMap) {
        let ghost ps = particles@;
        let ghost found = cim_pairs(ps, system);
        let cells = build_grid(particles, &system);
        let mut map = NeighborMap::default();
        let n = particles.len();
        let mut i: usize = 0;
        while i < n
            invariant
                ps == particles@,
                n == ps.len(),
                i <= n,
                grid_ok(system),
                unique_ids(ps),
                found == cim_pairs(ps, system),
                buckets_hold(cells@, ps, system, n as int),
                forall|p: (ID, ID)| #[trigger] map@.contains(p) ==> found.contains(p),
                is_symmetric(map@),
                forall|i2: int, j: int, k: int|
                    0 <= i2 < i && #[trigger] visits(ps, system, i2, j, k) ==> map@.contains(
                        id_pair(ps, i2, j),
                    ),
            decreases n - i,
        {
            let p = &particles[i];
            match cell_index(p, &system) {
                Some(c) => {
                    let mut k: usize = 0;
                    while k < STENCIL_LEN
                        invariant
                            ps == particles@,
                            n == ps.len(),
                            i < n,
                            grid_ok(system),
                            unique_ids(ps),
                            found == cim_pairs(ps, system),
                            buckets_hold(cells@, ps, system, n as int),
                            *p == ps[i as int],
                            cell_of(ps[i as int], system) == Some(c),
                            k <= STENCIL_LEN,
                            forall|p: (ID, ID)| #[trigger] map@.contains(p) ==> found.contains(p),
                            is_symmetric(map@),
                            forall|i2: int, j: int, k2: int|
                                (0 <= i2 < i || (i2 == i && k2 < k)) && #[trigger] visits(
                                    ps,
                                    system,
                                    i2,
                                    j,
                                    k2,
                                ) ==> map@.contains(id_pair(ps, i2, j)),
                        decreases STENCIL_LEN - k,
                    {
                        match stencil_cell(c, k, &system) {
                            Some(t) => {
                                match cells.get(&t) {
                                    Some(bucket) => {
                                        let mut m: usize = 0;
                                        while m < bucket.len()
                                            invariant
                                                ps == particles@,
                                                n == ps.len(),
                                                i < n,
                                                k < STENCIL_LEN,
                                                grid_ok(system),
                                                unique_ids(ps),
                                                found == cim_pairs(ps, system),
                                                buckets_hold(cells@, ps, system, n as int),
                                                cells@.contains_key(t),
                                                cells@[t] == *bucket,
                                                stencil_target(c, k as int, system) == Some(t),
                                                *p == ps[i as int],
                                                cell_of(ps[i as int], system) == Some(c),
                                                m <= bucket@.len(),
                                                forall|p: (ID, ID)| #[trigger]
                                                    map@.contains(p) ==> found.contains(p),
                                                is_symmetric(map@),
                                                forall|i2: int, j: int, k2: int|
                                                    (0 <= i2 < i || (i2 == i && k2 < k))
                                                        && #[trigger] visits(ps, system, i2, j, k2)
                                                        ==> map@.contains(id_pair(ps, i2, j)),
                                                forall|t2: int|
                                                    0 <= t2 < m && visits(
                                                        ps,
                                                        system,
                                                        i as int,
                                                        #[trigger] bucket@[t2] as int,
                                                        k as int,
                                                    ) ==> map@.contains(
                                                        id_pair(ps, i as int, bucket@[t2] as int),
                                                    ),
                                            decreases bucket@.len() - m,
                                        {
                                            let j = bucket[m];
                                            assert(j < n && cell_of(ps[j as int], system) == Some(
                                                t,
                                            ));
                                            let q = &particles[j];
                                            if (t.0 != c.0 || t.1 != c.1 || q.get_id() > p.get_id())
                                                && p.is_within_distance_of(
                                                q,
                                                system.interaction_radius,
                                                system.space_width,
                                                system.space_height,
                                                system.cyclic,
                                            ) {
                                                proof {
                                                    assert(visits(
                                                        ps,
                                                        system,
                                                        i as int,
                                                        j as int,
                                                        k as int,
                                                    ));
                                                    lemma_visit_close(
                                                        ps,
                                                        system,
                                                        i as int,
                                                        j as int,
                                                        k as int,
                                                    );
                                                    assert(found.contains(
                                                        id_pair(ps, i as int, j as int),
                                                    ));
                                                    assert(found.contains(
                                                        id_pair(ps, j as int, i as int),
                                                    ));
                                                }
                                                map.add_pair(p.get_id(), q.get_id());
                                            }
                                            m += 1;
                                        }
                                        assert forall|i2: int, j: int, k2: int|
                                            (0 <= i2 < i || (i2 == i && k2 < k + 1))
                                                && #[trigger] visits(
                                                ps,
                                                system,
                                                i2,
                                                j,
                                                k2,
                                            ) implies map@.contains(id_pair(ps, i2, j)) by {
                                            if i2 == i && k2 == k {
                                                let t2 = choose|t2: int|
                                                    0 <= t2 < bucket@.len() && bucket@[t2]
                                                        == j as usize;
                                                assert(bucket@[t2] as int == j);
                                            }
                                        }
                                    },
                                    None => {
                                        assert forall|i2: int, j: int, k2: int|
                                            (0 <= i2 < i || (i2 == i && k2 < k + 1))
                                                && #[trigger] visits(
                                                ps,
                                                system,
                                                i2,
                                                j,
                                                k2,
                                            ) implies map@.contains(id_pair(ps, i2, j)) by {
                                            if i2 == i && k2 == k {
                                                assert(cell_of(ps[j], system) == Some(t));
                                            }
                                        }
                                    },
                                }
                            },
                            None => {},
                        }
                        k += 1;
                    }
                },
                None => {},
            }
            i += 1;
        }
        proof {
            assert forall|p: (ID, ID)| found.contains(p) implies #[trigger] map@.contains(p) by {
                let (i2, j) = choose|i2: int, j: int| #[trigger]
                    cim_close(ps, system, i2, j) && id_pair(ps, i2, j) == p;
                let (k, forward) = lemma_close_visited(ps, system, i2, j);
                if !forward {
                    assert(map@.contains(id_pair(ps, j, i2)));
                    assert(found.contains(id_pair(ps, j, i2)));
                }
            }
            assert(map@ =~= found);
        }
        map
    }
}

} // verus!
