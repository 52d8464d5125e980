use std::collections::{BTreeMap, BTreeSet};

use vstd::prelude::*;
use vstd::std_specs::btree::{increasing_seq, spec_btree_keys_iter};
use vstd::laws_cmp::obeys_cmp;
use vstd::std_specs::cmp::OrdSpec;
use vstd::std_specs::iter::IteratorSpec;

use crate::particles::{CircularParticle, ID};

verus! {

/// A strategy that enumerates the pairs of particles within interaction
/// range, configured by a system description `S`.
///
/// `accepts` is what the strategy asks of its input, and `found` the exact
/// adjacency relation it returns.
pub trait NeighborFinder<P: CircularParticle, S> {
    spec fn accepts(particles: Seq<P>, system: S) -> bool;

    spec fn found(particles: Seq<P>, system: S) -> Set<(ID, ID)>;

    fn find_neighbors(particles: &[P], system: S) -> (r: NeighborMap)
        requires
            Self::accepts(particles@, system),
        ensures
            r@ == Self::found(particles@, system),
    ;
}

/// A relation holds in both directions.
pub open spec fn is_symmetric(rel: Set<(ID, ID)>) -> bool {
    forall|a: ID, b: ID| #[trigger] rel.contains((a, b)) ==> rel.contains((b, a))
}

/// No element is related to itself.
pub open spec fn is_irreflexive(rel: Set<(ID, ID)>) -> bool {
    forall|a: ID| !#[trigger] rel.contains((a, a))
}

/// Adjacency from particle id to the set of its neighbors' ids.
///
/// Its view is the relation as a set of ordered pairs: `(a, b)` is in it when
/// `b` is recorded as a neighbor of `a`.
pub struct NeighborMap {
    map: BTreeMap<ID, BTreeSet<ID>>,
}

/// The relation held by a map of neighbor sets.
pub open spec fn relation_of(m: Map<ID, BTreeSet<ID>>) -> Set<(ID, ID)> {
    Set::new(|p: (ID, ID)| m.contains_key(p.0) && m[p.0]@.contains(p.1))
}

impl View for NeighborMap {
    type V = Set<(ID, ID)>;

    closed spec fn view(&self) -> Set<(ID, ID)> {
        relation_of(self.map@)
    }
}

impl Default for NeighborMap {
    fn default() -> (r: NeighborMap)
        ensures
            r@ == Set::<(ID, ID)>::empty(),
    {
        let r = NeighborMap { map: BTreeMap::new() };
        assert(r@ =~= Set::<(ID, ID)>::empty());
        r
    }
}

impl NeighborMap {
    /// The neighbors recorded for `a`.
    pub open spec fn neighbors(&self, a: ID) -> Set<ID> {
        Set::new(|b: ID| self@.contains((a, b)))
    }

    /// Wraps a map from each id to its neighbor set, as it stands.
    pub fn new(map: BTreeMap<ID, BTreeSet<ID>>) -> (r: NeighborMap)
        ensures
            r@ == relation_of(map@),
    {
        NeighborMap { map }
    }

    /// Records `p1` and `p2` as neighbors of each other.
    pub fn add_pair(&mut self, p1: ID, p2: ID)
        ensures
            final(self)@ == old(self)@.insert((p1, p2)).insert((p2, p1)),
    {
        self.insert_directed(p1, p2);
        self.insert_directed(p2, p1);
        assert(self@ =~= old(self)@.insert((p1, p2)).insert((p2, p1)));
    }

    fn insert_directed(&mut self, a: ID, b: ID)
        ensures
            final(self)@ == old(self)@.insert((a, b)),
    {
        let mut set = match self.map.remove(&a) {
            Some(s) => s,
            None => BTreeSet::new(),
        };
        let ghost before = set@;
        set.insert(b);
        self.map.insert(a, set);
        assert forall|p: (ID, ID)| #[trigger] self@.contains(p) <==> old(self)@.insert(
            (a, b),
        ).contains(p) by {
            if p.0 == a {
                assert(before == (if old(self).map@.contains_key(a) {
                    old(self).map@[a]@
                } else {
                    Set::<ID>::empty()
                }));
            }
        }
        assert(self@ =~= old(self)@.insert((a, b)));
    }

    /// Whether `p2` is recorded as a neighbor of `p1`.
    pub fn has_pair(&self, p1: ID, p2: ID) -> (r: bool)
        ensures
            r == self@.contains((p1, p2)),
    {
        match self.map.get(&p1) {
            Some(s) => s.contains(&p2),
            None => false,
        }
    }

    /// The neighbors of `p1`, each once, in increasing order.
    pub fn get_neighbors(&self, p1: ID) -> (r: Vec<ID>)
        ensures
            r@.to_set() == self.neighbors(p1),
            forall|i: int, j: int| 0 <= i < j < r@.len() ==> r@[i] < r@[j],
    {
        let mut r: Vec<ID> = Vec::new();
        match self.map.get(&p1) {
            Some(s) => {
                let ghost keys = spec_btree_keys_iter(s).remaining();
                for x in it: s.iter()
                    invariant
                        it.seq() == keys,
                        r@ == keys.take(it.index() as int).map_values(|e: &ID| *e),
                {
                    r.push(*x);
                }
                assert(r@ =~= keys.map_values(|e: &ID| *e));
                assert(keys.unref() =~= r@);
                assert(r@.to_set() =~= self.neighbors(p1));
                assert(obeys_cmp::<ID>());
                assert(obeys_cmp::<&ID>());
                assert(increasing_seq(keys));
                assert(forall|i: int, j: int|
                    0 <= i < j < keys.len() ==> #[trigger] <&ID as OrdSpec>::cmp_spec(&keys[i], &keys[j]) is Less);
                assert forall|i: int, j: int| 0 <= i < j < r@.len() implies r@[i] < r@[j] by {
                    assert(<&ID as OrdSpec>::cmp_spec(&keys[i], &keys[j]) is Less);
                }
            },
            None => {
                assert(r@.to_set() =~= self.neighbors(p1));
            },
        }
        r
    }
}

} // verus!
