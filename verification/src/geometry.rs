//! The geometry abstraction: a finite set of cells addressed by
//! geometry-specific identifiers that also carry a linear index into
//! `[0, size())`, with a neighbour enumeration and a distance metric.

use vstd::prelude::*;

verus! {

/// A spatial topology over a finite cell set.
///
/// Identifiers of type `ID` map to linear indices through `id_index`; every
/// valid identifier has its index in `[0, spec_size())`.  `neighbours`
/// enumerates the adjacent cells in a fixed, reproducible order and never
/// steps outside the geometry's bounds.  `distance` is a symmetric metric
/// reported as a nonnegative integer (its exact meaning is fixed by each
/// geometry's `spec_distance`).
pub trait Geometry: Sized {
    type ID: Copy;

    /// Structural well-formedness of the geometry's parameters.
    spec fn wf(&self) -> bool;

    /// The exact number of valid cells.
    spec fn spec_size(&self) -> int;

    /// The linear index that an identifier denotes.
    spec fn id_index(&self, id: Self::ID) -> int;

    /// The neighbour indices of the cell with linear index `i`, in
    /// enumeration order.
    spec fn spec_neighbours(&self, i: int) -> Seq<int>;

    /// The distance between the cells with linear indices `a` and `b`.
    spec fn spec_distance(&self, a: int, b: int) -> int;

    /// Every enumerated neighbour of a valid cell is itself a valid cell.
    proof fn lemma_neighbours_in_bounds(&self, i: int)
        requires
            self.wf(),
            0 <= i < self.spec_size(),
        ensures
            forall|j: int|
                0 <= j < self.spec_neighbours(i).len() ==> 0 <= #[trigger] self.spec_neighbours(
                    i,
                )[j] < self.spec_size(),
    ;

    /// The distance metric is symmetric in its two arguments.
    proof fn lemma_distance_symmetric(&self, a: int, b: int)
        requires
            self.wf(),
        ensures
            self.spec_distance(a, b) == self.spec_distance(b, a),
    ;

    fn size(&self) -> (r: usize)
        requires
            self.wf(),
        ensures
            r as int == self.spec_size(),
    ;

    /// The identifier whose linear index is `i`.
    fn id_at(&self, i: usize) -> (id: Self::ID)
        requires
            self.wf(),
            (i as int) < self.spec_size(),
        ensures
            self.id_index(id) == i as int,
    ;

    /// The linear index of a valid identifier.
    fn index_of(&self, id: Self::ID) -> (i: usize)
        requires
            self.wf(),
            0 <= self.id_index(id) < self.spec_size(),
        ensures
            i as int == self.id_index(id),
    ;

    fn neighbours(&self, id: Self::ID) -> (r: Vec<Self::ID>)
        requires
            self.wf(),
            0 <= self.id_index(id) < self.spec_size(),
        ensures
            r@.map_values(|n: Self::ID| self.id_index(n)) == self.spec_neighbours(
                self.id_index(id),
            ),
    ;

    fn distance(&self, a: Self::ID, b: Self::ID) -> (r: u64)
        requires
            self.wf(),
            0 <= self.id_index(a) < self.spec_size(),
            0 <= self.id_index(b) < self.spec_size(),
        ensures
            r as int == self.spec_distance(self.id_index(a), self.id_index(b)),
    ;
}

} // verus!
