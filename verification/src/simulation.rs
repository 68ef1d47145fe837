//! A read-only interface over a running simulation: its geometry and the
//! current generation's per-cell states.

use vstd::prelude::*;

verus! {

/// Read accessors shared by every simulation variant: the geometry it runs
/// on and the full state vector of the current generation.
pub trait Simulation {
    type State;

    type Geometry;

    /// The geometry the simulation was built over.
    spec fn sim_geometry(&self) -> &Self::Geometry;

    /// The current generation's states, in storage order.
    spec fn sim_states(&self) -> Seq<Self::State>;

    fn get_geometry(&self) -> (g: &Self::Geometry)
        ensures
            g == self.sim_geometry(),
    ;

    fn get_states(&self) -> (s: &Vec<Self::State>)
        ensures
            s@ == self.sim_states(),
    ;
}

} // verus!
