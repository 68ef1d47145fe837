//! A cellular-automaton engine: a pluggable finite geometry (rectangular or
//! hexagonal) paired with a generational state-update rule.  Each step reads
//! the whole previous generation and writes a fresh one, so updates are
//! synchronous and order-independent.

use vstd::prelude::*;

pub mod geometry;
pub mod hex_conway_sim;
pub mod hex_empire_sim;
pub mod hex_geom;
pub mod rect_geom;
pub mod simulation;

verus! {

use crate::geometry::Geometry;

/// One cell's binary life state: zero is dead, anything greater is alive.
#[derive(Clone, Copy, Debug, PartialEq, Eq, Structural)]
pub struct State2 {
    pub val: u8,
}

/// The life values of a generation, in linear-identifier order.
pub open spec fn vals_of(s: Seq<State2>) -> Seq<u8> {
    s.map_values(|st: State2| st.val)
}

/// How many of the cells listed in `nbs` are alive in `vals`, counted in
/// enumeration order.
pub open spec fn live_in(vals: Seq<u8>, nbs: Seq<int>) -> int
    decreases nbs.len(),
{
    if nbs.len() == 0 {
        0
    } else {
        live_in(vals, nbs.drop_last()) + (if 0 <= nbs.last() < vals.len() && vals[nbs.last()]
            > 0 {
            1int
        } else {
            0int
        })
    }
}

/// The standard Game of Life rule: birth{3} / survival{2,3}.
pub open spec fn spec_life_rule(alive: bool, n: int) -> u8 {
    if alive {
        if n == 2 || n == 3 {
            1
        } else {
            0
        }
    } else {
        if n == 3 {
            1
        } else {
            0
        }
    }
}

/// The next value of cell `i`: the life rule applied to its current state
/// and its live-neighbour count in the previous generation.
pub open spec fn spec_next_val<T: Geometry>(geo: T, vals: Seq<u8>, i: int) -> u8 {
    spec_life_rule(vals[i] > 0, live_in(vals, geo.spec_neighbours(i)))
}

/// A binary Game of Life simulation over any geometry, double-buffered: a
/// step reads only the previous generation and then replaces the state
/// vector wholesale.
pub struct Simulation<'a, T: Geometry> {
    geo: &'a T,
    states: Vec<State2>,
}

impl<'a, T: Geometry> Simulation<'a, T> {
    /// The state vector always matches the geometry's cell count.
    pub closed spec fn wf(&self) -> bool {
        &&& self.geo.wf()
        &&& self.states@.len() == self.geo.spec_size()
    }

    pub closed spec fn spec_geo(&self) -> &'a T {
        self.geo
    }

    pub closed spec fn spec_states(&self) -> Seq<State2> {
        self.states@
    }

    /// A fresh simulation with every cell dead.
    pub fn new(geo: &'a T) -> (sim: Self)
        requires
            geo.wf(),
        ensures
            sim.wf(),
            sim.spec_geo() == geo,
            sim.spec_states().len() == geo.spec_size(),
            forall|i: int|
                0 <= i < sim.spec_states().len() ==> #[trigger] sim.spec_states()[i].val == 0,
    {
        let n = geo.size();
        let mut states: Vec<State2> = Vec::new();
        let mut i: usize = 0;
        while i < n
            invariant
                i <= n,
                states@.len() == i,
                forall|j: int| 0 <= j < i ==> #[trigger] states@[j].val == 0,
            decreases n - i,
        {
            states.push(State2 { val: 0 });
            i = i + 1;
        }
        Simulation { geo, states }
    }

    /// The geometry this simulation runs on.
    pub fn geo(&self) -> (g: &'a T)
        ensures
            g == self.spec_geo(),
    {
        self.geo
    }

    /// The state of the cell with linear index `id`; `None` exactly when the
    /// index is out of range.
    pub fn get(&self, id: usize) -> (r: Option<&State2>)
        ensures
            match r {
                Some(s) => id < self.spec_states().len() && *s == self.spec_states()[id as int],
                None => id >= self.spec_states().len(),
            },
    {
        if id < self.states.len() {
            Some(&self.states[id])
        } else {
            None
        }
    }

    /// Overwrites the state of cell `id`, used only for external seeding.
    /// Returns false and changes nothing when `id` is out of range.
    pub fn set(&mut self, id: usize, val: u8) -> (ok: bool)
        ensures
            ok == (id < old(self).spec_states().len()),
            final(self).spec_geo() == old(self).spec_geo(),
            ok ==> final(self).spec_states() == old(self).spec_states().update(
                id as int,
                State2 { val },
            ),
            !ok ==> final(self).spec_states() == old(self).spec_states(),
    {
        if id < self.states.len() {
            self.states.set(id, State2 { val });
            true
        } else {
            false
        }
    }

    /// Advances one generation: every cell's next value is the life rule
    /// applied to the previous generation, synchronously.  The new state is
    /// a pure function of the old one, so stepping is deterministic.
    pub fn step(&mut self)
        requires
            old(self).wf(),
        ensures
            final(self).wf(),
            final(self).spec_geo() == old(self).spec_geo(),
            final(self).spec_states().len() == old(self).spec_states().len(),
            forall|i: int|
                0 <= i < final(self).spec_states().len() ==> #[trigger] final(self).spec_states()[i].val
                    == spec_next_val(*old(self).spec_geo(), vals_of(old(self).spec_states()), i),
    {
        let n = self.states.len();
        let mut next: Vec<State2> = Vec::new();
        let mut i: usize = 0;
        while i < n
            invariant
                *self == *old(self),
                self.wf(),
                n == self.states@.len(),
                i <= n,
                next@.len() == i,
                forall|j: int|
                    0 <= j < i ==> #[trigger] next@[j].val == spec_next_val(
                        *self.geo,
                        vals_of(self.states@),
                        j,
                    ),
            decreases n - i,
        {
            let id = self.geo.id_at(i);
            let nbs = self.geo.neighbours(id);
            let ghost ids = self.geo.spec_neighbours(i as int);
            proof {
                assert(nbs@.map_values(|nb: T::ID| self.geo.id_index(nb)) == ids);
                self.geo.lemma_neighbours_in_bounds(i as int);
            }
            let mut alives: u64 = 0;
            let mut k: usize = 0;
            while k < nbs.len()
                invariant
                    *self == *old(self),
                    self.wf(),
                    k <= nbs@.len(),
                    nbs@.map_values(|nb: T::ID| self.geo.id_index(nb)) == ids,
                    ids == self.geo.spec_neighbours(i as int),
                    0 <= i < self.states@.len(),
                    forall|j: int|
                        0 <= j < ids.len() ==> 0 <= #[trigger] ids[j] < self.states@.len(),
                    alives as int == live_in(vals_of(self.states@), ids.take(k as int)),
                    alives <= k,
                decreases nbs@.len() - k,
            {
                let nb = nbs[k];
                proof {
                    assert(ids[k as int] == self.geo.id_index(nb));
                }
                let idx = self.geo.index_of(nb);
                let alive = self.states[idx].val > 0;
                proof {
                    let prefix = ids.take(k as int + 1);
                    assert(prefix.drop_last() =~= ids.take(k as int));
                    assert(prefix.last() == ids[k as int]);
                    assert(vals_of(self.states@)[ids[k as int]] == self.states@[ids[k as int]].val);
                }
                if alive {
                    alives = alives + 1;
                }
                k = k + 1;
            }
            proof {
                assert(ids.take(ids.len() as int) =~= ids);
            }
            let cur_alive = self.states[i].val > 0;
            let v: u8 = if cur_alive {
                if alives == 2 || alives == 3 {
                    1
                } else {
                    0
                }
            } else {
                if alives == 3 {
                    1
                } else {
                    0
                }
            };
            next.push(State2 { val: v });
            proof {
                assert(vals_of(self.states@)[i as int] == self.states@[i as int].val);
                assert(next@[i as int].val == spec_next_val(*self.geo, vals_of(self.states@), i as int));
            }
            i = i + 1;
        }
        self.states = next;
    }
}

impl<'a, T: Geometry> crate::simulation::Simulation for Simulation<'a, T> {
    type State = State2;

    type Geometry = T;

    closed spec fn sim_geometry(&self) -> &T {
        self.geo
    }

    closed spec fn sim_states(&self) -> Seq<State2> {
        self.states@
    }

    fn get_geometry(&self) -> (g: &T) {
        self.geo
    }

    fn get_states(&self) -> (s: &Vec<State2>) {
        &self.states
    }
}

} // verus!
