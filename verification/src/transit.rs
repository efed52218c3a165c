//! Live in-transit units: spawning on request, advancing each tick, and
//! reporting arrivals.
//!
//! A unit is created at its source building's position and moves straight
//! toward its destination's current position by `speed * dt` per tick.  When
//! the remaining distance no longer exceeds this tick's displacement the
//! unit has arrived: it is removed and an arrival is reported, with no
//! partial final step.

use vstd::prelude::*;

verus! {

use crate::geometry::{
    advanced, dist2, lemma_advanced_in_bounds, move_toward, sq, squared_distance, Vec3, MAX_STEP,
};
use crate::graph::{building_wf, graph_wf, BuildingGraph, BuildingId, BuildingModel, FlowError};
use vstd::arithmetic::mul::lemma_mul_upper_bound;

/// One mobile unit in transit between two buildings.
#[derive(Clone, Copy, Debug, PartialEq, Eq, Structural)]
pub struct Unit {
    pub id: u64,
    pub from: BuildingId,
    pub to: BuildingId,
    pub position: Vec3,
}

/// Notification that a unit reached its destination.
#[derive(Clone, Copy, Debug, PartialEq, Eq, Structural)]
pub struct UnitArrived {
    pub unit: u64,
    pub destination: BuildingId,
}

/// Whether this tick's displacement of magnitude `step` covers the remaining
/// distance to the unit's destination.
pub open spec fn unit_arrives(u: Unit, g: Seq<BuildingModel>, step: int) -> bool {
    dist2(u.position, g[u.to as int].position) <= sq(step)
}

/// The unit after one displacement step toward its destination's current
/// position.
pub open spec fn unit_moved(u: Unit, g: Seq<BuildingModel>, step: int) -> Unit {
    Unit {
        id: u.id,
        from: u.from,
        to: u.to,
        position: advanced(u.position, g[u.to as int].position, step),
    }
}

/// The units still in transit after one tick, in their original order: every
/// unit that does not arrive, advanced by one step.
pub open spec fn surviving_units(units: Seq<Unit>, g: Seq<BuildingModel>, step: int) -> Seq<Unit>
    decreases units.len(),
{
    if units.len() == 0 {
        Seq::empty()
    } else {
        let pre = surviving_units(units.drop_last(), g, step);
        if unit_arrives(units.last(), g, step) {
            pre
        } else {
            pre.push(unit_moved(units.last(), g, step))
        }
    }
}

/// The arrivals of one tick, in unit order.
pub open spec fn arrivals_of(units: Seq<Unit>, g: Seq<BuildingModel>, step: int) -> Seq<
    UnitArrived,
>
    decreases units.len(),
{
    if units.len() == 0 {
        Seq::empty()
    } else {
        let pre = arrivals_of(units.drop_last(), g, step);
        if unit_arrives(units.last(), g, step) {
            pre.push(UnitArrived { unit: units.last().id, destination: units.last().to })
        } else {
            pre
        }
    }
}

/// Well-formedness of a unit list against a graph: bounded positions, valid
/// endpoints, and identities strictly increasing (hence never shared) and
/// below the arena's next id.
pub open spec fn units_wf(units: Seq<Unit>, g: Seq<BuildingModel>, next_id: u64) -> bool {
    &&& forall|i: int|
        0 <= i < units.len() ==> {
            &&& (#[trigger] units[i]).position.in_bounds()
            &&& units[i].from < g.len()
            &&& units[i].to < g.len()
            &&& units[i].id < next_id
        }
    &&& forall|i: int, j: int| 0 <= i < j < units.len() ==> units[i].id < units[j].id
}

/// The arena owning every live in-transit unit.
pub struct UnitTransitManager {
    pub units: Vec<Unit>,
    pub next_id: u64,
}

impl UnitTransitManager {
    pub open spec fn wf_for(&self, g: Seq<BuildingModel>) -> bool {
        units_wf(self.units@, g, self.next_id)
    }

    pub fn new() -> (m: UnitTransitManager)
        ensures
            m.units@ == Seq::<Unit>::empty(),
            m.next_id == 0,
            forall|g: Seq<BuildingModel>| m.wf_for(g),
    {
        let m = UnitTransitManager { units: Vec::new(), next_id: 0 };
        proof {
            assert(m.units@ =~= Seq::<Unit>::empty());
        }
        m
    }

    /// Handles a spawn request: looks both buildings up and creates a unit
    /// at the source's position, headed for the destination.  Rejected with
    /// `MissingBuilding`, changing nothing, when either id is unknown — the
    /// request is dropped, not fatal.
    pub fn spawn(&mut self, graph: &BuildingGraph, from: BuildingId, to: BuildingId) -> (r: Result<
        u64,
        FlowError,
    >)
        requires
            old(self).wf_for(graph@),
            graph.wf(),
            old(self).next_id < u64::MAX,
        ensures
            final(self).wf_for(graph@),
            from < graph@.len() && to < graph@.len() ==> {
                &&& r == Ok::<u64, FlowError>(old(self).next_id)
                &&& final(self).units@ == old(self).units@.push(
                    Unit {
                        id: old(self).next_id,
                        from,
                        to,
                        position: graph@[from as int].position,
                    },
                )
                &&& final(self).next_id == old(self).next_id + 1
            },
            !(from < graph@.len() && to < graph@.len()) ==> {
                &&& r == Err::<u64, FlowError>(FlowError::MissingBuilding)
                &&& final(self).units@ == old(self).units@
                &&& final(self).next_id == old(self).next_id
            },
    {
        let n = graph.len();
        if from >= n || to >= n {
            return Err(FlowError::MissingBuilding);
        }
        let id = self.next_id;
        let position = graph.position_of(from);
        proof {
            assert(building_wf(graph@, from as int));
        }
        self.units.push(Unit { id, from, to, position });
        self.next_id = id + 1;
        Ok(id)
    }

    /// Advances every live unit by `speed * dt` toward its destination's
    /// current position; units whose remaining distance is covered arrive
    /// instead: they are removed and reported, in unit order.
    pub fn tick(&mut self, graph: &BuildingGraph, speed: u64, dt: u64) -> (arrivals: Vec<
        UnitArrived,
    >)
        requires
            old(self).wf_for(graph@),
            graph.wf(),
            speed * dt <= MAX_STEP,
        ensures
            final(self).wf_for(graph@),
            final(self).units@ == surviving_units(old(self).units@, graph@, (speed * dt) as int),
            arrivals@ == arrivals_of(old(self).units@, graph@, (speed * dt) as int),
            final(self).next_id == old(self).next_id,
    {
        let step = speed * dt;
        proof {
            lemma_mul_upper_bound(step as int, MAX_STEP as int, step as int, MAX_STEP as int);
        }
        let step2 = step * step;
        let ghost units0 = self.units@;
        let ghost g = graph@;
        let mut kept: Vec<Unit> = Vec::new();
        let mut arrivals: Vec<UnitArrived> = Vec::new();
        let n = self.units.len();
        let mut i: usize = 0;
        proof {
            assert(units0.take(0) =~= Seq::<Unit>::empty());
        }
        while i < n
            invariant
                self.units@ == units0,
                g == graph@,
                graph_wf(g),
                units_wf(units0, g, self.next_id),
                n == units0.len(),
                i <= n,
                step <= MAX_STEP,
                step2 == sq(step as int),
                kept@ == surviving_units(units0.take(i as int), g, step as int),
                arrivals@ == arrivals_of(units0.take(i as int), g, step as int),
            decreases n - i,
        {
            let u = self.units[i];
            let dest = graph.position_of(u.to);
            proof {
                assert(building_wf(g, u.to as int));
            }
            let d2 = squared_distance(u.position, dest);
            if d2 <= step2 {
                arrivals.push(UnitArrived { unit: u.id, destination: u.to });
            } else {
                let position = move_toward(u.position, dest, step);
                kept.push(Unit { id: u.id, from: u.from, to: u.to, position });
            }
            proof {
                let taken = units0.take(i + 1 as int);
                assert(taken.drop_last() =~= units0.take(i as int));
                assert(taken.last() == units0[i as int]);
            }
            i = i + 1;
        }
        proof {
            assert(units0.take(n as int) =~= units0);
            lemma_surviving_wf(units0, g, step as int, self.next_id);
        }
        self.units = kept;
        arrivals
    }
}

/// One tick keeps the unit list well formed: survivors stay in bounds, keep
/// valid endpoints and keep their strictly increasing identities.
proof fn lemma_surviving_wf(units: Seq<Unit>, g: Seq<BuildingModel>, step: int, next_id: u64)
    requires
        graph_wf(g),
        0 <= step <= MAX_STEP,
        units_wf(units, g, next_id),
    ensures
        units_wf(surviving_units(units, g, step), g, next_id),
        forall|k: int|
            0 <= k < surviving_units(units, g, step).len() ==> (#[trigger] surviving_units(
                units,
                g,
                step,
            )[k]).id <= units.last().id,
    decreases units.len(),
{
    if units.len() > 0 {
        let last = units.last();
        let dl = units.drop_last();
        assert(units_wf(dl, g, next_id));
        lemma_surviving_wf(dl, g, step, next_id);
        let pre = surviving_units(dl, g, step);
        let surv = surviving_units(units, g, step);
        assert forall|k: int| 0 <= k < pre.len() implies (#[trigger] pre[k]).id < last.id by {
            if dl.len() > 0 {
                assert(pre[k].id <= dl.last().id);
                assert(dl.last() == units[units.len() - 2]);
            }
        }
        if !unit_arrives(last, g, step) {
            assert(building_wf(g, last.to as int));
            lemma_advanced_in_bounds(last.position, g[last.to as int].position, step);
            assert(surv == pre.push(unit_moved(last, g, step)));
        }
    }
}

} // verus!
