//! Cursor-to-building hover resolution.
//!
//! The host projects the cursor onto the play surface and hands this module
//! the resulting ground point.  A building is hovered when the point falls
//! inside its square footprint; the first such building (lowest handle)
//! wins.  Changes against the previously hovered building are reported as
//! events, exactly as the interaction layer expects them: entering a
//! building reports it active, leaving to empty ground reports the old one
//! inactive, and switching directly between buildings reports only the
//! newly entered one.

use vstd::prelude::*;

verus! {

use crate::geometry::{Vec3, MAX_COORD};
use crate::graph::{building_wf, graph_wf, BuildingGraph, BuildingId, BuildingModel};

/// Notification that the cursor entered (`active`) or left (`!active`) a
/// building's footprint.
#[derive(Clone, Copy, Debug, PartialEq, Eq, Structural)]
pub struct HoveringBuildingChanged {
    pub building: BuildingId,
    pub active: bool,
}

/// Whether the ground point `p` falls inside the square footprint of a
/// building at `pos`, of half-extent `half` along the two ground axes.
pub open spec fn footprint_hit(pos: Vec3, p: Vec3, half: i64) -> bool {
    &&& -half < p.x - pos.x < half
    &&& -half < p.z - pos.z < half
}

/// The first building whose footprint contains `p`, scanning handles
/// upward from `i`.
pub open spec fn first_hit_from(g: Seq<BuildingModel>, p: Vec3, half: i64, i: int) -> Option<
    BuildingId,
>
    decreases g.len() - i,
{
    if i < 0 || i >= g.len() {
        None
    } else if footprint_hit(g[i].position, p, half) {
        Some(i as BuildingId)
    } else {
        first_hit_from(g, p, half, i + 1)
    }
}

/// The building hovered by a cursor at ground point `p`, if any.
pub open spec fn hovered_building(g: Seq<BuildingModel>, p: Vec3, half: i64) -> Option<
    BuildingId,
> {
    first_hit_from(g, p, half, 0)
}

/// Resolves which building the cursor at `p` hovers: the first building
/// whose footprint contains the point.
pub fn pick_hovered(graph: &BuildingGraph, p: Vec3, half: i64) -> (r: Option<BuildingId>)
    requires
        graph.wf(),
        p.in_bounds(),
        0 < half <= MAX_COORD,
    ensures
        r == hovered_building(graph@, p, half),
{
    let n = graph.len();
    let mut i: usize = 0;
    while i < n
        invariant
            graph.wf(),
            p.in_bounds(),
            0 < half <= MAX_COORD,
            n == graph@.len(),
            i <= n,
            hovered_building(graph@, p, half) == first_hit_from(graph@, p, half, i as int),
        decreases n - i,
    {
        proof {
            assert(building_wf(graph@, i as int));
        }
        let pos = graph.position_of(i);
        if p.x - pos.x < half && pos.x - p.x < half && p.z - pos.z < half && pos.z - p.z < half {
            return Some(i);
        }
        i = i + 1;
    }
    None
}

/// The hover state after resolving `picked` against the previously hovered
/// building, and the change events this transition reports.
pub open spec fn hover_next(current: Option<BuildingId>, picked: Option<BuildingId>) -> (
    Option<BuildingId>,
    Seq<HoveringBuildingChanged>,
) {
    match picked {
        Some(b) => {
            if current == Some(b) {
                (current, Seq::empty())
            } else {
                (
                    Some(b),
                    Seq::empty().push(HoveringBuildingChanged { building: b, active: true }),
                )
            }
        },
        None => {
            match current {
                Some(h) => (
                    None,
                    Seq::empty().push(HoveringBuildingChanged { building: h, active: false }),
                ),
                None => (None, Seq::empty()),
            }
        },
    }
}

/// Applies a hover resolution to the previous hover state, returning the new
/// state and the change events to report.
pub fn hover_transition(current: Option<BuildingId>, picked: Option<BuildingId>) -> (r: (
    Option<BuildingId>,
    Vec<HoveringBuildingChanged>,
))
    ensures
        r.0 == hover_next(current, picked).0,
        r.1@ == hover_next(current, picked).1,
{
    let mut events: Vec<HoveringBuildingChanged> = Vec::new();
    match picked {
        Some(b) => {
            let same = match current {
                Some(c) => c == b,
                None => false,
            };
            if same {
                (current, events)
            } else {
                events.push(HoveringBuildingChanged { building: b, active: true });
                (Some(b), events)
            }
        },
        None => {
            match current {
                Some(h) => {
                    events.push(HoveringBuildingChanged { building: h, active: false });
                    (None, events)
                },
                None => (None, events),
            }
        },
    }
}

} // verus!
