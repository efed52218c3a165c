//! Interactive way-placement state machine.
//!
//! At most one placement session exists at a time.  A session starts from a
//! clicked building, tracks the current target candidate (a hovered building
//! or a free-form ground point) together with a validity flag, and ends by
//! committing a connection to the graph (`Finish`) or by being discarded
//! (`Abort`).  Validity is authoritative for whether a click may finish the
//! session; it combines the graph checks with an external geometric overlap
//! count, which passes only when exactly the two endpoint buildings overlap
//! the way's shape.

use vstd::prelude::*;

verus! {

use crate::geometry::Vec3;
use crate::graph::{
    add_connection_check, add_connection_next, connected_either, BuildingGraph, BuildingId,
    BuildingModel, FlowError,
};

/// The overlap count an in-progress way must report to be geometrically
/// valid: its shape touches exactly its two endpoint buildings.
pub const VALID_OVERLAP_COUNT: usize = 2;

/// The target candidate under the cursor while drawing a way.
#[derive(Clone, Copy, Debug, PartialEq, Eq, Structural)]
pub enum WayTarget {
    Building(BuildingId),
    Ground(Vec3),
}

/// The controller's state: idle, or one active session.
#[derive(Clone, Copy, Debug)]
pub enum PlacementState {
    Idle,
    Placing { source: BuildingId, target: Option<WayTarget>, valid: bool },
}

/// Events the placement state machine emits for the rest of the core (the
/// highlight derivation listens to them) and for outside listeners.
#[derive(Clone, Copy, Debug, PartialEq, Eq, Structural)]
pub enum InteractWay {
    Start { from: BuildingId },
    Finish { from: BuildingId, connect_to: BuildingId },
    Abort { aborted: BuildingId },
}

/// Notification of a committed connection, for outside listeners.
#[derive(Clone, Copy, Debug, PartialEq, Eq, Structural)]
pub struct ConnectionEstablished {
    pub from: BuildingId,
    pub to: BuildingId,
}

/// The interactive controller that creates new edges in the building graph.
#[derive(Clone, Copy, Debug)]
pub struct WayController {
    pub state: PlacementState,
}

/// The building a session is being drawn from, if one is active.
pub open spec fn active_source_of(c: WayController) -> Option<BuildingId> {
    match c.state {
        PlacementState::Idle => None,
        PlacementState::Placing { source, .. } => Some(source),
    }
}

/// The controller only ever refers to buildings the graph holds.
pub open spec fn controller_wf(c: WayController, g: Seq<BuildingModel>) -> bool {
    match c.state {
        PlacementState::Idle => true,
        PlacementState::Placing { source, .. } => source < g.len(),
    }
}

/// A candidate target is valid exactly when it is a different building not
/// already connected to the source in either direction, and the way's shape
/// overlaps exactly its two endpoints.
pub open spec fn candidate_valid(
    g: Seq<BuildingModel>,
    source: BuildingId,
    candidate: Option<WayTarget>,
    overlaps: usize,
) -> bool {
    match candidate {
        Some(WayTarget::Building(b)) => b != source && b < g.len() && !connected_either(
            g,
            source,
            b,
        ) && overlaps == VALID_OVERLAP_COUNT,
        _ => false,
    }
}

/// The controller after a cursor update: an idle controller is untouched; a
/// session keeps its source, records the candidate and recomputes validity.
pub open spec fn candidate_next(
    c: WayController,
    g: Seq<BuildingModel>,
    candidate: Option<WayTarget>,
    overlaps: usize,
) -> WayController {
    match c.state {
        PlacementState::Idle => c,
        PlacementState::Placing { source, .. } => WayController {
            state: PlacementState::Placing {
                source,
                target: candidate,
                valid: candidate_valid(g, source, candidate, overlaps),
            },
        },
    }
}

/// A click while placing is ignored unless it lands on a different, known
/// building, the session is valid, and the pair is not already connected.
pub open spec fn click_finishes(
    c: WayController,
    g: Seq<BuildingModel>,
    b: BuildingId,
) -> bool {
    match c.state {
        PlacementState::Idle => false,
        PlacementState::Placing { source, valid, .. } => b < g.len() && b != source && valid
            && !connected_either(g, source, b),
    }
}

/// What a click on building `b` does: start a session when idle, finish the
/// session when it may, and otherwise change nothing.
pub open spec fn click_next(c: WayController, g: Seq<BuildingModel>, b: BuildingId) -> (
    WayController,
    Seq<BuildingModel>,
    Option<InteractWay>,
) {
    match c.state {
        PlacementState::Idle => {
            if b < g.len() {
                (
                    WayController {
                        state: PlacementState::Placing { source: b, target: None, valid: false },
                    },
                    g,
                    Some(InteractWay::Start { from: b }),
                )
            } else {
                (c, g, None)
            }
        },
        PlacementState::Placing { source, .. } => {
            if click_finishes(c, g, b) {
                (
                    WayController { state: PlacementState::Idle },
                    add_connection_next(g, source, b),
                    Some(InteractWay::Finish { from: source, connect_to: b }),
                )
            } else {
                (c, g, None)
            }
        },
    }
}

impl WayController {
    pub fn new() -> (c: WayController)
        ensures
            c.state is Idle,
    {
        WayController { state: PlacementState::Idle }
    }

    pub fn active_source(&self) -> (r: Option<BuildingId>)
        ensures
            r == active_source_of(*self),
    {
        match self.state {
            PlacementState::Idle => None,
            PlacementState::Placing { source, .. } => Some(source),
        }
    }

    /// Starts a placement session from `from`.  Rejected with
    /// `SessionAlreadyActive`, leaving the active session unaffected, when
    /// one is already running; rejected with `MissingBuilding` for an
    /// unknown id.
    pub fn start(&mut self, graph: &BuildingGraph, from: BuildingId) -> (r: Result<(), FlowError>)
        requires
            controller_wf(*old(self), graph@),
        ensures
            controller_wf(*final(self), graph@),
            old(self).state is Placing ==> r == Err::<(), FlowError>(
                FlowError::SessionAlreadyActive,
            ) && *final(self) == *old(self),
            old(self).state is Idle && from < graph@.len() ==> r == Ok::<(), FlowError>(())
                && final(self).state == (PlacementState::Placing {
                source: from,
                target: None,
                valid: false,
            }),
            old(self).state is Idle && from >= graph@.len() ==> r == Err::<(), FlowError>(
                FlowError::MissingBuilding,
            ) && *final(self) == *old(self),
    {
        match self.state {
            PlacementState::Placing { .. } => Err(FlowError::SessionAlreadyActive),
            PlacementState::Idle => {
                if from < graph.len() {
                    self.state = PlacementState::Placing {
                        source: from,
                        target: None,
                        valid: false,
                    };
                    Ok(())
                } else {
                    Err(FlowError::MissingBuilding)
                }
            },
        }
    }

    /// Tracks the cursor: records the current target candidate and
    /// recomputes the session's validity flag from the graph and the
    /// external overlap count.  A no-op while idle.
    pub fn update_candidate(
        &mut self,
        graph: &BuildingGraph,
        candidate: Option<WayTarget>,
        overlaps: usize,
    )
        requires
            controller_wf(*old(self), graph@),
        ensures
            controller_wf(*final(self), graph@),
            *final(self) == candidate_next(*old(self), graph@, candidate, overlaps),
    {
        match self.state {
            PlacementState::Idle => {},
            PlacementState::Placing { source, .. } => {
                let valid = match candidate {
                    Some(WayTarget::Building(b)) => b != source && b < graph.len()
                        && !graph.connected_either_of(source, b) && overlaps
                        == VALID_OVERLAP_COUNT,
                    _ => false,
                };
                self.state = PlacementState::Placing { source, target: candidate, valid };
            },
        }
    }

    /// Handles a click on building `building`.  Idle: starts a session.
    /// Placing: ignores clicks on the source, on unknown ids, on already
    /// connected buildings and while invalid; otherwise commits the
    /// connection to the graph, emits `Finish` and returns to idle.
    pub fn handle_click(&mut self, graph: &mut BuildingGraph, building: BuildingId) -> (ev: Option<
        InteractWay,
    >)
        requires
            old(graph).wf(),
            controller_wf(*old(self), old(graph)@),
        ensures
            final(graph).wf(),
            controller_wf(*final(self), final(graph)@),
            final(self).state == click_next(*old(self), old(graph)@, building).0.state,
            final(graph)@ == click_next(*old(self), old(graph)@, building).1,
            ev == click_next(*old(self), old(graph)@, building).2,
    {
        match self.state {
            PlacementState::Idle => {
                if building < graph.len() {
                    self.state = PlacementState::Placing {
                        source: building,
                        target: None,
                        valid: false,
                    };
                    Some(InteractWay::Start { from: building })
                } else {
                    None
                }
            },
            PlacementState::Placing { source, valid, .. } => {
                if building >= graph.len() || building == source || !valid
                    || graph.connected_either_of(source, building) {
                    return None;
                }
                let r = graph.add_connection(source, building);
                proof {
                    assert(add_connection_check(old(graph)@, source, building) is Ok);
                    assert(r is Ok);
                }
                self.state = PlacementState::Idle;
                Some(InteractWay::Finish { from: source, connect_to: building })
            },
        }
    }

    /// Discards the session, if any, without touching the graph; a no-op
    /// while idle.
    pub fn abort(&mut self) -> (ev: Option<InteractWay>)
        ensures
            final(self).state is Idle,
            match old(self).state {
                PlacementState::Idle => ev is None,
                PlacementState::Placing { source, .. } => ev == Some(
                    InteractWay::Abort { aborted: source },
                ),
            },
    {
        match self.state {
            PlacementState::Idle => None,
            PlacementState::Placing { source, .. } => {
                self.state = PlacementState::Idle;
                Some(InteractWay::Abort { aborted: source })
            },
        }
    }
}

} // verus!
