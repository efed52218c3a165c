//! The per-tick simulation pipeline.
//!
//! One `Simulation` owns the building graph, the way-placement controller,
//! the hover state, the production schedules and the in-transit units, and
//! advances them in the fixed stage order: (1) ingest this tick's input
//! events, (2) resolve placement transitions (which may commit connections),
//! (3) recompute highlight state, (4) advance production countdowns and emit
//! spawn requests, (5) spawn and advance units and emit arrivals.  A
//! connection committed in stage 2 is visible to stage 4 within the same
//! tick, and a spawn requested in stage 4 is consumed by stage 5 within the
//! same tick.

use vstd::prelude::*;

verus! {

use vstd::arithmetic::div_mod::lemma_mod_division_less_than_divisor;
use crate::geometry::{Vec3, MAX_STEP};
use crate::graph::{
    building_wf, graph_wf, BuildingGraph, BuildingId, BuildingModel, Glowing,
};
use crate::highlight::{
    derived_glow, glow_changes, glow_updated, update_glowing, BuildingGlowChanged,
};
use crate::placement::{
    active_source_of, candidate_next, click_next, controller_wf, ConnectionEstablished,
    InteractWay, PlacementState, WayController, WayTarget,
};
use crate::scheduler::{tick_next, tick_target, ProductionSchedule, SpawnUnitRequest};
use crate::transit::{
    arrivals_of, surviving_units, units_wf, Unit, UnitArrived, UnitTransitManager,
};

/// The input-derived events the core consumes each tick, in the order the
/// host observed them.
#[derive(Clone, Copy, Debug)]
pub enum InputEvent {
    /// The operator clicked a building.
    BuildingClicked { building: BuildingId },
    /// The cursor entered (`active`) or left a building's footprint.
    BuildingHoverChanged { building: BuildingId, active: bool },
    /// The projected cursor position on the play surface, if any.
    CursorGroundPosition { point: Option<Vec3> },
    /// The number of scene colliders the in-progress way's shape overlaps.
    GeometricOverlapCount { count: usize },
    /// The operator cancelled the in-progress placement.
    Abort,
}

/// One production building: the building handle and its schedule.
#[derive(Clone, Copy, Debug, PartialEq, Eq, Structural)]
pub struct Producer {
    pub building: BuildingId,
    pub schedule: ProductionSchedule,
}

/// Everything one tick hands back to the host, stage by stage.
pub struct TickOutput {
    pub interactions: Vec<InteractWay>,
    pub established: Vec<ConnectionEstablished>,
    pub glow_changes: Vec<BuildingGlowChanged>,
    pub spawn_requests: Vec<SpawnUnitRequest>,
    pub arrivals: Vec<UnitArrived>,
}

/// Mathematical model of a whole simulation.
#[verifier::ext_equal]
pub ghost struct SimState {
    pub graph: Seq<BuildingModel>,
    pub way: WayController,
    pub hovered: Option<BuildingId>,
    pub ground: Option<Vec3>,
    pub overlap: usize,
    pub producers: Seq<Producer>,
    pub units: Seq<Unit>,
    pub next_id: u64,
    pub unit_speed: u64,
}

/// The new hover state after a hover-changed event.
pub open spec fn hover_apply(
    current: Option<BuildingId>,
    building: BuildingId,
    active: bool,
) -> Option<BuildingId> {
    if active {
        Some(building)
    } else if current == Some(building) {
        None
    } else {
        current
    }
}

pub open spec fn opt_to_seq(o: Option<InteractWay>) -> Seq<InteractWay> {
    match o {
        Some(e) => seq![e],
        None => Seq::empty(),
    }
}

/// What one input event does to the interaction state (stages 1 and 2).
pub open spec fn apply_event(s: SimState, e: InputEvent) -> (SimState, Seq<InteractWay>) {
    match e {
        InputEvent::BuildingClicked { building } => {
            let r = click_next(s.way, s.graph, building);
            (SimState { graph: r.1, way: r.0, ..s }, opt_to_seq(r.2))
        },
        InputEvent::BuildingHoverChanged { building, active } => (
            SimState { hovered: hover_apply(s.hovered, building, active), ..s },
            Seq::empty(),
        ),
        InputEvent::CursorGroundPosition { point } => (
            SimState { ground: point, ..s },
            Seq::empty(),
        ),
        InputEvent::GeometricOverlapCount { count } => (
            SimState { overlap: count, ..s },
            Seq::empty(),
        ),
        InputEvent::Abort => {
            match s.way.state {
                PlacementState::Idle => (s, Seq::empty()),
                PlacementState::Placing { source, .. } => (
                    SimState { way: WayController { state: PlacementState::Idle }, ..s },
                    seq![InteractWay::Abort { aborted: source }],
                ),
            }
        },
    }
}

/// The interaction state after all of a tick's events, in order, with the
/// placement events they produced.
pub open spec fn apply_events(s: SimState, events: Seq<InputEvent>) -> (
    SimState,
    Seq<InteractWay>,
)
    decreases events.len(),
{
    if events.len() == 0 {
        (s, Seq::empty())
    } else {
        let r = apply_events(s, events.drop_last());
        let r2 = apply_event(r.0, events.last());
        (r2.0, r.1 + r2.1)
    }
}

/// The target candidate an active session tracks: the hovered building if
/// any, else the cursor's ground point.
pub open spec fn candidate_of(s: SimState) -> Option<WayTarget> {
    match s.hovered {
        Some(b) => Some(WayTarget::Building(b)),
        None => match s.ground {
            Some(p) => Some(WayTarget::Ground(p)),
            None => None,
        },
    }
}

/// The connections committed this tick, read off the placement events.
pub open spec fn established_of(interactions: Seq<InteractWay>) -> Seq<ConnectionEstablished>
    decreases interactions.len(),
{
    if interactions.len() == 0 {
        Seq::empty()
    } else {
        let pre = established_of(interactions.drop_last());
        match interactions.last() {
            InteractWay::Finish { from, connect_to } => pre.push(
                ConnectionEstablished { from, to: connect_to },
            ),
            _ => pre,
        }
    }
}

/// Stage 4: every producer's countdown advanced against its building's
/// current connection list, with the spawn requests of those that fired.
pub open spec fn production_stage(
    producers: Seq<Producer>,
    g: Seq<BuildingModel>,
    dt: u64,
) -> (Seq<Producer>, Seq<SpawnUnitRequest>)
    decreases producers.len(),
{
    if producers.len() == 0 {
        (Seq::empty(), Seq::empty())
    } else {
        let r = production_stage(producers.drop_last(), g, dt);
        let p = producers.last();
        let conns = g[p.building as int].connected;
        let prods = r.0.push(
            Producer { building: p.building, schedule: tick_next(p.schedule, conns.len(), dt) },
        );
        match tick_target(p.schedule, conns, dt) {
            Some(t) => (prods, r.1.push(SpawnUnitRequest { from: p.building, to: t })),
            None => (prods, r.1),
        }
    }
}

/// One spawn request resolved against the unit arena.
pub open spec fn spawn_one(
    units: Seq<Unit>,
    next_id: u64,
    g: Seq<BuildingModel>,
    req: SpawnUnitRequest,
) -> (Seq<Unit>, u64) {
    if req.from < g.len() && req.to < g.len() && next_id < u64::MAX {
        (
            units.push(
                Unit {
                    id: next_id,
                    from: req.from,
                    to: req.to,
                    position: g[req.from as int].position,
                },
            ),
            (next_id + 1) as u64,
        )
    } else {
        (units, next_id)
    }
}

/// All of a tick's spawn requests resolved, in order.
pub open spec fn spawn_fold(
    units: Seq<Unit>,
    next_id: u64,
    g: Seq<BuildingModel>,
    reqs: Seq<SpawnUnitRequest>,
) -> (Seq<Unit>, u64)
    decreases reqs.len(),
{
    if reqs.len() == 0 {
        (units, next_id)
    } else {
        let r = spawn_fold(units, next_id, g, reqs.drop_last());
        spawn_one(r.0, r.1, g, reqs.last())
    }
}

/// The outcome of one whole tick.
#[verifier::ext_equal]
pub ghost struct TickResult {
    pub state: SimState,
    pub interactions: Seq<InteractWay>,
    pub established: Seq<ConnectionEstablished>,
    pub glow_changes: Seq<BuildingGlowChanged>,
    pub spawn_requests: Seq<SpawnUnitRequest>,
    pub arrivals: Seq<UnitArrived>,
}

/// One tick of the whole pipeline, stage by stage: events, placement,
/// highlight, production, transit.
pub open spec fn tick_spec(s: SimState, events: Seq<InputEvent>, dt: u64) -> TickResult {
    let r1 = apply_events(s, events);
    let s1 = r1.0;
    let way2 = candidate_next(s1.way, s1.graph, candidate_of(s1), s1.overlap);
    let g2 = glow_updated(s1.graph, active_source_of(way2), s1.hovered);
    let r4 = production_stage(s1.producers, g2, dt);
    let r5 = spawn_fold(s1.units, s1.next_id, g2, r4.1);
    let step = (s.unit_speed * dt) as int;
    TickResult {
        state: SimState {
            graph: g2,
            way: way2,
            hovered: s1.hovered,
            ground: s1.ground,
            overlap: s1.overlap,
            producers: r4.0,
            units: surviving_units(r5.0, g2, step),
            next_id: r5.1,
            unit_speed: s.unit_speed,
        },
        interactions: r1.1,
        established: established_of(r1.1),
        glow_changes: glow_changes(s1.graph, active_source_of(way2), s1.hovered),
        spawn_requests: r4.1,
        arrivals: arrivals_of(r5.0, g2, step),
    }
}

/// Well-formedness of a simulation state.
pub open spec fn state_wf(s: SimState) -> bool {
    &&& graph_wf(s.graph)
    &&& controller_wf(s.way, s.graph)
    &&& forall|i: int|
        0 <= i < s.producers.len() ==> (#[trigger] s.producers[i]).building < s.graph.len()
            && s.producers[i].schedule.wf()
    &&& units_wf(s.units, s.graph, s.next_id)
}

/// The whole logistics core, advanced tick by tick.
pub struct Simulation {
    pub graph: BuildingGraph,
    pub way: WayController,
    pub hovered: Option<BuildingId>,
    pub cursor_ground: Option<Vec3>,
    pub overlap_count: usize,
    pub producers: Vec<Producer>,
    pub transit: UnitTransitManager,
    pub unit_speed: u64,
}

impl View for Simulation {
    type V = SimState;

    open spec fn view(&self) -> SimState {
        SimState {
            graph: self.graph@,
            way: self.way,
            hovered: self.hovered,
            ground: self.cursor_ground,
            overlap: self.overlap_count,
            producers: self.producers@,
            units: self.transit.units@,
            next_id: self.transit.next_id,
            unit_speed: self.unit_speed,
        }
    }
}

impl Simulation {
    pub open spec fn wf(&self) -> bool {
        state_wf(self@)
    }

    pub fn new(unit_speed: u64) -> (s: Simulation)
        ensures
            s.wf(),
            s@.graph == Seq::<BuildingModel>::empty(),
            s@.way.state is Idle,
            s@.hovered is None,
            s@.ground is None,
            s@.producers == Seq::<Producer>::empty(),
            s@.units == Seq::<Unit>::empty(),
            s@.unit_speed == unit_speed,
    {
        let s = Simulation {
            graph: BuildingGraph::new(),
            way: WayController::new(),
            hovered: None,
            cursor_ground: None,
            overlap_count: 0,
            producers: Vec::new(),
            transit: UnitTransitManager::new(),
            unit_speed,
        };
        proof {
            assert(s.producers@ =~= Seq::<Producer>::empty());
        }
        s
    }

    /// Creates a plain building (one that only receives units).
    pub fn add_building(&mut self, position: Vec3) -> (id: BuildingId)
        requires
            old(self).wf(),
            position.in_bounds(),
            old(self)@.graph.len() < usize::MAX,
        ensures
            final(self).wf(),
            id == old(self)@.graph.len(),
            final(self)@ == (SimState {
                graph: old(self)@.graph.push(crate::graph::new_building(position)),
                ..old(self)@
            }),
    {
        let id = self.graph.add_building(position);
        proof {
            lemma_components_wf(old(self)@, self@);
        }
        id
    }

    /// Creates a production building that fires every `period` time units.
    pub fn add_production_building(&mut self, position: Vec3, period: u64) -> (id: BuildingId)
        requires
            old(self).wf(),
            position.in_bounds(),
            period >= 1,
            old(self)@.graph.len() < usize::MAX,
        ensures
            final(self).wf(),
            id == old(self)@.graph.len(),
            final(self)@ == (SimState {
                graph: old(self)@.graph.push(crate::graph::new_building(position)),
                producers: old(self)@.producers.push(
                    Producer {
                        building: id,
                        schedule: ProductionSchedule { period, elapsed: 0, cursor: 0 },
                    },
                ),
                ..old(self)@
            }),
    {
        let id = self.graph.add_building(position);
        self.producers.push(Producer { building: id, schedule: ProductionSchedule::new(period) });
        proof {
            lemma_components_wf(
                old(self)@,
                SimState { producers: old(self)@.producers, ..self@ },
            );
            assert forall|i: int|
                0 <= i < self@.producers.len() implies (#[trigger] self@.producers[i]).building
                < self@.graph.len() && self@.producers[i].schedule.wf() by {
                if i < old(self)@.producers.len() {
                    assert(old(self)@.producers[i].building < old(self)@.graph.len());
                }
            }
        }
        id
    }

    /// Advances the whole pipeline by one tick: ingests `events` in order,
    /// resolves placement transitions, recomputes highlights, advances
    /// production and advances transit, returning everything the tick
    /// emitted.
    pub fn tick(&mut self, events: &Vec<InputEvent>, dt: u64) -> (out: TickOutput)
        requires
            old(self).wf(),
            old(self)@.unit_speed * dt <= MAX_STEP,
            old(self)@.next_id + old(self)@.producers.len() < u64::MAX,
        ensures
            final(self).wf(),
            final(self)@ == tick_spec(old(self)@, events@, dt).state,
            out.interactions@ == tick_spec(old(self)@, events@, dt).interactions,
            out.established@ == tick_spec(old(self)@, events@, dt).established,
            out.glow_changes@ == tick_spec(old(self)@, events@, dt).glow_changes,
            out.spawn_requests@ == tick_spec(old(self)@, events@, dt).spawn_requests,
            out.arrivals@ == tick_spec(old(self)@, events@, dt).arrivals,
    {
        let ghost s0 = self@;
        // stages 1 and 2: ingest the events in order, resolving placement
        // transitions as they come
        let mut interactions: Vec<InteractWay> = Vec::new();
        let mut established: Vec<ConnectionEstablished> = Vec::new();
        let n_events = events.len();
        let mut i: usize = 0;
        proof {
            assert(events@.take(0) =~= Seq::<InputEvent>::empty());
        }
        while i < n_events
            invariant
                i <= n_events,
                n_events == events@.len(),
                state_wf(self@),
                self@.producers == s0.producers,
                self@.units == s0.units,
                self@.next_id == s0.next_id,
                self@.unit_speed == s0.unit_speed,
                self@ == apply_events(s0, events@.take(i as int)).0,
                interactions@ == apply_events(s0, events@.take(i as int)).1,
                established@ == established_of(interactions@),
            decreases n_events - i,
        {
            let ghost s_pre = self@;
            let ghost ints_pre = interactions@;
            let e = events[i];
            match e {
                InputEvent::BuildingClicked { building } => {
                    let ev = self.way.handle_click(&mut self.graph, building);
                    if let Some(x) = ev {
                        interactions.push(x);
                        if let InteractWay::Finish { from, connect_to } = x {
                            established.push(ConnectionEstablished { from, to: connect_to });
                        }
                    }
                },
                InputEvent::BuildingHoverChanged { building, active } => {
                    if active {
                        self.hovered = Some(building);
                    } else {
                        let same = match self.hovered {
                            Some(h) => h == building,
                            None => false,
                        };
                        if same {
                            self.hovered = None;
                        }
                    }
                },
                InputEvent::CursorGroundPosition { point } => {
                    self.cursor_ground = point;
                },
                InputEvent::GeometricOverlapCount { count } => {
                    self.overlap_count = count;
                },
                InputEvent::Abort => {
                    let ev = self.way.abort();
                    if let Some(x) = ev {
                        interactions.push(x);
                    }
                },
            }
            proof {
                let taken = events@.take(i + 1 as int);
                assert(taken.drop_last() =~= events@.take(i as int));
                assert(taken.last() == events@[i as int]);
                assert(self@ =~= apply_event(s_pre, e).0);
                assert(interactions@ =~= ints_pre + apply_event(s_pre, e).1);
                lemma_components_wf(s_pre, self@);
                assert(established@ =~= established_of(interactions@)) by {
                    lemma_established_extend(ints_pre, apply_event(s_pre, e).1, established@);
                }
            }
            i = i + 1;
        }
        proof {
            assert(events@.take(n_events as int) =~= events@);
        }
        let ghost s1 = self@;

        // still stage 2: track the cursor and recompute session validity
        let candidate = match self.hovered {
            Some(b) => Some(WayTarget::Building(b)),
            None => match self.cursor_ground {
                Some(p) => Some(WayTarget::Ground(p)),
                None => None,
            },
        };
        let overlaps = self.overlap_count;
        proof {
            assert(candidate == candidate_of(s1));
        }
        self.way.update_candidate(&self.graph, candidate, overlaps);
        let ghost way2 = self.way;
        proof {
            assert(way2 == candidate_next(s1.way, s1.graph, candidate_of(s1), s1.overlap));
        }

        // stage 3: recompute the highlight state of every building
        let src = self.way.active_source();
        let hov = self.hovered;
        let glow_out = update_glowing(&mut self.graph, src, hov);
        let ghost g2 = self.graph@;
        proof {
            assert(g2 == glow_updated(s1.graph, active_source_of(way2), s1.hovered));
            assert(g2.len() == s1.graph.len());
            lemma_components_wf(s1, self@);
        }

        // stage 4: advance every production countdown against the current
        // graph — a connection committed this tick is already visible —
        // resolving each spawn request as it is emitted
        let mut spawn_requests: Vec<SpawnUnitRequest> = Vec::new();
        let ghost producers0 = self.producers@;
        let ghost units1 = self.transit.units@;
        let ghost next1 = self.transit.next_id;
        let n_prod = self.producers.len();
        let mut j: usize = 0;
        proof {
            assert(producers0.take(0) =~= Seq::<Producer>::empty());
            assert(spawn_requests@ =~= Seq::<SpawnUnitRequest>::empty());
        }
        while j < n_prod
            invariant
                j <= n_prod,
                n_prod == producers0.len(),
                self.producers@.len() == n_prod,
                g2 == self.graph@,
                graph_wf(g2),
                self.way == way2,
                self.hovered == s1.hovered,
                self.cursor_ground == s1.ground,
                self.overlap_count == s1.overlap,
                self.unit_speed == s0.unit_speed,
                controller_wf(self.way, g2),
                forall|k: int|
                    0 <= k < n_prod ==> (#[trigger] producers0[k]).building < g2.len()
                        && producers0[k].schedule.wf(),
                self.producers@.take(j as int) == production_stage(
                    producers0.take(j as int),
                    g2,
                    dt,
                ).0,
                self.producers@.skip(j as int) == producers0.skip(j as int),
                forall|k: int|
                    0 <= k < j ==> (#[trigger] self.producers@[k]).building < g2.len()
                        && self.producers@[k].schedule.wf(),
                spawn_requests@ == production_stage(producers0.take(j as int), g2, dt).1,
                self.transit.units@ == spawn_fold(units1, next1, g2, spawn_requests@).0,
                self.transit.next_id == spawn_fold(units1, next1, g2, spawn_requests@).1,
                next1 <= self.transit.next_id <= next1 + j,
                next1 + n_prod < u64::MAX,
                units_wf(self.transit.units@, g2, self.transit.next_id),
            decreases n_prod - j,
        {
            proof {
                assert(self.producers@[j as int] == producers0.skip(j as int)[0]);
                assert(self.producers@[j as int] == producers0[j as int]);
            }
            let p = self.producers[j];
            let mut sched = p.schedule;
            let target = {
                let conns = self.graph.connections_of(p.building);
                sched.tick(conns, dt)
            };
            let ghost prods_pre = self.producers@;
            let pr = &mut self.producers[j];
            pr.schedule = sched;
            proof {
                assert(self.producers@[j as int] == (Producer {
                    building: p.building,
                    schedule: sched,
                }));
                assert forall|m: int| 0 <= m < n_prod && m != j implies (#[trigger] self.producers@[m])
                    == prods_pre[m] by {}
                assert forall|m: int| 0 <= m < n_prod - j - 1 implies (#[trigger] self.producers@.skip(
                    j + 1 as int,
                )[m]) == producers0.skip(j + 1 as int)[m] by {
                    assert(self.producers@[j + 1 + m] == prods_pre[j + 1 + m]);
                    assert(prods_pre.skip(j as int)[m + 1] == producers0.skip(j as int)[m + 1]);
                }
                assert(self.producers@.skip(j + 1 as int) =~= producers0.skip(j + 1 as int));
                assert forall|m: int| 0 <= m < j implies (#[trigger] self.producers@.take(
                    j + 1 as int,
                )[m]) == production_stage(producers0.take(j as int), g2, dt).0[m] by {
                    assert(self.producers@[m] == prods_pre[m]);
                    assert(prods_pre.take(j as int)[m] == prods_pre[m]);
                }
            }
            if let Some(t) = target {
                proof {
                    assert(building_wf(g2, p.building as int));
                    lemma_mod_division_less_than_divisor(
                        p.schedule.cursor as int,
                        g2[p.building as int].connected.len() as int,
                    );
                    assert(t < g2.len());
                }
                let ghost reqs_pre = spawn_requests@;
                spawn_requests.push(SpawnUnitRequest { from: p.building, to: t });
                let ghost arena_pre = spawn_fold(units1, next1, g2, reqs_pre);
                let _ = self.transit.spawn(&self.graph, p.building, t);
                proof {
                    let r = SpawnUnitRequest { from: p.building, to: t };
                    assert(spawn_requests@.drop_last() =~= reqs_pre);
                    assert(spawn_requests@.last() == r);
                    assert(spawn_fold(units1, next1, g2, spawn_requests@) == spawn_one(
                        arena_pre.0,
                        arena_pre.1,
                        g2,
                        r,
                    ));
                    assert(self.transit.units@ == spawn_one(arena_pre.0, arena_pre.1, g2, r).0);
                }
            }
            proof {
                let takenp = producers0.take(j + 1 as int);
                assert(takenp.drop_last() =~= producers0.take(j as int));
                assert(takenp.last() == producers0[j as int]);
                assert(self.producers@.take(j + 1 as int) =~= production_stage(
                    takenp,
                    g2,
                    dt,
                ).0);
            }
            j = j + 1;
        }
        proof {
            assert(producers0.take(n_prod as int) =~= producers0);
        }

        // stage 5: advance every live unit, reporting arrivals
        let arrivals = self.transit.tick(&self.graph, self.unit_speed, dt);

        proof {
            assert(self@ =~= tick_spec(s0, events@, dt).state);
        }
        TickOutput {
            interactions,
            established,
            glow_changes: glow_out,
            spawn_requests,
            arrivals,
        }
    }
}

/// Reading the committed connections off a longer event list only appends.
proof fn lemma_established_extend(
    pre: Seq<InteractWay>,
    add: Seq<InteractWay>,
    expect: Seq<ConnectionEstablished>,
)
    requires
        add.len() <= 1,
        expect == if add.len() == 1 {
            match add[0] {
                InteractWay::Finish { from, connect_to } => established_of(pre).push(
                    ConnectionEstablished { from, to: connect_to },
                ),
                _ => established_of(pre),
            }
        } else {
            established_of(pre)
        },
    ensures
        established_of(pre + add) == expect,
{
    if add.len() == 0 {
        assert(pre + add =~= pre);
    } else {
        assert((pre + add).drop_last() =~= pre);
        assert((pre + add).last() == add[0]);
    }
}

/// Graph mutations that only grow the arena, and controller changes that
/// stay well formed, preserve every other component's well-formedness: all
/// existing handles stay valid.
proof fn lemma_components_wf(s0: SimState, s1: SimState)
    requires
        state_wf(s0),
        graph_wf(s1.graph),
        controller_wf(s1.way, s1.graph),
        s1.graph.len() >= s0.graph.len(),
        s1.producers == s0.producers,
        s1.units == s0.units,
        s1.next_id == s0.next_id,
    ensures
        state_wf(s1),
{
    assert forall|i: int|
        0 <= i < s1.producers.len() implies (#[trigger] s1.producers[i]).building < s1.graph.len()
        && s1.producers[i].schedule.wf() by {
        assert(s0.producers[i].building < s0.graph.len());
    }
    assert forall|i: int|
        0 <= i < s1.units.len() implies {
            &&& (#[trigger] s1.units[i]).position.in_bounds()
            &&& s1.units[i].from < s1.graph.len()
            &&& s1.units[i].to < s1.graph.len()
            &&& s1.units[i].id < s1.next_id
        } by {
        assert(s0.units[i].position.in_bounds());
        assert(s0.units[i].from < s0.graph.len());
        assert(s0.units[i].to < s0.graph.len());
        assert(s0.units[i].id < s0.next_id);
    }
}

/// Aborting a placement session commits nothing: the graph is untouched,
/// the controller returns to idle, and the highlight derivation that
/// follows clears `Connecting` on the session's source — and everywhere.
pub proof fn lemma_abort_commits_nothing(s: SimState)
    requires
        s.way.state is Placing,
    ensures
        ({
            let r = apply_event(s, InputEvent::Abort);
            &&& r.0.graph == s.graph
            &&& r.0.way.state is Idle
            &&& forall|b: BuildingId|
                derived_glow(b, active_source_of(r.0.way), r.0.hovered) != Glowing::Connecting
        }),
{
}

} // verus!
