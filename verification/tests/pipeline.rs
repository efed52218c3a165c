use flow_rts::geometry::Vec3;
use flow_rts::graph::Glowing;
use flow_rts::highlight::BuildingGlowChanged;
use flow_rts::pipeline::{InputEvent, Simulation};
use flow_rts::placement::{ConnectionEstablished, InteractWay};
use flow_rts::scheduler::SpawnUnitRequest;

/// One headquarters that produces every 2 time units, and one tree.
fn small_world() -> (Simulation, usize, usize) {
    let mut sim = Simulation::new(1);
    let hq = sim.add_production_building(Vec3::new(0, 0, 0), 2);
    let tree = sim.add_building(Vec3::new(10, 0, 0));
    (sim, hq, tree)
}

fn no_events() -> Vec<InputEvent> {
    Vec::new()
}

#[test]
fn drawing_a_way_connects_the_buildings() {
    let (mut sim, hq, tree) = small_world();
    let out = sim.tick(&vec![InputEvent::BuildingClicked { building: hq }], 1);
    assert_eq!(out.interactions, vec![InteractWay::Start { from: hq }]);
    assert_eq!(sim.graph.glowing_of(hq), Glowing::Connecting);

    // hovering the tree with clean geometry makes the session valid
    let out = sim.tick(
        &vec![
            InputEvent::BuildingHoverChanged { building: tree, active: true },
            InputEvent::GeometricOverlapCount { count: 2 },
        ],
        1,
    );
    assert!(out.interactions.is_empty());
    assert_eq!(sim.graph.glowing_of(tree), Glowing::Hovering);

    // the click commits the connection and ends the session
    let out = sim.tick(&vec![InputEvent::BuildingClicked { building: tree }], 1);
    assert_eq!(
        out.interactions,
        vec![InteractWay::Finish { from: hq, connect_to: tree }]
    );
    assert_eq!(out.established, vec![ConnectionEstablished { from: hq, to: tree }]);
    assert_eq!(sim.graph.connections_of(hq).as_slice(), &[tree]);
    assert_eq!(sim.graph.glowing_of(hq), Glowing::Off);
}

#[test]
fn a_committed_connection_feeds_production_the_same_tick() {
    let (mut sim, hq, tree) = small_world();
    // two idle ticks: the countdown is suspended while nothing is connected
    sim.tick(&no_events(), 1);
    sim.tick(&no_events(), 1);
    assert_eq!(sim.producers[0].schedule.elapsed, 0);

    // draw the way; the committing tick already advances the countdown
    sim.tick(&vec![InputEvent::BuildingClicked { building: hq }], 1);
    sim.tick(
        &vec![
            InputEvent::BuildingHoverChanged { building: tree, active: true },
            InputEvent::GeometricOverlapCount { count: 2 },
        ],
        1,
    );
    let out = sim.tick(&vec![InputEvent::BuildingClicked { building: tree }], 1);
    assert!(out.spawn_requests.is_empty());
    assert_eq!(sim.producers[0].schedule.elapsed, 1);

    // the next tick completes the period: a unit spawns onto the new way
    // and is advanced by this same tick
    let out = sim.tick(&no_events(), 1);
    assert_eq!(out.spawn_requests, vec![SpawnUnitRequest { from: hq, to: tree }]);
    assert_eq!(sim.transit.units.len(), 1);
    assert_eq!(sim.transit.units[0].position, Vec3::new(1, 0, 0));
}

#[test]
fn aborting_clears_connecting_and_commits_nothing() {
    let (mut sim, hq, tree) = small_world();
    sim.tick(&vec![InputEvent::BuildingClicked { building: hq }], 1);
    sim.tick(
        &vec![
            InputEvent::BuildingHoverChanged { building: tree, active: true },
            InputEvent::GeometricOverlapCount { count: 2 },
        ],
        1,
    );
    assert_eq!(sim.graph.glowing_of(hq), Glowing::Connecting);

    let out = sim.tick(&vec![InputEvent::Abort], 1);
    assert_eq!(out.interactions, vec![InteractWay::Abort { aborted: hq }]);
    assert!(out.established.is_empty());
    assert_eq!(sim.graph.glowing_of(hq), Glowing::Off);
    assert!(sim.graph.connections_of(hq).is_empty());
    assert!(sim.graph.connections_of(tree).is_empty());
    // with the session gone, production stays suspended: nothing connected
    let out = sim.tick(&no_events(), 10);
    assert!(out.spawn_requests.is_empty());
}

#[test]
fn glow_changes_cross_the_boundary_once_per_change() {
    let (mut sim, hq, _) = small_world();
    let out = sim.tick(&vec![InputEvent::BuildingClicked { building: hq }], 1);
    assert_eq!(
        out.glow_changes,
        vec![BuildingGlowChanged { building: hq, state: Glowing::Connecting }]
    );
    // an eventless tick changes no glow
    let out = sim.tick(&no_events(), 1);
    assert!(out.glow_changes.is_empty());
}

#[test]
fn units_travel_the_way_and_arrive() {
    let (mut sim, hq, tree) = small_world();
    sim.tick(&vec![InputEvent::BuildingClicked { building: hq }], 1);
    sim.tick(
        &vec![
            InputEvent::BuildingHoverChanged { building: tree, active: true },
            InputEvent::GeometricOverlapCount { count: 2 },
        ],
        1,
    );
    sim.tick(&vec![InputEvent::BuildingClicked { building: tree }], 1);

    // run until the first arrival; the buildings are 10 apart at speed 1
    let mut arrived = Vec::new();
    for _ in 0..12 {
        let out = sim.tick(&no_events(), 1);
        arrived.extend(out.arrivals);
        if !arrived.is_empty() {
            break;
        }
    }
    assert_eq!(arrived.len(), 1);
    assert_eq!(arrived[0].destination, tree);
}

#[test]
fn validity_is_recomputed_after_the_events_of_a_tick() {
    // both clicks arrive within one tick: the second click still sees the
    // session as invalid, because validity is only recomputed once this
    // tick's events are resolved — the way cannot be drawn in a single tick
    let (mut sim, hq, tree) = small_world();
    let out = sim.tick(
        &vec![
            InputEvent::BuildingClicked { building: hq },
            InputEvent::BuildingHoverChanged { building: tree, active: true },
            InputEvent::GeometricOverlapCount { count: 2 },
            InputEvent::BuildingClicked { building: tree },
        ],
        1,
    );
    assert_eq!(out.interactions, vec![InteractWay::Start { from: hq }]);
    assert!(out.established.is_empty());
    assert!(sim.graph.connections_of(hq).is_empty());
    // the session is still active, and the next tick's click commits
    let out = sim.tick(&vec![InputEvent::BuildingClicked { building: tree }], 1);
    assert_eq!(out.established, vec![ConnectionEstablished { from: hq, to: tree }]);
}

#[test]
fn stale_handles_in_events_are_harmless() {
    let (mut sim, hq, _) = small_world();
    sim.tick(&vec![InputEvent::BuildingClicked { building: hq }], 1);
    // a hover or click naming a handle the graph does not know is ignored:
    // no session change, no commit, no glow on the unknown handle
    let out = sim.tick(
        &vec![
            InputEvent::BuildingHoverChanged { building: 99, active: true },
            InputEvent::GeometricOverlapCount { count: 2 },
            InputEvent::BuildingClicked { building: 99 },
        ],
        1,
    );
    assert!(out.interactions.is_empty());
    assert!(out.established.is_empty());
    assert_eq!(sim.graph.glowing_of(hq), Glowing::Connecting);
    assert!(sim.graph.connections_of(hq).is_empty());
}

#[test]
fn ignored_clicks_leave_everything_unchanged() {
    let (mut sim, hq, tree) = small_world();
    sim.tick(&vec![InputEvent::BuildingClicked { building: hq }], 1);
    // no hover, no overlap report: the session is invalid, the click is
    // ignored and no connection is committed
    let out = sim.tick(&vec![InputEvent::BuildingClicked { building: tree }], 1);
    assert!(out.interactions.is_empty());
    assert!(out.established.is_empty());
    assert!(sim.graph.connections_of(hq).is_empty());
    assert_eq!(sim.graph.glowing_of(hq), Glowing::Connecting);
}
