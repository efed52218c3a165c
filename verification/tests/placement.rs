use flow_rts::geometry::Vec3;
use flow_rts::graph::{BuildingGraph, FlowError};
use flow_rts::placement::{InteractWay, PlacementState, WayController, WayTarget};

fn graph_ab() -> (BuildingGraph, usize, usize) {
    let mut g = BuildingGraph::new();
    let a = g.add_building(Vec3::new(0, 0, 0));
    let b = g.add_building(Vec3::new(10, 0, 0));
    (g, a, b)
}

#[test]
fn starting_a_second_session_is_rejected_and_harmless() {
    let (g, a, b) = graph_ab();
    let mut c = WayController::new();
    assert_eq!(c.start(&g, a), Ok(()));
    // the second start fails and the active session is unaffected
    assert_eq!(c.start(&g, b), Err(FlowError::SessionAlreadyActive));
    match c.state {
        PlacementState::Placing { source, target, valid } => {
            assert_eq!(source, a);
            assert_eq!(target, None);
            assert!(!valid);
        }
        PlacementState::Idle => panic!("the session must survive the rejected start"),
    }
}

#[test]
fn starting_from_an_unknown_building_is_rejected() {
    let (g, _, _) = graph_ab();
    let mut c = WayController::new();
    assert_eq!(c.start(&g, 9), Err(FlowError::MissingBuilding));
    assert!(matches!(c.state, PlacementState::Idle));
}

#[test]
fn click_while_idle_starts_a_session() {
    let (mut g, a, _) = graph_ab();
    let mut c = WayController::new();
    let ev = c.handle_click(&mut g, a);
    assert_eq!(ev, Some(InteractWay::Start { from: a }));
    assert!(matches!(c.state, PlacementState::Placing { .. }));
}

#[test]
fn valid_click_commits_the_connection_and_ends_the_session() {
    let (mut g, a, b) = graph_ab();
    let mut c = WayController::new();
    c.handle_click(&mut g, a);
    c.update_candidate(&g, Some(WayTarget::Building(b)), 2);
    let ev = c.handle_click(&mut g, b);
    assert_eq!(ev, Some(InteractWay::Finish { from: a, connect_to: b }));
    assert!(matches!(c.state, PlacementState::Idle));
    assert_eq!(g.connections_of(a).as_slice(), &[b]);
}

#[test]
fn click_on_the_source_is_ignored() {
    let (mut g, a, b) = graph_ab();
    let mut c = WayController::new();
    c.handle_click(&mut g, a);
    c.update_candidate(&g, Some(WayTarget::Building(b)), 2);
    assert_eq!(c.handle_click(&mut g, a), None);
    assert!(matches!(c.state, PlacementState::Placing { .. }));
    assert!(g.connections_of(a).is_empty());
}

#[test]
fn invalid_session_blocks_the_finish() {
    let (mut g, a, b) = graph_ab();
    let mut c = WayController::new();
    c.handle_click(&mut g, a);
    // an overlap count other than two means the way crosses something
    c.update_candidate(&g, Some(WayTarget::Building(b)), 3);
    assert_eq!(c.handle_click(&mut g, b), None);
    assert!(g.connections_of(a).is_empty());
    // corrected geometry makes the same click succeed
    c.update_candidate(&g, Some(WayTarget::Building(b)), 2);
    assert_eq!(c.handle_click(&mut g, b), Some(InteractWay::Finish { from: a, connect_to: b }));
}

#[test]
fn ground_candidate_is_never_valid_to_finish() {
    let (mut g, a, b) = graph_ab();
    let mut c = WayController::new();
    c.handle_click(&mut g, a);
    c.update_candidate(&g, Some(WayTarget::Ground(Vec3::new(5, 0, 0))), 2);
    match c.state {
        PlacementState::Placing { valid, .. } => assert!(!valid),
        PlacementState::Idle => panic!("session must still be active"),
    }
    assert_eq!(c.handle_click(&mut g, b), None);
}

#[test]
fn already_connected_pair_cannot_be_finished_again() {
    let (mut g, a, b) = graph_ab();
    g.add_connection(b, a).unwrap();
    let mut c = WayController::new();
    c.handle_click(&mut g, a);
    c.update_candidate(&g, Some(WayTarget::Building(b)), 2);
    match c.state {
        PlacementState::Placing { valid, .. } => assert!(!valid),
        PlacementState::Idle => panic!("session must still be active"),
    }
    assert_eq!(c.handle_click(&mut g, b), None);
    assert!(g.connections_of(a).is_empty());
}

#[test]
fn abort_discards_the_session_without_committing() {
    let (mut g, a, b) = graph_ab();
    let mut c = WayController::new();
    c.handle_click(&mut g, a);
    c.update_candidate(&g, Some(WayTarget::Building(b)), 2);
    let ev = c.abort();
    assert_eq!(ev, Some(InteractWay::Abort { aborted: a }));
    assert!(matches!(c.state, PlacementState::Idle));
    assert!(g.connections_of(a).is_empty());
    assert!(g.connections_of(b).is_empty());
}

#[test]
fn abort_while_idle_is_a_no_op() {
    let mut c = WayController::new();
    assert_eq!(c.abort(), None);
    assert!(matches!(c.state, PlacementState::Idle));
}
