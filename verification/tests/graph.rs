use flow_rts::geometry::Vec3;
use flow_rts::graph::{BuildingGraph, FlowError, Glowing};

#[test]
fn add_building_assigns_handles_in_order() {
    let mut g = BuildingGraph::new();
    let a = g.add_building(Vec3::new(0, 0, 0));
    let b = g.add_building(Vec3::new(10, 0, 0));
    assert_eq!(a, 0);
    assert_eq!(b, 1);
    assert_eq!(g.len(), 2);
    assert_eq!(g.position_of(a), Vec3::new(0, 0, 0));
    assert_eq!(g.position_of(b), Vec3::new(10, 0, 0));
    assert_eq!(g.glowing_of(a), Glowing::Off);
    assert!(g.connections_of(a).is_empty());
}

#[test]
fn add_connection_succeeds_once() {
    let mut g = BuildingGraph::new();
    let a = g.add_building(Vec3::new(0, 0, 0));
    let b = g.add_building(Vec3::new(10, 0, 0));
    assert_eq!(g.add_connection(a, b), Ok(()));
    assert_eq!(g.connections_of(a).as_slice(), &[b]);
    assert!(g.connections_of(b).is_empty());
}

#[test]
fn duplicate_connection_rejected_in_both_directions() {
    let mut g = BuildingGraph::new();
    let a = g.add_building(Vec3::new(0, 0, 0));
    let b = g.add_building(Vec3::new(10, 0, 0));
    assert_eq!(g.add_connection(a, b), Ok(()));
    assert_eq!(g.add_connection(a, b), Err(FlowError::DuplicateConnection));
    assert_eq!(g.add_connection(b, a), Err(FlowError::DuplicateConnection));
    // the failures left the graph untouched
    assert_eq!(g.connections_of(a).as_slice(), &[b]);
    assert!(g.connections_of(b).is_empty());
}

#[test]
fn self_connection_rejected() {
    let mut g = BuildingGraph::new();
    let a = g.add_building(Vec3::new(0, 0, 0));
    assert_eq!(g.add_connection(a, a), Err(FlowError::SelfConnection));
    // even for a handle the graph does not know
    assert_eq!(g.add_connection(7, 7), Err(FlowError::SelfConnection));
    assert!(g.connections_of(a).is_empty());
}

#[test]
fn unknown_building_rejected() {
    let mut g = BuildingGraph::new();
    let a = g.add_building(Vec3::new(0, 0, 0));
    assert_eq!(g.add_connection(a, 5), Err(FlowError::MissingBuilding));
    assert_eq!(g.add_connection(5, a), Err(FlowError::MissingBuilding));
}

#[test]
fn connection_list_keeps_insertion_order() {
    let mut g = BuildingGraph::new();
    let hub = g.add_building(Vec3::new(0, 0, 0));
    let x = g.add_building(Vec3::new(10, 0, 0));
    let y = g.add_building(Vec3::new(0, 0, 10));
    let z = g.add_building(Vec3::new(-10, 0, 0));
    assert_eq!(g.add_connection(hub, x), Ok(()));
    assert_eq!(g.add_connection(hub, y), Ok(()));
    assert_eq!(g.add_connection(hub, z), Ok(()));
    assert_eq!(g.connections_of(hub).as_slice(), &[x, y, z]);
}
