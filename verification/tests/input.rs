use flow_rts::geometry::Vec3;
use flow_rts::graph::BuildingGraph;
use flow_rts::input::{hover_transition, pick_hovered, HoveringBuildingChanged};

fn two_buildings() -> BuildingGraph {
    let mut g = BuildingGraph::new();
    g.add_building(Vec3::new(0, 0, 0));
    g.add_building(Vec3::new(10, 0, 10));
    g
}

#[test]
fn cursor_inside_a_footprint_picks_the_building() {
    let g = two_buildings();
    assert_eq!(pick_hovered(&g, Vec3::new(0, 0, 0), 5), Some(0));
    assert_eq!(pick_hovered(&g, Vec3::new(12, 0, 8), 5), Some(1));
    // the vertical axis does not matter for the footprint
    assert_eq!(pick_hovered(&g, Vec3::new(1, 99, -1), 5), Some(0));
}

#[test]
fn cursor_on_empty_ground_picks_nothing() {
    let g = two_buildings();
    assert_eq!(pick_hovered(&g, Vec3::new(100, 0, 100), 5), None);
    // the footprint boundary itself is outside
    assert_eq!(pick_hovered(&g, Vec3::new(5, 0, 0), 5), None);
}

#[test]
fn overlapping_footprints_go_to_the_lowest_handle() {
    let mut g = BuildingGraph::new();
    g.add_building(Vec3::new(0, 0, 0));
    g.add_building(Vec3::new(2, 0, 0));
    assert_eq!(pick_hovered(&g, Vec3::new(1, 0, 0), 5), Some(0));
}

#[test]
fn hover_changes_report_enter_and_leave() {
    // entering a building from empty ground
    let (now, evs) = hover_transition(None, Some(3));
    assert_eq!(now, Some(3));
    assert_eq!(evs, vec![HoveringBuildingChanged { building: 3, active: true }]);
    // staying put reports nothing
    let (now, evs) = hover_transition(now, Some(3));
    assert_eq!(now, Some(3));
    assert!(evs.is_empty());
    // switching buildings reports only the newly entered one
    let (now, evs) = hover_transition(now, Some(5));
    assert_eq!(now, Some(5));
    assert_eq!(evs, vec![HoveringBuildingChanged { building: 5, active: true }]);
    // leaving to empty ground reports the old building inactive
    let (now, evs) = hover_transition(now, None);
    assert_eq!(now, None);
    assert_eq!(evs, vec![HoveringBuildingChanged { building: 5, active: false }]);
    // nothing hovered, nothing to report
    let (now, evs) = hover_transition(now, None);
    assert_eq!(now, None);
    assert!(evs.is_empty());
}
