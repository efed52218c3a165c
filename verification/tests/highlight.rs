use flow_rts::geometry::Vec3;
use flow_rts::graph::{BuildingGraph, Glowing};
use flow_rts::highlight::{update_glowing, BuildingGlowChanged};

fn three_buildings() -> BuildingGraph {
    let mut g = BuildingGraph::new();
    g.add_building(Vec3::new(0, 0, 0));
    g.add_building(Vec3::new(10, 0, 0));
    g.add_building(Vec3::new(0, 0, 10));
    g
}

#[test]
fn source_glows_connecting_and_hovered_glows_hovering() {
    let mut g = three_buildings();
    let changes = update_glowing(&mut g, Some(0), Some(1));
    assert_eq!(g.glowing_of(0), Glowing::Connecting);
    assert_eq!(g.glowing_of(1), Glowing::Hovering);
    assert_eq!(g.glowing_of(2), Glowing::Off);
    assert_eq!(
        changes,
        vec![
            BuildingGlowChanged { building: 0, state: Glowing::Connecting },
            BuildingGlowChanged { building: 1, state: Glowing::Hovering },
        ]
    );
}

#[test]
fn connecting_wins_over_hovering_on_the_same_building() {
    let mut g = three_buildings();
    let changes = update_glowing(&mut g, Some(1), Some(1));
    assert_eq!(g.glowing_of(1), Glowing::Connecting);
    assert_eq!(
        changes,
        vec![BuildingGlowChanged { building: 1, state: Glowing::Connecting }]
    );
}

#[test]
fn only_actual_changes_are_reported() {
    let mut g = three_buildings();
    update_glowing(&mut g, None, Some(2));
    // recomputing the same interaction state touches nothing
    let changes = update_glowing(&mut g, None, Some(2));
    assert!(changes.is_empty());
    // moving the hover reports exactly the two buildings that changed
    let changes = update_glowing(&mut g, None, Some(1));
    assert_eq!(
        changes,
        vec![
            BuildingGlowChanged { building: 1, state: Glowing::Hovering },
            BuildingGlowChanged { building: 2, state: Glowing::Off },
        ]
    );
}

#[test]
fn clearing_the_interaction_state_turns_everything_off() {
    let mut g = three_buildings();
    update_glowing(&mut g, Some(0), Some(1));
    let changes = update_glowing(&mut g, None, None);
    assert_eq!(g.glowing_of(0), Glowing::Off);
    assert_eq!(g.glowing_of(1), Glowing::Off);
    assert_eq!(g.glowing_of(2), Glowing::Off);
    assert_eq!(changes.len(), 2);
}
