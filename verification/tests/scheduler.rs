use flow_rts::scheduler::ProductionSchedule;

#[test]
fn round_robin_cycles_in_connection_order() {
    let x: usize = 10;
    let y: usize = 11;
    let z: usize = 12;
    let conns = vec![x, y, z];
    let mut s = ProductionSchedule::new(1);
    let mut visited = Vec::new();
    for _ in 0..4 {
        match s.tick(&conns, 1) {
            Some(t) => visited.push(t),
            None => panic!("a full period elapsed, the schedule must fire"),
        }
    }
    assert_eq!(visited, vec![x, y, z, x]);
}

#[test]
fn no_firing_before_the_period_elapses() {
    let conns = vec![1usize];
    let mut s = ProductionSchedule::new(5);
    assert_eq!(s.tick(&conns, 2), None);
    assert_eq!(s.tick(&conns, 2), None);
    assert_eq!(s.tick(&conns, 1), Some(1));
}

#[test]
fn empty_connections_suspend_the_countdown() {
    let empty: Vec<usize> = Vec::new();
    let conns = vec![3usize];
    let mut s = ProductionSchedule::new(5);
    // make some progress, then lose the only connection
    assert_eq!(s.tick(&conns, 2), None);
    assert_eq!(s.elapsed, 2);
    // suspended: no amount of waiting advances the countdown or fires
    assert_eq!(s.tick(&empty, 100), None);
    assert_eq!(s.tick(&empty, 100), None);
    assert_eq!(s.elapsed, 2);
    // once a connection exists again, the firing comes exactly one
    // remaining period later — not immediately
    assert_eq!(s.tick(&conns, 0), None);
    assert_eq!(s.tick(&conns, 2), None);
    assert_eq!(s.tick(&conns, 1), Some(3));
}

#[test]
fn catch_up_is_clamped_to_one_firing_per_tick() {
    let conns = vec![4usize, 5];
    let mut s = ProductionSchedule::new(5);
    // fifty periods elapse in one stalled tick: exactly one unit fires
    assert_eq!(s.tick(&conns, 250), Some(4));
    assert_eq!(s.elapsed, 0);
    // and the next tick starts a fresh countdown
    assert_eq!(s.tick(&conns, 0), None);
    assert_eq!(s.tick(&conns, 4), None);
    assert_eq!(s.tick(&conns, 1), Some(5));
}

#[test]
fn cursor_stays_valid_when_the_list_grows() {
    let mut s = ProductionSchedule::new(1);
    let two = vec![7usize, 8];
    assert_eq!(s.tick(&two, 1), Some(7));
    assert_eq!(s.tick(&two, 1), Some(8));
    // the list grows between firings; the cursor wraps modulo the new length
    let three = vec![7usize, 8, 9];
    assert_eq!(s.tick(&three, 1), Some(9));
    assert_eq!(s.tick(&three, 1), Some(7));
}

#[test]
fn cursor_wraps_when_the_list_shrinks_to_one() {
    let mut s = ProductionSchedule::new(1);
    let three = vec![7usize, 8, 9];
    assert_eq!(s.tick(&three, 1), Some(7));
    assert_eq!(s.tick(&three, 1), Some(8));
    let one = vec![7usize];
    assert_eq!(s.tick(&one, 1), Some(7));
}
