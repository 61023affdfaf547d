use std::sync::Arc;

use hfps::broker::{EventBroker, WorldEvent};
use hfps::error::CoreError;
use hfps::fixed::{fx_mul, ONE};
use hfps::hfps::{
    calculate_hash, AgentSystem, BehaviorProfile, Channel, HfpsAgent, Stimulus, Threshold,
};
use hfps::loader::{build_profile, ProfileSettings};
use hfps::spatial::{SpatialGrid, EMPTY};

fn units(v: i64) -> i64 {
    v * ONE
}

fn stimulus(name: &str, channel: Channel, power: i64, radius: i64) -> Stimulus {
    Stimulus {
        event_name: name.to_string(),
        event_hash: 0,
        channel,
        power,
        radius,
    }
}

fn settings(listeners: Vec<Stimulus>, thresholds: Vec<Threshold>, adaptation: i64) -> ProfileSettings {
    ProfileSettings {
        name: "sheep".to_string(),
        sensitivity: vec![("Security".to_string(), units(1))],
        decay_rates: vec![("Security".to_string(), ONE / 10)],
        adaptation_rates: vec![("Security".to_string(), adaptation)],
        thresholds,
        listeners,
        emissions: vec![],
    }
}

fn danger_profile() -> Arc<BehaviorProfile> {
    Arc::new(build_profile(settings(
        vec![stimulus("danger", Channel::Security, units(1), units(50))],
        vec![],
        0,
    )))
}

fn world(profile: Arc<BehaviorProfile>, positions: &[(i64, i64)]) -> (AgentSystem, SpatialGrid) {
    let mut system = AgentSystem::new(positions.len());
    let mut grid = SpatialGrid::new(units(50));
    for (i, p) in positions.iter().enumerate() {
        system.add_agent(*p, profile.clone());
        grid.insert(i, *p).unwrap();
    }
    (system, grid)
}

fn event(name: &str, origin: (i64, i64), intensity: i64) -> WorldEvent {
    WorldEvent {
        name: name.to_string(),
        origin,
        base_intensity: intensity,
    }
}

#[test]
fn danger_at_origin_then_tick() {
    let (mut system, grid) = world(danger_profile(), &[(0, 0)]);
    let ev = event("danger", (0, 0), units(-40));
    assert_eq!(EventBroker::emit(&ev, &mut system, &grid), Ok(()));
    assert_eq!(system.channels[1][0], units(-40));
    system.tick();
    assert_eq!(system.channels[1][0], -39_998_400_000);
}

#[test]
fn unmatched_event_changes_nothing() {
    let (mut system, grid) = world(danger_profile(), &[(0, 0), (units(10), units(5))]);
    let ev = event("whisper", (0, 0), units(-40));
    assert_eq!(EventBroker::emit(&ev, &mut system, &grid), Ok(()));
    for c in 0..4 {
        assert_eq!(system.channels[c], vec![0, 0]);
        assert_eq!(system.adaptation[c], vec![0, 0]);
    }
}

#[test]
fn agent_on_the_radius_gets_nothing() {
    let profile = Arc::new(build_profile(settings(
        vec![stimulus("danger", Channel::Security, units(1), units(50))],
        vec![],
        units(1),
    )));
    let (mut system, grid) = world(profile, &[(units(50), 0)]);
    let ev = event("danger", (0, 0), units(-40));
    assert_eq!(EventBroker::emit(&ev, &mut system, &grid), Ok(()));
    assert_eq!(system.channels[1][0], 0);
    assert_eq!(system.adaptation[1][0], 0);
}

#[test]
fn agent_beyond_the_radius_gets_nothing() {
    let (mut system, grid) = world(danger_profile(), &[(units(51), 0)]);
    let ev = event("danger", (0, 0), units(-40));
    assert_eq!(EventBroker::emit(&ev, &mut system, &grid), Ok(()));
    assert_eq!(system.channels[1][0], 0);
}

#[test]
fn halfway_pressure_and_habituation() {
    let profile = Arc::new(build_profile(settings(
        vec![stimulus("danger", Channel::Security, units(1), units(50))],
        vec![],
        units(1),
    )));
    let (mut system, grid) = world(profile, &[(units(25), 0)]);
    let ev = event("danger", (0, 0), units(-40));
    assert_eq!(EventBroker::emit(&ev, &mut system, &grid), Ok(()));
    // falloff 0.5, pressure -20, push 20 * 1.0 * 0.01 = 0.2
    assert_eq!(system.channels[1][0], units(-20));
    assert_eq!(system.adaptation[1][0], -200_000_000);
    // habituation now dampens: sensitivity 1 * (1 - 0.2) = 0.8
    assert_eq!(EventBroker::emit(&ev, &mut system, &grid), Ok(()));
    assert_eq!(system.channels[1][0], units(-20) - 16 * ONE);
    assert_eq!(system.adaptation[1][0], -400_000_000);
    system.tick();
    assert_eq!(system.adaptation[1][0], -399_800_000);
    assert_eq!(system.dna_modifiers[1][0], ONE - 3_998);
}

#[test]
fn habituation_clamps_at_lower_bound() {
    let profile = Arc::new(build_profile(settings(
        vec![stimulus("danger", Channel::Security, units(1), units(50))],
        vec![],
        units(1),
    )));
    let (mut system, grid) = world(profile, &[(0, 0)]);
    let ev = event("danger", (0, 0), units(-1000));
    assert_eq!(EventBroker::emit(&ev, &mut system, &grid), Ok(()));
    assert_eq!(system.adaptation[1][0], -900_000_000);
}

#[test]
fn two_listeners_both_fire() {
    let profile = Arc::new(build_profile(settings(
        vec![
            stimulus("danger", Channel::Security, units(1), units(50)),
            stimulus("danger", Channel::Vitality, units(2), units(10)),
        ],
        vec![],
        0,
    )));
    let (mut system, grid) = world(profile, &[(0, 0)]);
    let ev = event("danger", (0, 0), units(-5));
    assert_eq!(EventBroker::emit(&ev, &mut system, &grid), Ok(()));
    assert_eq!(system.channels[1][0], units(-5));
    assert_eq!(system.channels[0][0], units(-10));
}

#[test]
fn decay_never_crosses_zero() {
    let (mut system, _grid) = world(danger_profile(), &[(0, 0), (0, 0)]);
    system.channels[1][0] = 1_000_000;
    system.channels[1][1] = -1_000_000;
    system.channels[0][0] = units(3);
    system.tick();
    assert_eq!(system.channels[1][0], 0);
    assert_eq!(system.channels[1][1], 0);
    // default decay 0.1 on Vitality: 3 - 0.0016
    assert_eq!(system.channels[0][0], units(3) - 1_600_000);
}

#[test]
fn bounds_hold_over_many_ticks() {
    let (mut system, _grid) = world(danger_profile(), &[(0, 0)]);
    system.adaptation[2][0] = 2 * ONE;
    system.dna_modifiers[2][0] = 5 * ONE;
    for _ in 0..1000 {
        system.tick();
        for c in 0..4 {
            assert!(system.adaptation[c][0] >= -900_000_000 && system.adaptation[c][0] <= 2 * ONE);
            assert!(system.dna_modifiers[c][0] >= ONE / 10 && system.dna_modifiers[c][0] <= 5 * ONE);
        }
    }
    assert_eq!(system.dna_modifiers[2][0], 5 * ONE);
    assert!(system.adaptation[2][0] < 2 * ONE);
}

#[test]
fn thresholds_raise_flags() {
    let profile = Arc::new(build_profile(settings(
        vec![stimulus("danger", Channel::Security, units(1), units(50))],
        vec![
            Threshold { channel: Channel::Security, value: units(-10), flag: 2 },
            Threshold { channel: Channel::Security, value: units(10), flag: 4 },
            Threshold { channel: Channel::Vitality, value: 0, flag: 8 },
        ],
        0,
    )));
    let (mut system, grid) = world(profile, &[(0, 0)]);
    assert_eq!(system.active_flags[0], 0);
    system.tick();
    assert_eq!(system.active_flags[0], 1 | 8);
    let ev = event("danger", (0, 0), units(-40));
    assert_eq!(EventBroker::emit(&ev, &mut system, &grid), Ok(()));
    system.tick();
    assert_eq!(system.active_flags[0], 1 | 2 | 8);
}

#[test]
fn stale_grid_entry_is_reported() {
    let (mut system, mut grid) = world(danger_profile(), &[(0, 0)]);
    grid.insert(7, (0, 0)).unwrap();
    let ev = event("danger", (0, 0), units(-40));
    assert_eq!(EventBroker::emit(&ev, &mut system, &grid), Err(CoreError::IndexOutOfRange));
    assert_eq!(system.channels[1][0], 0);
}

#[test]
fn insert_beyond_capacity_is_refused() {
    let mut grid = SpatialGrid::new(units(50));
    assert_eq!(grid.insert(2000, (0, 0)), Err(CoreError::CapacityExceeded));
    assert_eq!(grid.insert(1999, (0, 0)), Ok(()));
    assert_eq!(grid.heads[0], 1999);
}

#[test]
fn insert_clamps_to_border_cells() {
    let mut grid = SpatialGrid::new(units(10));
    grid.insert(0, (units(-5), units(-5))).unwrap();
    grid.insert(1, (units(1000), units(1000))).unwrap();
    grid.insert(2, (units(15), units(25))).unwrap();
    grid.insert(3, (units(19), units(29))).unwrap();
    assert_eq!(grid.heads[0], 0);
    assert_eq!(grid.heads[399], 1);
    assert_eq!(grid.heads[2 * 20 + 1], 3);
    assert_eq!(grid.next[3], 2);
    assert_eq!(grid.next[2], EMPTY);
}

#[test]
fn nearby_cells_cover_bounding_box() {
    let grid = SpatialGrid::new(units(10));
    let cells = grid.get_nearby_cells((units(55), units(55)), units(10));
    assert_eq!(cells, vec![84, 85, 86, 104, 105, 106, 124, 125, 126]);
    let cell = (48 / 10) * 20 + 62 / 10;
    assert!(cells.contains(&cell));
}

#[test]
fn nearby_cells_clamp_to_grid() {
    let grid = SpatialGrid::new(units(50));
    let cells = grid.get_nearby_cells((0, 0), units(500));
    let mut expected = Vec::new();
    for y in 0..11 {
        for x in 0..11 {
            expected.push(y * 20 + x);
        }
    }
    assert_eq!(cells, expected);
    assert_eq!(grid.get_nearby_cells((0, 0), units(-1)), vec![0]);
    assert_eq!(grid.get_nearby_cells((units(100), 0), units(-60)), Vec::<usize>::new());
}

#[test]
fn clear_and_reinsert_reproduces_grid() {
    let positions = [(units(3), units(4)), (units(120), units(7)), (units(5), units(2)), (units(999), 0)];
    let mut grid = SpatialGrid::new(units(50));
    for (i, p) in positions.iter().enumerate() {
        grid.insert(i, *p).unwrap();
    }
    let heads = grid.heads;
    let next = grid.next;
    grid.clear();
    assert!(grid.heads.iter().all(|h| *h == EMPTY));
    for (i, p) in positions.iter().enumerate() {
        grid.insert(i, *p).unwrap();
    }
    assert_eq!(grid.heads, heads);
    assert_eq!(grid.next, next);
    assert_eq!(grid.heads[0], 2);
    assert_eq!(grid.next[2], 0);
}

#[test]
fn hash_is_stable_and_distinguishes_names() {
    let a = calculate_hash(&"danger".to_string());
    let b = calculate_hash(&"danger".to_string());
    let c = calculate_hash(&"food".to_string());
    assert_eq!(a, b);
    assert_ne!(a, c);
}

#[test]
fn build_profile_fills_defaults_and_hashes() {
    let mut s = settings(
        vec![stimulus("danger", Channel::Security, units(1), units(50))],
        vec![],
        units(2),
    );
    s.sensitivity.push(("Dominance".to_string(), units(3)));
    s.sensitivity.push(("Unknown".to_string(), units(9)));
    let profile = build_profile(s);
    assert_eq!(profile.name, "sheep");
    assert_eq!(profile.sensitivity, [ONE, ONE, units(3), ONE]);
    assert_eq!(profile.decay_rates, [ONE / 10, ONE / 10, ONE / 10, ONE / 10]);
    assert_eq!(profile.adaptation_rates, [0, units(2), 0, 0]);
    assert_eq!(profile.listeners[0].event_hash, calculate_hash(&"danger".to_string()));
    assert!(profile.is_well_formed());
}

#[test]
fn zero_radius_listener_is_not_well_formed() {
    let profile = build_profile(settings(
        vec![stimulus("danger", Channel::Security, units(1), 0)],
        vec![],
        0,
    ));
    assert!(!profile.is_well_formed());
}

#[test]
fn single_agent_starts_neutral() {
    let agent = HfpsAgent::new(danger_profile());
    assert_eq!(agent.channels, [0, 0, 0, 0]);
    assert_eq!(agent.adaptation, [0, 0, 0, 0]);
    assert_eq!(agent.dna_modifiers, [ONE, ONE, ONE, ONE]);
    assert_eq!(agent.active_flags, 1);
}

#[test]
fn fixed_point_products_truncate_toward_zero() {
    assert_eq!(fx_mul(units(3), ONE / 2), 1_500_000_000);
    assert_eq!(fx_mul(-3, ONE / 2), -1);
    assert_eq!(fx_mul(3, ONE / 2), 1);
    assert_eq!(fx_mul(i64::MAX, units(2)), i64::MAX);
    assert_eq!(fx_mul(i64::MIN, units(2)), -i64::MAX);
}

#[test]
fn add_agent_appends_a_neutral_row() {
    let (system, _grid) = world(danger_profile(), &[(1, 2), (3, 4)]);
    assert_eq!(system.count, 2);
    assert_eq!(system.x, vec![1, 3]);
    assert_eq!(system.y, vec![2, 4]);
    assert_eq!(system.dna_modifiers[3], vec![ONE, ONE]);
    assert_eq!(system.active_flags, vec![0, 0]);
}
