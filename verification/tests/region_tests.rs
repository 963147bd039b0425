use terrain_stream::Config;
use terrain_stream::ConfigError;
use terrain_stream::RegionCache;
use terrain_stream::RegionState;
use terrain_stream::in_region;

fn demo_config(region_size: u32, visual_radius: u32, physical_radius: u32) -> Config {
    Config::new(1, 10_000, 200, region_size, visual_radius, physical_radius).unwrap()
}

#[test]
fn config_rejects_zero_region_size() {
    assert_eq!(Config::new(1, 10_000, 200, 0, 2, 1).unwrap_err(), ConfigError::ZeroRegionSize);
}

#[test]
fn config_rejects_radius_order() {
    assert_eq!(Config::new(1, 10_000, 200, 16, 1, 2).unwrap_err(), ConfigError::RadiusOrder);
}

#[test]
fn config_rejects_oversized_radius() {
    assert_eq!(
        Config::new(1, 10_000, 200, 16, 0x8001, 1).unwrap_err(),
        ConfigError::RadiusTooLarge
    );
}

#[test]
fn in_region_is_chebyshev() {
    assert!(in_region(2, 0, -2, 0, 0, 0, 2));
    assert!(!in_region(3, 0, 0, 0, 0, 0, 2));
    assert!(!in_region(0, 0, -3, 0, 0, 0, 2));
    // The vertical coordinate does not take part.
    assert!(in_region(0, 100, 0, 0, 0, 0, 0));
}

#[test]
fn first_tick_loads_both_radii() {
    let mut cache = RegionCache::new(demo_config(16, 2, 1));
    let report = cache.region_update(Some((0, 0, 0)));
    assert_eq!(report.spawned_visual.len(), 25);
    assert_eq!(report.spawned_physical.len(), 9);
    assert_eq!(report.despawned_visual.len(), 0);
    assert_eq!(report.despawned_physical.len(), 0);
    assert_eq!(cache.observer_region(), Some((0, 0)));
    assert_eq!(cache.visual_len(), 25);
    assert_eq!(cache.physical_len(), 9);
    assert_eq!(cache.state_of(0, 0), RegionState::BothLoaded);
    assert_eq!(cache.state_of(2, -2), RegionState::VisualLoaded);
    assert_eq!(cache.state_of(3, 0), RegionState::Absent);
}

#[test]
fn second_tick_same_region_is_idempotent() {
    let mut cache = RegionCache::new(demo_config(16, 2, 1));
    cache.region_update(Some((5, 0, 5)));
    // A different position in the same region performs zero spawns and
    // zero despawns.
    let report = cache.region_update(Some((12, 3, 1)));
    assert_eq!(report.spawned_visual.len(), 0);
    assert_eq!(report.despawned_visual.len(), 0);
    assert_eq!(report.spawned_physical.len(), 0);
    assert_eq!(report.despawned_physical.len(), 0);
}

#[test]
fn scenario_observer_moves_five_regions() {
    // With visual radius two, moving from region (0,0) to region (5,0)
    // leaves no overlap: 25 spawns and 25 despawns.
    let mut cache = RegionCache::new(demo_config(16, 2, 0));
    cache.region_update(Some((0, 0, 0)));
    let report = cache.region_update(Some((5 * 16, 0, 0)));
    assert_eq!(report.spawned_visual.len(), 25);
    assert_eq!(report.despawned_visual.len(), 25);
    for rec in &report.despawned_visual {
        assert!(!in_region(rec.x, 0, rec.z, 5, 0, 0, 2));
    }
}

#[test]
fn scenario_observer_moves_one_region() {
    // Moving one region over with visual radius two: one new column of
    // five enters, one leaves.
    let mut cache = RegionCache::new(demo_config(16, 2, 0));
    cache.region_update(Some((0, 0, 0)));
    let report = cache.region_update(Some((16, 0, 0)));
    assert_eq!(report.spawned_visual.len(), 5);
    assert_eq!(report.despawned_visual.len(), 5);
    assert_eq!(cache.visual_len(), 25);
}

#[test]
fn tick_without_observer_is_noop() {
    let mut cache = RegionCache::new(demo_config(16, 2, 1));
    let report = cache.region_update(None);
    assert_eq!(report.spawned_visual.len(), 0);
    assert_eq!(cache.visual_len(), 0);
    assert_eq!(cache.observer_region(), None);
    cache.region_update(Some((0, 0, 0)));
    let report2 = cache.region_update(None);
    assert_eq!(report2.spawned_visual.len(), 0);
    assert_eq!(report2.despawned_visual.len(), 0);
    assert_eq!(cache.visual_len(), 25);
}

#[test]
fn negative_positions_truncate_toward_zero() {
    let mut cache = RegionCache::new(demo_config(16, 0, 0));
    cache.region_update(Some((-15, 0, -1)));
    assert_eq!(cache.observer_region(), Some((0, 0)));
    cache.region_update(Some((-16, 0, 17)));
    assert_eq!(cache.observer_region(), Some((-1, 1)));
}

#[test]
fn attach_accepts_loaded_and_rejects_evicted() {
    let mut cache = RegionCache::new(demo_config(16, 1, 1));
    cache.region_update(Some((0, 0, 0)));
    assert!(cache.attach_visual(1, 1, 77));
    assert!(cache.attach_physical(0, 0, 78));
    // A coordinate outside the loaded set: the late result is rejected
    // rather than resurrecting an absent region.
    assert!(!cache.attach_visual(9, 9, 79));
    // After the observer moves away, a stale handle for an evicted
    // region is rejected too.
    cache.region_update(Some((10 * 16, 0, 0)));
    assert!(!cache.attach_visual(1, 1, 80));
}

#[test]
fn discard_leaves_region_absent_until_next_tick() {
    let mut cache = RegionCache::new(demo_config(16, 1, 1));
    cache.region_update(Some((0, 0, 0)));
    assert!(cache.attach_visual(0, 0, 5));
    let removed = cache.discard_visual(0, 0).unwrap();
    assert_eq!(removed.handle, Some(5));
    assert_eq!(cache.state_of(0, 0), RegionState::PhysicalLoaded);
    // The next tick from the same region requests the build again.
    let report = cache.region_update(Some((0, 0, 0)));
    assert_eq!(report.spawned_visual.len(), 1);
    assert_eq!(report.spawned_visual[0], (0, 0));
    assert_eq!(cache.state_of(0, 0), RegionState::BothLoaded);
}

#[test]
fn despawned_records_keep_their_handles() {
    let mut cache = RegionCache::new(demo_config(16, 0, 0));
    cache.region_update(Some((0, 0, 0)));
    assert!(cache.attach_visual(0, 0, 41));
    let report = cache.region_update(Some((5 * 16, 0, 0)));
    assert_eq!(report.despawned_visual.len(), 1);
    assert_eq!(report.despawned_visual[0].x, 0);
    assert_eq!(report.despawned_visual[0].z, 0);
    assert_eq!(report.despawned_visual[0].handle, Some(41));
    assert_eq!(report.despawned_visual[0].created_at, 1);
}
