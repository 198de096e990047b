use parking_scraper::cache::ObservationCache;
use parking_scraper::model::AreaReading;

fn sorted(mut readings: Vec<AreaReading>) -> Vec<AreaReading> {
    readings.sort_by_key(|r| r.area_code);
    readings
}

#[test]
fn new_cache_is_empty() {
    let cache = ObservationCache::new();
    assert!(cache.is_empty());
    assert_eq!(cache.len(), 0);
    assert_eq!(cache.snapshot(), vec![]);
    assert_eq!(cache.get(12), None);
}

#[test]
fn positive_reading_is_stored() {
    let mut cache = ObservationCache::new();
    cache.upsert_if_positive(AreaReading::new(12, 5));
    assert!(!cache.is_empty());
    assert_eq!(cache.len(), 1);
    assert_eq!(cache.get(12), Some(AreaReading::new(12, 5)));
}

#[test]
fn positive_reading_overwrites() {
    let mut cache = ObservationCache::new();
    cache.upsert_if_positive(AreaReading::new(12, 5));
    cache.upsert_if_positive(AreaReading::new(12, 9));
    assert_eq!(cache.len(), 1);
    assert_eq!(cache.get(12), Some(AreaReading::new(12, 9)));
    cache.upsert_if_positive(AreaReading::new(12, 1));
    assert_eq!(cache.get(12), Some(AreaReading::new(12, 1)));
}

#[test]
fn zero_reading_is_not_stored() {
    let mut cache = ObservationCache::new();
    cache.upsert_if_positive(AreaReading::new(2, 0));
    assert!(cache.is_empty());
    assert_eq!(cache.get(2), None);
}

#[test]
fn zero_and_negative_readings_leave_an_entry_untouched() {
    let mut cache = ObservationCache::new();
    cache.upsert_if_positive(AreaReading::new(12, 5));
    cache.upsert_if_positive(AreaReading::new(12, 0));
    assert_eq!(cache.get(12), Some(AreaReading::new(12, 5)));
    cache.upsert_if_positive(AreaReading::new(12, -3));
    assert_eq!(cache.get(12), Some(AreaReading::new(12, 5)));
    cache.upsert_if_positive(AreaReading::new(12, i64::MIN));
    assert_eq!(cache.get(12), Some(AreaReading::new(12, 5)));
    assert_eq!(cache.len(), 1);
}

#[test]
fn smallest_positive_reading_is_stored() {
    let mut cache = ObservationCache::new();
    cache.upsert_if_positive(AreaReading::new(-7, 1));
    assert_eq!(cache.get(-7), Some(AreaReading::new(-7, 1)));
    cache.upsert_if_positive(AreaReading::new(-7, i64::MAX));
    assert_eq!(cache.get(-7), Some(AreaReading::new(-7, i64::MAX)));
}

#[test]
fn snapshot_lists_every_entry_once() {
    let mut cache = ObservationCache::new();
    cache.upsert_if_positive(AreaReading::new(12, 5));
    cache.upsert_if_positive(AreaReading::new(2, 7));
    cache.upsert_if_positive(AreaReading::new(30, 1));
    cache.upsert_if_positive(AreaReading::new(2, 8));
    assert_eq!(
        sorted(cache.snapshot()),
        vec![AreaReading::new(2, 8), AreaReading::new(12, 5), AreaReading::new(30, 1)]
    );
    assert_eq!(cache.len(), 3);
}

#[test]
fn round_trip_keeps_latest_positive_reading_of_each_area() {
    let readings = vec![
        AreaReading::new(12, 5),
        AreaReading::new(2, 0),
        AreaReading::new(7, 3),
        AreaReading::new(12, 6),
        AreaReading::new(7, 0),
        AreaReading::new(9, -1),
        AreaReading::new(12, 0),
    ];
    let mut cache = ObservationCache::new();
    cache.absorb(&readings);
    assert_eq!(
        sorted(cache.snapshot()),
        vec![AreaReading::new(7, 3), AreaReading::new(12, 6)]
    );
}

#[test]
fn absorb_is_upsert_of_each_reading_in_turn() {
    let readings = vec![
        AreaReading::new(1, 4),
        AreaReading::new(1, 0),
        AreaReading::new(3, 2),
        AreaReading::new(1, 8),
    ];
    let mut all_at_once = ObservationCache::new();
    all_at_once.absorb(&readings);
    let mut one_by_one = ObservationCache::new();
    for reading in &readings {
        one_by_one.upsert_if_positive(*reading);
    }
    assert_eq!(sorted(all_at_once.snapshot()), sorted(one_by_one.snapshot()));
    assert_eq!(all_at_once.get(1), Some(AreaReading::new(1, 8)));
}

#[test]
fn absorb_of_nothing_changes_nothing() {
    let mut cache = ObservationCache::new();
    cache.upsert_if_positive(AreaReading::new(12, 5));
    cache.absorb(&vec![]);
    assert_eq!(cache.snapshot(), vec![AreaReading::new(12, 5)]);
}
