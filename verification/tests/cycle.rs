use parking_scraper::cache::ObservationCache;
use parking_scraper::cycle::{
    on_fetched, on_tick, plan_tick, CycleOutcome, FetchError, SkipReason, TickPlan,
};
use parking_scraper::model::{ApiResponse, AreaReading};
use parking_scraper::point::create_data_point;

const SECOND: i64 = 1_000_000_000;
// 2024-01-01 15:55:00 UTC, which is 23:55 in Shanghai.
const LATE_EVENING: i64 = 1_704_124_500 * SECOND;
// 2024-01-01 04:00:00 UTC, which is noon in Shanghai.
const NOON: i64 = 1_704_081_600 * SECOND;

fn response(success: bool, readings: Vec<AreaReading>) -> ApiResponse {
    ApiResponse { success, readings, date: "2024-01-01 12:00:00".to_string() }
}

fn cache_with(readings: &[AreaReading]) -> ObservationCache {
    let mut cache = ObservationCache::new();
    for reading in readings {
        cache.upsert_if_positive(*reading);
    }
    cache
}

#[test]
fn scenario_fresh_data_is_written_and_cached() {
    let mut cache = ObservationCache::new();
    assert_eq!(on_tick(&cache, NOON), TickPlan::Fetch);
    let fetched = response(true, vec![AreaReading::new(12, 5), AreaReading::new(2, 0)]);
    let outcome = on_fetched(&mut cache, Ok(fetched), NOON);
    match outcome {
        CycleOutcome::Write { readings, points } => {
            assert_eq!(readings, vec![AreaReading::new(12, 5), AreaReading::new(2, 0)]);
            assert_eq!(points.len(), 2);
            assert_eq!(points[0].measurement, "parking_spaces");
            assert_eq!(points[0].tags[0].value, "12");
            assert_eq!(points[0].tags[1].value, "SIP-B25-B26");
            assert_eq!(points[0].fields[0].value, 5);
            assert_eq!(points[0].timestamp, NOON);
            assert_eq!(points[1].tags[0].value, "2");
            assert_eq!(points[1].tags[1].value, "ZHONGMENG");
            assert_eq!(points[1].fields[0].value, 0);
            assert_eq!(points[1].timestamp, NOON);
        }
        CycleOutcome::Skip(reason) => panic!("skipped: {:?}", reason),
    }
    assert_eq!(cache.snapshot(), vec![AreaReading::new(12, 5)]);
    assert_eq!(cache.get(2), None);
}

#[test]
fn scenario_cache_is_served_in_the_window() {
    let cache = cache_with(&[AreaReading::new(12, 5)]);
    match on_tick(&cache, LATE_EVENING) {
        TickPlan::WriteCached { readings, points } => {
            assert_eq!(readings, vec![AreaReading::new(12, 5)]);
            assert_eq!(points, vec![create_data_point(&AreaReading::new(12, 5), LATE_EVENING)]);
            assert_eq!(points[0].tags[0].value, "12");
            assert_eq!(points[0].fields[0].value, 5);
        }
        TickPlan::Fetch => panic!("a fetch was planned inside the window"),
    }
    assert_eq!(cache.snapshot(), vec![AreaReading::new(12, 5)]);
}

#[test]
fn scenario_rejected_response_writes_nothing() {
    let mut cache = cache_with(&[AreaReading::new(12, 5)]);
    let fetched = response(false, vec![AreaReading::new(12, 9), AreaReading::new(3, 4)]);
    let outcome = on_fetched(&mut cache, Ok(fetched), NOON);
    assert_eq!(outcome, CycleOutcome::Skip(SkipReason::UpstreamRejected));
    assert_eq!(cache.snapshot(), vec![AreaReading::new(12, 5)]);
}

#[test]
fn scenario_transport_failure_writes_nothing() {
    let mut cache = cache_with(&[AreaReading::new(12, 5)]);
    let outcome = on_fetched(&mut cache, Err(FetchError::Transport), NOON);
    assert_eq!(outcome, CycleOutcome::Skip(SkipReason::TransportError));
    assert_eq!(cache.snapshot(), vec![AreaReading::new(12, 5)]);
    // The next tick is planned as any other.
    assert_eq!(on_tick(&cache, NOON + 60 * SECOND), TickPlan::Fetch);
}

#[test]
fn decode_failure_writes_nothing() {
    let mut cache = cache_with(&[AreaReading::new(12, 5)]);
    let outcome = on_fetched(&mut cache, Err(FetchError::Decode), NOON);
    assert_eq!(outcome, CycleOutcome::Skip(SkipReason::DecodeError));
    assert_eq!(cache.snapshot(), vec![AreaReading::new(12, 5)]);
}

#[test]
fn empty_payload_writes_nothing() {
    let mut cache = cache_with(&[AreaReading::new(12, 5)]);
    let outcome = on_fetched(&mut cache, Ok(response(true, vec![])), NOON);
    assert_eq!(outcome, CycleOutcome::Skip(SkipReason::EmptyPayload));
    assert_eq!(cache.snapshot(), vec![AreaReading::new(12, 5)]);
}

#[test]
fn rejected_response_without_readings_is_rejected() {
    let mut cache = ObservationCache::new();
    let outcome = on_fetched(&mut cache, Ok(response(false, vec![])), NOON);
    assert_eq!(outcome, CycleOutcome::Skip(SkipReason::UpstreamRejected));
    assert!(cache.is_empty());
}

#[test]
fn empty_cache_in_the_window_falls_through_to_fetch() {
    let cache = ObservationCache::new();
    assert_eq!(on_tick(&cache, LATE_EVENING), TickPlan::Fetch);
    assert_eq!(plan_tick(&cache, true, LATE_EVENING), TickPlan::Fetch);
}

#[test]
fn cache_is_not_served_outside_the_window() {
    let cache = cache_with(&[AreaReading::new(12, 5)]);
    assert_eq!(on_tick(&cache, NOON), TickPlan::Fetch);
    assert_eq!(plan_tick(&cache, false, NOON), TickPlan::Fetch);
}

#[test]
fn fallback_is_repeatable() {
    let cache = cache_with(&[
        AreaReading::new(12, 5),
        AreaReading::new(2, 7),
        AreaReading::new(40, 1),
    ]);
    let first = plan_tick(&cache, true, LATE_EVENING);
    let second = plan_tick(&cache, true, LATE_EVENING);
    match (first, second) {
        (
            TickPlan::WriteCached { points: mut a, .. },
            TickPlan::WriteCached { points: mut b, .. },
        ) => {
            a.sort_by(|x, y| x.tags[0].value.cmp(&y.tags[0].value));
            b.sort_by(|x, y| x.tags[0].value.cmp(&y.tags[0].value));
            assert_eq!(a.len(), 3);
            assert_eq!(a, b);
        }
        _ => panic!("the cache was not served"),
    }
    assert_eq!(cache.len(), 3);
}

#[test]
fn fetched_readings_without_free_spaces_are_written_but_not_cached() {
    let mut cache = cache_with(&[AreaReading::new(12, 5), AreaReading::new(2, 7)]);
    let fetched = response(true, vec![AreaReading::new(12, 0), AreaReading::new(2, 9)]);
    match on_fetched(&mut cache, Ok(fetched), NOON) {
        CycleOutcome::Write { points, .. } => {
            assert_eq!(points.len(), 2);
            assert_eq!(points[0].fields[0].value, 0);
            assert_eq!(points[1].fields[0].value, 9);
        }
        CycleOutcome::Skip(reason) => panic!("skipped: {:?}", reason),
    }
    assert_eq!(cache.get(12), Some(AreaReading::new(12, 5)));
    assert_eq!(cache.get(2), Some(AreaReading::new(2, 9)));
}

#[test]
fn repeated_area_in_one_response_keeps_the_last_positive() {
    let mut cache = ObservationCache::new();
    let fetched = response(
        true,
        vec![AreaReading::new(12, 5), AreaReading::new(12, 8), AreaReading::new(12, -2)],
    );
    match on_fetched(&mut cache, Ok(fetched), NOON) {
        CycleOutcome::Write { points, .. } => assert_eq!(points.len(), 3),
        CycleOutcome::Skip(reason) => panic!("skipped: {:?}", reason),
    }
    assert_eq!(cache.snapshot(), vec![AreaReading::new(12, 8)]);
}

#[test]
fn fallback_at_another_instant_differs_in_timestamps_only() {
    let cache = cache_with(&[AreaReading::new(12, 5)]);
    let first = plan_tick(&cache, true, LATE_EVENING);
    let second = plan_tick(&cache, true, LATE_EVENING + 60 * SECOND);
    match (first, second) {
        (
            TickPlan::WriteCached { points: a, readings: r1 },
            TickPlan::WriteCached { points: b, readings: r2 },
        ) => {
            assert_eq!(r1, r2);
            assert_eq!(a.len(), 1);
            assert_eq!(b.len(), 1);
            assert_eq!(a[0].measurement, b[0].measurement);
            assert_eq!(a[0].tags, b[0].tags);
            assert_eq!(a[0].fields, b[0].fields);
            assert_eq!(a[0].timestamp, LATE_EVENING);
            assert_eq!(b[0].timestamp, LATE_EVENING + 60 * SECOND);
        }
        _ => panic!("the cache was not served"),
    }
}
