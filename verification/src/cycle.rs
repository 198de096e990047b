use crate::cache::{absorbed, is_snapshot, lemma_snapshots_agree, ObservationCache};
use crate::model::{ApiResponse, AreaReading};
use crate::point::{create_data_points, points_of, views, TimePoint, TimePointView};
use crate::window::{in_window, is_in_maintenance_window, shanghai_clock};
use vstd::prelude::*;

verus! {

/// Why a fetch gave no response to work on.
#[derive(Clone, Copy, Debug, PartialEq, Eq, Structural)]
pub enum FetchError {
    /// The request did not complete.
    Transport,
    /// The body did not have the expected shape.
    Decode,
}

/// Why a cycle ended without a write.
#[derive(Clone, Copy, Debug, PartialEq, Eq, Structural)]
pub enum SkipReason {
    TransportError,
    DecodeError,
    UpstreamRejected,
    EmptyPayload,
}

/// What the driver does first when a tick fires.
#[derive(Clone, Debug, PartialEq, Eq)]
pub enum TickPlan {
    /// Write the points of the cached readings; no fetch in this cycle.
    WriteCached { readings: Vec<AreaReading>, points: Vec<TimePoint> },
    /// Fetch fresh data and report what came back.
    Fetch,
}

/// What the driver does once a fetch has ended.
#[derive(Clone, Debug, PartialEq, Eq)]
pub enum CycleOutcome {
    /// Write the points of the fetched readings.
    Write { readings: Vec<AreaReading>, points: Vec<TimePoint> },
    /// Write nothing in this cycle.
    Skip(SkipReason),
}

/// Whether a tick is served from the cache: inside the maintenance window,
/// and only if the cache has something to serve.
pub open spec fn serves_cache(cache: Map<i32, AreaReading>, inside_window: bool) -> bool {
    inside_window && cache.len() != 0
}

/// Whether a plan is the right one for a tick at `now` with the given cache.
pub open spec fn plan_fits(
    cache: Map<i32, AreaReading>,
    inside_window: bool,
    now: i64,
    plan: TickPlan,
) -> bool {
    match plan {
        TickPlan::WriteCached { readings, points } => {
            &&& serves_cache(cache, inside_window)
            &&& is_snapshot(cache, readings@)
            &&& views(points@) == points_of(readings@, now)
        },
        TickPlan::Fetch => !serves_cache(cache, inside_window),
    }
}

/// The reason for which a fetch's result is not worked on, if there is one:
/// a failed fetch, a response that reports failure, or one without readings.
pub open spec fn rejection(fetched: Result<ApiResponse, FetchError>) -> Option<SkipReason> {
    match fetched {
        Err(FetchError::Transport) => Some(SkipReason::TransportError),
        Err(FetchError::Decode) => Some(SkipReason::DecodeError),
        Ok(response) => if !response.success {
            Some(SkipReason::UpstreamRejected)
        } else if response.readings@.len() == 0 {
            Some(SkipReason::EmptyPayload)
        } else {
            None
        },
    }
}

/// The readings of a fetch's result, or none where the fetch failed.
pub open spec fn fetched_readings(fetched: Result<ApiResponse, FetchError>) -> Seq<AreaReading> {
    match fetched {
        Ok(response) => response.readings@,
        Err(_) => Seq::empty(),
    }
}

/// Whether an outcome is the right one for a fetch's result handled at `now`,
/// with the cache as it was before and as it is after.
pub open spec fn outcome_fits(
    before: Map<i32, AreaReading>,
    fetched: Result<ApiResponse, FetchError>,
    now: i64,
    outcome: CycleOutcome,
    after: Map<i32, AreaReading>,
) -> bool {
    match rejection(fetched) {
        Some(reason) => outcome == CycleOutcome::Skip(reason) && after == before,
        None => {
            &&& outcome matches CycleOutcome::Write { readings, points }
            &&& readings@ == fetched_readings(fetched)
            &&& views(points@) == points_of(fetched_readings(fetched), now)
            &&& after == absorbed(before, fetched_readings(fetched))
        },
    }
}

/// Plans a tick, given whether the instant `now` lies in the maintenance
/// window. Inside the window a cache that holds anything is served and the
/// fetch is skipped; otherwise, and with an empty cache, the plan is to fetch.
pub fn plan_tick(cache: &ObservationCache, inside_window: bool, now: i64) -> (plan: TickPlan)
    ensures
        plan_fits(cache@, inside_window, now, plan),
{
    if inside_window && !cache.is_empty() {
        let readings = cache.snapshot();
        let points = create_data_points(&readings, now);
        TickPlan::WriteCached { readings, points }
    } else {
        TickPlan::Fetch
    }
}

/// Plans the tick that fires at `now`, nanoseconds since the Unix epoch.
pub fn on_tick(cache: &ObservationCache, now: i64) -> (plan: TickPlan)
    ensures
        plan_fits(
            cache@,
            in_window(shanghai_clock(now).0 as int, shanghai_clock(now).1 as int),
            now,
            plan,
        ),
{
    let inside_window = is_in_maintenance_window(now);
    plan_tick(cache, inside_window, now)
}

/// Handles what a fetch gave. A failed fetch, a response that reports
/// failure and one without readings end the cycle and leave the cache as it
/// was. Otherwise every reading is offered to the cache and every reading,
/// positive or not, becomes a point to write.
pub fn on_fetched(
    cache: &mut ObservationCache,
    fetched: Result<ApiResponse, FetchError>,
    now: i64,
) -> (outcome: CycleOutcome)
    ensures
        outcome_fits(old(cache)@, fetched, now, outcome, final(cache)@),
{
    match fetched {
        Err(FetchError::Transport) => CycleOutcome::Skip(SkipReason::TransportError),
        Err(FetchError::Decode) => CycleOutcome::Skip(SkipReason::DecodeError),
        Ok(response) => {
            if !response.success {
                CycleOutcome::Skip(SkipReason::UpstreamRejected)
            } else if response.readings.len() == 0 {
                CycleOutcome::Skip(SkipReason::EmptyPayload)
            } else {
                let readings = response.readings;
                cache.absorb(&readings);
                let points = create_data_points(&readings, now);
                CycleOutcome::Write { readings, points }
            }
        },
    }
}

/// Serving the cache is repeatable: two ticks served from the same cache at
/// the same instant write the same set of points, and as many of them.
pub proof fn lemma_fallback_is_repeatable(
    cache: Map<i32, AreaReading>,
    now: i64,
    first: TickPlan,
    second: TickPlan,
)
    requires
        plan_fits(cache, true, now, first),
        plan_fits(cache, true, now, second),
    ensures
        first is Fetch <==> second is Fetch,
        first matches TickPlan::WriteCached { points: a, .. } ==> second matches TickPlan::WriteCached {
            points: b,
            ..
        } && views(a@).len() == views(b@).len() && views(a@).to_set() == views(b@).to_set(),
{
    if let TickPlan::WriteCached { readings: r1, points: a } = first {
        if let TickPlan::WriteCached { readings: r2, points: b } = second {
            lemma_snapshots_agree(cache, r1@, r2@);
            lemma_same_readings_same_points(r1@, r2@, now);
        }
    }
}

/// Readings listed in another order give the same set of points.
pub proof fn lemma_same_readings_same_points(
    first: Seq<AreaReading>,
    second: Seq<AreaReading>,
    now: i64,
)
    requires
        first.to_set() == second.to_set(),
    ensures
        points_of(first, now).to_set() == points_of(second, now).to_set(),
{
    assert forall|p: TimePointView| points_of(first, now).contains(p) <==> points_of(
        second,
        now,
    ).contains(p) by {
        if points_of(first, now).contains(p) {
            let i = choose|i: int| 0 <= i < points_of(first, now).len() && points_of(first, now)[i] == p;
            assert(first.to_set().contains(first[i]));
            assert(second.contains(first[i]));
            let j = choose|j: int| 0 <= j < second.len() && second[j] == first[i];
            assert(points_of(second, now)[j] == p);
        }
        if points_of(second, now).contains(p) {
            let i = choose|i: int| 0 <= i < points_of(second, now).len() && points_of(second, now)[i] == p;
            assert(second.to_set().contains(second[i]));
            assert(first.contains(second[i]));
            let j = choose|j: int| 0 <= j < first.len() && first[j] == second[i];
            assert(points_of(first, now)[j] == p);
        }
    }
    assert(points_of(first, now).to_set() =~= points_of(second, now).to_set());
}

/// A point with its instant set aside.
pub open spec fn untimed(point: TimePointView) -> TimePointView {
    TimePointView {
        measurement: point.measurement,
        tags: point.tags,
        fields: point.fields,
        timestamp: 0,
    }
}

/// The points of a sequence with their instants set aside.
pub open spec fn all_untimed(points: Seq<TimePointView>) -> Seq<TimePointView> {
    points.map_values(|p: TimePointView| untimed(p))
}

/// Ticks served from the same cache at different instants write points that
/// differ in their timestamps only: as many, and with the instants set aside
/// the same set.
pub proof fn lemma_fallback_differs_in_time_only(
    cache: Map<i32, AreaReading>,
    earlier: i64,
    later: i64,
    first: TickPlan,
    second: TickPlan,
)
    requires
        plan_fits(cache, true, earlier, first),
        plan_fits(cache, true, later, second),
    ensures
        first is Fetch <==> second is Fetch,
        first matches TickPlan::WriteCached { points: a, .. } ==> second matches TickPlan::WriteCached {
            points: b,
            ..
        } && views(a@).len() == views(b@).len() && all_untimed(views(a@)).to_set() == all_untimed(
            views(b@),
        ).to_set(),
{
    if let TickPlan::WriteCached { readings: r1, points: a } = first {
        if let TickPlan::WriteCached { readings: r2, points: b } = second {
            lemma_snapshots_agree(cache, r1@, r2@);
            let left = all_untimed(points_of(r1@, earlier));
            let right = all_untimed(points_of(r2@, later));
            assert forall|p: TimePointView| left.contains(p) <==> right.contains(p) by {
                if left.contains(p) {
                    let i = choose|i: int| 0 <= i < left.len() && left[i] == p;
                    assert(r1@.to_set().contains(r1@[i]));
                    assert(r2@.contains(r1@[i]));
                    let j = choose|j: int| 0 <= j < r2@.len() && r2@[j] == r1@[i];
                    assert(right[j] == p);
                }
                if right.contains(p) {
                    let i = choose|i: int| 0 <= i < right.len() && right[i] == p;
                    assert(r2@.to_set().contains(r2@[i]));
                    assert(r1@.contains(r2@[i]));
                    let j = choose|j: int| 0 <= j < r1@.len() && r1@[j] == r2@[i];
                    assert(left[j] == p);
                }
            }
            assert(left.to_set() =~= right.to_set());
        }
    }
}

/// A cycle that ends without a write leaves the cache as it was.
pub proof fn lemma_skip_keeps_cache(
    before: Map<i32, AreaReading>,
    fetched: Result<ApiResponse, FetchError>,
    now: i64,
    outcome: CycleOutcome,
    after: Map<i32, AreaReading>,
)
    requires
        outcome_fits(before, fetched, now, outcome, after),
        outcome is Skip,
    ensures
        after == before,
{
}

} // verus!
