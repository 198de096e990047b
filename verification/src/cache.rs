use crate::model::AreaReading;
use std::collections::HashMap;
use vstd::prelude::*;
use vstd::std_specs::iter::IteratorSpec;

verus! {

broadcast use vstd::std_specs::hash::group_hash_axioms;

/// The last positive reading of each area, keyed by area code.
pub struct ObservationCache {
    entries: HashMap<i32, AreaReading>,
}

impl View for ObservationCache {
    type V = Map<i32, AreaReading>;

    closed spec fn view(&self) -> Map<i32, AreaReading> {
        self.entries@
    }
}

/// What a cache holds once one reading has been offered to it: a positive
/// reading takes the place of its area's entry, any other leaves the cache
/// as it was.
pub open spec fn offered(cache: Map<i32, AreaReading>, reading: AreaReading) -> Map<
    i32,
    AreaReading,
> {
    if reading.free_spaces > 0 {
        cache.insert(reading.area_code, reading)
    } else {
        cache
    }
}

/// What a cache holds once a sequence of readings has been offered to it, first to last.
pub open spec fn absorbed(cache: Map<i32, AreaReading>, readings: Seq<AreaReading>) -> Map<
    i32,
    AreaReading,
>
    decreases readings.len(),
{
    if readings.len() == 0 {
        cache
    } else {
        offered(absorbed(cache, readings.drop_last()), readings.last())
    }
}

/// Every entry is filed under its own area code and reports free spaces.
pub open spec fn holds_positive_readings(cache: Map<i32, AreaReading>) -> bool {
    forall|code: i32| #[trigger]
        cache.contains_key(code) ==> cache[code].area_code == code && cache[code].free_spaces > 0
}

/// Whether a sequence lists the cache's readings: one per cached area, each
/// the area's entry, in any order.
pub open spec fn is_snapshot(cache: Map<i32, AreaReading>, listed: Seq<AreaReading>) -> bool {
    &&& listed.len() == cache.len()
    &&& forall|i: int|
        0 <= i < listed.len() ==> cache.contains_key(#[trigger] listed[i].area_code)
            && cache[listed[i].area_code] == listed[i]
    &&& forall|code: i32| #[trigger] cache.contains_key(code) ==> listed.contains(cache[code])
    &&& forall|i: int, j: int|
        0 <= i < j < listed.len() ==> listed[i].area_code != listed[j].area_code
}

/// Whether the reading at position `i` is for the given area and reports free spaces.
pub open spec fn positive_at(readings: Seq<AreaReading>, code: i32, i: int) -> bool {
    0 <= i < readings.len() && readings[i].area_code == code && readings[i].free_spaces > 0
}

/// Whether some reading of the sequence is for the given area and reports free spaces.
pub open spec fn seen_positive(readings: Seq<AreaReading>, code: i32) -> bool {
    exists|i: int| positive_at(readings, code, i)
}

/// Whether position `i` holds the last reading for the given area that reports free spaces.
pub open spec fn latest_positive_at(readings: Seq<AreaReading>, code: i32, i: int) -> bool {
    positive_at(readings, code, i) && forall|j: int|
        i < j < readings.len() ==> !positive_at(readings, code, j)
}

/// Whether a reading is, among the sequence's readings for its area, the last
/// that reports free spaces.
pub open spec fn is_latest_positive(readings: Seq<AreaReading>, reading: AreaReading) -> bool {
    exists|k: int| #[trigger]
        latest_positive_at(readings, reading.area_code, k) && readings[k] == reading
}

impl ObservationCache {
    #[verifier::type_invariant]
    closed spec fn wf(self) -> bool {
        holds_positive_readings(self.entries@)
    }

    /// A cache without entries.
    pub fn new() -> (cache: ObservationCache)
        ensures
            cache@ == Map::<i32, AreaReading>::empty(),
    {
        ObservationCache { entries: HashMap::new() }
    }

    /// Whether no area has an entry.
    pub fn is_empty(&self) -> (empty: bool)
        ensures
            empty == (self@.len() == 0),
            empty == (self@ == Map::<i32, AreaReading>::empty()),
    {
        let empty = self.entries.is_empty();
        proof {
            if empty {
                assert(self.entries@ =~= Map::<i32, AreaReading>::empty());
            }
        }
        empty
    }

    /// The number of areas that have an entry.
    pub fn len(&self) -> (n: usize)
        ensures
            n == self@.len(),
    {
        self.entries.len()
    }

    /// The cached reading of an area, if it has one.
    pub fn get(&self, area_code: i32) -> (found: Option<AreaReading>)
        ensures
            found == (if self@.contains_key(area_code) {
                Some(self@[area_code])
            } else {
                None
            }),
            holds_positive_readings(self@),
    {
        proof {
            use_type_invariant(self);
        }
        match self.entries.get(&area_code) {
            Some(reading) => Some(*reading),
            None => None,
        }
    }

    /// Stores the reading under its area code if it reports free spaces;
    /// otherwise leaves the cache untouched.
    pub fn upsert_if_positive(&mut self, reading: AreaReading)
        ensures
            final(self)@ == offered(old(self)@, reading),
            holds_positive_readings(final(self)@),
    {
        proof {
            use_type_invariant(&*self);
        }
        if reading.free_spaces > 0 {
            // The map is updated outside the struct, so that the invariant
            // holds of the struct at every point where the insertion could unwind.
            let mut entries: HashMap<i32, AreaReading> = HashMap::new();
            std::mem::swap(&mut self.entries, &mut entries);
            entries.insert(reading.area_code, reading);
            std::mem::swap(&mut self.entries, &mut entries);
        }
    }

    /// Offers every reading to the cache, first to last.
    pub fn absorb(&mut self, readings: &Vec<AreaReading>)
        ensures
            final(self)@ == absorbed(old(self)@, readings@),
            holds_positive_readings(final(self)@),
    {
        proof {
            use_type_invariant(&*self);
        }
        let mut i: usize = 0;
        while i < readings.len()
            invariant
                i <= readings.len(),
                self@ == absorbed(old(self)@, readings@.take(i as int)),
                holds_positive_readings(self@),
            decreases readings.len() - i,
        {
            self.upsert_if_positive(readings[i]);
            proof {
                assert(readings@.take(i + 1).drop_last() =~= readings@.take(i as int));
            }
            i = i + 1;
        }
        proof {
            assert(readings@.take(i as int) =~= readings@);
        }
    }

    /// All cached readings, one per area, in no particular order.
    pub fn snapshot(&self) -> (out: Vec<AreaReading>)
        ensures
            is_snapshot(self@, out@),
            holds_positive_readings(self@),
    {
        proof {
            use_type_invariant(self);
        }
        let mut out: Vec<AreaReading> = Vec::new();
        let ghost pairs = vstd::std_specs::hash::spec_hash_map_iter(&self.entries).remaining();
        for pair in it: self.entries.iter()
            invariant
                it.seq() == pairs,
                out@.len() == it.index(),
                forall|i: int| 0 <= i < out@.len() ==> out@[i] == *pairs[i].1,
        {
            out.push(*pair.1);
        }
        proof {
            let held = self.entries@;
            assert(pairs.no_duplicates());
            assert forall|i: int| 0 <= i < out@.len() implies held.contains_key(
                #[trigger] out@[i].area_code,
            ) && held[out@[i].area_code] == out@[i] by {
                assert(held.contains_key(*pairs[i].0) && held[*pairs[i].0] == *pairs[i].1);
            }
            assert forall|code: i32| #[trigger] held.contains_key(code) implies out@.contains(
                held[code],
            ) by {
                assert(pairs.contains((&code, &held[code])));
                let i = choose|i: int| 0 <= i < pairs.len() && pairs[i] == (&code, &held[code]);
                assert(out@[i] == held[code]);
            }
            assert forall|i: int, j: int| 0 <= i < j < out@.len() implies out@[i].area_code
                != out@[j].area_code by {
                assert(held.contains_key(*pairs[i].0) && held[*pairs[i].0] == *pairs[i].1);
                assert(held.contains_key(*pairs[j].0) && held[*pairs[j].0] == *pairs[j].1);
                if out@[i].area_code == out@[j].area_code {
                    assert(pairs[i] == pairs[j]);
                }
            }
        }
        out
    }
}

/// A reading without free spaces never changes the cache.
pub proof fn lemma_offer_without_spaces_changes_nothing(
    cache: Map<i32, AreaReading>,
    reading: AreaReading,
)
    requires
        reading.free_spaces <= 0,
    ensures
        offered(cache, reading) == cache,
{
}

/// A reading with free spaces always becomes its area's entry, whatever was
/// cached for that area before, and touches no other area.
pub proof fn lemma_offer_with_spaces_overwrites(cache: Map<i32, AreaReading>, reading: AreaReading)
    requires
        reading.free_spaces > 0,
    ensures
        offered(cache, reading).contains_key(reading.area_code),
        offered(cache, reading)[reading.area_code] == reading,
        forall|code: i32|
            code != reading.area_code ==> (offered(cache, reading).contains_key(code)
                <==> cache.contains_key(code)),
        forall|code: i32|
            code != reading.area_code && cache.contains_key(code) ==> offered(
                cache,
                reading,
            )[code] == cache[code],
{
}

/// Offering keeps the cache's invariant.
pub proof fn lemma_absorbed_holds_positive_readings(
    cache: Map<i32, AreaReading>,
    readings: Seq<AreaReading>,
)
    requires
        holds_positive_readings(cache),
    ensures
        holds_positive_readings(absorbed(cache, readings)),
    decreases readings.len(),
{
    if readings.len() > 0 {
        lemma_absorbed_holds_positive_readings(cache, readings.drop_last());
    }
}

/// A sequence has seen an area with free spaces exactly when its last reading
/// is such a one or the readings before the last had seen one.
proof fn lemma_seen_positive_unfolds(readings: Seq<AreaReading>, code: i32)
    requires
        readings.len() > 0,
    ensures
        seen_positive(readings, code) <==> (seen_positive(readings.drop_last(), code)
            || positive_at(readings, code, readings.len() - 1)),
{
    let before = readings.drop_last();
    if seen_positive(readings, code) {
        let i = choose|i: int| positive_at(readings, code, i);
        if i < before.len() {
            assert(positive_at(before, code, i));
        }
    }
    if seen_positive(before, code) {
        let i = choose|i: int| positive_at(before, code, i);
        assert(positive_at(readings, code, i));
    }
}

/// After a sequence of readings has been offered, an area has an entry exactly
/// when it had one before or was seen with free spaces; its entry is the last
/// reading that reported free spaces for it, or the earlier entry where there
/// was no such reading.
pub proof fn lemma_absorbed_keeps_latest_positive(
    cache: Map<i32, AreaReading>,
    readings: Seq<AreaReading>,
)
    ensures
        forall|code: i32| #[trigger]
            absorbed(cache, readings).contains_key(code) <==> (cache.contains_key(code)
                || seen_positive(readings, code)),
        forall|code: i32, i: int| #[trigger]
            latest_positive_at(readings, code, i) ==> absorbed(cache, readings)[code]
                == readings[i],
        forall|code: i32|
            !seen_positive(readings, code) && cache.contains_key(code) ==> #[trigger] absorbed(
                cache,
                readings,
            )[code] == cache[code],
    decreases readings.len(),
{
    let after = absorbed(cache, readings);
    if readings.len() > 0 {
        let before = readings.drop_last();
        let n = before.len() as int;
        let earlier = absorbed(cache, before);
        lemma_absorbed_keeps_latest_positive(cache, before);
        assert(after == offered(earlier, readings.last()));
        assert forall|code: i32| #[trigger]
            after.contains_key(code) <==> (cache.contains_key(code) || seen_positive(
                readings,
                code,
            )) by {
            lemma_seen_positive_unfolds(readings, code);
            assert(earlier.contains_key(code) <==> (cache.contains_key(code) || seen_positive(
                before,
                code,
            )));
        }
        assert forall|code: i32|
            !seen_positive(readings, code) && cache.contains_key(code) implies #[trigger] after[code]
            == cache[code] by {
            lemma_seen_positive_unfolds(readings, code);
            assert(earlier[code] == cache[code]);
        }
        assert forall|code: i32, i: int| #[trigger]
            latest_positive_at(readings, code, i) implies after[code] == readings[i] by {
            if i < n {
                assert(!positive_at(readings, code, n));
                assert(positive_at(before, code, i));
                assert forall|j: int| i < j < before.len() implies !positive_at(
                    before,
                    code,
                    j,
                ) by {
                    assert(!positive_at(readings, code, j));
                }
                assert(latest_positive_at(before, code, i));
            }
        }
    } else {
        assert forall|code: i32| !seen_positive(readings, code) by {
            if seen_positive(readings, code) {
                let i = choose|i: int| positive_at(readings, code, i);
                assert(positive_at(readings, code, i));
            }
        }
    }
}

/// An area that was seen with free spaces has a last reading that reported some.
pub proof fn lemma_latest_positive_exists(readings: Seq<AreaReading>, code: i32)
    requires
        seen_positive(readings, code),
    ensures
        exists|i: int| latest_positive_at(readings, code, i),
    decreases readings.len(),
{
    let n = readings.len() - 1;
    let witness = choose|i: int| positive_at(readings, code, i);
    if positive_at(readings, code, n) {
        assert(latest_positive_at(readings, code, n));
    } else {
        let before = readings.drop_last();
        assert(positive_at(before, code, witness));
        lemma_latest_positive_exists(before, code);
        let i = choose|i: int| latest_positive_at(before, code, i);
        assert(positive_at(readings, code, i));
        assert forall|j: int| i < j < readings.len() implies !positive_at(readings, code, j) by {
            if j < n {
                assert(!positive_at(before, code, j));
            }
        }
        assert(latest_positive_at(readings, code, i));
    }
}

/// Readings fed to an empty cache and listed back give exactly the areas that
/// were seen with free spaces, once each, and each with the most recent
/// reading that reported free spaces for it.
pub proof fn lemma_round_trip(readings: Seq<AreaReading>, listed: Seq<AreaReading>)
    requires
        is_snapshot(absorbed(Map::empty(), readings), listed),
    ensures
        forall|code: i32|
            seen_positive(readings, code) <==> exists|i: int|
                0 <= i < listed.len() && #[trigger] listed[i].area_code == code,
        forall|i: int| 0 <= i < listed.len() ==> is_latest_positive(readings, #[trigger] listed[i]),
        forall|code: i32, k: int| #[trigger]
            latest_positive_at(readings, code, k) ==> listed.contains(readings[k]),
        forall|i: int, j: int|
            0 <= i < j < listed.len() ==> listed[i].area_code != listed[j].area_code,
{
    let cache = absorbed(Map::empty(), readings);
    lemma_absorbed_keeps_latest_positive(Map::empty(), readings);
    lemma_absorbed_holds_positive_readings(Map::empty(), readings);
    assert forall|code: i32| seen_positive(readings, code) <==> exists|i: int|
        0 <= i < listed.len() && #[trigger] listed[i].area_code == code by {
        if seen_positive(readings, code) {
            assert(cache.contains_key(code));
            assert(listed.contains(cache[code]));
            let i = choose|i: int| 0 <= i < listed.len() && listed[i] == cache[code];
            assert(listed[i].area_code == code);
        }
        if exists|i: int| 0 <= i < listed.len() && #[trigger] listed[i].area_code == code {
            let i = choose|i: int| 0 <= i < listed.len() && #[trigger] listed[i].area_code == code;
            assert(cache.contains_key(listed[i].area_code));
        }
    }
    assert forall|i: int| 0 <= i < listed.len() implies is_latest_positive(
        readings,
        #[trigger] listed[i],
    ) by {
        let code = listed[i].area_code;
        assert(cache.contains_key(code));
        lemma_latest_positive_exists(readings, code);
        let k = choose|k: int| latest_positive_at(readings, code, k);
        assert(cache[code] == readings[k]);
    }
    assert forall|code: i32, k: int| #[trigger]
        latest_positive_at(readings, code, k) implies listed.contains(readings[k]) by {
        assert(positive_at(readings, code, k));
        assert(cache.contains_key(code));
        assert(cache[code] == readings[k]);
    }
}

/// Two listings of one cache hold the same readings.
pub proof fn lemma_snapshots_agree(
    cache: Map<i32, AreaReading>,
    first: Seq<AreaReading>,
    second: Seq<AreaReading>,
)
    requires
        is_snapshot(cache, first),
        is_snapshot(cache, second),
    ensures
        first.len() == second.len(),
        first.to_set() == second.to_set(),
{
    assert forall|r: AreaReading| first.contains(r) <==> second.contains(r) by {
        if first.contains(r) {
            let i = choose|i: int| 0 <= i < first.len() && first[i] == r;
            assert(cache.contains_key(first[i].area_code));
        }
        if second.contains(r) {
            let i = choose|i: int| 0 <= i < second.len() && second[i] == r;
            assert(cache.contains_key(second[i].area_code));
        }
    }
    assert(first.to_set() =~= second.to_set());
}

} // verus!
