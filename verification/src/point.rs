use crate::decimal::{decimal_string, decimal_text};
use crate::model::AreaReading;
use vstd::prelude::*;

verus! {

/// A tag of a point: a key and the text filed under it.
#[derive(Clone, Debug, PartialEq, Eq)]
pub struct Tag {
    pub key: String,
    pub value: String,
}

/// A numeric field of a point.
#[derive(Clone, Debug, PartialEq, Eq)]
pub struct Field {
    pub key: String,
    pub value: i64,
}

/// One observation as the time-series store takes it: a measurement name,
/// tags, numeric fields, and the instant of the observation in nanoseconds
/// since the Unix epoch.
#[derive(Clone, Debug, PartialEq, Eq)]
pub struct TimePoint {
    pub measurement: String,
    pub tags: Vec<Tag>,
    pub fields: Vec<Field>,
    pub timestamp: i64,
}

/// What a point says, with its texts as character sequences and its tags
/// and fields as pairs of key and value.
pub struct TimePointView {
    pub measurement: Seq<char>,
    pub tags: Seq<(Seq<char>, Seq<char>)>,
    pub fields: Seq<(Seq<char>, i64)>,
    pub timestamp: i64,
}

impl View for TimePoint {
    type V = TimePointView;

    open spec fn view(&self) -> TimePointView {
        TimePointView {
            measurement: self.measurement@,
            tags: self.tags@.map_values(|t: Tag| (t.key@, t.value@)),
            fields: self.fields@.map_values(|f: Field| (f.key@, f.value)),
            timestamp: self.timestamp,
        }
    }
}

/// The views of a sequence of points, in order.
pub open spec fn views(points: Seq<TimePoint>) -> Seq<TimePointView> {
    points.map_values(|p: TimePoint| p@)
}

/// The name under which every point is filed.
pub open spec fn measurement_name() -> Seq<char> {
    "parking_spaces"@
}

/// The site name of an area; areas without a known site are "Unknown".
pub open spec fn location_name(area_code: i32) -> Seq<char> {
    if area_code == 12 {
        "SIP-B25-B26"@
    } else if area_code == 2 {
        "ZHONGMENG"@
    } else {
        "Unknown"@
    }
}

/// The point that stands for a reading observed at the instant `now`.
pub open spec fn point_of(reading: AreaReading, now: i64) -> TimePointView {
    TimePointView {
        measurement: measurement_name(),
        tags: seq![
            ("area_code"@, decimal_text(reading.area_code as int)),
            ("location"@, location_name(reading.area_code)),
        ],
        fields: seq![("free_spaces"@, reading.free_spaces)],
        timestamp: now,
    }
}

/// The points that stand for a sequence of readings, in order.
pub open spec fn points_of(readings: Seq<AreaReading>, now: i64) -> Seq<TimePointView> {
    readings.map_values(|r: AreaReading| point_of(r, now))
}

/// Looks up the site name of an area.
pub fn location_tag(area_code: i32) -> (name: String)
    ensures
        name@ == location_name(area_code),
{
    if area_code == 12 {
        "SIP-B25-B26".to_owned()
    } else if area_code == 2 {
        "ZHONGMENG".to_owned()
    } else {
        "Unknown".to_owned()
    }
}

/// Maps a reading to its point: filed under "parking_spaces", tagged with the
/// area code in decimal and with the site name, with the free spaces as its
/// one field. The timestamp is the `now` handed in.
pub fn create_data_point(area: &AreaReading, now: i64) -> (point: TimePoint)
    ensures
        point@ == point_of(*area, now),
{
    let mut tags: Vec<Tag> = Vec::new();
    tags.push(Tag { key: "area_code".to_owned(), value: decimal_string(area.area_code) });
    tags.push(Tag { key: "location".to_owned(), value: location_tag(area.area_code) });
    let mut fields: Vec<Field> = Vec::new();
    fields.push(Field { key: "free_spaces".to_owned(), value: area.free_spaces });
    let point = TimePoint { measurement: "parking_spaces".to_owned(), tags, fields, timestamp: now };
    assert(point@.tags =~= point_of(*area, now).tags);
    assert(point@.fields =~= point_of(*area, now).fields);
    point
}

/// Maps every reading to its point, in order, all with the same timestamp.
pub fn create_data_points(areas: &Vec<AreaReading>, now: i64) -> (points: Vec<TimePoint>)
    ensures
        views(points@) == points_of(areas@, now),
{
    let mut points: Vec<TimePoint> = Vec::new();
    let mut i: usize = 0;
    while i < areas.len()
        invariant
            i <= areas.len(),
            points@.len() == i,
            forall|k: int| 0 <= k < i ==> (#[trigger] points@[k])@ == point_of(areas@[k], now),
        decreases areas.len() - i,
    {
        points.push(create_data_point(&areas[i], now));
        i = i + 1;
    }
    assert(views(points@) =~= points_of(areas@, now));
    points
}

/// A reading and an instant determine their point: two points made from the
/// same reading at the same instant agree in every tag, field and timestamp.
pub proof fn lemma_point_is_determined(
    first: TimePoint,
    second: TimePoint,
    reading: AreaReading,
    now: i64,
)
    requires
        first@ == point_of(reading, now),
        second@ == point_of(reading, now),
    ensures
        first@ == second@,
        first.measurement@ == second.measurement@,
        first@.tags == second@.tags,
        first@.fields == second@.fields,
        first.timestamp == second.timestamp,
{
}

/// Every area but the two with a known site is tagged "Unknown".
pub proof fn lemma_unlisted_area_is_unknown(area_code: i32)
    requires
        area_code != 12,
        area_code != 2,
    ensures
        location_name(area_code) == "Unknown"@,
{
}

} // verus!
