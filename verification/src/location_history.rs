//! Location history: a temporally indexed GPS trace and its queries.
//!
//! Points are loaded from a Takeout-style JSON document whose timestamps
//! arrive as decimal strings of milliseconds and whose coordinates arrive in
//! E7 fixed point. Each outer location yields one point; each of its nested
//! activities yields a synthetic point at the activity's timestamp with the
//! outer coordinates. The full sequence is sorted by timestamp after
//! ingestion, whatever order the document had.

use crate::jsonio::json_as_array;
use crate::jsonio::json_as_i64;
use crate::jsonio::json_as_str;
use crate::jsonio::json_get;
use crate::jsonio::parse_json;
use crate::jsonio::json_doc;
use crate::jsonio::json_view;
use crate::jsonio::JsonV;
use crate::text::parse_u64_range;
use crate::text::str_to_chars;
use vstd::prelude::*;
use vstd::multiset::Multiset;
use vstd::seq_lib::group_to_multiset_ensures;

verus! {

/// One point of the trace: a UTC instant in milliseconds and E7 coordinates.
#[derive(Clone, Copy, Debug, PartialEq, Eq, Structural)]
pub struct LocationPoint {
    pub timestamp_ms: u64,
    pub latitude_e7: i32,
    pub longitude_e7: i32,
}

pub open spec fn sorted_ts(s: Seq<LocationPoint>) -> bool {
    forall|i: int, j: int|
        0 <= i <= j < s.len() ==> #[trigger] s[i].timestamp_ms <= #[trigger] s[j].timestamp_ms
}

/// Absolute distance in milliseconds between a point and a target instant.
pub open spec fn delta_ms(p: LocationPoint, t: u64) -> int {
    if p.timestamp_ms <= t {
        t - p.timestamp_ms
    } else {
        p.timestamp_ms - t
    }
}

/// The sorted trace. The sequence is sorted by timestamp at every moment of
/// its life.
#[derive(Debug)]
pub struct LocationHistory {
    data: Vec<LocationPoint>,
}

impl View for LocationHistory {
    type V = Seq<LocationPoint>;

    closed spec fn view(&self) -> Seq<LocationPoint> {
        self.data@
    }
}

impl LocationHistory {
    #[verifier::type_invariant]
    spec fn wf(self) -> bool {
        sorted_ts(self.data@)
    }

    pub fn len(&self) -> (r: usize)
        ensures
            r == self@.len(),
    {
        self.data.len()
    }

    /// The point at one position.
    pub fn point_at(&self, i: usize) -> (r: LocationPoint)
        requires
            i < self@.len(),
        ensures
            r == self@[i as int],
    {
        self.data[i]
    }

    /// Builds a history from points in any order by sorting them.
    pub fn from_points(points: Vec<LocationPoint>) -> (r: LocationHistory)
        ensures
            sorted_ts(r@),
            r@.to_multiset() == points@.to_multiset(),
    {
        let sorted = sort_points(points);
        LocationHistory { data: sorted }
    }

    /// The closest points around `target_timestamp_ms`:
    /// - both `None` exactly when the trace is empty;
    /// - the first result is a point at or before the target, carrying the
    ///   greatest timestamp at or before it; `None` when every point lies
    ///   after the target;
    /// - the second is a point at or after the target, carrying the smallest
    ///   timestamp at or after it; `None` when every point lies before it;
    /// - on an exact timestamp hit both results are one and the same point.
    pub fn find_closest_points(&self, target_timestamp_ms: u64) -> (r: (
        Option<LocationPoint>,
        Option<LocationPoint>,
    ))
        ensures
            (r.0 is None && r.1 is None) <==> self@.len() == 0,
            match r.0 {
                Option::Some(b) => self@.contains(b) && b.timestamp_ms <= target_timestamp_ms
                    && forall|i: int|
                    0 <= i < self@.len() && self@[i].timestamp_ms <= target_timestamp_ms
                        ==> self@[i].timestamp_ms <= b.timestamp_ms,
                Option::None => forall|i: int|
                    0 <= i < self@.len() ==> self@[i].timestamp_ms > target_timestamp_ms,
            },
            match r.1 {
                Option::Some(a) => self@.contains(a) && a.timestamp_ms >= target_timestamp_ms
                    && forall|i: int|
                    0 <= i < self@.len() && self@[i].timestamp_ms >= target_timestamp_ms
                        ==> self@[i].timestamp_ms >= a.timestamp_ms,
                Option::None => forall|i: int|
                    0 <= i < self@.len() ==> self@[i].timestamp_ms < target_timestamp_ms,
            },
            (exists|i: int| 0 <= i < self@.len() && self@[i].timestamp_ms == target_timestamp_ms)
                ==> r.0 == r.1 && r.0 is Some,
    {
        proof {
            use_type_invariant(self);
        }
        let n = self.data.len();
        if n == 0 {
            return (Option::None, Option::None);
        }
        let mut lo: usize = 0;
        let mut hi: usize = n;
        while lo < hi
            invariant
                lo <= hi <= n,
                n == self@.len(),
                sorted_ts(self@),
                forall|i: int| 0 <= i < lo ==> self@[i].timestamp_ms < target_timestamp_ms,
                forall|i: int| hi <= i < n ==> self@[i].timestamp_ms >= target_timestamp_ms,
            decreases hi - lo,
        {
            let mid = lo + (hi - lo) / 2;
            if self.data[mid].timestamp_ms < target_timestamp_ms {
                lo = mid + 1;
            } else {
                hi = mid;
            }
        }
        if lo < n && self.data[lo].timestamp_ms == target_timestamp_ms {
            let p = self.data[lo];
            proof {
                assert(self@.contains(p)) by {
                    assert(self@[lo as int] == p);
                }
            }
            return (Option::Some(p), Option::Some(p));
        }
        let before: Option<LocationPoint> = if lo > 0 {
            let b = self.data[lo - 1];
            proof {
                assert(self@.contains(b)) by {
                    assert(self@[lo - 1 as int] == b);
                }
            }
            Option::Some(b)
        } else {
            Option::None
        };
        let after: Option<LocationPoint> = if lo < n {
            let a = self.data[lo];
            proof {
                assert(self@.contains(a)) by {
                    assert(self@[lo as int] == a);
                }
            }
            Option::Some(a)
        } else {
            Option::None
        };
        proof {
            if exists|i: int|
                0 <= i < self@.len() && self@[i].timestamp_ms == target_timestamp_ms {
                let i = choose|i: int|
                    0 <= i < self@.len() && self@[i].timestamp_ms == target_timestamp_ms;
                assert(false);
            }
        }
        (before, after)
    }

    /// The point the location-history fallback settles on: among the nearest
    /// points on either side of the target, those within the window of
    /// `max_hours` hours, the one with the smaller time distance; a tie
    /// favors the earlier side.
    pub fn select_within(&self, target_ms: u64, max_hours: u64) -> (r: Option<LocationPoint>)
        requires
            max_hours <= 5_000_000_000_000,
        ensures
            match r {
                Option::Some(p) => {
                    &&& self@.contains(p)
                    &&& delta_ms(p, target_ms) <= max_hours * 3600000
                    &&& forall|i: int|
                        0 <= i < self@.len() ==> delta_ms(#[trigger] self@[i], target_ms)
                            >= delta_ms(p, target_ms)
                    &&& (p.timestamp_ms > target_ms ==> forall|i: int|
                        0 <= i < self@.len() && self@[i].timestamp_ms <= target_ms ==> delta_ms(
                            #[trigger] self@[i],
                            target_ms,
                        ) > delta_ms(p, target_ms))
                },
                Option::None => forall|i: int|
                    0 <= i < self@.len() ==> delta_ms(#[trigger] self@[i], target_ms) > max_hours
                        * 3600000,
            },
    {
        proof {
            use_type_invariant(self);
        }
        let window = max_hours * 3600000;
        let (before, after) = self.find_closest_points(target_ms);
        match (before, after) {
            (Option::Some(b), Option::Some(a)) => {
                let diff_before = target_ms - b.timestamp_ms;
                let diff_after = a.timestamp_ms - target_ms;
                if diff_before <= window && diff_after <= window {
                    if diff_before <= diff_after {
                        Option::Some(b)
                    } else {
                        Option::Some(a)
                    }
                } else if diff_before <= window {
                    Option::Some(b)
                } else if diff_after <= window {
                    Option::Some(a)
                } else {
                    Option::None
                }
            },
            (Option::Some(b), Option::None) => {
                let diff = target_ms - b.timestamp_ms;
                if diff <= window {
                    Option::Some(b)
                } else {
                    Option::None
                }
            },
            (Option::None, Option::Some(a)) => {
                let diff = a.timestamp_ms - target_ms;
                if diff <= window {
                    Option::Some(a)
                } else {
                    Option::None
                }
            },
            (Option::None, Option::None) => Option::None,
        }
    }
}

impl Default for LocationHistory {
    fn default() -> (r: LocationHistory)
        ensures
            r@ == Seq::<LocationPoint>::empty(),
    {
        LocationHistory { data: Vec::new() }
    }
}

/// Selection sort by timestamp: repeatedly moves a minimal remaining point
/// to the output.
fn sort_points(points: Vec<LocationPoint>) -> (r: Vec<LocationPoint>)
    ensures
        sorted_ts(r@),
        r@.to_multiset() == points@.to_multiset(),
{
    broadcast use group_to_multiset_ensures;

    let mut work = points;
    let ghost orig = work@;
    let mut out: Vec<LocationPoint> = Vec::new();
    proof {
        assert(out@.to_multiset().add(work@.to_multiset()) =~= orig.to_multiset());
    }
    while work.len() > 0
        invariant
            out@.to_multiset().add(work@.to_multiset()) == orig.to_multiset(),
            sorted_ts(out@),
            forall|i: int, j: int|
                0 <= i < out@.len() && 0 <= j < work@.len() ==> #[trigger] out@[i].timestamp_ms
                    <= #[trigger] work@[j].timestamp_ms,
        decreases work.len(),
    {
        let mut m: usize = 0;
        let mut k: usize = 1;
        while k < work.len()
            invariant
                m < k <= work@.len() || (k <= work@.len() && m < work@.len()),
                m < work@.len(),
                forall|j: int|
                    0 <= j < k && j < work@.len() ==> work@[m as int].timestamp_ms
                        <= #[trigger] work@[j].timestamp_ms,
            decreases work.len() - k,
        {
            if work[k].timestamp_ms < work[m].timestamp_ms {
                m = k;
            }
            k += 1;
        }
        let ghost w0 = work@;
        let x = work.remove(m);
        let ghost prev_out = out@;
        out.push(x);
        proof {
            w0.to_multiset_ensures();
            prev_out.to_multiset_ensures();
            assert(w0[m as int] == x);
            assert(w0.contains(x));
            assert(work@.to_multiset() == w0.to_multiset().remove(x));
            assert(out@.to_multiset() == prev_out.to_multiset().insert(x));
            assert(w0.to_multiset().count(x) >= 1);
            assert(out@.to_multiset().add(work@.to_multiset()) =~= prev_out.to_multiset().add(
                w0.to_multiset(),
            ));
            assert(out@.to_multiset().add(work@.to_multiset()) =~= orig.to_multiset());
            assert forall|i: int, j: int|
                0 <= i <= j < out@.len() implies #[trigger] out@[i].timestamp_ms
                <= #[trigger] out@[j].timestamp_ms by {
                if j == out@.len() - 1 && i < j {
                    assert(out@[i] == prev_out[i]);
                }
            }
        }
    }
    proof {
        assert(work@.to_multiset() =~= Multiset::<LocationPoint>::empty());
        assert(out@.to_multiset() =~= out@.to_multiset().add(work@.to_multiset()));
    }
    out
}

/// One outer location of the source document: its own instant, coordinates,
/// and the instants of its nested activities.
#[derive(Clone, Debug, PartialEq)]
pub struct LocationRecord {
    pub timestamp_ms: u64,
    pub latitude_e7: i32,
    pub longitude_e7: i32,
    pub activity_ts: Vec<u64>,
}

/// The points one record contributes: itself, then one synthetic point per
/// activity instant, reusing the record's coordinates.
pub open spec fn spec_record_points(rec: LocationRecord) -> Seq<LocationPoint> {
    seq![
        LocationPoint {
            timestamp_ms: rec.timestamp_ms,
            latitude_e7: rec.latitude_e7,
            longitude_e7: rec.longitude_e7,
        },
    ] + rec.activity_ts@.map(
        |i: int, ts: u64|
            LocationPoint {
                timestamp_ms: ts,
                latitude_e7: rec.latitude_e7,
                longitude_e7: rec.longitude_e7,
            },
    )
}

pub open spec fn spec_points_of(recs: Seq<LocationRecord>) -> Seq<LocationPoint>
    decreases recs.len(),
{
    if recs.len() == 0 {
        Seq::<LocationPoint>::empty()
    } else {
        spec_points_of(recs.drop_last()) + spec_record_points(recs.last())
    }
}

/// Flattens records into the point sequence, in document order.
pub fn points_from_records(records: &Vec<LocationRecord>) -> (r: Vec<LocationPoint>)
    ensures
        r@ == spec_points_of(records@),
{
    let mut out: Vec<LocationPoint> = Vec::new();
    let mut i: usize = 0;
    let n = records.len();
    proof {
        assert(records@.subrange(0, 0) =~= Seq::<LocationRecord>::empty());
    }
    while i < n
        invariant
            i <= n,
            n == records@.len(),
            out@ == spec_points_of(records@.subrange(0, i as int)),
        decreases n - i,
    {
        let rec = &records[i];
        let ghost base = out@;
        out.push(
            LocationPoint {
                timestamp_ms: rec.timestamp_ms,
                latitude_e7: rec.latitude_e7,
                longitude_e7: rec.longitude_e7,
            },
        );
        let mut k: usize = 0;
        let an = rec.activity_ts.len();
        while k < an
            invariant
                k <= an,
                an == rec.activity_ts@.len(),
                out@ == base + spec_record_points(*rec).take(1 + k as int),
            decreases an - k,
        {
            out.push(
                LocationPoint {
                    timestamp_ms: rec.activity_ts[k],
                    latitude_e7: rec.latitude_e7,
                    longitude_e7: rec.longitude_e7,
                },
            );
            proof {
                assert(spec_record_points(*rec).take(1 + (k + 1 as int)) =~= spec_record_points(
                    *rec,
                ).take(1 + k as int).push(spec_record_points(*rec)[1 + k as int]));
            }
            k += 1;
        }
        proof {
            assert(spec_record_points(*rec).take(1 + an as int) =~= spec_record_points(*rec));
            assert(records@.subrange(0, i + 1 as int).drop_last() =~= records@.subrange(
                0,
                i as int,
            ));
            assert(records@.subrange(0, i + 1 as int).last() == records@[i as int]);
            assert(out@ =~= spec_points_of(records@.subrange(0, i + 1 as int)));
        }
        i += 1;
    }
    proof {
        assert(records@.subrange(0, n as int) =~= records@);
    }
    out
}

/// Parses a decimal-string timestamp in milliseconds.
fn parse_ts_str(s: &str) -> (r: Option<u64>)
    ensures
        match r {
            Option::Some(v) => spec_ts_text(s@) == Option::Some(v as int),
            Option::None => spec_ts_text(s@) is None,
        },
{
    let chars = str_to_chars(s);
    let n = chars.len();
    let r = parse_u64_range(&chars, 0, n);
    proof {
        assert(chars@.subrange(0, n as int) =~= s@);
    }
    r
}

/// The milliseconds a decimal-string timestamp denotes: digits only,
/// nonempty, within an unsigned 64-bit word.
pub open spec fn spec_ts_text(s: Seq<char>) -> Option<int> {
    if s.len() > 0 && crate::text::all_digits(s) && crate::text::spec_digits_val(s) <= u64::MAX {
        Option::Some(crate::text::spec_digits_val(s) as int)
    } else {
        Option::None
    }
}

/// One outer location as the loader reads it from the document shape.
pub struct RecV {
    pub ts: int,
    pub lat: int,
    pub lon: int,
    pub activity: Seq<int>,
}

/// The `timestampMs` member of an object shape.
pub open spec fn spec_shape_ts(j: JsonV) -> Option<int> {
    match j {
        JsonV::Obj(m) => {
            if m.contains_key("timestampMs"@) {
                match m["timestampMs"@] {
                    JsonV::Text(s) => spec_ts_text(s),
                    _ => Option::None,
                }
            } else {
                Option::None
            }
        },
        _ => Option::None,
    }
}

/// An integer member within the E7 coordinate range.
pub open spec fn spec_shape_e7(j: JsonV, key: Seq<char>) -> Option<int> {
    match j {
        JsonV::Obj(m) => {
            if m.contains_key(key) {
                match m[key] {
                    JsonV::IntNum(x) => if -0x8000_0000 <= x <= 0x7fff_ffff {
                        Option::Some(x)
                    } else {
                        Option::None
                    },
                    _ => Option::None,
                }
            } else {
                Option::None
            }
        },
        _ => Option::None,
    }
}

/// The activity instants of an array of activity shapes; no value when any
/// entry lacks a well-formed timestamp.
pub open spec fn spec_activity_list(items: Seq<JsonV>) -> Option<Seq<int>>
    decreases items.len(),
{
    if items.len() == 0 {
        Option::Some(Seq::<int>::empty())
    } else {
        match spec_activity_list(items.drop_last()) {
            Option::Some(pre) => match spec_shape_ts(items.last()) {
                Option::Some(t) => Option::Some(pre.push(t)),
                Option::None => Option::None,
            },
            Option::None => Option::None,
        }
    }
}

/// One location record of the document: its own instant, E7 coordinates,
/// and the instants of its nested activities (none when the member is
/// absent); no value on any defect.
pub open spec fn spec_rec_of(j: JsonV) -> Option<RecV> {
    match (spec_shape_ts(j), spec_shape_e7(j, "latitudeE7"@), spec_shape_e7(j, "longitudeE7"@)) {
        (Option::Some(ts), Option::Some(la), Option::Some(lo)) => {
            match j {
                JsonV::Obj(m) => {
                    if m.contains_key("activity"@) {
                        match m["activity"@] {
                            JsonV::Arr(items) => match spec_activity_list(items) {
                                Option::Some(act) => Option::Some(
                                    RecV { ts, lat: la, lon: lo, activity: act },
                                ),
                                Option::None => Option::None,
                            },
                            _ => Option::None,
                        }
                    } else {
                        Option::Some(RecV { ts, lat: la, lon: lo, activity: Seq::<int>::empty() })
                    }
                },
                _ => Option::None,
            }
        },
        _ => Option::None,
    }
}

/// The records of the document's locations array; no value when any record
/// has a defect.
pub open spec fn spec_records_list(items: Seq<JsonV>) -> Option<Seq<RecV>>
    decreases items.len(),
{
    if items.len() == 0 {
        Option::Some(Seq::<RecV>::empty())
    } else {
        match spec_records_list(items.drop_last()) {
            Option::Some(pre) => match spec_rec_of(items.last()) {
                Option::Some(rec) => Option::Some(pre.push(rec)),
                Option::None => Option::None,
            },
            Option::None => Option::None,
        }
    }
}

/// The elements of the document's `locations` array; no value when the root
/// is not an object carrying one.
pub open spec fn spec_root_items(doc: JsonV) -> Option<Seq<JsonV>> {
    match doc {
        JsonV::Obj(m) => {
            if m.contains_key("locations"@) {
                match m["locations"@] {
                    JsonV::Arr(items) => Option::Some(items),
                    _ => Option::None,
                }
            } else {
                Option::None
            }
        },
        _ => Option::None,
    }
}

/// The points one document record contributes: itself, then one synthetic
/// point per activity instant, reusing the record's coordinates.
pub open spec fn spec_rec_points(r: RecV) -> Seq<LocationPoint> {
    seq![
        LocationPoint {
            timestamp_ms: r.ts as u64,
            latitude_e7: r.lat as i32,
            longitude_e7: r.lon as i32,
        },
    ] + r.activity.map(
        |i: int, t: int|
            LocationPoint { timestamp_ms: t as u64, latitude_e7: r.lat as i32, longitude_e7: r.lon as i32 },
    )
}

/// The full point sequence of the document's records, in document order.
pub open spec fn spec_points_of_recs(rs: Seq<RecV>) -> Seq<LocationPoint>
    decreases rs.len(),
{
    if rs.len() == 0 {
        Seq::<LocationPoint>::empty()
    } else {
        spec_points_of_recs(rs.drop_last()) + spec_rec_points(rs.last())
    }
}

/// The record shape a loaded record denotes.
pub open spec fn rec_v_of(r: LocationRecord) -> RecV {
    RecV {
        ts: r.timestamp_ms as int,
        lat: r.latitude_e7 as int,
        lon: r.longitude_e7 as int,
        activity: r.activity_ts@.map_values(|t: u64| t as int),
    }
}

pub open spec fn recs_v(s: Seq<LocationRecord>) -> Seq<RecV> {
    s.map_values(|r: LocationRecord| rec_v_of(r))
}

/// Loaded records and their shapes contribute the same points.
proof fn lemma_points_correspond(s: Seq<LocationRecord>)
    ensures
        spec_points_of(s) == spec_points_of_recs(recs_v(s)),
    decreases s.len(),
{
    if s.len() > 0 {
        lemma_points_correspond(s.drop_last());
        assert(recs_v(s).drop_last() =~= recs_v(s.drop_last()));
        assert(recs_v(s).last() == rec_v_of(s.last()));
        assert(spec_rec_points(rec_v_of(s.last())) =~= spec_record_points(s.last()));
    } else {
        assert(recs_v(s) =~= Seq::<RecV>::empty());
    }
}

/// One defective record spoils the whole records list.
proof fn lemma_records_list_none(items: Seq<JsonV>, i: int)
    requires
        0 <= i < items.len(),
        spec_rec_of(items[i]) is None,
    ensures
        spec_records_list(items) is None,
    decreases items.len(),
{
    if items.len() > 0 {
        if i == items.len() - 1 {
        } else {
            lemma_records_list_none(items.drop_last(), i);
        }
    }
}

/// One defective activity entry spoils the whole activity list.
proof fn lemma_activity_list_none(items: Seq<JsonV>, i: int)
    requires
        0 <= i < items.len(),
        spec_shape_ts(items[i]) is None,
    ensures
        spec_activity_list(items) is None,
    decreases items.len(),
{
    if items.len() > 0 {
        if i == items.len() - 1 {
        } else {
            lemma_activity_list_none(items.drop_last(), i);
        }
    }
}

/// Why a history document was rejected.
#[derive(Clone, Copy, Debug, PartialEq, Eq, Structural)]
pub enum HistoryError {
    MalformedJson,
    MissingLocations,
    BadRecord,
    BadTimestamp,
    BadCoordinate,
}

impl HistoryError {
    /// A short description, for logs.
    pub fn describe(&self) -> (r: String) {
        match self {
            HistoryError::MalformedJson => String::from_str("malformed JSON document"),
            HistoryError::MissingLocations => String::from_str("no locations array"),
            HistoryError::BadRecord => String::from_str("activity member is not an array"),
            HistoryError::BadTimestamp => String::from_str(
                "timestampMs is not a decimal string of milliseconds",
            ),
            HistoryError::BadCoordinate => String::from_str(
                "coordinate is not an integer in E7 range",
            ),
        }
    }
}

/// Reads the decimal-string `timestampMs` member.
fn read_ts_field(v: &serde_json::Value) -> (r: Option<u64>)
    ensures
        match r {
            Option::Some(t) => spec_shape_ts(json_view(*v)) == Option::Some(t as int),
            Option::None => spec_shape_ts(json_view(*v)) is None,
        },
{
    proof {
        reveal_strlit("timestampMs");
    }
    match json_get(v, "timestampMs") {
        Option::Some(tsv) => match json_as_str(tsv) {
            Option::Some(s) => parse_ts_str(s),
            Option::None => Option::None,
        },
        Option::None => Option::None,
    }
}

/// Reads an integer member that must fit the E7 coordinate range.
fn read_e7_field(v: &serde_json::Value, key: &str) -> (r: Option<i32>)
    ensures
        match r {
            Option::Some(x) => spec_shape_e7(json_view(*v), key@) == Option::Some(x as int),
            Option::None => spec_shape_e7(json_view(*v), key@) is None,
        },
{
    match json_get(v, key) {
        Option::Some(cv) => match json_as_i64(cv) {
            Option::Some(x) => {
                if -2147483648i64 <= x && x <= 2147483647i64 {
                    Option::Some(x as i32)
                } else {
                    Option::None
                }
            },
            Option::None => Option::None,
        },
        Option::None => Option::None,
    }
}

/// The shapes a sequence of parsed values holds.
pub open spec fn views_of(s: Seq<serde_json::Value>) -> Seq<JsonV> {
    s.map_values(|v: serde_json::Value| json_view(v))
}

/// Reads the instants of an activity array; `None` on the first entry
/// without a well-formed timestamp.
fn read_activities(acts: &Vec<serde_json::Value>) -> (r: Option<Vec<u64>>)
    ensures
        match r {
            Option::Some(v) => spec_activity_list(views_of(acts@)) == Option::Some(
                v@.map_values(|t: u64| t as int),
            ),
            Option::None => spec_activity_list(views_of(acts@)) is None,
        },
{
    let mut out: Vec<u64> = Vec::new();
    let an = acts.len();
    let mut k: usize = 0;
    proof {
        assert(views_of(acts@).subrange(0, 0) =~= Seq::<JsonV>::empty());
        assert(out@.map_values(|t: u64| t as int) =~= Seq::<int>::empty());
    }
    while k < an
        invariant
            k <= an,
            an == acts@.len(),
            spec_activity_list(views_of(acts@).subrange(0, k as int)) == Option::Some(
                out@.map_values(|t: u64| t as int),
            ),
        decreases an - k,
    {
        proof {
            assert(views_of(acts@)[k as int] == json_view(acts@[k as int]));
        }
        match read_ts_field(&acts[k]) {
            Option::Some(t) => {
                let ghost prev = out@;
                out.push(t);
                proof {
                    assert(views_of(acts@).subrange(0, k + 1 as int).drop_last() =~= views_of(
                        acts@,
                    ).subrange(0, k as int));
                    assert(views_of(acts@).subrange(0, k + 1 as int).last() == views_of(acts@)[
                        k as int]);
                    assert(out@.map_values(|t2: u64| t2 as int) =~= prev.map_values(
                        |t2: u64| t2 as int,
                    ).push(t as int));
                }
            },
            Option::None => {
                proof {
                    lemma_activity_list_none(views_of(acts@), k as int);
                }
                return Option::None;
            },
        }
        k += 1;
    }
    proof {
        assert(views_of(acts@).subrange(0, an as int) =~= views_of(acts@));
    }
    Option::Some(out)
}

/// Reads one location record; the error names the first defect found.
fn read_record(loc: &serde_json::Value) -> (r: Result<LocationRecord, HistoryError>)
    ensures
        match r {
            Result::Ok(rec) => spec_rec_of(json_view(*loc)) == Option::Some(rec_v_of(rec)),
            Result::Err(e) => spec_rec_of(json_view(*loc)) is None && (e
                == HistoryError::BadTimestamp || e == HistoryError::BadCoordinate || e
                == HistoryError::BadRecord),
        },
{
    proof {
        reveal_strlit("activity");
    }
    let ts = match read_ts_field(loc) {
        Option::Some(v) => v,
        Option::None => {
            return Result::Err(HistoryError::BadTimestamp);
        },
    };
    let lat = match read_e7_field(loc, "latitudeE7") {
        Option::Some(v) => v,
        Option::None => {
            return Result::Err(HistoryError::BadCoordinate);
        },
    };
    let lon = match read_e7_field(loc, "longitudeE7") {
        Option::Some(v) => v,
        Option::None => {
            return Result::Err(HistoryError::BadCoordinate);
        },
    };
    let activity_ts: Vec<u64>;
    match json_get(loc, "activity") {
        Option::Some(act) => {
            match json_as_array(act) {
                Option::Some(acts) => {
                    proof {
                        assert(views_of(acts@) =~= json_view(*act)->Arr_0);
                    }
                    match read_activities(acts) {
                        Option::Some(v) => {
                            activity_ts = v;
                        },
                        Option::None => {
                            return Result::Err(HistoryError::BadTimestamp);
                        },
                    }
                },
                Option::None => {
                    return Result::Err(HistoryError::BadRecord);
                },
            }
        },
        Option::None => {
            activity_ts = Vec::new();
            proof {
                assert(activity_ts@.map_values(|t: u64| t as int) =~= Seq::<int>::empty());
            }
        },
    }
    Result::Ok(
        LocationRecord { timestamp_ms: ts, latitude_e7: lat, longitude_e7: lon, activity_ts },
    )
}

/// Loads a history from the text of a Takeout-style JSON document: one
/// point per location, one more per nested activity reusing the outer
/// coordinates, the whole trace sorted. `Err(MalformedJson)` exactly on
/// text that does not parse; `Err(MissingLocations)` exactly on a document
/// without a `locations` array at an object root; a defective record gives
/// the error of its defect (timestamp, coordinate, or a non-array activity
/// member); otherwise the result holds exactly the document's points.
pub fn from_json_str(text: &str) -> (r: Result<LocationHistory, HistoryError>)
    ensures
        match json_doc(text@) {
            Option::None => r == Result::<LocationHistory, HistoryError>::Err(
                HistoryError::MalformedJson,
            ),
            Option::Some(doc) => match spec_root_items(doc) {
                Option::None => r == Result::<LocationHistory, HistoryError>::Err(
                    HistoryError::MissingLocations,
                ),
                Option::Some(items) => match spec_records_list(items) {
                    Option::Some(recs) => match r {
                        Result::Ok(h) => sorted_ts(h@) && h@.to_multiset() == spec_points_of_recs(
                            recs,
                        ).to_multiset(),
                        Result::Err(_) => false,
                    },
                    Option::None => r is Err && (r->Err_0 == HistoryError::BadTimestamp || r->Err_0
                        == HistoryError::BadCoordinate || r->Err_0 == HistoryError::BadRecord),
                },
            },
        },
{
    proof {
        reveal_strlit("locations");
    }
    let root = match parse_json(text) {
        Result::Ok(v) => v,
        Result::Err(_) => {
            return Result::Err(HistoryError::MalformedJson);
        },
    };
    let locations = match json_get(&root, "locations") {
        Option::Some(v) => v,
        Option::None => {
            return Result::Err(HistoryError::MissingLocations);
        },
    };
    let arr = match json_as_array(locations) {
        Option::Some(a) => a,
        Option::None => {
            return Result::Err(HistoryError::MissingLocations);
        },
    };
    let ghost items = json_view(*locations)->Arr_0;
    proof {
        assert(spec_root_items(json_view(root)) == Option::Some(items));
    }
    let mut records: Vec<LocationRecord> = Vec::new();
    let n = arr.len();
    let mut i: usize = 0;
    proof {
        assert(items.subrange(0, 0) =~= Seq::<JsonV>::empty());
        assert(recs_v(records@) =~= Seq::<RecV>::empty());
    }
    while i < n
        invariant
            i <= n,
            n == arr@.len(),
            n == items.len(),
            json_doc(text@) == Option::Some(json_view(root)),
            spec_root_items(json_view(root)) == Option::Some(items),
            forall|k: int| 0 <= k < n ==> json_view(#[trigger] arr@[k]) == items[k],
            spec_records_list(items.subrange(0, i as int)) == Option::Some(recs_v(records@)),
        decreases n - i,
    {
        proof {
            assert(json_view(arr@[i as int]) == items[i as int]);
        }
        match read_record(&arr[i]) {
            Result::Ok(rec) => {
                let ghost prev_records = records@;
                let ghost recv = rec_v_of(rec);
                records.push(rec);
                proof {
                    assert(items.subrange(0, i + 1 as int).drop_last() =~= items.subrange(
                        0,
                        i as int,
                    ));
                    assert(items.subrange(0, i + 1 as int).last() == items[i as int]);
                    assert(recs_v(records@) =~= recs_v(prev_records).push(recv));
                }
            },
            Result::Err(e) => {
                proof {
                    lemma_records_list_none(items, i as int);
                }
                return Result::Err(e);
            },
        }
        i += 1;
    }
    proof {
        assert(items.subrange(0, n as int) =~= items);
    }
    let points = points_from_records(&records);
    let history = LocationHistory::from_points(points);
    proof {
        lemma_points_correspond(records@);
    }
    Result::Ok(history)
}

} // verus!
