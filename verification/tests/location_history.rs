use monana::location_history::{from_json_str, LocationHistory, LocationPoint};

fn create_test_history() -> LocationHistory {
    LocationHistory::from_points(vec![
        LocationPoint { timestamp_ms: 100, latitude_e7: 1, longitude_e7: 1 },
        LocationPoint { timestamp_ms: 200, latitude_e7: 2, longitude_e7: 2 },
        LocationPoint { timestamp_ms: 300, latitude_e7: 3, longitude_e7: 3 },
        LocationPoint { timestamp_ms: 400, latitude_e7: 4, longitude_e7: 4 },
    ])
}

#[test]
fn test_find_closest_points_between() {
    let history = create_test_history();
    let (before, after) = history.find_closest_points(250);
    assert_eq!(before.unwrap().timestamp_ms, 200);
    assert_eq!(after.unwrap().timestamp_ms, 300);
}

#[test]
fn test_find_closest_points_exact() {
    let history = create_test_history();
    let (before, after) = history.find_closest_points(300);
    assert_eq!(before.unwrap().timestamp_ms, 300);
    assert_eq!(after.unwrap().timestamp_ms, 300);
}

#[test]
fn test_find_closest_points_before_all() {
    let history = create_test_history();
    let (before, after) = history.find_closest_points(50);
    assert!(before.is_none());
    assert_eq!(after.unwrap().timestamp_ms, 100);
}

#[test]
fn test_find_closest_points_after_all() {
    let history = create_test_history();
    let (before, after) = history.find_closest_points(450);
    assert_eq!(before.unwrap().timestamp_ms, 400);
    assert!(after.is_none());
}

#[test]
fn test_find_closest_points_empty() {
    let history = LocationHistory::from_points(vec![]);
    let (before, after) = history.find_closest_points(100);
    assert!(before.is_none());
    assert!(after.is_none());
}

#[test]
fn test_find_closest_points_single_entry() {
    let history = LocationHistory::from_points(vec![LocationPoint {
        timestamp_ms: 100,
        latitude_e7: 1,
        longitude_e7: 1,
    }]);
    // Before
    let (before, after) = history.find_closest_points(50);
    assert!(before.is_none());
    assert_eq!(after.unwrap().timestamp_ms, 100);
    // After
    let (before, after) = history.find_closest_points(150);
    assert_eq!(before.unwrap().timestamp_ms, 100);
    assert!(after.is_none());
    // Exact
    let (before, after) = history.find_closest_points(100);
    assert_eq!(before.unwrap().timestamp_ms, 100);
    assert_eq!(after.unwrap().timestamp_ms, 100);
}

#[test]
fn test_from_json_str_ok() {
    let text = r#"{
        "locations": [
            {"timestampMs": "10000", "latitudeE7": 10000000, "longitudeE7": 10000000},
            {"timestampMs": "20000", "latitudeE7": 20000000, "longitudeE7": 20000000,
             "activity": [
                 {"timestampMs": "22000"},
                 {"timestampMs": "21000"}
             ]},
            {"timestampMs": "30000", "latitudeE7": 30000000, "longitudeE7": 30000000}
        ]
    }"#;
    let history = from_json_str(text).unwrap();

    // 3 locations + 2 activities = 5 points
    assert_eq!(history.len(), 5);

    // Sorted by timestamp even though the activities were out of order
    let timestamps: Vec<u64> = (0..history.len())
        .map(|i| history.point_at(i).timestamp_ms)
        .collect();
    assert_eq!(timestamps, vec![10000, 20000, 21000, 22000, 30000]);

    // An activity point reuses its parent location's coordinates
    let activity_point = (0..history.len())
        .map(|i| history.point_at(i))
        .find(|p| p.timestamp_ms == 21000)
        .unwrap();
    assert_eq!(activity_point.latitude_e7, 20000000);
    assert_eq!(activity_point.longitude_e7, 20000000);

    // A top-level point keeps its own coordinates
    let top_level_point = (0..history.len())
        .map(|i| history.point_at(i))
        .find(|p| p.timestamp_ms == 30000)
        .unwrap();
    assert_eq!(top_level_point.latitude_e7, 30000000);
}

#[test]
fn test_from_json_str_malformed() {
    assert!(from_json_str("this is not json").is_err());
    assert!(from_json_str("{}").is_err());
    assert!(from_json_str(r#"{"locations": [{"timestampMs": 123}]}"#).is_err());
    assert!(from_json_str(r#"{"locations": [{"timestampMs": "12x"}]}"#).is_err());
}

#[test]
fn test_select_within_boundary() {
    // A candidate exactly at the max_hours boundary is accepted; one
    // millisecond beyond is rejected.
    let one_hour_ms: u64 = 3_600_000;
    let history = LocationHistory::from_points(vec![LocationPoint {
        timestamp_ms: 1_000_000_000,
        latitude_e7: 123,
        longitude_e7: 456,
    }]);
    let exactly = history.select_within(1_000_000_000 + 2 * one_hour_ms, 2);
    assert_eq!(exactly.unwrap().latitude_e7, 123);
    let beyond = history.select_within(1_000_000_000 + 2 * one_hour_ms + 1, 2);
    assert!(beyond.is_none());
}

#[test]
fn test_select_within_prefers_closer_and_ties_favor_before() {
    let history = LocationHistory::from_points(vec![
        LocationPoint { timestamp_ms: 1000, latitude_e7: 1, longitude_e7: 1 },
        LocationPoint { timestamp_ms: 5000, latitude_e7: 2, longitude_e7: 2 },
    ]);
    // Closer to the later point
    let p = history.select_within(4500, 1).unwrap();
    assert_eq!(p.latitude_e7, 2);
    // Equidistant: the earlier point wins
    let p = history.select_within(3000, 1).unwrap();
    assert_eq!(p.latitude_e7, 1);
}
