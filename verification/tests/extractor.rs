use monana::calendar::civil_from_epoch_ms;
use monana::extractor::{
    apply_defaults, extract_date_from_filename, extract_stage_fallbacks, extract_stage_initial,
    gps_axis_e7, history_target_ms, install_geo_names, needs_gps_fallback, set_history_point,
    time_context_from_ms, ExifEntry, FileFacts, RawExifValue, RawGps,
};
use monana::location_history::{LocationHistory, LocationPoint};

fn jpeg_facts() -> FileFacts {
    FileFacts {
        path: "/media/in/photo.jpg".to_string(),
        size: 1024,
        mime: Some("image/jpeg".to_string()),
        exif: Some(vec![ExifEntry {
            tag_name: "DateTimeOriginal".to_string(),
            is_datetime_tag: true,
            value: RawExifValue::Text("2024:07:04 16:00:00".to_string()),
        }]),
        gps: Some(RawGps {
            lat_deg: (40, 1),
            lat_min: (26, 1),
            lat_sec: (46302, 1000),
            lat_south: false,
            lon_deg: (79, 1),
            lon_min: (58, 1),
            lon_sec: (563, 10),
            lon_west: true,
            alt: (300, 1),
        }),
        dimensions: Some((1920, 1080)),
        created_ms: None,
    }
}

#[test]
fn test_gps_conversion_six_decimals() {
    // (deg=40, min=26, sec=46.302) with ref 'N' is 40.446195 degrees to six
    // decimals; ref 'S' negates.
    let north = gps_axis_e7((40, 1), (26, 1), (46302, 1000), false).unwrap();
    assert_eq!(north, 404461950);
    let south = gps_axis_e7((40, 1), (26, 1), (46302, 1000), true).unwrap();
    assert_eq!(south, -404461950);
    // A zero denominator yields no coordinate
    assert!(gps_axis_e7((40, 0), (26, 1), (46302, 1000), false).is_none());
}

#[test]
fn test_civil_decomposition() {
    let c = civil_from_epoch_ms(1720108800000);
    assert_eq!(
        (c.year, c.month, c.day, c.hour, c.minute, c.second),
        (2024, 7, 4, 16, 0, 0)
    );
    let t = time_context_from_ms(1720108800000);
    assert_eq!(t.yyyy, "2024");
    assert_eq!(t.mm, "07");
    assert_eq!(t.dd, "04");
    assert_eq!(t.hh, "16");
    assert_eq!(t.minute, "00");
    assert_eq!(t.ss, "00");
    assert_eq!(t.month_name, "July");
    assert_eq!(t.weekday, "Thursday");
    assert_eq!(t.timestamp, Some(1720108800000));
    // Before the epoch
    let c = civil_from_epoch_ms(-1);
    assert_eq!((c.year, c.month, c.day), (1969, 12, 31));
    assert_eq!((c.hour, c.minute, c.second), (23, 59, 59));
}

#[test]
fn test_filename_date_patterns() {
    // The embedded eight-digit form
    assert_eq!(
        extract_date_from_filename("VID_20180120_185352.mp4"),
        Some(1516406400000)
    );
    // The separated prefix form, with any of the three separators
    assert_eq!(
        extract_date_from_filename("2018-01-20 15.46.55.mp4"),
        Some(1516406400000)
    );
    assert_eq!(
        extract_date_from_filename("2018.01.20.mp4"),
        Some(1516406400000)
    );
    assert_eq!(
        extract_date_from_filename("2018 01 20 clip.mp4"),
        Some(1516406400000)
    );
    // No date at all
    assert_eq!(extract_date_from_filename("holiday_clip.mp4"), None);
    // An invalid month or day is not a date
    assert_eq!(extract_date_from_filename("VID_20181320_x.mp4"), None);
    assert_eq!(extract_date_from_filename("VID_20180230_x.mp4"), None);
}

#[test]
fn test_filename_year_bounds() {
    // Years 1899 and 2101 are rejected; 1900 and 2100 accepted.
    assert_eq!(extract_date_from_filename("VID_18990120_x.mp4"), None);
    assert_eq!(extract_date_from_filename("VID_21010120_x.mp4"), None);
    assert!(extract_date_from_filename("VID_19000120_x.mp4").is_some());
    assert!(extract_date_from_filename("VID_21000120_x.mp4").is_some());
}

#[test]
fn test_exif_datetime_debug_shapes() {
    // The two non-string shapes the tag reader may emit
    let time_entry = ExifEntry {
        tag_name: "DateTimeOriginal".to_string(),
        is_datetime_tag: true,
        value: RawExifValue::Other("Time(2024-07-04T18:00:00+02:00)".to_string()),
    };
    let naive_entry = ExifEntry {
        tag_name: "CreateDate".to_string(),
        is_datetime_tag: true,
        value: RawExifValue::Other("NaiveDateTime(2024-07-04T16:00:00)".to_string()),
    };
    assert_eq!(
        monana::extractor::entry_datetime(&time_entry),
        Some(1720108800000)
    );
    assert_eq!(
        monana::extractor::entry_datetime(&naive_entry),
        Some(1720108800000)
    );
}

#[test]
fn test_full_exif_extraction() {
    // A JPEG with an originating date and full GPS: the destination template
    // lands it under its year and country.
    let facts = jpeg_facts();
    let (mut ctx, geo) = extract_stage_initial(&facts);
    assert_eq!(ctx.media_type, "image");
    assert_eq!(ctx.source.original, "photo.jpg");
    assert_eq!(ctx.source.path, "/media/in");
    assert_eq!(ctx.time.yyyy, "2024");
    assert_eq!(geo, Some((404461950, -799823056)));
    install_geo_names(
        &mut ctx,
        "US".to_string(),
        "US".to_string(),
        "Pennsylvania".to_string(),
        "Pittsburgh".to_string(),
        true,
    );
    extract_stage_fallbacks(&mut ctx, &facts);
    apply_defaults(&mut ctx);
    assert_eq!(ctx.space.lat_e7, 404461950);
    assert_eq!(ctx.space.lon_e7, -799823056);
    assert_eq!(ctx.space.country, "US");
    assert_eq!(ctx.space.city, "Pittsburgh");

    let engine = monana::engine::RuleEngine::new();
    assert!(engine
        .evaluate_condition("type == \"image\" && time.yyyy == \"2024\"", &ctx)
        .unwrap());
    let dest = monana::template::apply_template(
        "out/{time.yyyy}/{space.country}/{source.original}",
        &ctx,
    );
    assert_eq!(dest, "out/2024/US/photo.jpg");
}

#[test]
fn test_extraction_twice_is_identical() {
    // Extracting the same facts twice yields identical contexts.
    let facts = jpeg_facts();
    let (mut a, _) = extract_stage_initial(&facts);
    let (mut b, _) = extract_stage_initial(&facts);
    extract_stage_fallbacks(&mut a, &facts);
    extract_stage_fallbacks(&mut b, &facts);
    apply_defaults(&mut a);
    apply_defaults(&mut b);
    assert_eq!(a, b);
}

#[test]
fn test_video_filename_fallback() {
    // A video with no EXIF takes its date from the filename.
    let facts = FileFacts {
        path: "in/VID_20180120_185352.mp4".to_string(),
        size: 99,
        mime: Some("video/mp4".to_string()),
        exif: None,
        gps: None,
        dimensions: None,
        created_ms: None,
    };
    let (mut ctx, geo) = extract_stage_initial(&facts);
    assert!(geo.is_none());
    extract_stage_fallbacks(&mut ctx, &facts);
    apply_defaults(&mut ctx);
    assert_eq!(ctx.media_type, "video");
    assert_eq!(ctx.time.yyyy, "2018");
    assert_eq!(ctx.time.mm, "01");
    assert_eq!(ctx.time.dd, "20");
    let dest = monana::template::apply_template(
        "videos/{time.yyyy}-{time.mm}-{time.dd}/{source.original}",
        &ctx,
    );
    assert_eq!(dest, "videos/2018-01-20/VID_20180120_185352.mp4");
}

#[test]
fn test_history_fallback_match() {
    // No EXIF GPS, but the history holds a point half an hour away.
    let t0: i64 = 1720108800000;
    let history = LocationHistory::from_points(vec![LocationPoint {
        timestamp_ms: t0 as u64,
        latitude_e7: 404461950,
        longitude_e7: -799823060,
    }]);
    let facts = FileFacts {
        path: "in/photo.jpg".to_string(),
        size: 10,
        mime: Some("image/jpeg".to_string()),
        exif: Some(vec![ExifEntry {
            tag_name: "DateTimeOriginal".to_string(),
            is_datetime_tag: true,
            value: RawExifValue::Text("2024:07:04 16:30:00".to_string()),
        }]),
        gps: None,
        dimensions: None,
        created_ms: None,
    };
    let (mut ctx, _) = extract_stage_initial(&facts);
    extract_stage_fallbacks(&mut ctx, &facts);
    assert!(needs_gps_fallback(&ctx));
    let target = history_target_ms(&ctx).unwrap();
    assert_eq!(target, t0 as u64 + 30 * 60 * 1000);
    let point = history.select_within(target, 48).unwrap();
    set_history_point(&mut ctx, point);
    install_geo_names(
        &mut ctx,
        "US".to_string(),
        "US".to_string(),
        "Pennsylvania".to_string(),
        "Pittsburgh".to_string(),
        false,
    );
    apply_defaults(&mut ctx);
    assert_eq!(ctx.space.lat_e7, 404461950);
    assert_eq!(ctx.space.lon_e7, -799823060);
    assert_eq!(ctx.space.city, "Pittsburgh");
    assert_ne!(ctx.space.country, "unknown");
}

#[test]
fn test_history_fallback_outside_window() {
    // The nearest history point is 72 hours away with a 48-hour window: no
    // coordinates, unknown place.
    let t0: u64 = 1720108800000;
    let history = LocationHistory::from_points(vec![LocationPoint {
        timestamp_ms: t0 - 72 * 3600 * 1000,
        latitude_e7: 404461950,
        longitude_e7: -799823060,
    }]);
    let facts = FileFacts {
        path: "in/photo.jpg".to_string(),
        size: 10,
        mime: Some("image/jpeg".to_string()),
        exif: Some(vec![ExifEntry {
            tag_name: "DateTimeOriginal".to_string(),
            is_datetime_tag: true,
            value: RawExifValue::Text("2024:07:04 16:00:00".to_string()),
        }]),
        gps: None,
        dimensions: None,
        created_ms: None,
    };
    let (mut ctx, _) = extract_stage_initial(&facts);
    extract_stage_fallbacks(&mut ctx, &facts);
    assert!(needs_gps_fallback(&ctx));
    let target = history_target_ms(&ctx).unwrap();
    assert!(history.select_within(target, 48).is_none());
    apply_defaults(&mut ctx);
    assert_eq!(ctx.space.city, "unknown");
    assert_eq!(ctx.space.country, "unknown");
    assert_eq!(ctx.space.lat_e7, 0);
    assert_eq!(ctx.space.lon_e7, 0);
}

#[test]
fn test_defaults_time_and_place() {
    // With no timestamp and no place, the unknown defaults land together.
    let facts = FileFacts {
        path: "x/file.bin".to_string(),
        size: 1,
        mime: None,
        exif: None,
        gps: None,
        dimensions: None,
        created_ms: None,
    };
    let (mut ctx, _) = extract_stage_initial(&facts);
    extract_stage_fallbacks(&mut ctx, &facts);
    apply_defaults(&mut ctx);
    assert_eq!(ctx.media_type, "unknown");
    assert_eq!(ctx.time.yyyy, "unknown");
    assert_eq!(ctx.time.mm, "00");
    assert_eq!(ctx.time.dd, "00");
    assert_eq!(ctx.time.hh, "00");
    assert_eq!(ctx.time.minute, "00");
    assert_eq!(ctx.time.ss, "00");
    assert_eq!(ctx.time.month_name, "Unknown");
    assert_eq!(ctx.time.weekday, "Unknown");
    assert!(ctx.time.timestamp.is_none());
    assert_eq!(ctx.space.city, "unknown");
    assert_eq!(ctx.space.country, "unknown");
}

#[test]
fn test_dimension_fallback_inserts_missing_tags() {
    let facts = FileFacts {
        path: "x/p.png".to_string(),
        size: 5,
        mime: Some("image/png".to_string()),
        exif: None,
        gps: None,
        dimensions: Some((640, 480)),
        created_ms: None,
    };
    let (mut ctx, _) = extract_stage_initial(&facts);
    assert!(monana::extractor::needs_dimension_fallback(&ctx));
    extract_stage_fallbacks(&mut ctx, &facts);
    assert_eq!(
        ctx.meta.get("ImageWidth"),
        Some(monana::context::MetaValue::Int(640))
    );
    assert_eq!(
        ctx.meta.get("ImageHeight"),
        Some(monana::context::MetaValue::Int(480))
    );
}

#[test]
fn test_created_time_fallback() {
    let facts = FileFacts {
        path: "x/p.png".to_string(),
        size: 5,
        mime: Some("image/png".to_string()),
        exif: None,
        gps: None,
        dimensions: None,
        created_ms: Some(1720108800000),
    };
    let (mut ctx, _) = extract_stage_initial(&facts);
    extract_stage_fallbacks(&mut ctx, &facts);
    assert_eq!(ctx.time.yyyy, "2024");
    assert_eq!(ctx.time.timestamp, Some(1720108800000));
}
