use monana::context::{MediaContext, MetaValue, SourceContext, TimeContext};
use monana::render::dynamic_to_string;
use monana::template::{apply_template, substitute_command};

fn sample_context() -> MediaContext {
    let mut context = MediaContext::default();
    context.time = TimeContext {
        yyyy: "2024".to_string(),
        mm: "07".to_string(),
        dd: "04".to_string(),
        hh: "16".to_string(),
        minute: "00".to_string(),
        ss: "00".to_string(),
        month_name: "July".to_string(),
        weekday: "Thursday".to_string(),
        timestamp: Some(1720108800000),
    };
    context.source = SourceContext {
        path: "/media/in".to_string(),
        name: "photo".to_string(),
        extension: "jpg".to_string(),
        original: "photo.jpg".to_string(),
        size: 1024,
    };
    context.media_type = "image".to_string();
    context.space.country = "US".to_string();
    context
}

#[test]
fn test_apply_template_basic() {
    let mut context = sample_context();
    context.space.country = "US".to_string();
    let out = apply_template("out/{time.yyyy}/{space.country}/{source.original}", &context);
    assert_eq!(out, "out/2024/US/photo.jpg");
}

#[test]
fn test_apply_template_unknown_reference() {
    let context = sample_context();
    let out = apply_template("x/{nosuch.field}/{source.name}", &context);
    assert_eq!(out, "x/{unknown:nosuch.field}/photo");
    // Malformed placeholders pass through untouched
    let out = apply_template("a{not closed", &context);
    assert_eq!(out, "a{not closed");
    let out = apply_template("{a..b}", &context);
    assert_eq!(out, "{a..b}");
}

#[test]
fn test_apply_template_meta_stringify() {
    // An integer 12 stringifies as "12"; the rational one as "1"; three
    // halves as "1.5".
    let mut context = sample_context();
    context.meta.insert("Count".to_string(), MetaValue::Int(12));
    context.meta.insert("One".to_string(), MetaValue::Rat(1, 1));
    context.meta.insert("Ratio".to_string(), MetaValue::Rat(3, 2));
    let out = apply_template("{meta.Count}-{meta.One}-{meta.Ratio}", &context);
    assert_eq!(out, "12-1-1.5");
}

#[test]
fn test_dynamic_to_string_values() {
    assert_eq!(dynamic_to_string(&MetaValue::Int(12)), "12");
    assert_eq!(dynamic_to_string(&MetaValue::Int(-3)), "-3");
    assert_eq!(dynamic_to_string(&MetaValue::Rat(1, 1)), "1");
    assert_eq!(dynamic_to_string(&MetaValue::Rat(3, 2)), "1.5");
    assert_eq!(dynamic_to_string(&MetaValue::Rat(1205, 10)), "120.5");
    assert_eq!(dynamic_to_string(&MetaValue::Rat(-1, 2)), "-0.5");
    assert_eq!(dynamic_to_string(&MetaValue::Rat(1, 0)), "inf");
    assert_eq!(dynamic_to_string(&MetaValue::Truth(true)), "true");
    assert_eq!(
        dynamic_to_string(&MetaValue::Text("plain".to_string())),
        "plain"
    );
}

#[test]
fn test_lat_lon_stringify() {
    let mut context = sample_context();
    context.space.lat_e7 = 404461950;
    context.space.lon_e7 = -799823060;
    let out = apply_template("{space.lat},{space.lon}", &context);
    assert_eq!(out, "40.446195,-79.982306");
    context.space.lat_e7 = 0;
    let out = apply_template("{space.lat}", &context);
    assert_eq!(out, "0");
}

#[test]
fn test_altitude_resolves_when_present() {
    let mut context = sample_context();
    context.space.altitude_e3 = Some(300500);
    assert_eq!(apply_template("{space.altitude}", &context), "300.5");
    context.space.altitude_e3 = None;
    assert_eq!(
        apply_template("{space.altitude}", &context),
        "{unknown:space.altitude}"
    );
}

#[test]
fn test_substitute_command_placeholders() {
    assert_eq!(
        substitute_command("cp {source} {destination}", "a.jpg", "out/a.jpg"),
        "cp a.jpg out/a.jpg"
    );
    // Replaced once: substituted text is not rescanned
    assert_eq!(
        substitute_command("{source}", "{destination}", "X"),
        "{destination}"
    );
    // Unknown braces pass through
    assert_eq!(substitute_command("{src} {source}", "a", "b"), "{src} a");
}

#[test]
fn test_expand_idempotent_when_resolved() {
    // Once every variable resolved, expanding again changes nothing.
    let context = sample_context();
    let once = apply_template("v/{time.yyyy}/{source.name}.{source.extension}", &context);
    let twice = apply_template(once.as_str(), &context);
    assert_eq!(once, twice);
}
