use monana::context::{MediaContext, MetaValue, SourceContext, TimeContext};
use monana::engine::RuleEngine;
use monana::pipeline::{ActionSpec, Rule};

#[test]
fn test_simple_condition() {
    let engine = RuleEngine::new();
    let defaultctx = MediaContext::default();
    let context = MediaContext {
        time: TimeContext {
            yyyy: "2024".to_string(),
            mm: "12".to_string(),
            dd: "25".to_string(),
            hh: "14".to_string(),
            minute: "30".to_string(),
            ss: "45".to_string(),
            month_name: "December".to_string(),
            weekday: "Monday".to_string(),
            timestamp: None,
        },
        media_type: defaultctx.media_type.clone(),
        meta: defaultctx.meta.clone(),
        source: defaultctx.source.clone(),
        space: defaultctx.space.clone(),
        special: defaultctx.special.clone(),
    };

    assert!(engine
        .evaluate_condition("time.yyyy == \"2024\"", &context)
        .unwrap());
    assert!(!engine
        .evaluate_condition("time.yyyy == \"2023\"", &context)
        .unwrap());
    assert!(engine
        .evaluate_condition("time.mm == \"12\"", &context)
        .unwrap());
}

#[test]
fn test_complex_condition() {
    let engine = RuleEngine::new();
    let ctxdefault = MediaContext::default();

    let timectx = TimeContext {
        yyyy: "2024".to_string(),
        mm: "07".to_string(),
        dd: "04".to_string(),
        hh: "16".to_string(),
        minute: "00".to_string(),
        ss: "00".to_string(),
        month_name: "July".to_string(),
        weekday: "Thursday".to_string(),
        timestamp: None,
    };

    let mut context = MediaContext {
        time: timectx,
        media_type: "image".to_string(),
        source: ctxdefault.source.clone(),
        space: ctxdefault.space.clone(),
        special: ctxdefault.special.clone(),
        meta: Default::default(),
    };

    // Add metadata values
    context
        .meta
        .insert("ImageWidth".to_string(), MetaValue::Int(1920));
    context
        .meta
        .insert("ImageHeight".to_string(), MetaValue::Int(1080));

    let condition =
        "time.yyyy == \"2024\" && time.month_name == \"July\" && meta.ImageWidth > 1000";
    assert!(engine.evaluate_condition(condition, &context).unwrap());
}

#[test]
fn test_process_rule() {
    let engine = RuleEngine::new();
    let mut context = MediaContext::default();

    context.time = TimeContext {
        yyyy: "2024".to_string(),
        mm: "12".to_string(),
        dd: "25".to_string(),
        hh: "14".to_string(),
        minute: "30".to_string(),
        ss: "45".to_string(),
        month_name: "December".to_string(),
        weekday: "Monday".to_string(),
        timestamp: None,
    };

    context.source = SourceContext {
        path: "/tmp/photo.jpg".to_string(),
        name: "photo".to_string(),
        extension: "jpg".to_string(),
        original: "photo.jpg".to_string(),
        size: 1024,
    };

    context.media_type = "image".to_string();
    context
        .meta
        .insert("ImageWidth".to_string(), MetaValue::Int(1920));
    context
        .meta
        .insert("ImageHeight".to_string(), MetaValue::Int(1080));

    let rule = Rule {
        condition: "type == \"image\"".to_string(),
        template: "{time.yyyy}/{time.mm}/{source.name}.{source.extension}".to_string(),
        action: ActionSpec::Move,
    };

    let result = engine.process_rule(&rule, &context).unwrap();
    assert!(result.is_some());

    let (destination, action) = result.unwrap();
    assert_eq!(destination, "2024/12/photo.jpg");
    assert!(matches!(action, ActionSpec::Move));
}

#[test]
fn test_rule_condition_not_met() {
    let engine = RuleEngine::new();
    let defaultctx = MediaContext::default();

    let mut context = MediaContext {
        media_type: "video".to_string(),
        time: defaultctx.time.clone(),
        source: defaultctx.source.clone(),
        space: defaultctx.space.clone(),
        special: defaultctx.special.clone(),
        meta: Default::default(),
    };

    context
        .meta
        .insert("ImageWidth".to_string(), MetaValue::Int(1920));
    context
        .meta
        .insert("ImageHeight".to_string(), MetaValue::Int(1080));
    context
        .meta
        .insert("duration".to_string(), MetaValue::Rat(241, 2));

    let rule = Rule {
        condition: "type == \"image\"".to_string(),
        template: "{time.yyyy}/{time.mm}/{source.name}.{source.extension}".to_string(),
        action: ActionSpec::Copy,
    };

    let result = engine.process_rule(&rule, &context).unwrap();
    assert!(result.is_none());
}

#[test]
fn test_operators_and_literals() {
    let engine = RuleEngine::new();
    let mut context = MediaContext::default();
    context.media_type = "image".to_string();
    context.source.size = 2048;
    context
        .meta
        .insert("duration".to_string(), MetaValue::Rat(241, 2)); // 120.5

    assert!(engine.evaluate_condition("source.size >= 2048", &context).unwrap());
    assert!(engine.evaluate_condition("source.size < 2049", &context).unwrap());
    assert!(engine.evaluate_condition("meta.duration > 120", &context).unwrap());
    assert!(engine.evaluate_condition("meta.duration < 121", &context).unwrap());
    assert!(engine.evaluate_condition("meta.duration == 120.5", &context).unwrap());
    assert!(engine
        .evaluate_condition("!(type == \"video\") && (true || false)", &context)
        .unwrap());
    assert!(engine
        .evaluate_condition("type != \"video\" && source.size != 0", &context)
        .unwrap());
}

#[test]
fn test_missing_meta_compares_false() {
    let engine = RuleEngine::new();
    let context = MediaContext::default();
    assert!(!engine.evaluate_condition("meta.Absent == 1", &context).unwrap());
    assert!(!engine.evaluate_condition("meta.Absent != 1", &context).unwrap());
    assert!(!engine.evaluate_condition("meta.Absent < 1", &context).unwrap());
}

#[test]
fn test_nesting_cap() {
    // Nesting is capped at 64 levels: 70 nested groups are a rule error,
    // modest nesting evaluates.
    let engine = RuleEngine::new();
    let context = MediaContext::default();
    let deep = format!("{}true{}", "(".repeat(70), ")".repeat(70));
    assert!(engine.evaluate_condition(&deep, &context).is_err());
    let shallow = format!("{}true{}", "(".repeat(10), ")".repeat(10));
    assert!(engine.evaluate_condition(&shallow, &context).unwrap());
    let long_chain = vec!["true"; 80].join(" && ");
    assert!(engine.evaluate_condition(&long_chain, &context).is_err());
    let short_chain = vec!["true"; 20].join(" && ");
    assert!(engine.evaluate_condition(&short_chain, &context).unwrap());
}

#[test]
fn test_evaluator_errors() {
    let engine = RuleEngine::new();
    let context = MediaContext::default();
    // syntax faults
    assert!(engine.evaluate_condition("type ==", &context).is_err());
    assert!(engine.evaluate_condition("(type == \"a\"", &context).is_err());
    assert!(engine.evaluate_condition("type = \"a\"", &context).is_err());
    // unresolved identifier
    assert!(engine.evaluate_condition("nosuch == 1", &context).is_err());
    // non-boolean operand of a boolean operator
    assert!(engine.evaluate_condition("1 && true", &context).is_err());
    // a non-boolean whole expression counts as false
    assert!(!engine.evaluate_condition("source.size", &context).unwrap());
}
