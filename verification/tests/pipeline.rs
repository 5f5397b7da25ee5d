use monana::context::{MediaContext, SourceContext};
use monana::engine::RuleEngine;
use monana::pipeline::{
    create_source_context, find_dependent_rulesets, media_type_from_mime,
    source_context_from_path, ActionSpec, InputSpec, Rule, Ruleset,
};

#[test]
fn test_parse_type_forms() {
    assert_eq!(
        InputSpec::Cmdline.parse_type(),
        ("cmdline".to_string(), None)
    );
    assert_eq!(
        InputSpec::Prefixed("ruleset:primary".to_string()).parse_type(),
        ("ruleset".to_string(), Some("primary".to_string()))
    );
    assert_eq!(
        InputSpec::Prefixed("oddball".to_string()).parse_type(),
        ("unknown".to_string(), None)
    );
}

#[test]
fn test_parse_action_forms() {
    assert_eq!(ActionSpec::Move.parse_action(), ("move".to_string(), None));
    assert_eq!(ActionSpec::Copy.parse_action(), ("copy".to_string(), None));
    assert_eq!(
        ActionSpec::Symlink.parse_action(),
        ("symlink".to_string(), None)
    );
    assert_eq!(
        ActionSpec::Hardlink.parse_action(),
        ("hardlink".to_string(), None)
    );
    assert_eq!(
        ActionSpec::Command("cmd:echo {source}".to_string()).parse_action(),
        ("cmd".to_string(), Some("echo {source}".to_string()))
    );
    assert_eq!(
        ActionSpec::Command("weird".to_string()).parse_action(),
        ("unknown".to_string(), None)
    );
}

#[test]
fn test_from_config_strings() {
    assert_eq!(InputSpec::from_config_str("cmdline"), InputSpec::Cmdline);
    assert_eq!(
        InputSpec::from_config_str("ruleset:primary"),
        InputSpec::Prefixed("ruleset:primary".to_string())
    );
    assert_eq!(ActionSpec::from_config_str("move"), ActionSpec::Move);
    assert_eq!(ActionSpec::from_config_str("copy"), ActionSpec::Copy);
    assert_eq!(
        ActionSpec::from_config_str("cmd:touch {destination}"),
        ActionSpec::Command("cmd:touch {destination}".to_string())
    );
}

#[test]
fn test_media_type_from_mime_values() {
    assert_eq!(media_type_from_mime(Some("image/jpeg")), "image");
    assert_eq!(media_type_from_mime(Some("video/mp4")), "video");
    assert_eq!(media_type_from_mime(Some("application/pdf")), "unknown");
    assert_eq!(media_type_from_mime(None), "unknown");
}

#[test]
fn test_source_context_from_path_parts() {
    let s = source_context_from_path("/media/in/photo.jpg", 77);
    assert_eq!(s.path, "/media/in");
    assert_eq!(s.name, "photo");
    assert_eq!(s.extension, "jpg");
    assert_eq!(s.original, "photo.jpg");
    assert_eq!(s.size, 77);

    let s = source_context_from_path("photo.jpg", 1);
    assert_eq!(s.path, ".");
    assert_eq!(s.name, "photo");

    let s = source_context_from_path("noext", 1);
    assert_eq!(s.name, "noext");
    assert_eq!(s.extension, "");

    let s = source_context_from_path(".bashrc", 1);
    assert_eq!(s.name, ".bashrc");
    assert_eq!(s.extension, "");
}

fn image_context() -> MediaContext {
    let mut ctx = MediaContext::default();
    ctx.media_type = "image".to_string();
    ctx.time.yyyy = "2024".to_string();
    ctx.source = SourceContext {
        path: "in".to_string(),
        name: "photo".to_string(),
        extension: "jpg".to_string(),
        original: "photo.jpg".to_string(),
        size: 9,
    };
    ctx
}

#[test]
fn test_first_match_wins() {
    // Rule A comes before rule B; both match a 2024 image; A wins.
    let engine = RuleEngine::new();
    let ruleset = Ruleset {
        name: "sort".to_string(),
        input: InputSpec::Cmdline,
        rules: vec![
            Rule {
                condition: "type == \"image\"".to_string(),
                template: "A/{source.original}".to_string(),
                action: ActionSpec::Copy,
            },
            Rule {
                condition: "type == \"image\" && time.yyyy == \"2024\"".to_string(),
                template: "B/{source.original}".to_string(),
                action: ActionSpec::Copy,
            },
        ],
    };
    let ctx = image_context();
    let (index, dest, _action) = engine.match_ruleset(&ruleset, &ctx).unwrap();
    assert_eq!(index, 0);
    assert_eq!(dest, "A/photo.jpg");
}

#[test]
fn test_erroring_rule_is_skipped() {
    let engine = RuleEngine::new();
    let ruleset = Ruleset {
        name: "sort".to_string(),
        input: InputSpec::Cmdline,
        rules: vec![
            Rule {
                condition: "((broken".to_string(),
                template: "X/{source.original}".to_string(),
                action: ActionSpec::Copy,
            },
            Rule {
                condition: "type == \"image\"".to_string(),
                template: "Y/{source.original}".to_string(),
                action: ActionSpec::Copy,
            },
        ],
    };
    let ctx = image_context();
    let (index, dest, _action) = engine.match_ruleset(&ruleset, &ctx).unwrap();
    assert_eq!(index, 1);
    assert_eq!(dest, "Y/photo.jpg");
}

#[test]
fn test_no_rule_matches() {
    let engine = RuleEngine::new();
    let ruleset = Ruleset {
        name: "sort".to_string(),
        input: InputSpec::Cmdline,
        rules: vec![Rule {
            condition: "type == \"video\"".to_string(),
            template: "V/{source.original}".to_string(),
            action: ActionSpec::Copy,
        }],
    };
    let ctx = image_context();
    assert!(engine.match_ruleset(&ruleset, &ctx).is_none());
}

#[test]
fn test_dependent_ruleset_traversal() {
    // A primary ruleset feeds a dependent one; the dependent sees a source
    // block recomputed from the first destination while the rest of the
    // metadata is retained.
    let engine = RuleEngine::new();
    let primary = Ruleset {
        name: "primary".to_string(),
        input: InputSpec::Cmdline,
        rules: vec![Rule {
            condition: "type == \"image\"".to_string(),
            template: "stage1/{source.original}".to_string(),
            action: ActionSpec::Copy,
        }],
    };
    let archive = Ruleset {
        name: "archive".to_string(),
        input: InputSpec::Prefixed("ruleset:primary".to_string()),
        rules: vec![Rule {
            condition: "type == \"image\"".to_string(),
            template: "stage2/{source.original}".to_string(),
            action: ActionSpec::Copy,
        }],
    };
    let rulesets = vec![primary, archive];

    let ctx = image_context();
    let (_, dest1, _) = engine.match_ruleset(&rulesets[0], &ctx).unwrap();
    assert_eq!(dest1, "stage1/photo.jpg");

    let dependents = find_dependent_rulesets("primary", &rulesets);
    assert_eq!(dependents, vec![1]);
    assert!(find_dependent_rulesets("archive", &rulesets).is_empty());

    let mut next_ctx = ctx.clone();
    next_ctx.source = create_source_context(dest1.as_str(), 9);
    assert_eq!(next_ctx.source.path, "stage1");
    assert_eq!(next_ctx.source.original, "photo.jpg");
    assert_eq!(next_ctx.time.yyyy, "2024");

    let (_, dest2, _) = engine.match_ruleset(&rulesets[dependents[0]], &next_ctx).unwrap();
    assert_eq!(dest2, "stage2/photo.jpg");
}
