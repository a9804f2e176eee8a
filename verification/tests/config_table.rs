use xai_grok_input_sanitize::{CategoryAction, InputSanitizeConfig, RiskCategory};

#[test]
fn toml_roundtrip_defaults() {
    // enabled = true, latin_extended = "keep", emoji = "strip"
    let cfg = InputSanitizeConfig {
        enabled: Some(true),
        latin_extended: Some(CategoryAction::Keep),
        emoji: Some(CategoryAction::Strip),
        ..InputSanitizeConfig::default()
    };
    let p = cfg.to_policy();
    assert!(p.enabled);
    assert_eq!(p.action(RiskCategory::LatinExtended), CategoryAction::Keep);
    assert_eq!(p.action(RiskCategory::Emoji), CategoryAction::Strip);
}

#[test]
fn security_keep_in_config_ignored() {
    // bidi_controls = "keep"
    let cfg = InputSanitizeConfig {
        bidi_controls: Some(CategoryAction::Keep),
        ..InputSanitizeConfig::default()
    };
    let p = cfg.to_policy();
    assert_eq!(p.action(RiskCategory::BidiControls), CategoryAction::Strip);
}
