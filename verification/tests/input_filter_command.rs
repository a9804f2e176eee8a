use xai_grok_input_sanitize::{CommandAction, InputAllowCommand, InputDenyCommand, SETTINGS_FILTER};

#[test]
fn empty_opens_settings_filtered() {
    let r = InputAllowCommand.run("");
    match r {
        CommandAction::OpenSettingsFiltered { query } => {
            assert_eq!(query, SETTINGS_FILTER);
        }
        other => panic!("expected OpenSettingsFiltered, got {other:?}"),
    }
}

#[test]
fn command_name_is_input_filter() {
    assert_eq!(InputAllowCommand.name(), "input-filter");
    assert!(InputAllowCommand.aliases().contains(&"input-allow"));
}

#[test]
fn balanced_sets_profile() {
    let r = InputAllowCommand.run("balanced");
    match r {
        CommandAction::SetInputSanitizeProfile(p) => {
            assert_eq!(p, "balanced");
        }
        other => panic!("expected SetInputSanitizeProfile, got {other:?}"),
    }
}

#[test]
fn status_shows_policy() {
    assert!(matches!(
        InputAllowCommand.run("status"),
        CommandAction::InputSanitizeStatus
    ));
}

#[test]
fn deny_opens_menu() {
    assert!(matches!(
        InputDenyCommand.run("emoji"),
        CommandAction::OpenSettingsFiltered { .. }
    ));
}

#[test]
fn legacy_flags_open_menu_not_error() {
    assert!(matches!(
        InputAllowCommand.run("latin_extended --user"),
        CommandAction::OpenSettingsFiltered { .. }
    ));
}
