use model_radar::domain::RadarSource;
use model_radar::preferences::{
    close_request_should_hide, ensure_supported_platform, hidden_window_option, is_valid_opacity,
    menu_action, opacity_error, opacity_menu_id, radar_source_checks, radar_source_from_menu_id,
    taskbar_failure_preferences, tray_left_click_behavior, CompanionProjection, DesktopOption,
    DesktopPreferences, MainWindowPositionPreset, MenuAction, TrayLeftClickBehavior,
    MENU_ALWAYS_ON_TOP, MENU_CLICK_THROUGH, MENU_LAUNCH_AT_LOGIN, MENU_POSITION_BOTTOM_LEFT,
    MENU_POSITION_BOTTOM_RIGHT, MENU_POSITION_CENTER, MENU_POSITION_LOCKED,
    MENU_POSITION_TOP_LEFT, MENU_POSITION_TOP_RIGHT, MENU_QUIT, MENU_RADAR_SOURCE_DISTRIBUTED,
    MENU_RADAR_SOURCE_MAIN, MENU_REFRESH, MENU_SHOW_MAIN_WINDOW, MENU_SHOW_TASKBAR_WINDOW,
    VALID_OPACITY,
};
use model_radar::text::bounded_single_line;

#[test]
fn preferences_default_to_recoverable_visible_windows() {
    let preferences = DesktopPreferences::default();
    assert!(preferences.always_on_top);
    assert!(!preferences.click_through);
    assert!(!preferences.position_locked);
    assert!(preferences.show_taskbar_window);
    assert!(preferences.show_main_window);
    assert!(!preferences.launch_at_login);
    assert_eq!(preferences.opacity_percent, 100);
    assert_eq!(preferences.radar_source, RadarSource::Main);
}

#[test]
fn start_at_login_transition_preserves_unrelated_preferences() {
    let previous = DesktopPreferences {
        always_on_top: false,
        click_through: true,
        position_locked: true,
        show_taskbar_window: false,
        show_main_window: true,
        launch_at_login: false,
        opacity_percent: 60,
        radar_source: RadarSource::Distributed,
    };

    let next = previous
        .clone()
        .with_option(DesktopOption::LaunchAtLogin, true);

    assert!(next.launch_at_login);
    assert_eq!(next.always_on_top, previous.always_on_top);
    assert_eq!(next.click_through, previous.click_through);
    assert_eq!(next.position_locked, previous.position_locked);
    assert_eq!(next.show_taskbar_window, previous.show_taskbar_window);
    assert_eq!(next.show_main_window, previous.show_main_window);
    assert_eq!(next.opacity_percent, previous.opacity_percent);
    assert_eq!(next.radar_source, previous.radar_source);
}

#[test]
fn launch_at_login_menu_option_is_found_and_reported_enabled() {
    let preferences =
        DesktopPreferences::default().with_option(DesktopOption::LaunchAtLogin, true);
    assert_eq!(
        DesktopOption::from_menu_id(MENU_LAUNCH_AT_LOGIN),
        Some(DesktopOption::LaunchAtLogin)
    );
    assert!(DesktopOption::LaunchAtLogin.enabled(&preferences));
}

#[test]
fn radar_source_menu_ids_and_checks_are_exclusive() {
    assert_eq!(
        radar_source_from_menu_id(MENU_RADAR_SOURCE_MAIN),
        Some(RadarSource::Main)
    );
    assert_eq!(
        radar_source_from_menu_id(MENU_RADAR_SOURCE_DISTRIBUTED),
        Some(RadarSource::Distributed)
    );
    assert_eq!(
        radar_source_from_menu_id("desktop.radar-source.unknown"),
        None
    );

    assert_eq!(radar_source_checks(&RadarSource::Main), [true, false]);
    assert_eq!(
        radar_source_checks(&RadarSource::Distributed),
        [false, true]
    );
}

#[test]
fn radar_source_selection_preserves_every_window_preference() {
    let previous = DesktopPreferences {
        always_on_top: false,
        click_through: true,
        position_locked: true,
        show_taskbar_window: false,
        show_main_window: true,
        launch_at_login: true,
        opacity_percent: 70,
        radar_source: RadarSource::Main,
    };

    let next = previous.clone().with_radar_source(RadarSource::Distributed);

    assert_eq!(next.radar_source, RadarSource::Distributed);
    assert_eq!(next.always_on_top, previous.always_on_top);
    assert_eq!(next.click_through, previous.click_through);
    assert_eq!(next.position_locked, previous.position_locked);
    assert_eq!(next.show_taskbar_window, previous.show_taskbar_window);
    assert_eq!(next.show_main_window, previous.show_main_window);
    assert_eq!(next.launch_at_login, previous.launch_at_login);
    assert_eq!(next.opacity_percent, previous.opacity_percent);
}

#[test]
fn macos_tray_click_opens_details_while_other_platforms_toggle() {
    assert_eq!(
        tray_left_click_behavior(true),
        TrayLeftClickBehavior::ShowDetails
    );
    assert_eq!(
        tray_left_click_behavior(false),
        TrayLeftClickBehavior::ToggleMain
    );
}

#[test]
fn loaded_preferences_validate_opacity_and_visibility() {
    let preferences = DesktopPreferences {
        show_taskbar_window: false,
        show_main_window: false,
        opacity_percent: 42,
        ..DesktopPreferences::default()
    }
    .normalize_loaded();

    assert!(preferences.show_taskbar_window);
    assert!(!preferences.show_main_window);
    assert_eq!(preferences.opacity_percent, 100);
}

#[test]
fn normalizing_loaded_preferences_twice_changes_nothing_more() {
    let once = DesktopPreferences {
        show_taskbar_window: false,
        show_main_window: false,
        opacity_percent: 42,
        ..DesktopPreferences::default()
    }
    .normalize_loaded();
    assert_eq!(once.normalize_loaded(), once);
    let valid = DesktopPreferences {
        opacity_percent: 80,
        show_taskbar_window: false,
        ..DesktopPreferences::default()
    };
    assert_eq!(valid.normalize_loaded(), valid);
}

#[test]
fn disabling_the_only_visible_projection_enables_the_other_one() {
    let only_main = DesktopPreferences {
        show_taskbar_window: false,
        show_main_window: true,
        ..DesktopPreferences::default()
    };
    let result = only_main.with_option(DesktopOption::ShowMainWindow, false);
    assert!(result.show_taskbar_window);
    assert!(!result.show_main_window);

    let only_taskbar = DesktopPreferences {
        show_taskbar_window: true,
        show_main_window: false,
        ..DesktopPreferences::default()
    };
    let result = only_taskbar.with_option(DesktopOption::ShowTaskbarWindow, false);
    assert!(!result.show_taskbar_window);
    assert!(result.show_main_window);
}

#[test]
fn setting_an_option_to_its_current_value_changes_nothing() {
    let preferences = DesktopPreferences {
        click_through: true,
        opacity_percent: 70,
        ..DesktopPreferences::default()
    };
    for option in [
        DesktopOption::AlwaysOnTop,
        DesktopOption::ClickThrough,
        DesktopOption::PositionLocked,
        DesktopOption::ShowTaskbarWindow,
        DesktopOption::ShowMainWindow,
        DesktopOption::LaunchAtLogin,
    ] {
        let current = option.enabled(&preferences);
        assert_eq!(preferences.with_option(option, current), preferences);
    }
}

#[test]
fn quick_position_menu_ids_map_to_exact_presets() {
    assert_eq!(
        MainWindowPositionPreset::from_menu_id(MENU_POSITION_TOP_LEFT),
        Some(MainWindowPositionPreset::TopLeft)
    );
    assert_eq!(
        MainWindowPositionPreset::from_menu_id(MENU_POSITION_TOP_RIGHT),
        Some(MainWindowPositionPreset::TopRight)
    );
    assert_eq!(
        MainWindowPositionPreset::from_menu_id(MENU_POSITION_CENTER),
        Some(MainWindowPositionPreset::Center)
    );
    assert_eq!(
        MainWindowPositionPreset::from_menu_id(MENU_POSITION_BOTTOM_LEFT),
        Some(MainWindowPositionPreset::BottomLeft)
    );
    assert_eq!(
        MainWindowPositionPreset::from_menu_id(MENU_POSITION_BOTTOM_RIGHT),
        Some(MainWindowPositionPreset::BottomRight)
    );
    assert_eq!(
        MainWindowPositionPreset::from_menu_id("desktop.position.unknown"),
        None
    );
}

#[test]
fn menu_ids_round_trip_for_presets_options_and_sources() {
    for preset in [
        MainWindowPositionPreset::TopLeft,
        MainWindowPositionPreset::TopRight,
        MainWindowPositionPreset::Center,
        MainWindowPositionPreset::BottomLeft,
        MainWindowPositionPreset::BottomRight,
    ] {
        assert_eq!(MainWindowPositionPreset::from_menu_id(preset.menu_id()), Some(preset));
    }
    for option in [
        DesktopOption::AlwaysOnTop,
        DesktopOption::ClickThrough,
        DesktopOption::PositionLocked,
        DesktopOption::ShowTaskbarWindow,
        DesktopOption::ShowMainWindow,
        DesktopOption::LaunchAtLogin,
    ] {
        assert_eq!(DesktopOption::from_menu_id(option.menu_id()), Some(option));
    }
    assert_eq!(DesktopOption::from_menu_id(MENU_ALWAYS_ON_TOP), Some(DesktopOption::AlwaysOnTop));
    assert_eq!(DesktopOption::from_menu_id(MENU_CLICK_THROUGH), Some(DesktopOption::ClickThrough));
    assert_eq!(
        DesktopOption::from_menu_id(MENU_POSITION_LOCKED),
        Some(DesktopOption::PositionLocked)
    );
    assert_eq!(
        DesktopOption::from_menu_id(MENU_SHOW_TASKBAR_WINDOW),
        Some(DesktopOption::ShowTaskbarWindow)
    );
    assert_eq!(
        DesktopOption::from_menu_id(MENU_SHOW_MAIN_WINDOW),
        Some(DesktopOption::ShowMainWindow)
    );
    assert_eq!(DesktopOption::from_menu_id("desktop.unknown"), None);
}

#[test]
fn runtime_taskbar_failure_disables_projection_and_restores_main() {
    let taskbar_only = DesktopPreferences {
        show_taskbar_window: true,
        show_main_window: false,
        ..DesktopPreferences::default()
    };
    let fallback = taskbar_failure_preferences(&taskbar_only).expect("fallback");
    assert!(!fallback.show_taskbar_window);
    assert!(fallback.show_main_window);
    assert!(taskbar_failure_preferences(&fallback).is_none());
}

#[test]
fn enabling_main_window_from_taskbar_only_keeps_taskbar_preference() {
    let taskbar_only = DesktopPreferences {
        show_taskbar_window: true,
        show_main_window: false,
        ..DesktopPreferences::default()
    };
    let shown = taskbar_only.with_option(DesktopOption::ShowMainWindow, true);
    assert!(shown.show_main_window);
    assert!(shown.show_taskbar_window);
}

#[test]
fn opacity_selection_is_exclusive() {
    for selected in VALID_OPACITY {
        let checks = VALID_OPACITY.map(|opacity| opacity == selected);
        assert_eq!(checks.into_iter().filter(|checked| *checked).count(), 1);
    }
}

#[test]
fn opacity_changes_accept_only_menu_values() {
    let preferences = DesktopPreferences::default();
    for opacity in VALID_OPACITY {
        assert!(is_valid_opacity(opacity));
    }
    assert!(!is_valid_opacity(42));
    let changed = preferences.opacity_transition(70).expect("valid opacity");
    assert_eq!(changed, Some(DesktopPreferences { opacity_percent: 70, ..preferences }));
    assert_eq!(preferences.opacity_transition(100), Ok(None));
    assert_eq!(
        preferences.opacity_transition(42),
        Err("unsupported opacity 42; expected one of 100, 90, 80, 70, 60".to_owned())
    );
    assert_eq!(opacity_error(5), "unsupported opacity 5; expected one of 100, 90, 80, 70, 60");
    assert_eq!(opacity_menu_id(80), "desktop.opacity.80");
}

#[test]
fn menu_events_decode_to_actions() {
    assert_eq!(menu_action(MENU_QUIT), MenuAction::Quit);
    assert_eq!(menu_action(MENU_REFRESH), MenuAction::Refresh);
    assert_eq!(
        menu_action(MENU_CLICK_THROUGH),
        MenuAction::Toggle(DesktopOption::ClickThrough)
    );
    assert_eq!(
        menu_action(MENU_RADAR_SOURCE_DISTRIBUTED),
        MenuAction::SelectRadarSource(RadarSource::Distributed)
    );
    assert_eq!(
        menu_action(MENU_POSITION_CENTER),
        MenuAction::Position(MainWindowPositionPreset::Center)
    );
    assert_eq!(menu_action("desktop.opacity.90"), MenuAction::Opacity("90".to_owned()));
    assert_eq!(menu_action("desktop.opacity.abc"), MenuAction::Opacity("abc".to_owned()));
    assert_eq!(menu_action("desktop.unknown"), MenuAction::Ignore);
}

#[test]
fn hiding_a_window_names_the_option_it_turns_off() {
    assert_eq!(hidden_window_option("main"), Ok(DesktopOption::ShowMainWindow));
    assert_eq!(hidden_window_option("taskbar"), Ok(DesktopOption::ShowTaskbarWindow));
    assert!(hidden_window_option("other").is_err());
    assert!(close_request_should_hide("main"));
    assert!(close_request_should_hide("taskbar"));
    assert!(!close_request_should_hide("other"));
}

#[test]
fn only_windows_and_macos_are_supported() {
    assert_eq!(ensure_supported_platform(true, false), Ok(()));
    assert_eq!(ensure_supported_platform(false, true), Ok(()));
    assert!(ensure_supported_platform(false, false).is_err());
}

#[test]
fn projection_titles_are_single_line_and_bounded() {
    let projection = CompanionProjection {
        model_name: "a very long\nmodel name that cannot grow forever".to_owned(),
        reasoning_effort: "max\nreasoning".to_owned(),
        score_text: "106.30".to_owned(),
        tie_count: 4,
        status_label: "ready\nnow".to_owned(),
    }
    .normalized();
    let title = projection.title();

    assert!(!title.contains('\n'));
    assert!(title.chars().count() <= 64);
    assert!(title.contains("+4"));
    assert!(!title.contains("reasoning"));
    assert!(!title.contains("ready"));
}

#[test]
fn bounded_text_collapses_whitespace_before_truncating() {
    assert_eq!(bounded_single_line("  GPT\n  5.6  ", 7), "GPT 5.6");
}

#[test]
fn bounded_text_keeps_short_text_and_cuts_long_text() {
    assert_eq!(bounded_single_line("a\tb", 10), "a b");
    assert_eq!(bounded_single_line("abcdef", 3), "abc");
    assert_eq!(bounded_single_line("   ", 5), "");
    assert_eq!(bounded_single_line("abc", 0), "");
}
