//! Desktop preferences, the options and menu entries that change them, and the
//! text of the companion's tray title.
use vstd::prelude::*;
use crate::domain::RadarSource;
use crate::text::{
    bounded_line, bounded_single_line, decimal, is_white_space, owned, push_decimal, push_text,
    text_eq,
};

verus! {

pub const MAIN_WINDOW_LABEL: &'static str = "main";

pub const TASKBAR_WINDOW_LABEL: &'static str = "taskbar";

pub const MENU_ALWAYS_ON_TOP: &'static str = "desktop.always-on-top";

pub const MENU_CLICK_THROUGH: &'static str = "desktop.click-through";

pub const MENU_POSITION_LOCKED: &'static str = "desktop.position-locked";

pub const MENU_POSITION_SUBMENU: &'static str = "desktop.position";

pub const MENU_POSITION_TOP_LEFT: &'static str = "desktop.position.top-left";

pub const MENU_POSITION_TOP_RIGHT: &'static str = "desktop.position.top-right";

pub const MENU_POSITION_CENTER: &'static str = "desktop.position.center";

pub const MENU_POSITION_BOTTOM_LEFT: &'static str = "desktop.position.bottom-left";

pub const MENU_POSITION_BOTTOM_RIGHT: &'static str = "desktop.position.bottom-right";

pub const MENU_SHOW_TASKBAR_WINDOW: &'static str = "desktop.show-taskbar-window";

pub const MENU_SHOW_MAIN_WINDOW: &'static str = "desktop.show-main-window";

pub const MENU_LAUNCH_AT_LOGIN: &'static str = "desktop.launch-at-login";

pub const MENU_OPACITY_PREFIX: &'static str = "desktop.opacity.";

pub const MENU_RADAR_SOURCE_SUBMENU: &'static str = "desktop.radar-source";

pub const MENU_RADAR_SOURCE_MAIN: &'static str = "desktop.radar-source.main";

pub const MENU_RADAR_SOURCE_DISTRIBUTED: &'static str = "desktop.radar-source.distributed";

pub const MENU_REFRESH: &'static str = "desktop.refresh";

pub const MENU_QUIT: &'static str = "desktop.quit";

/// The opacities the windows can be set to, in menu order.
pub const VALID_OPACITY: [u8; 5] = [100, 90, 80, 70, 60];

/// An opacity the windows accept.
pub open spec fn valid_opacity(opacity: u8) -> bool {
    opacity == 100 || opacity == 90 || opacity == 80 || opacity == 70 || opacity == 60
}

/// Whether an opacity is one of [`VALID_OPACITY`].
pub fn is_valid_opacity(opacity: u8) -> (r: bool)
    ensures
        r == valid_opacity(opacity),
{
    opacity == 100 || opacity == 90 || opacity == 80 || opacity == 70 || opacity == 60
}

// ---------------------------------------------------------------------------
// Menu identifiers
// ---------------------------------------------------------------------------
/// The quick positions of the main window.
#[derive(Debug, Clone, Copy, PartialEq, Eq, Hash, Structural)]
pub enum MainWindowPositionPreset {
    TopLeft,
    TopRight,
    Center,
    BottomLeft,
    BottomRight,
}

/// The menu identifier of each quick position.
pub open spec fn preset_menu_id(preset: MainWindowPositionPreset) -> Seq<char> {
    match preset {
        MainWindowPositionPreset::TopLeft => MENU_POSITION_TOP_LEFT@,
        MainWindowPositionPreset::TopRight => MENU_POSITION_TOP_RIGHT@,
        MainWindowPositionPreset::Center => MENU_POSITION_CENTER@,
        MainWindowPositionPreset::BottomLeft => MENU_POSITION_BOTTOM_LEFT@,
        MainWindowPositionPreset::BottomRight => MENU_POSITION_BOTTOM_RIGHT@,
    }
}

/// The quick position a menu identifier names.
pub open spec fn preset_for_menu_id(id: Seq<char>) -> Option<MainWindowPositionPreset> {
    if id == MENU_POSITION_TOP_LEFT@ {
        Some(MainWindowPositionPreset::TopLeft)
    } else if id == MENU_POSITION_TOP_RIGHT@ {
        Some(MainWindowPositionPreset::TopRight)
    } else if id == MENU_POSITION_CENTER@ {
        Some(MainWindowPositionPreset::Center)
    } else if id == MENU_POSITION_BOTTOM_LEFT@ {
        Some(MainWindowPositionPreset::BottomLeft)
    } else if id == MENU_POSITION_BOTTOM_RIGHT@ {
        Some(MainWindowPositionPreset::BottomRight)
    } else {
        None
    }
}

impl MainWindowPositionPreset {
    /// The quick position a menu identifier names.
    pub fn from_menu_id(id: &str) -> (r: Option<Self>)
        ensures
            r == preset_for_menu_id(id@),
    {
        if text_eq(id, MENU_POSITION_TOP_LEFT) {
            Some(MainWindowPositionPreset::TopLeft)
        } else if text_eq(id, MENU_POSITION_TOP_RIGHT) {
            Some(MainWindowPositionPreset::TopRight)
        } else if text_eq(id, MENU_POSITION_CENTER) {
            Some(MainWindowPositionPreset::Center)
        } else if text_eq(id, MENU_POSITION_BOTTOM_LEFT) {
            Some(MainWindowPositionPreset::BottomLeft)
        } else if text_eq(id, MENU_POSITION_BOTTOM_RIGHT) {
            Some(MainWindowPositionPreset::BottomRight)
        } else {
            None
        }
    }

    /// The menu identifier of this quick position.
    pub fn menu_id(self) -> (r: &'static str)
        ensures
            r@ == preset_menu_id(self),
    {
        match self {
            MainWindowPositionPreset::TopLeft => MENU_POSITION_TOP_LEFT,
            MainWindowPositionPreset::TopRight => MENU_POSITION_TOP_RIGHT,
            MainWindowPositionPreset::Center => MENU_POSITION_CENTER,
            MainWindowPositionPreset::BottomLeft => MENU_POSITION_BOTTOM_LEFT,
            MainWindowPositionPreset::BottomRight => MENU_POSITION_BOTTOM_RIGHT,
        }
    }
}

/// The menu identifier of each radar source.
pub open spec fn radar_source_menu_id(source: RadarSource) -> Seq<char> {
    match source {
        RadarSource::Main => MENU_RADAR_SOURCE_MAIN@,
        RadarSource::Distributed => MENU_RADAR_SOURCE_DISTRIBUTED@,
    }
}

/// The radar source a menu identifier names.
pub open spec fn radar_source_for_menu_id(id: Seq<char>) -> Option<RadarSource> {
    if id == MENU_RADAR_SOURCE_MAIN@ {
        Some(RadarSource::Main)
    } else if id == MENU_RADAR_SOURCE_DISTRIBUTED@ {
        Some(RadarSource::Distributed)
    } else {
        None
    }
}

/// The radar source a menu identifier names.
pub fn radar_source_from_menu_id(id: &str) -> (r: Option<RadarSource>)
    ensures
        r == radar_source_for_menu_id(id@),
{
    if text_eq(id, MENU_RADAR_SOURCE_MAIN) {
        Some(RadarSource::Main)
    } else if text_eq(id, MENU_RADAR_SOURCE_DISTRIBUTED) {
        Some(RadarSource::Distributed)
    } else {
        None
    }
}

/// The check marks of the two radar-source menu entries (main, distributed).
pub fn radar_source_checks(source: &RadarSource) -> (r: [bool; 2])
    ensures
        r@ == seq![*source == RadarSource::Main, *source == RadarSource::Distributed],
{
    let r = [*source == RadarSource::Main, *source == RadarSource::Distributed];
    assert(r@ =~= seq![*source == RadarSource::Main, *source == RadarSource::Distributed]);
    r
}

/// Exactly one radar-source menu entry is checked.
pub proof fn lemma_radar_source_checks_exclusive(source: RadarSource)
    ensures
        (source == RadarSource::Main) != (source == RadarSource::Distributed),
{
}

/// What a tray left-click does.
#[derive(Debug, Clone, Copy, PartialEq, Eq, Structural)]
pub enum TrayLeftClickBehavior {
    ToggleMain,
    ShowDetails,
}

/// On macOS a tray left-click opens the details; elsewhere it toggles the main window.
pub fn tray_left_click_behavior(is_macos: bool) -> (r: TrayLeftClickBehavior)
    ensures
        r == (if is_macos {
            TrayLeftClickBehavior::ShowDetails
        } else {
            TrayLeftClickBehavior::ToggleMain
        }),
{
    if is_macos {
        TrayLeftClickBehavior::ShowDetails
    } else {
        TrayLeftClickBehavior::ToggleMain
    }
}

// ---------------------------------------------------------------------------
// Preferences
// ---------------------------------------------------------------------------
/// The persisted desktop preferences.
#[derive(Debug, Clone, Copy, PartialEq, Eq, Structural)]
pub struct DesktopPreferences {
    pub always_on_top: bool,
    pub click_through: bool,
    pub position_locked: bool,
    pub show_taskbar_window: bool,
    pub show_main_window: bool,
    pub launch_at_login: bool,
    pub opacity_percent: u8,
    pub radar_source: RadarSource,
}

/// A boolean preference that a menu entry or command toggles.
#[derive(Debug, Clone, Copy, PartialEq, Eq, Hash, Structural)]
pub enum DesktopOption {
    AlwaysOnTop,
    ClickThrough,
    PositionLocked,
    ShowTaskbarWindow,
    ShowMainWindow,
    LaunchAtLogin,
}

impl Default for DesktopPreferences {
    fn default() -> (r: Self)
        ensures
            r == default_preferences(),
    {
        DesktopPreferences {
            always_on_top: true,
            click_through: false,
            position_locked: false,
            show_taskbar_window: true,
            show_main_window: true,
            launch_at_login: false,
            opacity_percent: 100,
            radar_source: RadarSource::Main,
        }
    }
}

/// The preferences of a fresh installation: both windows visible and on top.
pub open spec fn default_preferences() -> DesktopPreferences {
    DesktopPreferences {
        always_on_top: true,
        click_through: false,
        position_locked: false,
        show_taskbar_window: true,
        show_main_window: true,
        launch_at_login: false,
        opacity_percent: 100,
        radar_source: RadarSource::Main,
    }
}

/// The value of one option in a set of preferences.
pub open spec fn option_value(p: DesktopPreferences, option: DesktopOption) -> bool {
    match option {
        DesktopOption::AlwaysOnTop => p.always_on_top,
        DesktopOption::ClickThrough => p.click_through,
        DesktopOption::PositionLocked => p.position_locked,
        DesktopOption::ShowTaskbarWindow => p.show_taskbar_window,
        DesktopOption::ShowMainWindow => p.show_main_window,
        DesktopOption::LaunchAtLogin => p.launch_at_login,
    }
}

/// Preferences with one option set, nothing else changed.
pub open spec fn set_option(
    p: DesktopPreferences,
    option: DesktopOption,
    enabled: bool,
) -> DesktopPreferences {
    match option {
        DesktopOption::AlwaysOnTop => DesktopPreferences { always_on_top: enabled, ..p },
        DesktopOption::ClickThrough => DesktopPreferences { click_through: enabled, ..p },
        DesktopOption::PositionLocked => DesktopPreferences { position_locked: enabled, ..p },
        DesktopOption::ShowTaskbarWindow => DesktopPreferences {
            show_taskbar_window: enabled,
            ..p
        },
        DesktopOption::ShowMainWindow => DesktopPreferences { show_main_window: enabled, ..p },
        DesktopOption::LaunchAtLogin => DesktopPreferences { launch_at_login: enabled, ..p },
    }
}

/// At least one window is shown, so the user always has a surface.
pub open spec fn has_visible_surface(p: DesktopPreferences) -> bool {
    p.show_taskbar_window || p.show_main_window
}

/// Preferences that loading keeps: a valid opacity and a visible surface.
pub open spec fn normalized_preferences(p: DesktopPreferences) -> bool {
    valid_opacity(p.opacity_percent) && has_visible_surface(p)
}

/// The effect of [`DesktopPreferences::with_option`]: the option takes its new
/// value, and when that would hide both windows the other window is shown.
pub open spec fn option_applied(
    p: DesktopPreferences,
    option: DesktopOption,
    enabled: bool,
) -> DesktopPreferences {
    let q = set_option(p, option, enabled);
    if !q.show_taskbar_window && !q.show_main_window {
        match option {
            DesktopOption::ShowTaskbarWindow => DesktopPreferences { show_main_window: true, ..q },
            _ => DesktopPreferences { show_taskbar_window: true, ..q },
        }
    } else {
        q
    }
}

/// The effect of [`DesktopPreferences::normalize_loaded`].
pub open spec fn loaded_normalized(p: DesktopPreferences) -> DesktopPreferences {
    let q = if valid_opacity(p.opacity_percent) {
        p
    } else {
        DesktopPreferences { opacity_percent: 100, ..p }
    };
    if !q.show_taskbar_window && !q.show_main_window {
        DesktopPreferences { show_taskbar_window: true, ..q }
    } else {
        q
    }
}

impl DesktopOption {
    /// The option a menu identifier names.
    pub fn from_menu_id(id: &str) -> (r: Option<Self>)
        ensures
            r == option_for_menu_id(id@),
    {
        if text_eq(id, MENU_ALWAYS_ON_TOP) {
            Some(DesktopOption::AlwaysOnTop)
        } else if text_eq(id, MENU_CLICK_THROUGH) {
            Some(DesktopOption::ClickThrough)
        } else if text_eq(id, MENU_POSITION_LOCKED) {
            Some(DesktopOption::PositionLocked)
        } else if text_eq(id, MENU_SHOW_TASKBAR_WINDOW) {
            Some(DesktopOption::ShowTaskbarWindow)
        } else if text_eq(id, MENU_SHOW_MAIN_WINDOW) {
            Some(DesktopOption::ShowMainWindow)
        } else if text_eq(id, MENU_LAUNCH_AT_LOGIN) {
            Some(DesktopOption::LaunchAtLogin)
        } else {
            None
        }
    }

    /// The menu identifier of this option.
    pub fn menu_id(self) -> (r: &'static str)
        ensures
            r@ == option_menu_id(self),
    {
        match self {
            DesktopOption::AlwaysOnTop => MENU_ALWAYS_ON_TOP,
            DesktopOption::ClickThrough => MENU_CLICK_THROUGH,
            DesktopOption::PositionLocked => MENU_POSITION_LOCKED,
            DesktopOption::ShowTaskbarWindow => MENU_SHOW_TASKBAR_WINDOW,
            DesktopOption::ShowMainWindow => MENU_SHOW_MAIN_WINDOW,
            DesktopOption::LaunchAtLogin => MENU_LAUNCH_AT_LOGIN,
        }
    }

    /// Whether this option is on in `preferences`.
    pub fn enabled(self, preferences: &DesktopPreferences) -> (r: bool)
        ensures
            r == option_value(*preferences, self),
    {
        match self {
            DesktopOption::AlwaysOnTop => preferences.always_on_top,
            DesktopOption::ClickThrough => preferences.click_through,
            DesktopOption::PositionLocked => preferences.position_locked,
            DesktopOption::ShowTaskbarWindow => preferences.show_taskbar_window,
            DesktopOption::ShowMainWindow => preferences.show_main_window,
            DesktopOption::LaunchAtLogin => preferences.launch_at_login,
        }
    }
}

/// The menu identifier of each option.
pub open spec fn option_menu_id(option: DesktopOption) -> Seq<char> {
    match option {
        DesktopOption::AlwaysOnTop => MENU_ALWAYS_ON_TOP@,
        DesktopOption::ClickThrough => MENU_CLICK_THROUGH@,
        DesktopOption::PositionLocked => MENU_POSITION_LOCKED@,
        DesktopOption::ShowTaskbarWindow => MENU_SHOW_TASKBAR_WINDOW@,
        DesktopOption::ShowMainWindow => MENU_SHOW_MAIN_WINDOW@,
        DesktopOption::LaunchAtLogin => MENU_LAUNCH_AT_LOGIN@,
    }
}

/// The option a menu identifier names.
pub open spec fn option_for_menu_id(id: Seq<char>) -> Option<DesktopOption> {
    if id == MENU_ALWAYS_ON_TOP@ {
        Some(DesktopOption::AlwaysOnTop)
    } else if id == MENU_CLICK_THROUGH@ {
        Some(DesktopOption::ClickThrough)
    } else if id == MENU_POSITION_LOCKED@ {
        Some(DesktopOption::PositionLocked)
    } else if id == MENU_SHOW_TASKBAR_WINDOW@ {
        Some(DesktopOption::ShowTaskbarWindow)
    } else if id == MENU_SHOW_MAIN_WINDOW@ {
        Some(DesktopOption::ShowMainWindow)
    } else if id == MENU_LAUNCH_AT_LOGIN@ {
        Some(DesktopOption::LaunchAtLogin)
    } else {
        None
    }
}

impl DesktopPreferences {
    /// Repairs preferences read from disk: an unknown opacity becomes 100, and
    /// if both windows are hidden the taskbar companion is shown.
    pub fn normalize_loaded(self) -> (r: Self)
        ensures
            r == loaded_normalized(self),
            normalized_preferences(r),
    {
        let mut p = self;
        if !is_valid_opacity(p.opacity_percent) {
            p.opacity_percent = 100;
        }
        if !p.show_taskbar_window && !p.show_main_window {
            p.show_taskbar_window = true;
        }
        p
    }

    /// Sets one option; if that would hide both windows, the other window is shown.
    pub fn with_option(self, option: DesktopOption, enabled: bool) -> (r: Self)
        ensures
            r == option_applied(self, option, enabled),
            option_value(r, option) == enabled,
            has_visible_surface(r),
    {
        let mut p = self;
        match option {
            DesktopOption::AlwaysOnTop => p.always_on_top = enabled,
            DesktopOption::ClickThrough => p.click_through = enabled,
            DesktopOption::PositionLocked => p.position_locked = enabled,
            DesktopOption::ShowTaskbarWindow => p.show_taskbar_window = enabled,
            DesktopOption::ShowMainWindow => p.show_main_window = enabled,
            DesktopOption::LaunchAtLogin => p.launch_at_login = enabled,
        }
        if !p.show_taskbar_window && !p.show_main_window {
            match option {
                DesktopOption::ShowTaskbarWindow => p.show_main_window = true,
                _ => p.show_taskbar_window = true,
            }
        }
        p
    }

    /// Selects a radar source; every window preference is kept.
    pub fn with_radar_source(self, source: RadarSource) -> (r: Self)
        ensures
            r == (DesktopPreferences { radar_source: source, ..self }),
    {
        let mut p = self;
        p.radar_source = source;
        p
    }

    /// The preferences a menu or command opacity change leads to: `Ok(None)` when
    /// the opacity is already selected, an error for an unsupported opacity.
    pub fn opacity_transition(&self, opacity_percent: u8) -> (r: Result<
        Option<DesktopPreferences>,
        String,
    >)
        ensures
            !valid_opacity(opacity_percent) ==> (r matches Err(message) && message@
                == opacity_error_text(opacity_percent)),
            valid_opacity(opacity_percent) && self.opacity_percent == opacity_percent ==> r
                == Ok::<Option<DesktopPreferences>, String>(None),
            valid_opacity(opacity_percent) && self.opacity_percent != opacity_percent ==> r
                == Ok::<Option<DesktopPreferences>, String>(
                Some(DesktopPreferences { opacity_percent, ..*self }),
            ),
    {
        if !is_valid_opacity(opacity_percent) {
            return Err(opacity_error(opacity_percent));
        }
        if self.opacity_percent == opacity_percent {
            return Ok(None);
        }
        let mut next = *self;
        next.opacity_percent = opacity_percent;
        Ok(Some(next))
    }
}

/// The message refusing an unsupported opacity.
pub open spec fn opacity_error_text(opacity: u8) -> Seq<char> {
    "unsupported opacity "@ + decimal(opacity as nat) + "; expected one of 100, 90, 80, 70, 60"@
}

/// The message refusing an unsupported opacity.
pub fn opacity_error(opacity: u8) -> (message: String)
    ensures
        message@ == opacity_error_text(opacity),
{
    let mut message = owned("unsupported opacity ");
    push_decimal(&mut message, opacity as u64);
    push_text(&mut message, "; expected one of 100, 90, 80, 70, 60");
    message
}

/// Loading keeps normalized preferences as they are.
pub proof fn lemma_normalize_loaded_idempotent(p: DesktopPreferences)
    ensures
        loaded_normalized(loaded_normalized(p)) == loaded_normalized(p),
        normalized_preferences(p) ==> loaded_normalized(p) == p,
{
}

/// Setting an option changes no other preference, except that a window may be
/// shown so that one stays visible.
pub proof fn lemma_with_option_preserves_others(
    p: DesktopPreferences,
    option: DesktopOption,
    enabled: bool,
    other: DesktopOption,
)
    requires
        other != option,
        other != DesktopOption::ShowTaskbarWindow,
        other != DesktopOption::ShowMainWindow,
    ensures
        option_value(option_applied(p, option, enabled), other) == option_value(p, other),
        option_applied(p, option, enabled).opacity_percent == p.opacity_percent,
        option_applied(p, option, enabled).radar_source == p.radar_source,
{
}

/// Setting an option that a preference already has changes nothing when a
/// window is visible.
pub proof fn lemma_with_option_unchanged(p: DesktopPreferences, option: DesktopOption)
    requires
        has_visible_surface(p),
    ensures
        option_applied(p, option, option_value(p, option)) == p,
{
}

/// Every quick position, option and radar source is found again from its menu
/// identifier.
pub proof fn lemma_menu_ids_round_trip(
    preset: MainWindowPositionPreset,
    option: DesktopOption,
    source: RadarSource,
)
    ensures
        preset_for_menu_id(preset_menu_id(preset)) == Some(preset),
        option_for_menu_id(option_menu_id(option)) == Some(option),
        radar_source_for_menu_id(radar_source_menu_id(source)) == Some(source),
{
    reveal_strlit("desktop.position.top-left");
    reveal_strlit("desktop.position.top-right");
    reveal_strlit("desktop.position.center");
    reveal_strlit("desktop.position.bottom-left");
    reveal_strlit("desktop.position.bottom-right");
    reveal_strlit("desktop.always-on-top");
    reveal_strlit("desktop.click-through");
    reveal_strlit("desktop.position-locked");
    reveal_strlit("desktop.show-taskbar-window");
    reveal_strlit("desktop.show-main-window");
    reveal_strlit("desktop.launch-at-login");
    reveal_strlit("desktop.radar-source.main");
    reveal_strlit("desktop.radar-source.distributed");
    assert(MENU_POSITION_TOP_LEFT@.len() == 25);
    assert(MENU_POSITION_TOP_RIGHT@.len() == 26);
    assert(MENU_POSITION_CENTER@.len() == 23);
    assert(MENU_POSITION_BOTTOM_LEFT@.len() == 28);
    assert(MENU_POSITION_BOTTOM_RIGHT@.len() == 29);
    assert(MENU_ALWAYS_ON_TOP@.len() == 21);
    assert(MENU_CLICK_THROUGH@.len() == 21);
    assert(MENU_POSITION_LOCKED@.len() == 23);
    assert(MENU_SHOW_TASKBAR_WINDOW@.len() == 27);
    assert(MENU_SHOW_MAIN_WINDOW@.len() == 24);
    assert(MENU_LAUNCH_AT_LOGIN@.len() == 23);
    assert(MENU_RADAR_SOURCE_MAIN@.len() == 25);
    assert(MENU_RADAR_SOURCE_DISTRIBUTED@.len() == 32);
    assert(MENU_POSITION_TOP_LEFT@[8] == 'p' && MENU_RADAR_SOURCE_MAIN@[8] == 'r');
    assert(MENU_POSITION_CENTER@[16] == '.' && MENU_POSITION_LOCKED@[16] == '-');
    assert(MENU_ALWAYS_ON_TOP@[8] == 'a' && MENU_CLICK_THROUGH@[8] == 'c');
    assert(MENU_LAUNCH_AT_LOGIN@[8] == 'l' && MENU_POSITION_CENTER@[8] == 'p');
    assert(MENU_LAUNCH_AT_LOGIN@[8] == 'l' && MENU_POSITION_LOCKED@[8] == 'p');
}

/// The preferences after a failed taskbar companion: the companion is turned
/// off and the main window shown; `None` when the companion was already off.
pub fn taskbar_failure_preferences(preferences: &DesktopPreferences) -> (r: Option<
    DesktopPreferences,
>)
    ensures
        !preferences.show_taskbar_window ==> r is None,
        preferences.show_taskbar_window ==> r == Some(
            option_applied(*preferences, DesktopOption::ShowTaskbarWindow, false),
        ),
        r matches Some(next) ==> !next.show_taskbar_window && next.show_main_window,
{
    if preferences.show_taskbar_window {
        Some(preferences.with_option(DesktopOption::ShowTaskbarWindow, false))
    } else {
        None
    }
}

/// The option that hides the window with `label`.
pub open spec fn hidden_window_option_for(label: Seq<char>) -> Option<DesktopOption> {
    if label == MAIN_WINDOW_LABEL@ {
        Some(DesktopOption::ShowMainWindow)
    } else if label == TASKBAR_WINDOW_LABEL@ {
        Some(DesktopOption::ShowTaskbarWindow)
    } else {
        None
    }
}

/// The option to turn off when the window `label` is hidden, or the message
/// refusing an unknown window.
pub fn hidden_window_option(label: &str) -> (r: Result<DesktopOption, String>)
    ensures
        hidden_window_option_for(label@) matches Some(o) ==> r == Ok::<DesktopOption, String>(o),
        hidden_window_option_for(label@) is None ==> (r matches Err(message) && message@
            == "unknown desktop window '"@ + label@ + "'"@),
{
    if text_eq(label, MAIN_WINDOW_LABEL) {
        Ok(DesktopOption::ShowMainWindow)
    } else if text_eq(label, TASKBAR_WINDOW_LABEL) {
        Ok(DesktopOption::ShowTaskbarWindow)
    } else {
        let mut message = owned("unknown desktop window '");
        push_text(&mut message, label);
        push_text(&mut message, "'");
        Err(message)
    }
}

/// Closing a desktop window hides it instead (for the main window and the
/// taskbar companion).
pub fn close_request_should_hide(label: &str) -> (r: bool)
    ensures
        r == (hidden_window_option_for(label@) is Some),
{
    text_eq(label, MAIN_WINDOW_LABEL) || text_eq(label, TASKBAR_WINDOW_LABEL)
}

/// The desktop companion runs only on Windows and macOS.
pub fn ensure_supported_platform(is_windows: bool, is_macos: bool) -> (r: Result<(), String>)
    ensures
        (is_windows || is_macos) ==> r == Ok::<(), String>(()),
        !(is_windows || is_macos) ==> (r matches Err(message) && message@
            == "desktop companion is supported only on Windows and macOS"@),
{
    if is_windows || is_macos {
        Ok(())
    } else {
        Err(owned("desktop companion is supported only on Windows and macOS"))
    }
}

// ---------------------------------------------------------------------------
// Menu routing
// ---------------------------------------------------------------------------
/// What a tray menu entry asks for.
#[derive(Debug, Clone, PartialEq, Eq)]
pub enum MenuAction {
    Quit,
    Refresh,
    Position(MainWindowPositionPreset),
    SelectRadarSource(RadarSource),
    Toggle(DesktopOption),
    /// An opacity entry; the text after the opacity prefix.
    Opacity(String),
    Ignore,
}

/// Whether `id` starts with `prefix`, and what follows it.
fn strip_prefix(id: &str, prefix: &str) -> (r: Option<String>)
    ensures
        (prefix@.len() <= id@.len() && id@.take(prefix@.len() as int) == prefix@) ==> (r matches Some(
            rest,
        ) && rest@ == id@.skip(prefix@.len() as int)),
        !(prefix@.len() <= id@.len() && id@.take(prefix@.len() as int) == prefix@) ==> r is None,
{
    let a = crate::text::chars_of(id);
    let b = crate::text::chars_of(prefix);
    if b.len() > a.len() {
        return None;
    }
    let mut i: usize = 0;
    while i < b.len()
        invariant
            i <= b.len() <= a.len(),
            a@ == id@,
            b@ == prefix@,
            forall|k: int| 0 <= k < i ==> a@[k] == b@[k],
        decreases b.len() - i,
    {
        if a[i] != b[i] {
            assert(id@.take(prefix@.len() as int)[i as int] != prefix@[i as int]);
            return None;
        }
        i = i + 1;
    }
    assert(id@.take(prefix@.len() as int) =~= prefix@);
    let rest = crate::text::string_from_range(&a, b.len(), a.len());
    assert(a@.subrange(b@.len() as int, a@.len() as int) =~= id@.skip(prefix@.len() as int));
    Some(rest)
}

/// The action of a tray menu entry.
pub open spec fn menu_action_for(id: Seq<char>) -> Option<MenuAction> {
    if id == MENU_QUIT@ {
        Some(MenuAction::Quit)
    } else if id == MENU_REFRESH@ {
        Some(MenuAction::Refresh)
    } else if preset_for_menu_id(id) is Some {
        Some(MenuAction::Position(preset_for_menu_id(id)->0))
    } else if radar_source_for_menu_id(id) is Some {
        Some(MenuAction::SelectRadarSource(radar_source_for_menu_id(id)->0))
    } else if option_for_menu_id(id) is Some {
        Some(MenuAction::Toggle(option_for_menu_id(id)->0))
    } else if MENU_OPACITY_PREFIX@.len() <= id.len() && id.take(MENU_OPACITY_PREFIX@.len() as int)
        == MENU_OPACITY_PREFIX@ {
        None
    } else {
        Some(MenuAction::Ignore)
    }
}

/// Routes a tray menu entry to its action, in the order quit, refresh, quick
/// position, radar source, option toggle, opacity.
pub fn menu_action(id: &str) -> (r: MenuAction)
    ensures
        menu_action_for(id@) matches Some(a) ==> r == a,
        menu_action_for(id@) is None ==> (r matches MenuAction::Opacity(rest) && rest@ == id@.skip(
            MENU_OPACITY_PREFIX@.len() as int,
        )),
{
    if text_eq(id, MENU_QUIT) {
        return MenuAction::Quit;
    }
    if text_eq(id, MENU_REFRESH) {
        return MenuAction::Refresh;
    }
    if let Some(preset) = MainWindowPositionPreset::from_menu_id(id) {
        return MenuAction::Position(preset);
    }
    if let Some(source) = radar_source_from_menu_id(id) {
        return MenuAction::SelectRadarSource(source);
    }
    if let Some(option) = DesktopOption::from_menu_id(id) {
        return MenuAction::Toggle(option);
    }
    match strip_prefix(id, MENU_OPACITY_PREFIX) {
        Some(rest) => MenuAction::Opacity(rest),
        None => MenuAction::Ignore,
    }
}

/// The menu identifier of an opacity entry.
pub fn opacity_menu_id(opacity: u8) -> (id: String)
    ensures
        id@ == MENU_OPACITY_PREFIX@ + decimal(opacity as nat),
{
    let mut id = owned(MENU_OPACITY_PREFIX);
    push_decimal(&mut id, opacity as u64);
    id
}

// ---------------------------------------------------------------------------
// Companion projection
// ---------------------------------------------------------------------------
/// What the web view last reported about the leader, for the tray title.
#[derive(Debug, Clone, Default, PartialEq, Eq)]
pub struct CompanionProjection {
    pub model_name: String,
    pub reasoning_effort: String,
    pub score_text: String,
    pub tie_count: u64,
    pub status_label: String,
}

/// The untruncated tray title: model, score and the number of tied models.
pub open spec fn title_source(p: CompanionProjection) -> Seq<char> {
    let model = if p.model_name@.len() == 0 {
        "Model Radar"@
    } else {
        p.model_name@
    };
    let score = if p.score_text@.len() == 0 {
        "--"@
    } else {
        p.score_text@
    };
    let joined = model + seq![' ', '|', ' '] + score;
    if p.tie_count > 0 {
        joined + seq![' ', '|', ' ', '+'] + decimal(p.tie_count as nat)
    } else {
        joined
    }
}

/// The untruncated tray title begins with the model name (or `Model Radar`),
/// a `" | "` separator and the score text (or `--`); a tie count, when there is
/// one, follows as `" | +"` and its decimal digits, and nothing else is added.
pub proof fn lemma_title_names_model_then_score(p: CompanionProjection)
    ensures
        ({
            let model = if p.model_name@.len() == 0 {
                "Model Radar"@
            } else {
                p.model_name@
            };
            let score = if p.score_text@.len() == 0 {
                "--"@
            } else {
                p.score_text@
            };
            let head = model + " | "@ + score;
            let text = title_source(p);
            &&& head.len() <= text.len()
            &&& text.subrange(0, head.len() as int) == head
            &&& p.tie_count == 0 ==> text == head
            &&& p.tie_count > 0 ==> text.subrange(head.len() as int, text.len() as int) == " | +"@
                + decimal(p.tie_count as nat)
        }),
{
    reveal_strlit(" | ");
    reveal_strlit(" | +");
    let model = if p.model_name@.len() == 0 {
        "Model Radar"@
    } else {
        p.model_name@
    };
    let score = if p.score_text@.len() == 0 {
        "--"@
    } else {
        p.score_text@
    };
    let head = model + " | "@ + score;
    let text = title_source(p);
    assert(model + seq![' ', '|', ' '] + score =~= head);
    if p.tie_count > 0 {
        assert(text.subrange(0, head.len() as int) =~= head);
        assert(text.subrange(head.len() as int, text.len() as int) =~= " | +"@ + decimal(
            p.tie_count as nat,
        ));
    } else {
        assert(text =~= head);
        assert(text.subrange(0, head.len() as int) =~= head);
    }
}

impl CompanionProjection {
    /// Every text on one line and short; at most 99 ties.
    pub fn normalized(self) -> (r: Self)
        ensures
            r.model_name@ == bounded_line(self.model_name@, 28),
            r.reasoning_effort@ == bounded_line(self.reasoning_effort@, 12),
            r.score_text@ == bounded_line(self.score_text@, 12),
            r.tie_count == if self.tie_count < 99 {
                self.tie_count
            } else {
                99
            },
            r.status_label@ == bounded_line(self.status_label@, 12),
    {
        CompanionProjection {
            model_name: bounded_single_line(self.model_name.as_str(), 28),
            reasoning_effort: bounded_single_line(self.reasoning_effort.as_str(), 12),
            score_text: bounded_single_line(self.score_text.as_str(), 12),
            tie_count: if self.tie_count < 99 {
                self.tie_count
            } else {
                99
            },
            status_label: bounded_single_line(self.status_label.as_str(), 12),
        }
    }

    /// The tray title: a single line of at most 64 characters.
    pub fn title(&self) -> (r: String)
        ensures
            r@ == bounded_line(title_source(*self), 64),
            r@.len() <= 64,
            forall|i: int| 0 <= i < r@.len() && is_white_space(#[trigger] r@[i]) ==> r@[i] == ' ',
    {
        let mut text = if self.model_name.as_str().is_empty() {
            owned("Model Radar")
        } else {
            owned(self.model_name.as_str())
        };
        push_text(&mut text, " | ");
        if self.score_text.as_str().is_empty() {
            push_text(&mut text, "--");
        } else {
            push_text(&mut text, self.score_text.as_str());
        }
        if self.tie_count > 0 {
            push_text(&mut text, " | +");
            push_decimal(&mut text, self.tie_count);
        }
        proof {
            reveal_strlit(" | ");
            reveal_strlit(" | +");
        }
        assert(text@ =~= title_source(*self));
        bounded_single_line(text.as_str(), 64)
    }
}

} // verus!
