use model_radar::geometry::{
    aligned_axis_positions, anchored_axis_start, anchored_resize_position,
    center_position_in_work_area, centered_axis_start, clamp_axis_to_work_area,
    clamp_position_to_work_area, intersects_any_work_area, preset_position,
    restored_main_window_position, window_work_area_intersection, PhysicalPosition, PhysicalSize,
};
use model_radar::position_state::{MainPositionSaveState, SavedMainWindowPosition};
use model_radar::preferences::MainWindowPositionPreset;

#[test]
fn quick_positions_use_work_area_edges_and_odd_centers() {
    let work_position = PhysicalPosition::new(-1920, 100);
    let work_size = PhysicalSize::new(1001, 801);
    let window_size = PhysicalSize::new(201, 101);

    assert_eq!(
        preset_position(MainWindowPositionPreset::TopLeft, work_position, work_size, window_size),
        Some(PhysicalPosition::new(-1920, 100))
    );
    assert_eq!(
        preset_position(MainWindowPositionPreset::TopRight, work_position, work_size, window_size),
        Some(PhysicalPosition::new(-1120, 100))
    );
    assert_eq!(
        preset_position(MainWindowPositionPreset::Center, work_position, work_size, window_size),
        Some(PhysicalPosition::new(-1520, 450))
    );
    assert_eq!(
        preset_position(
            MainWindowPositionPreset::BottomLeft,
            work_position,
            work_size,
            window_size
        ),
        Some(PhysicalPosition::new(-1920, 800))
    );
    assert_eq!(
        preset_position(
            MainWindowPositionPreset::BottomRight,
            work_position,
            work_size,
            window_size
        ),
        Some(PhysicalPosition::new(-1120, 800))
    );
}

#[test]
fn quick_positions_reject_invalid_or_oversized_windows() {
    let work_position = PhysicalPosition::new(20, 30);
    let work_size = PhysicalSize::new(800, 600);
    assert_eq!(
        preset_position(MainWindowPositionPreset::Center, work_position, work_size, work_size),
        Some(work_position)
    );
    assert_eq!(
        preset_position(
            MainWindowPositionPreset::TopLeft,
            work_position,
            work_size,
            PhysicalSize::new(801, 600),
        ),
        None
    );
    assert_eq!(
        preset_position(
            MainWindowPositionPreset::TopLeft,
            work_position,
            work_size,
            PhysicalSize::new(360, 0),
        ),
        None
    );
}

#[test]
fn aligned_axis_positions_name_start_centre_and_end() {
    assert_eq!(aligned_axis_positions(10, 101, 21), Some([10, 50, 90]));
    assert_eq!(aligned_axis_positions(10, 100, 101), None);
    assert_eq!(aligned_axis_positions(10, 100, 0), None);
}

#[test]
fn restore_clamps_partial_positions_and_centers_disconnected_displays() {
    let window_size = PhysicalSize::new(360, 112);
    let primary = (
        PhysicalPosition::new(0, 0),
        PhysicalSize::new(1920, 1040),
        window_size,
    );
    let secondary = (
        PhysicalPosition::new(-1280, 0),
        PhysicalSize::new(1280, 984),
        window_size,
    );
    let work_areas = [primary, secondary];

    assert_eq!(
        restored_main_window_position(PhysicalPosition::new(-1200, 100), &work_areas, primary),
        PhysicalPosition::new(-1200, 100)
    );
    assert_eq!(
        restored_main_window_position(PhysicalPosition::new(1800, 100), &work_areas, primary),
        PhysicalPosition::new(1560, 100)
    );
    assert_eq!(
        restored_main_window_position(PhysicalPosition::new(3000, 1500), &work_areas, primary),
        PhysicalPosition::new(780, 464)
    );

    let oversized_window = PhysicalSize::new(2200, 1200);
    let oversized_primary = (primary.0, primary.1, oversized_window);
    let oversized_work_areas = [
        oversized_primary,
        (secondary.0, secondary.1, oversized_window),
    ];
    assert_eq!(
        restored_main_window_position(
            PhysicalPosition::new(3000, 1500),
            &oversized_work_areas,
            oversized_primary,
        ),
        PhysicalPosition::new(0, 0)
    );
}

#[test]
fn restore_uses_each_monitors_scaled_compact_size_when_clamping() {
    let primary = (
        PhysicalPosition::new(0, 0),
        PhysicalSize::new(1920, 1040),
        PhysicalSize::new(360, 112),
    );
    let scaled_secondary = (
        PhysicalPosition::new(1920, 0),
        PhysicalSize::new(2000, 1000),
        PhysicalSize::new(540, 168),
    );

    assert_eq!(
        restored_main_window_position(
            PhysicalPosition::new(3560, 900),
            &[primary, scaled_secondary],
            primary,
        ),
        PhysicalPosition::new(3380, 832)
    );
}

#[test]
fn off_screen_seed_is_centered_when_no_work_area_intersects() {
    let off_screen = PhysicalPosition::new(3300, 1920);
    let primary = (
        PhysicalPosition::new(0, 0),
        PhysicalSize::new(2560u32, 1392u32),
        PhysicalSize::new(360u32, 112u32),
    );
    let secondary = (
        PhysicalPosition::new(2560, 0),
        PhysicalSize::new(2560u32, 1392u32),
        PhysicalSize::new(360u32, 112u32),
    );
    let restored = restored_main_window_position(
        off_screen,
        &[primary, secondary],
        (primary.0, primary.1, primary.2),
    );
    assert_eq!(
        restored,
        PhysicalPosition::new((2560 - 360) / 2, (1392 - 112) / 2)
    );
    assert!(
        window_work_area_intersection(restored, primary.2, (primary.0, primary.1)) > 0,
        "recovered position must intersect the primary work area"
    );
}

#[test]
fn partially_visible_multi_monitor_seed_is_clamped_not_recentered() {
    let seed = PhysicalPosition::new(2400, 800);
    let primary = (
        PhysicalPosition::new(0, 0),
        PhysicalSize::new(2560u32, 1392u32),
        PhysicalSize::new(360u32, 112u32),
    );
    let secondary = (
        PhysicalPosition::new(2560, 0),
        PhysicalSize::new(2560u32, 1392u32),
        PhysicalSize::new(360u32, 112u32),
    );
    let restored = restored_main_window_position(
        seed,
        &[primary, secondary],
        (primary.0, primary.1, primary.2),
    );
    assert_eq!(restored.x, 2560);
    assert_eq!(restored.y, 800);
    assert!(window_work_area_intersection(restored, secondary.2, (secondary.0, secondary.1)) > 0);
}

#[test]
fn work_area_overlap_is_the_shared_rectangle() {
    let area = (PhysicalPosition::new(0, 0), PhysicalSize::new(100, 50));
    assert_eq!(
        window_work_area_intersection(PhysicalPosition::new(90, 40), PhysicalSize::new(20, 20), area),
        100
    );
    assert_eq!(
        window_work_area_intersection(PhysicalPosition::new(100, 0), PhysicalSize::new(20, 20), area),
        0
    );
    assert!(intersects_any_work_area(
        PhysicalPosition::new(-10, -10),
        PhysicalSize::new(20, 20),
        &[area]
    ));
    assert!(!intersects_any_work_area(
        PhysicalPosition::new(-30, -10),
        PhysicalSize::new(20, 20),
        &[area]
    ));
    assert!(!intersects_any_work_area(
        PhysicalPosition::new(0, 0),
        PhysicalSize::new(20, 20),
        &[]
    ));
}

#[test]
fn clamping_and_centring_stay_inside_the_work_area() {
    assert_eq!(clamp_axis_to_work_area(-50, 100, 0, 1000), 0);
    assert_eq!(clamp_axis_to_work_area(950, 100, 0, 1000), 900);
    assert_eq!(clamp_axis_to_work_area(300, 100, 0, 1000), 300);
    assert_eq!(clamp_axis_to_work_area(300, 2000, 10, 1000), 10);
    assert_eq!(
        clamp_position_to_work_area(
            PhysicalPosition::new(-5, 990),
            PhysicalSize::new(100, 20),
            (PhysicalPosition::new(0, 0), PhysicalSize::new(1000, 1000)),
        ),
        PhysicalPosition::new(0, 980)
    );
    assert_eq!(centered_axis_start(101, -100, 1000), 349);
    assert_eq!(
        center_position_in_work_area(
            PhysicalSize::new(200, 100),
            (PhysicalPosition::new(0, 0), PhysicalSize::new(1000, 801)),
        ),
        PhysicalPosition::new(400, 350)
    );
}

#[test]
fn right_bottom_anchor_round_trips_at_150_percent_scale() {
    let work_position = PhysicalPosition::new(0, 0);
    let work_size = PhysicalSize::new(3840, 2088);
    let compact_size = PhysicalSize::new(540, 168);
    let expanded_size = PhysicalSize::new(600, 780);
    let compact_position = PhysicalPosition::new(3300, 1920);

    let expanded_position = anchored_resize_position(
        compact_position,
        compact_size,
        expanded_size,
        work_position,
        work_size,
    );
    assert_eq!(expanded_position, PhysicalPosition::new(3240, 1308));

    let restored_position = anchored_resize_position(
        expanded_position,
        expanded_size,
        compact_size,
        work_position,
        work_size,
    );
    assert_eq!(restored_position, compact_position);
}

#[test]
fn interior_anchor_round_trips_without_switching_to_another_edge() {
    let work_position = PhysicalPosition::new(-100, 50);
    let work_size = PhysicalSize::new(1000, 800);
    let compact_size = PhysicalSize::new(200, 100);
    let expanded_size = PhysicalSize::new(600, 500);
    let compact_position = PhysicalPosition::new(250, 325);

    let expanded_position = anchored_resize_position(
        compact_position,
        compact_size,
        expanded_size,
        work_position,
        work_size,
    );
    assert_eq!(expanded_position, PhysicalPosition::new(75, 168));

    let restored_position = anchored_resize_position(
        expanded_position,
        expanded_size,
        compact_size,
        work_position,
        work_size,
    );
    assert_eq!(restored_position, compact_position);
}

#[test]
fn anchored_resize_clamps_windows_back_into_the_work_area() {
    let position = anchored_resize_position(
        PhysicalPosition::new(850, 650),
        PhysicalSize::new(360, 112),
        PhysicalSize::new(400, 520),
        PhysicalPosition::new(100, 50),
        PhysicalSize::new(800, 600),
    );

    assert_eq!(position, PhysicalPosition::new(500, 130));
}

#[test]
fn anchored_axis_keeps_the_start_and_end_edges() {
    assert_eq!(anchored_axis_start(0, 100, 300, 0, 1000), 0);
    assert_eq!(anchored_axis_start(900, 100, 300, 0, 1000), 700);
    assert_eq!(anchored_axis_start(5, 100, 100, 5, 100), 5);
}

#[test]
fn position_save_state_starts_only_one_ready_writer() {
    let mut state = MainPositionSaveState::new(None);
    assert!(!state.mark_dirty());
    assert_eq!(state.revision, 0);

    state.ready = true;
    assert!(state.mark_dirty());
    assert!(!state.mark_dirty());
    assert_eq!(state.revision, 2);
    state.writer_active = false;
    state.persisted_revision = state.revision;
    assert!(state.mark_dirty());
    assert_eq!(state.revision, 3);
}

#[test]
fn position_writer_error_retries_only_when_a_new_revision_arrived() {
    let mut state = MainPositionSaveState::new(None);
    state.ready = true;
    assert!(state.mark_dirty());
    let attempted_revision = state.revision;

    assert!(!state.finish_writer_after_error(attempted_revision));
    assert!(!state.writer_active);

    assert!(state.mark_dirty());
    let attempted_revision = state.revision;
    assert!(!state.mark_dirty());
    assert!(state.finish_writer_after_error(attempted_revision));
    assert!(state.writer_active);
}

#[test]
fn debounced_save_writes_only_the_latest_revision() {
    let mut state = MainPositionSaveState::new(None);
    state.set_ready();
    assert!(state.mark_dirty());
    let pending = state.pending_revision();
    assert_eq!(pending, Some(1));
    assert!(state.is_current(1));
    let explicit = state.invalidate_capture();
    assert_eq!(explicit, 2);
    assert!(!state.is_current(1));
    let saved = SavedMainWindowPosition { x: -1440, y: 72 };
    state.record_saved(explicit, saved);
    assert_eq!(state.last_saved, Some(saved));
    assert_eq!(state.pending_revision(), None);
    assert!(!state.writer_active);

    assert!(state.mark_dirty());
    state.finish_debounced_save(3, SavedMainWindowPosition { x: 1, y: 2 });
    assert_eq!(state.persisted_revision, 3);
    assert!(!state.writer_active);
    assert_eq!(state.last_saved, Some(SavedMainWindowPosition { x: 1, y: 2 }));
}

#[test]
fn saved_positions_convert_to_and_from_window_positions() {
    let saved = SavedMainWindowPosition::from(PhysicalPosition::new(-1440, 72));
    assert_eq!(saved, SavedMainWindowPosition { x: -1440, y: 72 });
    assert_eq!(PhysicalPosition::from(saved), PhysicalPosition::new(-1440, 72));
}
