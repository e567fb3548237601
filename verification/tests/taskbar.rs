use model_radar::taskbar::{
    claim_taskbar_monitor, clear_taskbar_hit_rect, report_monitor_failure, geometry_matches_current_window, taskbar_hit_rect_contains,
    update_taskbar_hit_rect, win11_geometry, EmbedGeometry, WinRect,
};

const TASKBAR_GAP_LOGICAL: f64 = 2.0;

/// The pixel sizes of a widget of `logical_size` at `scale`, as the desktop shell
/// computes them before placing the companion.
fn win11_geometry_scaled(
    taskbar: WinRect,
    notification: WinRect,
    task_band: WinRect,
    start: WinRect,
    blockers: &[WinRect],
    logical_size: (f64, f64),
    scale: f64,
) -> Option<EmbedGeometry> {
    if !scale.is_finite() || scale <= 0.0 {
        return None;
    }
    let width = (logical_size.0 * scale).round();
    let height = (logical_size.1 * scale).round();
    let gap = (TASKBAR_GAP_LOGICAL * scale).round();
    win11_geometry(
        taskbar,
        notification,
        task_band,
        start,
        blockers,
        width as i64,
        height as i64,
        gap as i64,
    )
}

fn rect(left: i32, top: i32, right: i32, bottom: i32) -> WinRect {
    WinRect {
        left,
        top,
        right,
        bottom,
    }
}

#[test]
fn unchanged_child_geometry_is_detected_in_screen_coordinates() {
    let taskbar = WinRect {
        left: -1920,
        top: 1000,
        right: 0,
        bottom: 1048,
    };
    let geometry = EmbedGeometry {
        x: 1488,
        y: 9,
        width: 168,
        height: 30,
    };
    assert!(geometry_matches_current_window(
        WinRect {
            left: -432,
            top: 1009,
            right: -264,
            bottom: 1039,
        },
        taskbar,
        geometry,
    ));
    assert!(!geometry_matches_current_window(
        WinRect {
            left: -433,
            top: 1009,
            right: -265,
            bottom: 1039,
        },
        taskbar,
        geometry,
    ));
}

#[test]
fn win11_geometry_scales_at_supported_display_factors() {
    for scale in [1.0_f64, 1.25, 1.5, 2.0] {
        let taskbar_height = (48.0 * scale).round() as i32;
        let taskbar = WinRect {
            left: 0,
            top: 1000,
            right: (1920.0 * scale).round() as i32,
            bottom: 1000 + taskbar_height,
        };
        let notification = WinRect {
            left: (1700.0 * scale).round() as i32,
            top: taskbar.top,
            right: taskbar.right,
            bottom: taskbar.bottom,
        };
        let task_band = WinRect {
            left: (700.0 * scale).round() as i32,
            top: taskbar.top,
            right: (1200.0 * scale).round() as i32,
            bottom: taskbar.bottom,
        };
        let start = WinRect {
            left: (900.0 * scale) as i32,
            top: taskbar.top,
            right: (948.0 * scale) as i32,
            bottom: taskbar.bottom,
        };

        let result = win11_geometry_scaled(
            taskbar,
            notification,
            task_band,
            start,
            &[],
            (168.0, 30.0),
            scale,
        )
        .expect("geometry");

        assert_eq!(result.width, (168.0 * scale).round() as i32);
        assert_eq!(result.height, (30.0 * scale).round() as i32);
        assert_eq!(
            result.x,
            notification.left - (2.0 * scale).round() as i32 - result.width - taskbar.left
        );
        assert!(result.x >= task_band.right - taskbar.left);
        assert!(result.x + result.width < notification.left - taskbar.left);
        assert!(result.y >= 0);
        assert!(result.y + result.height <= taskbar.height());
    }
}

#[test]
fn geometry_preserves_the_requested_size_without_margin_shrink() {
    let geometry = win11_geometry_scaled(
        rect(0, 1000, 1920, 1040),
        rect(1700, 1000, 1920, 1040),
        rect(700, 1000, 1000, 1040),
        rect(900, 1000, 940, 1040),
        &[],
        (280.0, 30.0),
        1.0,
    );

    assert_eq!(
        geometry,
        Some(EmbedGeometry {
            x: 1418,
            y: 5,
            width: 280,
            height: 30,
        })
    );
}

#[test]
fn geometry_avoids_the_observed_traffic_monitor_window() {
    let geometry = win11_geometry_scaled(
        rect(0, 1392, 2560, 1440),
        rect(2186, 1392, 2560, 1440),
        rect(815, 1392, 1260, 1440),
        rect(815, 1392, 860, 1440),
        &[rect(2095, 1400, 2188, 1432)],
        (168.0, 30.0),
        1.0,
    );

    assert_eq!(
        geometry,
        Some(EmbedGeometry {
            x: 1925,
            y: 9,
            width: 168,
            height: 30,
        })
    );
}

#[test]
fn runtime_blocker_moves_an_existing_companion_left_with_a_gap() {
    let taskbar = rect(0, 1392, 2560, 1440);
    let notification = rect(2186, 1392, 2560, 1440);
    let task_band = rect(815, 1392, 1260, 1440);
    let start = rect(815, 1392, 860, 1440);
    let traffic_monitor = rect(2095, 1400, 2188, 1432);

    let before = win11_geometry_scaled(
        taskbar,
        notification,
        task_band,
        start,
        &[],
        (168.0, 30.0),
        1.0,
    )
    .expect("initial geometry");
    let after = win11_geometry_scaled(
        taskbar,
        notification,
        task_band,
        start,
        &[traffic_monitor],
        (168.0, 30.0),
        1.0,
    )
    .expect("runtime blocker geometry");

    assert!(after.x < before.x);
    assert_eq!(after.x + after.width, traffic_monitor.left - 2);
}

#[test]
fn geometry_merges_unordered_blockers_and_uses_a_farther_left_slot() {
    let geometry = win11_geometry_scaled(
        rect(0, 1000, 1000, 1040),
        rect(900, 1000, 1000, 1040),
        rect(0, 1000, 300, 1040),
        rect(400, 1000, 440, 1040),
        &[
            rect(780, 1000, 850, 1040),
            rect(650, 1000, 720, 1040),
            rect(760, 1000, 810, 1040),
        ],
        (100.0, 30.0),
        1.0,
    );

    assert_eq!(geometry.expect("geometry").x, 548);
}

#[test]
fn geometry_ignores_blockers_outside_the_target_vertical_band() {
    let geometry = win11_geometry_scaled(
        rect(0, 1000, 1000, 1040),
        rect(900, 1000, 1000, 1040),
        rect(0, 1000, 300, 1040),
        rect(400, 1000, 440, 1040),
        &[rect(700, 950, 900, 1005)],
        (100.0, 30.0),
        1.0,
    );

    assert_eq!(geometry.expect("geometry").x, 798);
}

#[test]
fn geometry_returns_none_when_blockers_consume_the_safe_band() {
    let geometry = win11_geometry_scaled(
        rect(0, 1000, 1000, 1040),
        rect(900, 1000, 1000, 1040),
        rect(0, 1000, 300, 1040),
        rect(400, 1000, 440, 1040),
        &[rect(300, 1000, 900, 1040)],
        (100.0, 30.0),
        1.0,
    );

    assert_eq!(geometry, None);
}

#[test]
fn geometry_handles_a_negative_taskbar_origin() {
    let geometry = win11_geometry_scaled(
        rect(-1920, 1000, 0, 1048),
        rect(-220, 1000, 0, 1048),
        rect(-1100, 1000, -700, 1048),
        rect(-1000, 1000, -952, 1048),
        &[],
        (210.0, 30.0),
        1.0,
    );

    assert_eq!(
        geometry,
        Some(EmbedGeometry {
            x: 1488,
            y: 9,
            width: 210,
            height: 30,
        })
    );
}

#[test]
fn geometry_rejects_a_widget_taller_than_the_taskbar() {
    let geometry = win11_geometry_scaled(
        rect(0, 1000, 1920, 1040),
        rect(1700, 1000, 1920, 1040),
        rect(700, 1000, 1000, 1040),
        rect(900, 1000, 940, 1040),
        &[],
        (280.0, 41.0),
        1.0,
    );

    assert_eq!(geometry, None);
}

#[test]
fn geometry_rejects_vertical_or_detached_taskbars_and_bad_sizes() {
    let taskbar = rect(0, 1000, 1000, 1040);
    let notification = rect(900, 1000, 1000, 1040);
    let task_band = rect(0, 1000, 300, 1040);
    let start = rect(400, 1000, 440, 1040);
    assert_eq!(
        win11_geometry(rect(0, 0, 48, 1000), notification, task_band, start, &[], 10, 10, 2),
        None
    );
    assert_eq!(
        win11_geometry(taskbar, rect(2000, 0, 2100, 40), task_band, start, &[], 100, 30, 2),
        None
    );
    assert_eq!(
        win11_geometry(taskbar, notification, rect(0, 0, 300, 40), start, &[], 100, 30, 2),
        None
    );
    assert_eq!(win11_geometry(taskbar, notification, task_band, start, &[], 0, 30, 2), None);
    assert_eq!(win11_geometry(taskbar, notification, task_band, start, &[], 100, 30, 0), None);
    assert_eq!(
        win11_geometry(taskbar, notification, task_band, start, &[], 1001, 30, 2),
        None
    );
    assert_eq!(
        win11_geometry(taskbar, notification, task_band, start, &[], 100, 30, 2),
        Some(EmbedGeometry {
            x: 798,
            y: 5,
            width: 100,
            height: 30,
        })
    );
}

#[test]
fn geometry_centres_on_the_start_button_row() {
    let geometry = win11_geometry(
        rect(0, 1000, 1000, 1048),
        rect(900, 1000, 1000, 1048),
        rect(0, 1000, 300, 1048),
        rect(400, 1004, 440, 1044),
        &[],
        100,
        20,
        2,
    )
    .expect("geometry");
    assert_eq!(geometry.y, 14);
    assert_eq!(win11_scaled_none_for_bad_scale(), None);
}

fn win11_scaled_none_for_bad_scale() -> Option<EmbedGeometry> {
    win11_geometry_scaled(
        rect(0, 1000, 1000, 1040),
        rect(900, 1000, 1000, 1040),
        rect(0, 1000, 300, 1040),
        rect(400, 1000, 440, 1040),
        &[],
        (100.0, 30.0),
        f64::NAN,
    )
}

#[test]
fn hit_rect_is_replaced_and_cleared() {
    let mut slot = None;
    assert!(!taskbar_hit_rect_contains(&slot, 5, 5));
    update_taskbar_hit_rect(&mut slot, Some(rect(0, 0, 10, 10)));
    assert!(taskbar_hit_rect_contains(&slot, 5, 5));
    assert!(taskbar_hit_rect_contains(&slot, 0, 0));
    assert!(!taskbar_hit_rect_contains(&slot, 10, 5));
    clear_taskbar_hit_rect(&mut slot);
    assert_eq!(slot, None);
    assert!(!taskbar_hit_rect_contains(&slot, 5, 5));
}

#[test]
fn rectangles_measure_and_intersect() {
    let a = rect(0, 0, 10, 20);
    assert_eq!(a.width(), 10);
    assert_eq!(a.height(), 20);
    assert!(a.intersects(rect(9, 19, 30, 30)));
    assert!(!a.intersects(rect(10, 0, 30, 30)));
    assert_eq!(rect(i32::MIN, 0, i32::MAX, 1).width(), i32::MAX);
}

#[test]
fn taskbar_monitor_can_only_be_claimed_once() {
    let started = std::sync::atomic::AtomicBool::new(false);
    assert!(claim_taskbar_monitor(&started));
    assert!(!claim_taskbar_monitor(&started));
}

#[test]
fn monitor_failures_are_reported_once_per_run() {
    let mut reported = false;
    assert!(!report_monitor_failure(&mut reported, false));
    assert!(report_monitor_failure(&mut reported, true));
    assert!(reported);
    assert!(!report_monitor_failure(&mut reported, true));
    assert!(!report_monitor_failure(&mut reported, false));
    assert!(!reported);
    assert!(report_monitor_failure(&mut reported, true));
}

#[test]
fn more_blockers_never_move_the_companion_right() {
    let taskbar = rect(0, 1000, 1000, 1040);
    let notification = rect(900, 1000, 1000, 1040);
    let task_band = rect(0, 1000, 300, 1040);
    let start = rect(400, 1000, 440, 1040);
    let first = rect(780, 1000, 850, 1040);
    let second = rect(650, 1000, 720, 1040);
    let none = win11_geometry(taskbar, notification, task_band, start, &[], 100, 30, 2).unwrap();
    let one = win11_geometry(taskbar, notification, task_band, start, &[first], 100, 30, 2).unwrap();
    let two =
        win11_geometry(taskbar, notification, task_band, start, &[second, first], 100, 30, 2)
            .unwrap();
    assert!(one.x <= none.x && two.x <= one.x);
    assert_eq!((one.y, one.width, one.height), (none.y, none.width, none.height));
    assert_eq!((two.y, two.width, two.height), (none.y, none.width, none.height));
    assert_eq!(one.x, 678);
    assert_eq!(two.x, 548);
}
