//! Placement of the main window in physical pixels: quick positions, keeping a
//! window inside a monitor's work area, restoring a saved position, and keeping
//! the anchored edge when the window is resized.
use vstd::prelude::*;
use crate::preferences::MainWindowPositionPreset;

verus! {

/// A position in physical pixels.
#[derive(Debug, Clone, Copy, PartialEq, Eq, Structural)]
pub struct PhysicalPosition {
    pub x: i32,
    pub y: i32,
}

/// A size in physical pixels.
#[derive(Debug, Clone, Copy, PartialEq, Eq, Structural)]
pub struct PhysicalSize {
    pub width: u32,
    pub height: u32,
}

impl PhysicalPosition {
    pub fn new(x: i32, y: i32) -> (r: Self)
        ensures
            r == (PhysicalPosition { x, y }),
    {
        PhysicalPosition { x, y }
    }
}

impl PhysicalSize {
    pub fn new(width: u32, height: u32) -> (r: Self)
        ensures
            r == (PhysicalSize { width, height }),
    {
        PhysicalSize { width, height }
    }
}

/// `v` limited to `[lo, hi]` (for `lo <= hi`).
pub open spec fn clamp_int(v: int, lo: int, hi: int) -> int {
    if v < lo {
        lo
    } else if v > hi {
        hi
    } else {
        v
    }
}

/// `v` limited to the range of `i32`.
pub open spec fn to_i32_range(v: int) -> int {
    clamp_int(v, i32::MIN as int, i32::MAX as int)
}

/// How far a window of `window_length` can move inside `work_length`.
pub open spec fn travel(work_length: u32, window_length: u32) -> int {
    if work_length >= window_length {
        work_length - window_length
    } else {
        0
    }
}

fn clamp_i64(v: i64, lo: i64, hi: i64) -> (r: i64)
    requires
        lo <= hi,
    ensures
        r == clamp_int(v as int, lo as int, hi as int),
{
    if v < lo {
        lo
    } else if v > hi {
        hi
    } else {
        v
    }
}

fn i64_to_i32_saturating(v: i64) -> (r: i32)
    ensures
        r == to_i32_range(v as int),
{
    clamp_i64(v, i32::MIN as i64, i32::MAX as i64) as i32
}

// ---------------------------------------------------------------------------
// Quick positions
// ---------------------------------------------------------------------------
/// The start, centre and end positions of a window along one axis of a work
/// area, or `None` when the window is empty, larger than the area, or a position
/// leaves the range of `i32`.
pub open spec fn aligned_axis(work_start: i32, work_length: u32, window_length: u32) -> Option<
    (int, int, int),
> {
    if work_length == 0 || window_length == 0 || window_length > work_length {
        None
    } else {
        let t = work_length - window_length;
        let center = work_start + t / 2;
        let end = work_start + t;
        if center > i32::MAX || end > i32::MAX {
            None
        } else {
            Some((work_start as int, center, end))
        }
    }
}

/// The start, centre and end positions of a window along one axis.
pub fn aligned_axis_positions(work_start: i32, work_length: u32, window_length: u32) -> (r: Option<
    [i32; 3],
>)
    ensures
        match aligned_axis(work_start, work_length, window_length) {
            Some((a, b, c)) => r matches Some(v) && v@ == seq![a as i32, b as i32, c as i32],
            None => r is None,
        },
        r matches Some(v) ==> work_start <= v@[0] <= v@[1] <= v@[2] && v@[2] + window_length
            == work_start + work_length,
{
    if work_length == 0 || window_length == 0 || window_length > work_length {
        return None;
    }
    let start = work_start as i64;
    let t = (work_length - window_length) as i64;
    let center = start + t / 2;
    let end = start + t;
    if center > i32::MAX as i64 || end > i32::MAX as i64 {
        return None;
    }
    let r = [work_start, center as i32, end as i32];
    assert(r@ =~= seq![work_start, center as i32, end as i32]);
    Some(r)
}

/// Where a quick position places a window in a work area.
pub open spec fn preset_target(
    preset: MainWindowPositionPreset,
    work_position: PhysicalPosition,
    work_size: PhysicalSize,
    window_size: PhysicalSize,
) -> Option<PhysicalPosition> {
    match (
        aligned_axis(work_position.x, work_size.width, window_size.width),
        aligned_axis(work_position.y, work_size.height, window_size.height),
    ) {
        (Some((left, center_x, right)), Some((top, center_y, bottom))) => Some(
            match preset {
                MainWindowPositionPreset::TopLeft => PhysicalPosition {
                    x: left as i32,
                    y: top as i32,
                },
                MainWindowPositionPreset::TopRight => PhysicalPosition {
                    x: right as i32,
                    y: top as i32,
                },
                MainWindowPositionPreset::Center => PhysicalPosition {
                    x: center_x as i32,
                    y: center_y as i32,
                },
                MainWindowPositionPreset::BottomLeft => PhysicalPosition {
                    x: left as i32,
                    y: bottom as i32,
                },
                MainWindowPositionPreset::BottomRight => PhysicalPosition {
                    x: right as i32,
                    y: bottom as i32,
                },
            },
        ),
        _ => None,
    }
}

/// Where a quick position places a window: at the work area's edges or centre
/// (rounding the centre down), or `None` when the window does not fit.
pub fn preset_position(
    preset: MainWindowPositionPreset,
    work_position: PhysicalPosition,
    work_size: PhysicalSize,
    window_size: PhysicalSize,
) -> (r: Option<PhysicalPosition>)
    ensures
        r == preset_target(preset, work_position, work_size, window_size),
        r matches Some(p) ==> work_position.x <= p.x && p.x + window_size.width <= work_position.x
            + work_size.width && work_position.y <= p.y && p.y + window_size.height
            <= work_position.y + work_size.height,
{
    let xs = match aligned_axis_positions(work_position.x, work_size.width, window_size.width) {
        Some(v) => v,
        None => return None,
    };
    let ys = match aligned_axis_positions(work_position.y, work_size.height, window_size.height) {
        Some(v) => v,
        None => return None,
    };
    let (left, center_x, right) = (xs[0], xs[1], xs[2]);
    let (top, center_y, bottom) = (ys[0], ys[1], ys[2]);
    Some(
        match preset {
            MainWindowPositionPreset::TopLeft => PhysicalPosition::new(left, top),
            MainWindowPositionPreset::TopRight => PhysicalPosition::new(right, top),
            MainWindowPositionPreset::Center => PhysicalPosition::new(center_x, center_y),
            MainWindowPositionPreset::BottomLeft => PhysicalPosition::new(left, bottom),
            MainWindowPositionPreset::BottomRight => PhysicalPosition::new(right, bottom),
        },
    )
}

// ---------------------------------------------------------------------------
// Work areas
// ---------------------------------------------------------------------------
/// The overlap, in square pixels, of a window and a work area (capped at
/// `i64::MAX`; zero when they do not overlap).
pub open spec fn overlap_area(
    position: PhysicalPosition,
    size: PhysicalSize,
    work_position: PhysicalPosition,
    work_size: PhysicalSize,
) -> int {
    let wl = position.x as int;
    let wt = position.y as int;
    let wr = wl + size.width;
    let wb = wt + size.height;
    let al = work_position.x as int;
    let at = work_position.y as int;
    let ar = al + work_size.width;
    let ab = at + work_size.height;
    let width = (if wr < ar {
        wr
    } else {
        ar
    }) - (if wl > al {
        wl
    } else {
        al
    });
    let height = (if wb < ab {
        wb
    } else {
        ab
    }) - (if wt > at {
        wt
    } else {
        at
    });
    if width <= 0 || height <= 0 {
        0
    } else if width * height > i64::MAX {
        i64::MAX as int
    } else {
        width * height
    }
}

/// The overlap, in square pixels, of a window and a work area.
pub fn window_work_area_intersection(
    position: PhysicalPosition,
    size: PhysicalSize,
    work_area: (PhysicalPosition, PhysicalSize),
) -> (r: u64)
    ensures
        r == overlap_area(position, size, work_area.0, work_area.1),
{
    let window_left = position.x as i64;
    let window_top = position.y as i64;
    let window_right = window_left + size.width as i64;
    let window_bottom = window_top + size.height as i64;
    let work_left = work_area.0.x as i64;
    let work_top = work_area.0.y as i64;
    let work_right = work_left + work_area.1.width as i64;
    let work_bottom = work_top + work_area.1.height as i64;
    let right = if window_right < work_right {
        window_right
    } else {
        work_right
    };
    let left = if window_left > work_left {
        window_left
    } else {
        work_left
    };
    let bottom = if window_bottom < work_bottom {
        window_bottom
    } else {
        work_bottom
    };
    let top = if window_top > work_top {
        window_top
    } else {
        work_top
    };
    let width = right - left;
    let height = bottom - top;
    if width <= 0 || height <= 0 {
        return 0;
    }
    assert(width <= u32::MAX && height <= u32::MAX);
    let w = width as u128;
    let h = height as u128;
    assert(w * h <= u32::MAX as int * u32::MAX as int) by (nonlinear_arith)
        requires
            w <= u32::MAX,
            h <= u32::MAX,
    ;
    let product = w * h;
    if product > i64::MAX as u128 {
        i64::MAX as u64
    } else {
        product as u64
    }
}

/// Whether a window overlaps any of the work areas.
pub fn intersects_any_work_area(
    position: PhysicalPosition,
    size: PhysicalSize,
    work_areas: &[(PhysicalPosition, PhysicalSize)],
) -> (r: bool)
    ensures
        r == exists|i: int|
            0 <= i < work_areas@.len() && overlap_area(
                position,
                size,
                #[trigger] work_areas@[i].0,
                work_areas@[i].1,
            ) > 0,
{
    let mut i: usize = 0;
    while i < work_areas.len()
        invariant
            i <= work_areas@.len(),
            forall|k: int|
                0 <= k < i ==> overlap_area(
                    position,
                    size,
                    #[trigger] work_areas@[k].0,
                    work_areas@[k].1,
                ) == 0,
        decreases work_areas.len() - i,
    {
        if window_work_area_intersection(position, size, work_areas[i]) > 0 {
            return true;
        }
        i = i + 1;
    }
    false
}

/// Where a window edge lands when the window is moved into a work area along one
/// axis: as close as possible to where it was.
pub open spec fn clamp_axis(
    current_start: i32,
    window_length: u32,
    work_start: i32,
    work_length: u32,
) -> int {
    to_i32_range(
        work_start + clamp_int(current_start - work_start, 0, travel(work_length, window_length)),
    )
}

/// Moves a window edge into a work area along one axis.
pub fn clamp_axis_to_work_area(
    current_start: i32,
    window_length: u32,
    work_start: i32,
    work_length: u32,
) -> (r: i32)
    ensures
        r == clamp_axis(current_start, window_length, work_start, work_length),
{
    let start = work_start as i64;
    let t: i64 = if work_length >= window_length {
        (work_length - window_length) as i64
    } else {
        0
    };
    let offset = clamp_i64(current_start as i64 - start, 0, t);
    i64_to_i32_saturating(start + offset)
}

/// Moves a window into a work area, as little as possible.
pub fn clamp_position_to_work_area(
    position: PhysicalPosition,
    window_size: PhysicalSize,
    work_area: (PhysicalPosition, PhysicalSize),
) -> (r: PhysicalPosition)
    ensures
        r.x == clamp_axis(position.x, window_size.width, work_area.0.x, work_area.1.width),
        r.y == clamp_axis(position.y, window_size.height, work_area.0.y, work_area.1.height),
{
    PhysicalPosition::new(
        clamp_axis_to_work_area(position.x, window_size.width, work_area.0.x, work_area.1.width),
        clamp_axis_to_work_area(position.y, window_size.height, work_area.0.y, work_area.1.height),
    )
}

/// The start of a window centred in a work area along one axis (rounding down).
pub open spec fn centered_axis(window_length: u32, work_start: i32, work_length: u32) -> int {
    to_i32_range(work_start + travel(work_length, window_length) / 2)
}

/// The start of a window centred in a work area along one axis.
pub fn centered_axis_start(window_length: u32, work_start: i32, work_length: u32) -> (r: i32)
    ensures
        r == centered_axis(window_length, work_start, work_length),
{
    let start = work_start as i64;
    let t: i64 = if work_length >= window_length {
        (work_length - window_length) as i64
    } else {
        0
    };
    i64_to_i32_saturating(start + t / 2)
}

/// A window centred in a work area.
pub fn center_position_in_work_area(
    window_size: PhysicalSize,
    work_area: (PhysicalPosition, PhysicalSize),
) -> (r: PhysicalPosition)
    ensures
        r.x == centered_axis(window_size.width, work_area.0.x, work_area.1.width),
        r.y == centered_axis(window_size.height, work_area.0.y, work_area.1.height),
{
    PhysicalPosition::new(
        centered_axis_start(window_size.width, work_area.0.x, work_area.1.width),
        centered_axis_start(window_size.height, work_area.0.y, work_area.1.height),
    )
}

// ---------------------------------------------------------------------------
// Restoring a saved position
// ---------------------------------------------------------------------------
/// A work area: its origin, its size, and the size the window takes on it.
pub type WorkArea = (PhysicalPosition, PhysicalSize, PhysicalSize);

/// The overlap of the saved window with work area `a`, at the size it takes there.
pub open spec fn saved_overlap(saved: PhysicalPosition, a: WorkArea) -> int {
    overlap_area(saved, a.2, a.0, a.1)
}

/// The last work area among the first `n` with the largest overlap (`-1` if none).
pub open spec fn best_work_area(saved: PhysicalPosition, areas: Seq<WorkArea>, n: int) -> int
    decreases n,
{
    if n <= 0 {
        -1
    } else {
        let b = best_work_area(saved, areas, n - 1);
        if b < 0 || saved_overlap(saved, areas[n - 1]) >= saved_overlap(saved, areas[b]) {
            n - 1
        } else {
            b
        }
    }
}

proof fn lemma_best_work_area(saved: PhysicalPosition, areas: Seq<WorkArea>, n: int)
    requires
        0 <= n <= areas.len(),
    ensures
        n == 0 <==> best_work_area(saved, areas, n) == -1,
        n > 0 ==> 0 <= best_work_area(saved, areas, n) < n,
        n > 0 ==> forall|k: int|
            0 <= k < n ==> saved_overlap(saved, #[trigger] areas[k]) <= saved_overlap(
                saved,
                areas[best_work_area(saved, areas, n)],
            ),
    decreases n,
{
    if n > 0 {
        lemma_best_work_area(saved, areas, n - 1);
    }
}

/// Where a saved position is restored: clamped into the work area it overlaps
/// most (the last such area on a tie), or centred in the fallback area when it
/// overlaps none.
pub open spec fn restored_position(
    saved: PhysicalPosition,
    areas: Seq<WorkArea>,
    fallback: WorkArea,
) -> PhysicalPosition {
    let b = best_work_area(saved, areas, areas.len() as int);
    if b >= 0 && saved_overlap(saved, areas[b]) > 0 {
        let a = areas[b];
        PhysicalPosition {
            x: clamp_axis(saved.x, a.2.width, a.0.x, a.1.width) as i32,
            y: clamp_axis(saved.y, a.2.height, a.0.y, a.1.height) as i32,
        }
    } else {
        PhysicalPosition {
            x: centered_axis(fallback.2.width, fallback.0.x, fallback.1.width) as i32,
            y: centered_axis(fallback.2.height, fallback.0.y, fallback.1.height) as i32,
        }
    }
}

/// Restores a saved window position across the available work areas.
pub fn restored_main_window_position(
    saved_position: PhysicalPosition,
    work_areas: &[WorkArea],
    fallback: WorkArea,
) -> (r: PhysicalPosition)
    ensures
        r == restored_position(saved_position, work_areas@, fallback),
{
    let ghost areas = work_areas@;
    let mut best: Option<(u64, usize)> = None;
    let mut i: usize = 0;
    while i < work_areas.len()
        invariant
            i <= work_areas@.len(),
            areas == work_areas@,
            match best {
                Some((area, b)) => b == best_work_area(saved_position, areas, i as int) && area
                    == saved_overlap(saved_position, areas[b as int]),
                None => best_work_area(saved_position, areas, i as int) == -1,
            },
        decreases work_areas.len() - i,
    {
        proof {
            lemma_best_work_area(saved_position, areas, i as int);
        }
        let a = work_areas[i];
        let area = window_work_area_intersection(saved_position, a.2, (a.0, a.1));
        best = match best {
            None => Some((area, i)),
            Some((best_area, b)) => if area >= best_area {
                Some((area, i))
            } else {
                Some((best_area, b))
            },
        };
        i = i + 1;
    }
    proof {
        lemma_best_work_area(saved_position, areas, areas.len() as int);
    }
    match best {
        Some((area, b)) => {
            if area > 0 {
                let a = work_areas[b];
                return clamp_position_to_work_area(saved_position, a.2, (a.0, a.1));
            }
        },
        None => {},
    }
    center_position_in_work_area(fallback.2, (fallback.0, fallback.1))
}

// ---------------------------------------------------------------------------
// Anchored resizing
// ---------------------------------------------------------------------------
/// The start of a resized window along one axis: its offset within the free
/// travel is scaled to the new travel (rounding half up), so a window at either
/// edge of the work area stays at that edge.
pub open spec fn anchored_axis(
    current_start: i32,
    current_length: u32,
    target_length: u32,
    work_start: i32,
    work_length: u32,
) -> int {
    let current_travel = travel(work_length, current_length);
    let target_travel = travel(work_length, target_length);
    let current_offset = clamp_int(current_start - work_start, 0, current_travel);
    let target_offset = if current_travel == 0 {
        0
    } else {
        (current_offset * target_travel + current_travel / 2) / current_travel
    };
    to_i32_range(work_start + target_offset)
}

/// The start of a resized window along one axis, keeping its anchor.
pub fn anchored_axis_start(
    current_start: i32,
    current_length: u32,
    target_length: u32,
    work_start: i32,
    work_length: u32,
) -> (r: i32)
    ensures
        r == anchored_axis(current_start, current_length, target_length, work_start, work_length),
{
    let start = work_start as i64;
    let current_travel: i64 = if work_length >= current_length {
        (work_length - current_length) as i64
    } else {
        0
    };
    let target_travel: i64 = if work_length >= target_length {
        (work_length - target_length) as i64
    } else {
        0
    };
    let current_offset = clamp_i64(current_start as i64 - start, 0, current_travel);
    let target_offset: i64 = if current_travel == 0 {
        0
    } else {
        assert(0 <= current_offset <= current_travel <= u32::MAX);
        assert(0 <= target_travel <= u32::MAX);
        assert(current_offset * target_travel <= u32::MAX as int * u32::MAX as int) by (nonlinear_arith)
            requires
                0 <= current_offset <= u32::MAX,
                0 <= target_travel <= u32::MAX,
        ;
        assert(0 <= current_offset * target_travel) by (nonlinear_arith)
            requires
                0 <= current_offset,
                0 <= target_travel,
        ;
        let numerator = (current_offset as i128) * (target_travel as i128);
        let denominator = current_travel as i128;
        let q = (numerator + denominator / 2) / denominator;
        assert(q <= target_travel) by (nonlinear_arith)
            requires
                0 <= current_offset <= denominator,
                denominator > 0,
                0 <= target_travel,
                numerator == current_offset * target_travel,
                q as int == (numerator + denominator / 2) / (denominator as int),
        ;
        assert(0 <= q) by (nonlinear_arith)
            requires
                numerator >= 0,
                denominator > 0,
                q as int == (numerator + denominator / 2) / (denominator as int),
        ;
        q as i64
    };
    i64_to_i32_saturating(start + target_offset)
}

/// The position of a resized window, keeping the edges it was anchored to.
pub fn anchored_resize_position(
    current_position: PhysicalPosition,
    current_size: PhysicalSize,
    target_size: PhysicalSize,
    work_position: PhysicalPosition,
    work_size: PhysicalSize,
) -> (r: PhysicalPosition)
    ensures
        r.x == anchored_axis(
            current_position.x,
            current_size.width,
            target_size.width,
            work_position.x,
            work_size.width,
        ),
        r.y == anchored_axis(
            current_position.y,
            current_size.height,
            target_size.height,
            work_position.y,
            work_size.height,
        ),
{
    PhysicalPosition::new(
        anchored_axis_start(
            current_position.x,
            current_size.width,
            target_size.width,
            work_position.x,
            work_size.width,
        ),
        anchored_axis_start(
            current_position.y,
            current_size.height,
            target_size.height,
            work_position.y,
            work_size.height,
        ),
    )
}

/// A clamped edge lies inside the work area whenever the window fits and the
/// work area lies in the range of `i32`.
pub proof fn lemma_clamp_axis_inside(
    current_start: i32,
    window_length: u32,
    work_start: i32,
    work_length: u32,
)
    requires
        window_length <= work_length,
        work_start + work_length <= i32::MAX,
    ensures
        work_start <= clamp_axis(current_start, window_length, work_start, work_length),
        clamp_axis(current_start, window_length, work_start, work_length) + window_length
            <= work_start + work_length,
        work_start <= current_start && current_start + window_length <= work_start + work_length
            ==> clamp_axis(current_start, window_length, work_start, work_length) == current_start,
{
}

/// Resizing keeps a window inside the work area, and a window flush with
/// either edge stays flush with that edge.
pub proof fn lemma_anchored_axis_keeps_edges(
    current_start: i32,
    current_length: u32,
    target_length: u32,
    work_start: i32,
    work_length: u32,
)
    requires
        work_start + work_length <= i32::MAX,
        target_length <= work_length,
    ensures
        work_start <= anchored_axis(
            current_start,
            current_length,
            target_length,
            work_start,
            work_length,
        ),
        anchored_axis(current_start, current_length, target_length, work_start, work_length)
            + target_length <= work_start + work_length,
        current_start <= work_start ==> anchored_axis(
            current_start,
            current_length,
            target_length,
            work_start,
            work_length,
        ) == work_start,
        current_length < work_length && current_start + current_length >= work_start
            + work_length ==> anchored_axis(
            current_start,
            current_length,
            target_length,
            work_start,
            work_length,
        ) + target_length == work_start + work_length,
{
    let ct = travel(work_length, current_length);
    let tt = travel(work_length, target_length);
    let co = clamp_int(current_start - work_start, 0, ct);
    if ct > 0 {
        assert((co * tt + ct / 2) / ct <= tt) by (nonlinear_arith)
            requires
                0 <= co <= ct,
                ct > 0,
                0 <= tt,
        ;
        assert(0 <= (co * tt + ct / 2) / ct) by (nonlinear_arith)
            requires
                0 <= co,
                ct > 0,
                0 <= tt,
        ;
        if co == ct {
            assert((ct * tt + ct / 2) / ct == tt) by (nonlinear_arith)
                requires
                    ct > 0,
                    0 <= tt,
            ;
        }
        if co == 0 {
            assert((0 * tt + ct / 2) / ct == 0) by (nonlinear_arith)
                requires
                    ct > 0,
            ;
        }
    }
}

} // verus!
