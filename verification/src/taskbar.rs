//! Embedding the companion in the Windows 11 taskbar: rectangles in screen
//! pixels, the hit-test rectangle of the companion, and where the companion fits
//! between the task list and the notification area without covering other
//! programs' taskbar windows.
use vstd::prelude::*;
use vstd::multiset::Multiset;
use crate::geometry::{clamp_int, to_i32_range};

verus! {

/// A screen rectangle (`right` and `bottom` exclusive), as Win32 reports it.
#[derive(Debug, Clone, Copy, Default, PartialEq, Eq, Structural)]
pub struct WinRect {
    pub left: i32,
    pub top: i32,
    pub right: i32,
    pub bottom: i32,
}

/// Where the companion goes, relative to the taskbar's top-left corner.
#[derive(Debug, Clone, Copy, PartialEq, Eq, Structural)]
pub struct EmbedGeometry {
    pub x: i32,
    pub y: i32,
    pub width: i32,
    pub height: i32,
}

/// `a + b` saturated to `i32`.
pub open spec fn sat_add(a: int, b: int) -> int {
    to_i32_range(a + b)
}

/// `a - b` saturated to `i32`.
pub open spec fn sat_sub(a: int, b: int) -> int {
    to_i32_range(a - b)
}

fn sat_add_i32(a: i32, b: i32) -> (r: i32)
    ensures
        r == sat_add(a as int, b as int),
{
    let v = a as i64 + b as i64;
    if v > i32::MAX as i64 {
        i32::MAX
    } else if v < i32::MIN as i64 {
        i32::MIN
    } else {
        v as i32
    }
}

fn sat_sub_i32(a: i32, b: i32) -> (r: i32)
    ensures
        r == sat_sub(a as int, b as int),
{
    let v = a as i64 - b as i64;
    if v > i32::MAX as i64 {
        i32::MAX
    } else if v < i32::MIN as i64 {
        i32::MIN
    } else {
        v as i32
    }
}

fn max_i32(a: i32, b: i32) -> (r: i32)
    ensures
        r == if a >= b {
            a
        } else {
            b
        },
{
    if a >= b {
        a
    } else {
        b
    }
}

fn min_i32(a: i32, b: i32) -> (r: i32)
    ensures
        r == if a <= b {
            a
        } else {
            b
        },
{
    if a <= b {
        a
    } else {
        b
    }
}

/// The width of a rectangle (saturated).
pub open spec fn rect_width(r: WinRect) -> int {
    sat_sub(r.right as int, r.left as int)
}

/// The height of a rectangle (saturated).
pub open spec fn rect_height(r: WinRect) -> int {
    sat_sub(r.bottom as int, r.top as int)
}

/// Two rectangles share at least one pixel.
pub open spec fn rects_intersect(a: WinRect, b: WinRect) -> bool {
    a.left < b.right && a.right > b.left && a.top < b.bottom && a.bottom > b.top
}

/// A point lies inside a rectangle.
pub open spec fn rect_contains(r: WinRect, x: int, y: int) -> bool {
    r.left <= x < r.right && r.top <= y < r.bottom
}

impl WinRect {
    pub fn width(self) -> (r: i32)
        ensures
            r == rect_width(self),
    {
        sat_sub_i32(self.right, self.left)
    }

    pub fn height(self) -> (r: i32)
        ensures
            r == rect_height(self),
    {
        sat_sub_i32(self.bottom, self.top)
    }

    pub fn intersects(self, other: Self) -> (r: bool)
        ensures
            r == rects_intersect(self, other),
    {
        self.left < other.right && self.right > other.left && self.top < other.bottom
            && self.bottom > other.top
    }
}

// ---------------------------------------------------------------------------
// The taskbar monitor
// ---------------------------------------------------------------------------
/// Claims the right to start the one taskbar monitor: the first caller that
/// turns `started` from `false` to `true` gets `true`, every other caller `false`.
pub fn claim_taskbar_monitor(started: &std::sync::atomic::AtomicBool) -> (claimed: bool) {
    let previous = started.compare_exchange(
        false,
        true,
        std::sync::atomic::Ordering::AcqRel,
        std::sync::atomic::Ordering::Acquire,
    );
    previous.is_ok()
}

/// Whether the taskbar monitor reports a result: a failure is reported once per
/// run of consecutive failures, and a success ends the run.  `failure_reported`
/// records whether the current run has been reported.
pub fn report_monitor_failure(failure_reported: &mut bool, failed: bool) -> (report: bool)
    ensures
        report == (failed && !*old(failure_reported)),
        *final(failure_reported) == failed,
{
    let report = failed && !*failure_reported;
    *failure_reported = failed;
    report
}

// ---------------------------------------------------------------------------
// Hit testing
// ---------------------------------------------------------------------------
/// Forgets the companion's hit-test rectangle (clicks no longer reach it).
pub fn clear_taskbar_hit_rect(slot: &mut Option<WinRect>)
    ensures
        *final(slot) == None::<WinRect>,
{
    update_taskbar_hit_rect(slot, None);
}

/// Replaces the companion's hit-test rectangle.
pub fn update_taskbar_hit_rect(slot: &mut Option<WinRect>, rect: Option<WinRect>)
    ensures
        *final(slot) == rect,
{
    *slot = rect;
}

/// Whether a screen point falls on the companion.
pub fn taskbar_hit_rect_contains(slot: &Option<WinRect>, x: i32, y: i32) -> (r: bool)
    ensures
        r == (match *slot {
            Some(rect) => rect_contains(rect, x as int, y as int),
            None => false,
        }),
{
    match slot {
        Some(rect) => x >= rect.left && x < rect.right && y >= rect.top && y < rect.bottom,
        None => false,
    }
}

/// The companion already sits where `geometry` would place it.
pub open spec fn geometry_matches(current: WinRect, taskbar: WinRect, g: EmbedGeometry) -> bool {
    let left = sat_add(taskbar.left as int, g.x as int);
    let top = sat_add(taskbar.top as int, g.y as int);
    &&& current.left == left
    &&& current.top == top
    &&& current.right == sat_add(left, g.width as int)
    &&& current.bottom == sat_add(top, g.height as int)
}

/// Whether the companion already sits at `geometry` (in screen coordinates).
pub fn geometry_matches_current_window(
    current: WinRect,
    taskbar: WinRect,
    geometry: EmbedGeometry,
) -> (r: bool)
    ensures
        r == geometry_matches(current, taskbar, geometry),
{
    let left = sat_add_i32(taskbar.left, geometry.x);
    let top = sat_add_i32(taskbar.top, geometry.y);
    current.left == left && current.top == top && current.right == sat_add_i32(
        left,
        geometry.width,
    ) && current.bottom == sat_add_i32(top, geometry.height)
}

/// Away from the ends of the `i32` range, the companion already sits at a
/// geometry exactly when its origin is the taskbar's origin moved by the
/// geometry's offset and its width and height are the geometry's.
pub proof fn lemma_geometry_match_compares_the_whole_rect(
    current: WinRect,
    taskbar: WinRect,
    g: EmbedGeometry,
)
    requires
        i32::MIN <= taskbar.left + g.x <= i32::MAX,
        i32::MIN <= taskbar.top + g.y <= i32::MAX,
        i32::MIN <= taskbar.left + g.x + g.width <= i32::MAX,
        i32::MIN <= taskbar.top + g.y + g.height <= i32::MAX,
    ensures
        geometry_matches(current, taskbar, g) <==> {
            &&& current.left == taskbar.left + g.x
            &&& current.top == taskbar.top + g.y
            &&& current.right - current.left == g.width
            &&& current.bottom - current.top == g.height
        },
{
}

// ---------------------------------------------------------------------------
// Placement in the taskbar
// ---------------------------------------------------------------------------
/// `v / 2` rounded toward zero, as `i32` division does.
pub open spec fn half_toward_zero(v: int) -> int {
    if v >= 0 {
        v / 2
    } else {
        -((-v) / 2)
    }
}

/// The taskbar is wide enough for an embedded companion, and the companion
/// (`width` by `height` pixels, kept `gap` pixels from its neighbours) fits in it.
pub open spec fn sizes_fit(taskbar: WinRect, width: int, height: int, gap: int) -> bool {
    &&& !(rect_width(taskbar) < rect_height(taskbar) || rect_width(taskbar) <= 8 || rect_height(
        taskbar,
    ) <= 4)
    &&& 1 <= width <= rect_width(taskbar)
    &&& 1 <= height <= rect_height(taskbar)
    &&& 1 <= gap <= i32::MAX
}

/// The companion's vertical placement and the horizontal band it may use.
pub struct Band {
    /// Offset of the companion's top from the taskbar's top.
    pub y: int,
    pub top: int,
    pub bottom: int,
    /// The band between the task list and the notification area, less the gaps.
    pub left: int,
    pub right: int,
}

/// Centred on the Start button vertically (kept inside the taskbar), and between
/// the task list and the notification area horizontally.
pub open spec fn embed_band(
    taskbar: WinRect,
    notification: WinRect,
    task_band: WinRect,
    start: WinRect,
    height: int,
    gap: int,
) -> Band {
    let start_height = if rect_height(start) >= 1 {
        rect_height(start)
    } else {
        1
    };
    let desired_y = sat_add(
        sat_sub(start.top as int, taskbar.top as int),
        half_toward_zero(sat_sub(start_height, height)),
    );
    let maximum_y = sat_sub(rect_height(taskbar), height);
    let y = clamp_int(desired_y, 0, maximum_y);
    let top = sat_add(taskbar.top as int, y);
    let bottom = sat_add(top, height);
    let left = sat_add(
        if task_band.right >= taskbar.left {
            task_band.right as int
        } else {
            taskbar.left as int
        },
        gap,
    );
    let right = sat_sub(
        if notification.left <= taskbar.right {
            notification.left as int
        } else {
            taskbar.right as int
        },
        gap,
    );
    Band { y, top, bottom, left, right }
}

/// The stretch of the band a blocker occupies, widened by the gap and cut to the
/// band; `None` for an empty blocker or one that misses the companion's row or
/// the band.
pub open spec fn blocker_span(b: WinRect, band: Band, gap: int) -> Option<(i32, i32)> {
    if rect_width(b) > 0 && rect_height(b) > 0 && b.left < band.right && b.right > band.left
        && b.top < band.bottom && b.bottom > band.top {
        let l = if sat_sub(b.left as int, gap) >= band.left {
            sat_sub(b.left as int, gap)
        } else {
            band.left
        };
        let r = if sat_add(b.right as int, gap) <= band.right {
            sat_add(b.right as int, gap)
        } else {
            band.right
        };
        if l < r {
            Some((l as i32, r as i32))
        } else {
            None
        }
    } else {
        None
    }
}

/// The occupied stretches of the first `n` blockers, in blocker order.
pub open spec fn spans_upto(blockers: Seq<WinRect>, band: Band, gap: int, n: int) -> Seq<
    (i32, i32),
>
    decreases n,
{
    if n <= 0 {
        Seq::empty()
    } else {
        let s = spans_upto(blockers, band, gap, n - 1);
        match blocker_span(blockers[n - 1], band, gap) {
            Some(span) => s.push(span),
            None => s,
        }
    }
}

/// Pixel column `p` lies in one of the stretches.
pub open spec fn covered(s: Seq<(i32, i32)>, p: int) -> bool {
    exists|k: int| 0 <= k < s.len() && (#[trigger] s[k]).0 <= p && p < s[k].1
}

/// A companion of width `w` ending (exclusively) at column `e` starts at or after
/// `lo` and covers no occupied column.
pub open spec fn free_end(s: Seq<(i32, i32)>, lo: int, e: int, w: int) -> bool {
    lo <= e - w && forall|p: int| e - w <= p < e ==> !#[trigger] covered(s, p)
}

/// `e` is the rightmost free end not beyond `hi`.
pub open spec fn best_end(s: Seq<(i32, i32)>, lo: int, hi: int, w: int, e: int) -> bool {
    &&& e <= hi
    &&& free_end(s, lo, e, w)
    &&& forall|e2: int| e < e2 <= hi ==> !#[trigger] free_end(s, lo, e2, w)
}

/// Every stretch is non-empty and inside `[lo, hi]`.
pub open spec fn spans_within(s: Seq<(i32, i32)>, lo: int, hi: int) -> bool {
    forall|k: int| 0 <= k < s.len() ==> lo <= (#[trigger] s[k]).0 && s[k].0 < s[k].1 && s[k].1 <= hi
}

/// The stretches are ordered left to right with a free column between neighbours.
pub open spec fn separated(s: Seq<(i32, i32)>) -> bool {
    forall|x: int, y: int| 0 <= x < y < s.len() ==> (#[trigger] s[x]).1 < (#[trigger] s[y]).0
}

/// Pairs in lexicographic order.
pub open spec fn pair_le(a: (i32, i32), b: (i32, i32)) -> bool {
    a.0 < b.0 || (a.0 == b.0 && a.1 <= b.1)
}

/// Pairs sorted lexicographically.
pub open spec fn pairs_sorted(s: Seq<(i32, i32)>) -> bool {
    forall|x: int, y: int| 0 <= x < y < s.len() ==> pair_le(#[trigger] s[x], #[trigger] s[y])
}

proof fn lemma_covered_push(s: Seq<(i32, i32)>, x: (i32, i32), p: int)
    ensures
        covered(s.push(x), p) == (covered(s, p) || (x.0 <= p && p < x.1)),
{
    let t = s.push(x);
    if covered(s, p) {
        let k = choose|k: int| 0 <= k < s.len() && (#[trigger] s[k]).0 <= p && p < s[k].1;
        assert(t[k] == s[k]);
    }
    if x.0 <= p && p < x.1 {
        assert(t[s.len() as int] == x);
    }
    if covered(t, p) {
        let k = choose|k: int| 0 <= k < t.len() && (#[trigger] t[k]).0 <= p && p < t[k].1;
        if k < s.len() {
            assert(s[k] == t[k]);
        }
    }
}

proof fn lemma_covered_in_multiset(a: Seq<(i32, i32)>, b: Seq<(i32, i32)>, p: int)
    requires
        a.to_multiset() == b.to_multiset(),
        covered(a, p),
    ensures
        covered(b, p),
{
    broadcast use vstd::seq_lib::group_to_multiset_ensures;

    let k = choose|k: int| 0 <= k < a.len() && (#[trigger] a[k]).0 <= p && p < a[k].1;
    let x = a[k];
    assert(a.contains(x));
    assert(a.to_multiset().count(x) > 0);
    assert(b.to_multiset().count(x) > 0);
    assert(b.contains(x));
    let j = choose|j: int| 0 <= j < b.len() && b[j] == x;
    assert(b[j].0 <= p && p < b[j].1);
}

proof fn lemma_covered_same_multiset(a: Seq<(i32, i32)>, b: Seq<(i32, i32)>, p: int)
    requires
        a.to_multiset() == b.to_multiset(),
    ensures
        covered(a, p) == covered(b, p),
{
    if covered(a, p) {
        lemma_covered_in_multiset(a, b, p);
    }
    if covered(b, p) {
        lemma_covered_in_multiset(b, a, p);
    }
}

proof fn lemma_within_same_multiset(a: Seq<(i32, i32)>, b: Seq<(i32, i32)>, lo: int, hi: int)
    requires
        a.to_multiset() == b.to_multiset(),
        spans_within(b, lo, hi),
    ensures
        spans_within(a, lo, hi),
{
    broadcast use vstd::seq_lib::group_to_multiset_ensures;

    assert forall|k: int| 0 <= k < a.len() implies lo <= (#[trigger] a[k]).0 && a[k].0 < a[k].1
        && a[k].1 <= hi by {
        let x = a[k];
        assert(a.contains(x));
        assert(a.to_multiset().count(x) > 0);
        assert(b.to_multiset().count(x) > 0);
        assert(b.contains(x));
        let j = choose|j: int| 0 <= j < b.len() && b[j] == x;
        assert(lo <= b[j].0);
    }
}

/// Sequences that cover the same columns have the same free and best ends.
proof fn lemma_same_cover_same_ends(a: Seq<(i32, i32)>, b: Seq<(i32, i32)>, lo: int, w: int)
    requires
        forall|p: int| #[trigger] covered(a, p) == covered(b, p),
    ensures
        forall|e: int|
            #![trigger free_end(a, lo, e, w)]
            #![trigger free_end(b, lo, e, w)]
            free_end(a, lo, e, w) == free_end(b, lo, e, w),
{
    assert forall|e: int| free_end(a, lo, e, w) == free_end(b, lo, e, w) by {
        if free_end(a, lo, e, w) {
            assert forall|p: int| e - w <= p < e implies !#[trigger] covered(b, p) by {
                assert(!covered(a, p));
            }
        }
        if free_end(b, lo, e, w) {
            assert forall|p: int| e - w <= p < e implies !#[trigger] covered(a, p) by {
                assert(!covered(b, p));
            }
        }
    }
}

/// The occupied stretches of the blockers.
fn blocker_spans(
    blockers: &[WinRect],
    band_left: i32,
    band_right: i32,
    top: i32,
    bottom: i32,
    gap: i32,
    Ghost(band): Ghost<Band>,
) -> (spans: Vec<(i32, i32)>)
    requires
        band.left == band_left,
        band.right == band_right,
        band.top == top,
        band.bottom == bottom,
    ensures
        spans@ == spans_upto(blockers@, band, gap as int, blockers@.len() as int),
{
    let mut spans: Vec<(i32, i32)> = Vec::new();
    let mut i: usize = 0;
    while i < blockers.len()
        invariant
            i <= blockers@.len(),
            band.left == band_left,
            band.right == band_right,
            band.top == top,
            band.bottom == bottom,
            spans@ == spans_upto(blockers@, band, gap as int, i as int),
        decreases blockers.len() - i,
    {
        let b = blockers[i];
        let ghost before = spans@;
        assert(spans_upto(blockers@, band, gap as int, i + 1) == match blocker_span(
            blockers@[i as int],
            band,
            gap as int,
        ) {
            Some(span) => before.push(span),
            None => before,
        });
        if b.width() > 0 && b.height() > 0 && b.left < band_right && b.right > band_left && b.top
            < bottom && b.bottom > top {
            let l = max_i32(sat_sub_i32(b.left, gap), band_left);
            let r = min_i32(sat_add_i32(b.right, gap), band_right);
            if l < r {
                spans.push((l, r));
            }
        }
        i = i + 1;
    }
    spans
}

/// Sorts stretches by their left and then right end.
fn sort_spans(spans: Vec<(i32, i32)>) -> (out: Vec<(i32, i32)>)
    ensures
        pairs_sorted(out@),
        out@.to_multiset() == spans@.to_multiset(),
{
    broadcast use vstd::seq_lib::group_to_multiset_ensures;

    let mut out: Vec<(i32, i32)> = Vec::new();
    let mut i: usize = 0;
    assert(spans@.take(0) =~= Seq::<(i32, i32)>::empty());
    while i < spans.len()
        invariant
            i <= spans@.len(),
            pairs_sorted(out@),
            out@.to_multiset() == spans@.take(i as int).to_multiset(),
        decreases spans.len() - i,
    {
        let x = spans[i];
        let mut p: usize = 0;
        while p < out.len() && pair_le_exec(out[p], x)
            invariant
                p <= out@.len(),
                forall|k: int| 0 <= k < p ==> pair_le(#[trigger] out@[k], x),
            decreases out.len() - p,
        {
            p = p + 1;
        }
        let ghost before = out@;
        proof {
            crate::source::lemma_insert_to_multiset(before, p as int, x);
            assert(spans@.take(i + 1) =~= spans@.take(i as int).push(x));
        }
        out.insert(p, x);
        assert(out@ =~= before.insert(p as int, x));
        proof {
            vstd::seq_lib::to_multiset_build(spans@.take(i as int), x);
        }
        assert(out@.to_multiset() =~= spans@.take(i + 1).to_multiset());
        assert forall|a: int, b: int| 0 <= a < b < out@.len() implies pair_le(
            #[trigger] out@[a],
            #[trigger] out@[b],
        ) by {
            before.insert_ensures(p as int, x);
            if b < p {
                assert(out@[a] == before[a] && out@[b] == before[b]);
            } else if b == p {
                assert(out@[a] == before[a]);
            } else if a < p {
                assert(out@[a] == before[a] && out@[b] == before[b - 1]);
            } else if a == p {
                assert(out@[b] == before[b - 1]);
                assert(!pair_le(before[p as int], x));
            } else {
                assert(out@[a] == before[a - 1] && out@[b] == before[b - 1]);
            }
        }
        i = i + 1;
    }
    assert(spans@.take(spans@.len() as int) =~= spans@);
    out
}

fn pair_le_exec(a: (i32, i32), b: (i32, i32)) -> (r: bool)
    ensures
        r == pair_le(a, b),
{
    a.0 < b.0 || (a.0 == b.0 && a.1 <= b.1)
}

/// Joins overlapping or touching stretches of a sorted list.
fn merge_spans(sorted: Vec<(i32, i32)>, Ghost(lo): Ghost<int>, Ghost(hi): Ghost<int>) -> (merged:
    Vec<(i32, i32)>)
    requires
        pairs_sorted(sorted@),
        spans_within(sorted@, lo, hi),
    ensures
        separated(merged@),
        spans_within(merged@, lo, hi),
        forall|p: int| #[trigger] covered(merged@, p) == covered(sorted@, p),
{
    let mut merged: Vec<(i32, i32)> = Vec::new();
    let mut i: usize = 0;
    assert forall|p: int| #[trigger] covered(merged@, p) == covered(sorted@.take(0), p) by {
        assert(sorted@.take(0).len() == 0);
    }
    while i < sorted.len()
        invariant
            i <= sorted@.len(),
            pairs_sorted(sorted@),
            spans_within(sorted@, lo, hi),
            separated(merged@),
            spans_within(merged@, lo, hi),
            forall|p: int| #[trigger] covered(merged@, p) == covered(sorted@.take(i as int), p),
            merged@.len() > 0 ==> forall|j: int|
                i <= j < sorted@.len() ==> merged@.last().0 <= (#[trigger] sorted@[j]).0,
        decreases sorted.len() - i,
    {
        let x = sorted[i];
        let ghost before = merged@;
        let ghost taken = sorted@.take(i as int);
        assert(sorted@.take(i + 1) =~= taken.push(x));
        let n = merged.len();
        if n > 0 && x.0 <= merged[n - 1].1 {
            let last = merged[n - 1];
            let right = max_i32(last.1, x.1);
            let y = (last.0, right);
            merged.set(n - 1, y);
            assert(before =~= before.drop_last().push(last));
            assert(merged@ =~= before.drop_last().push(y));
            assert forall|p: int| #[trigger] covered(merged@, p) == covered(sorted@.take(i + 1), p) by {
                lemma_covered_push(before.drop_last(), last, p);
                lemma_covered_push(before.drop_last(), y, p);
                lemma_covered_push(taken, x, p);
            }
            assert forall|a: int, b: int| 0 <= a < b < merged@.len() implies (#[trigger] merged@[a]).1
                < (#[trigger] merged@[b]).0 by {
                assert(merged@[a] == before[a]);
                assert(merged@[b].0 == before[b].0);
            }
        } else {
            merged.push(x);
            assert(merged@ =~= before.push(x));
            assert forall|p: int| #[trigger] covered(merged@, p) == covered(sorted@.take(i + 1), p) by {
                lemma_covered_push(before, x, p);
                lemma_covered_push(taken, x, p);
            }
            assert forall|a: int, b: int| 0 <= a < b < merged@.len() implies (#[trigger] merged@[a]).1
                < (#[trigger] merged@[b]).0 by {
                if b == n {
                    assert(merged@[a] == before[a]);
                    assert(before[a].1 <= before[n - 1].1);
                } else {
                    assert(merged@[a] == before[a] && merged@[b] == before[b]);
                }
            }
        }
        i = i + 1;
    }
    assert(sorted@.take(sorted@.len() as int) =~= sorted@);
    merged
}

/// The rightmost end, not beyond `hi`, of a free stretch of `w` columns that
/// starts at or after `lo`, found by walking the separated stretches from the right.
fn rightmost_free_end(merged: &Vec<(i32, i32)>, lo: i32, hi: i32, w: i32) -> (r: Option<i32>)
    requires
        separated(merged@),
        spans_within(merged@, lo as int, hi as int),
        1 <= w,
    ensures
        match r {
            Some(e) => best_end(merged@, lo as int, hi as int, w as int, e as int),
            None => forall|e: int| e <= hi ==> !#[trigger] free_end(merged@, lo as int, e, w as int),
        },
{
    let ghost s = merged@;
    let mut slot: i32 = hi;
    let mut k: usize = merged.len();
    while k > 0
        invariant
            k <= s.len(),
            s == merged@,
            separated(s),
            spans_within(s, lo as int, hi as int),
            1 <= w,
            slot == (if k == s.len() {
                hi as int
            } else {
                s[k as int].0 as int
            }),
            forall|e2: int| slot < e2 <= hi ==> !#[trigger] free_end(s, lo as int, e2, w as int),
        decreases k,
    {
        let l = merged[k - 1].0;
        let r = merged[k - 1].1;
        assert(slot >= r) by {
            if k < s.len() {
                assert(s[k - 1].1 < s[k as int].0);
            }
        }
        if sat_sub_i32(slot, r) >= w {
            assert forall|p: int| slot - w <= p < slot implies !#[trigger] covered(s, p) by {
                if covered(s, p) {
                    let j = choose|j: int| 0 <= j < s.len() && (#[trigger] s[j]).0 <= p && p < s[j].1;
                    if j < k - 1 {
                        assert(s[j].1 < s[k - 1].0);
                    } else if j > k - 1 {
                        if j > k {
                            assert(s[k as int].1 < s[j].0);
                        }
                        assert(s[j].0 >= s[k as int].0);
                    }
                }
            }
            return Some(slot);
        }
        assert forall|e2: int| l < e2 <= hi implies !#[trigger] free_end(s, lo as int, e2, w as int) by {
            if e2 <= slot {
                if e2 <= r {
                    assert(s[k - 1].0 <= e2 - 1 && e2 - 1 < s[k - 1].1);
                    assert(covered(s, e2 - 1));
                } else {
                    assert(s[k - 1].0 <= r - 1 && r - 1 < s[k - 1].1);
                    assert(covered(s, r - 1));
                }
            }
        }
        slot = l;
        k = k - 1;
    }
    if sat_sub_i32(slot, lo) < w {
        return None;
    }
    assert forall|p: int| slot - w <= p < slot implies !#[trigger] covered(s, p) by {
        if covered(s, p) {
            let j = choose|j: int| 0 <= j < s.len() && (#[trigger] s[j]).0 <= p && p < s[j].1;
            if j > 0 {
                assert(s[0].1 < s[j].0);
            }
        }
    }
    Some(slot)
}

/// Every stretch of the first `n` blockers is non-empty and inside the band.
proof fn lemma_spans_upto_within(blockers: Seq<WinRect>, band: Band, gap: int, n: int)
    requires
        i32::MIN <= band.left,
        band.right <= i32::MAX,
    ensures
        spans_within(spans_upto(blockers, band, gap, n), band.left, band.right),
    decreases n,
{
    if n > 0 {
        lemma_spans_upto_within(blockers, band, gap, n - 1);
        let s = spans_upto(blockers, band, gap, n - 1);
        match blocker_span(blockers[n - 1], band, gap) {
            Some(span) => {
                assert forall|k: int| 0 <= k < s.push(span).len() implies band.left <= (
                #[trigger] s.push(span)[k]).0 && s.push(span)[k].0 < s.push(span)[k].1 && s.push(
                    span,
                )[k].1 <= band.right by {
                    if k < s.len() {
                        assert(s.push(span)[k] == s[k]);
                    }
                }
            },
            None => {},
        }
    }
}

/// There is at most one rightmost free end.
proof fn lemma_best_end_unique(s: Seq<(i32, i32)>, lo: int, hi: int, w: int, a: int, b: int)
    requires
        best_end(s, lo, hi, w, a),
        best_end(s, lo, hi, w, b),
    ensures
        a == b,
{
    if a < b {
        assert(free_end(s, lo, b, w));
    } else if b < a {
        assert(free_end(s, lo, a, w));
    }
}

/// The companion may be embedded at all: the taskbar is large enough, the
/// requested sizes fit in it, and the notification area and task list lie on it.
pub open spec fn embed_allowed(
    taskbar: WinRect,
    notification: WinRect,
    task_band: WinRect,
    width: int,
    height: int,
    gap: int,
) -> bool {
    &&& sizes_fit(taskbar, width, height, gap)
    &&& rects_intersect(taskbar, notification)
    &&& rects_intersect(taskbar, task_band)
}

/// The stretches of the band that other programs' windows occupy.
pub open spec fn embed_spans(
    taskbar: WinRect,
    notification: WinRect,
    task_band: WinRect,
    start: WinRect,
    blockers: Seq<WinRect>,
    height: int,
    gap: int,
) -> Seq<(i32, i32)> {
    let band = embed_band(taskbar, notification, task_band, start, height, gap);
    spans_upto(blockers, band, gap, blockers.len() as int)
}

/// Where the companion is embedded: as far right in the band as it fits without
/// covering an occupied column, or nowhere.
pub open spec fn win11_placement(
    taskbar: WinRect,
    notification: WinRect,
    task_band: WinRect,
    start: WinRect,
    blockers: Seq<WinRect>,
    width: int,
    height: int,
    gap: int,
) -> Option<EmbedGeometry> {
    let band = embed_band(taskbar, notification, task_band, start, height, gap);
    let s = embed_spans(taskbar, notification, task_band, start, blockers, height, gap);
    if !embed_allowed(taskbar, notification, task_band, width, height, gap) {
        None
    } else if exists|e: int| #[trigger] best_end(s, band.left, band.right, width, e) {
        let e = choose|e: int| #[trigger] best_end(s, band.left, band.right, width, e);
        Some(
            EmbedGeometry {
                x: sat_sub(sat_sub(e, width), taskbar.left as int) as i32,
                y: band.y as i32,
                width: width as i32,
                height: height as i32,
            },
        )
    } else {
        None
    }
}

/// Places the companion in the Windows 11 taskbar: `width` by `height` pixels,
/// kept `gap` pixels from the task list, the notification area and the windows
/// in `blockers`, as far right as it fits. `None` where the taskbar is vertical
/// or too small, a size does not fit, or no free stretch is wide enough.
pub fn win11_geometry(
    taskbar: WinRect,
    notification: WinRect,
    task_band: WinRect,
    start: WinRect,
    blockers: &[WinRect],
    width: i64,
    height: i64,
    gap: i64,
) -> (r: Option<EmbedGeometry>)
    ensures
        r == win11_placement(
            taskbar,
            notification,
            task_band,
            start,
            blockers@,
            width as int,
            height as int,
            gap as int,
        ),
{
    let ghost allowed = embed_allowed(
        taskbar,
        notification,
        task_band,
        width as int,
        height as int,
        gap as int,
    );
    let taskbar_width = taskbar.width();
    let taskbar_height = taskbar.height();
    if taskbar_width < taskbar_height || taskbar_width <= 8 || taskbar_height <= 4 {
        return None;
    }
    if width < 1 || height < 1 || gap < 1 || width > taskbar_width as i64 || height
        > taskbar_height as i64 || gap > i32::MAX as i64 {
        return None;
    }
    let width = width as i32;
    let height = height as i32;
    let gap = gap as i32;
    let ghost band = embed_band(
        taskbar,
        notification,
        task_band,
        start,
        height as int,
        gap as int,
    );
    let start_height_raw = start.height();
    let start_height = if start_height_raw >= 1 {
        start_height_raw
    } else {
        1
    };
    let difference = sat_sub_i32(start_height, height);
    let half: i32 = if difference >= 0 {
        difference / 2
    } else {
        let magnitude: i64 = 0i64 - difference as i64;
        (0i64 - magnitude / 2) as i32
    };
    assert(half == half_toward_zero(difference as int));
    let desired_y = sat_add_i32(sat_sub_i32(start.top, taskbar.top), half);
    let maximum_y = sat_sub_i32(taskbar_height, height);
    let y = if desired_y < 0 {
        0
    } else if desired_y > maximum_y {
        maximum_y
    } else {
        desired_y
    };
    let top = sat_add_i32(taskbar.top, y);
    let bottom = sat_add_i32(top, height);
    assert(band.y == y && band.top == top && band.bottom == bottom);
    if !taskbar.intersects(notification) || !taskbar.intersects(task_band) {
        return None;
    }
    let safe_left = sat_add_i32(max_i32(task_band.right, taskbar.left), gap);
    let safe_right = sat_sub_i32(min_i32(notification.left, taskbar.right), gap);
    assert(band.left == safe_left && band.right == safe_right);
    assert(allowed);
    let ghost s = embed_spans(
        taskbar,
        notification,
        task_band,
        start,
        blockers@,
        height as int,
        gap as int,
    );
    if sat_sub_i32(safe_right, safe_left) < width {
        assert forall|e: int| !#[trigger] best_end(s, band.left, band.right, width as int, e) by {
            if best_end(s, band.left, band.right, width as int, e) {
                assert(free_end(s, band.left, e, width as int));
            }
        }
        return None;
    }
    let spans = blocker_spans(blockers, safe_left, safe_right, top, bottom, gap, Ghost(band));
    proof {
        lemma_spans_upto_within(blockers@, band, gap as int, blockers@.len() as int);
    }
    let sorted = sort_spans(spans);
    proof {
        lemma_within_same_multiset(sorted@, spans@, band.left, band.right);
        assert forall|p: int| #[trigger] covered(sorted@, p) == covered(spans@, p) by {
            lemma_covered_same_multiset(sorted@, spans@, p);
        }
    }
    let merged = merge_spans(sorted, Ghost(band.left), Ghost(band.right));
    proof {
        assert forall|p: int| #[trigger] covered(merged@, p) == covered(s, p) by {
            assert(covered(sorted@, p) == covered(spans@, p));
        }
        lemma_same_cover_same_ends(merged@, s, band.left, width as int);
    }
    match rightmost_free_end(&merged, safe_left, safe_right, width) {
        None => {
            assert forall|e: int| !#[trigger] best_end(s, band.left, band.right, width as int, e) by {
                if best_end(s, band.left, band.right, width as int, e) {
                    assert(free_end(s, band.left, e, width as int));
                    assert(free_end(merged@, band.left, e, width as int));
                }
            }
            None
        },
        Some(e) => {
            assert(best_end(s, band.left, band.right, width as int, e as int)) by {
                assert(free_end(merged@, band.left, e as int, width as int));
                assert forall|e2: int| e < e2 <= band.right implies !#[trigger] free_end(
                    s,
                    band.left,
                    e2,
                    width as int,
                ) by {
                    assert(!free_end(merged@, band.left, e2, width as int));
                }
            }
            proof {
                let c = choose|c: int| #[trigger] best_end(s, band.left, band.right, width as int, c);
                lemma_best_end_unique(s, band.left, band.right, width as int, c, e as int);
            }
            Some(
                EmbedGeometry {
                    x: sat_sub_i32(sat_sub_i32(e, width), taskbar.left),
                    y,
                    width,
                    height,
                },
            )
        },
    }
}

/// The stretch of each of the first `n` blockers is among their stretches.
proof fn lemma_span_listed(blockers: Seq<WinRect>, band: Band, gap: int, n: int, k: int)
    requires
        0 <= k < n,
        blocker_span(blockers[k], band, gap) is Some,
    ensures
        spans_upto(blockers, band, gap, n).contains(blocker_span(blockers[k], band, gap)->0),
    decreases n,
{
    let s = spans_upto(blockers, band, gap, n - 1);
    let span = blocker_span(blockers[k], band, gap)->0;
    if k < n - 1 {
        lemma_span_listed(blockers, band, gap, n - 1, k);
        let j = choose|j: int| 0 <= j < s.len() && s[j] == span;
        match blocker_span(blockers[n - 1], band, gap) {
            Some(last) => {
                assert(s.push(last)[j] == span);
            },
            None => {},
        }
    } else {
        assert(s.push(span)[s.len() as int] == span);
    }
}

/// Column `p` lies in an optional stretch.
pub open spec fn in_span(span: Option<(i32, i32)>, p: int) -> bool {
    match span {
        Some(x) => x.0 <= p && p < x.1,
        None => false,
    }
}

/// The companion placed with its right edge at column `e` lies inside the band
/// between the task list and the notification area, is what the placement
/// returns, and covers no column that a blocker (widened by the gap) occupies in
/// the companion's row.
pub open spec fn placed_clear_at(
    taskbar: WinRect,
    notification: WinRect,
    task_band: WinRect,
    start: WinRect,
    blockers: Seq<WinRect>,
    width: int,
    height: int,
    gap: int,
    e: int,
) -> bool {
    let band = embed_band(taskbar, notification, task_band, start, height, gap);
    &&& band.left <= e - width
    &&& e <= band.right
    &&& win11_placement(taskbar, notification, task_band, start, blockers, width, height, gap)
        == Some(
        EmbedGeometry {
            x: sat_sub(sat_sub(e, width), taskbar.left as int) as i32,
            y: band.y as i32,
            width: width as i32,
            height: height as i32,
        },
    )
    &&& forall|k: int, p: int|
        0 <= k < blockers.len() && e - width <= p < e ==> !#[trigger] in_span(
            blocker_span(blockers[k], band, gap),
            p,
        )
}

/// Wherever the companion is placed, it sits inside the band between the task
/// list and the notification area and clear of every blocker in its row.
pub proof fn lemma_placement_avoids_blockers(
    taskbar: WinRect,
    notification: WinRect,
    task_band: WinRect,
    start: WinRect,
    blockers: Seq<WinRect>,
    width: int,
    height: int,
    gap: int,
)
    requires
        win11_placement(taskbar, notification, task_band, start, blockers, width, height, gap) is Some,
    ensures
        exists|e: int|
            #[trigger] placed_clear_at(
                taskbar,
                notification,
                task_band,
                start,
                blockers,
                width,
                height,
                gap,
                e,
            ),
{
    let band = embed_band(taskbar, notification, task_band, start, height, gap);
    let s = embed_spans(taskbar, notification, task_band, start, blockers, height, gap);
    let e = choose|e: int| #[trigger] best_end(s, band.left, band.right, width, e);
    assert forall|k: int, p: int| 0 <= k < blockers.len() && e - width <= p < e implies !#[trigger] in_span(
        blocker_span(blockers[k], band, gap),
        p,
    ) by {
        if in_span(blocker_span(blockers[k], band, gap), p) {
            let span = blocker_span(blockers[k], band, gap)->0;
            lemma_span_listed(blockers, band, gap, blockers.len() as int, k);
            let j = choose|j: int| 0 <= j < s.len() && s[j] == span;
            assert(!covered(s, p));
            assert(s[j].0 <= p && p < s[j].1);
        }
    }
    assert(free_end(s, band.left, e, width));
    assert(placed_clear_at(taskbar, notification, task_band, start, blockers, width, height, gap, e));
}

/// Every stretch of the first `n` blockers is the stretch of one of them.
proof fn lemma_span_origin(blockers: Seq<WinRect>, band: Band, gap: int, n: int, j: int)
    requires
        0 <= n <= blockers.len(),
        0 <= j < spans_upto(blockers, band, gap, n).len(),
    ensures
        exists|k: int|
            0 <= k < n && #[trigger] blocker_span(blockers[k], band, gap) == Some(
                spans_upto(blockers, band, gap, n)[j],
            ),
    decreases n,
{
    let before = spans_upto(blockers, band, gap, n - 1);
    if j < before.len() {
        lemma_span_origin(blockers, band, gap, n - 1, j);
        match blocker_span(blockers[n - 1], band, gap) {
            Some(last) => {
                assert(before.push(last)[j] == before[j]);
            },
            None => {},
        }
    } else {
        let last = blocker_span(blockers[n - 1], band, gap)->0;
        assert(before.push(last)[j] == last);
        assert(blocker_span(blockers[n - 1], band, gap) == Some(
            spans_upto(blockers, band, gap, n)[j],
        ));
    }
}

/// Adding blockers never moves the companion to the right: when every blocker of
/// `fewer` is also one of `more` and the companion fits in both cases, it sits at
/// the same row with the same size, and no further right, among `more`.
pub proof fn lemma_more_blockers_move_left(
    taskbar: WinRect,
    notification: WinRect,
    task_band: WinRect,
    start: WinRect,
    fewer: Seq<WinRect>,
    more: Seq<WinRect>,
    width: int,
    height: int,
    gap: int,
)
    requires
        forall|k: int| 0 <= k < fewer.len() ==> more.contains(#[trigger] fewer[k]),
        win11_placement(taskbar, notification, task_band, start, fewer, width, height, gap) is Some,
        win11_placement(taskbar, notification, task_band, start, more, width, height, gap) is Some,
    ensures
        ({
            let g1 = win11_placement(
                taskbar,
                notification,
                task_band,
                start,
                fewer,
                width,
                height,
                gap,
            )->0;
            let g2 = win11_placement(
                taskbar,
                notification,
                task_band,
                start,
                more,
                width,
                height,
                gap,
            )->0;
            &&& g2.x <= g1.x
            &&& g2.y == g1.y
            &&& g2.width == g1.width
            &&& g2.height == g1.height
        }),
{
    let band = embed_band(taskbar, notification, task_band, start, height, gap);
    let s1 = embed_spans(taskbar, notification, task_band, start, fewer, height, gap);
    let s2 = embed_spans(taskbar, notification, task_band, start, more, height, gap);
    assert forall|p: int| covered(s1, p) implies #[trigger] covered(s2, p) by {
        let j = choose|j: int| 0 <= j < s1.len() && (#[trigger] s1[j]).0 <= p && p < s1[j].1;
        lemma_span_origin(fewer, band, gap, fewer.len() as int, j);
        let k = choose|k: int|
            0 <= k < fewer.len() && #[trigger] blocker_span(fewer[k], band, gap) == Some(s1[j]);
        assert(more.contains(fewer[k]));
        let m = choose|m: int| 0 <= m < more.len() && more[m] == fewer[k];
        lemma_span_listed(more, band, gap, more.len() as int, m);
        let i = choose|i: int| 0 <= i < s2.len() && s2[i] == s1[j];
        assert(s2[i].0 <= p && p < s2[i].1);
    }
    let e1 = choose|e: int| #[trigger] best_end(s1, band.left, band.right, width, e);
    let e2 = choose|e: int| #[trigger] best_end(s2, band.left, band.right, width, e);
    assert(free_end(s2, band.left, e2, width));
    assert forall|p: int| e2 - width <= p < e2 implies !#[trigger] covered(s1, p) by {
        assert(!covered(s2, p));
    }
    assert(free_end(s1, band.left, e2, width));
    assert(e2 <= e1);
}

} // verus!
