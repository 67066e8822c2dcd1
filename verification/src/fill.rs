use vstd::prelude::*;

use crate::document::PaintDocument;
use crate::element::{FillElement, FillSpan};
use crate::indices::count_true;
use crate::model::{
    bits_at_least, bits_less, f32_bits_of, floor_u32_of_bits, PaintPoint, RgbaColor, Scalar,
};

verus! {

/// Colors whose channels all differ by at most this much count as the same for the fill.
pub const FILL_TOLERANCE: u8 = 6;

/// Why a bucket fill did not happen.
#[derive(Debug, Clone, Copy, PartialEq, Eq, Structural)]
pub enum FloodFillFailure {
    ActiveLayerNotEditable,
    OutsideCanvas,
    SameColor,
    RegionNotFound,
    RenderFailed,
}

impl FloodFillFailure {
    pub open spec fn spec_message(self) -> Seq<char> {
        match self {
            FloodFillFailure::ActiveLayerNotEditable => "現在のレイヤーは編集できません。表示とロックを確認してください。"@,
            FloodFillFailure::OutsideCanvas => "キャンバスの外は塗れません。"@,
            FloodFillFailure::SameColor => "同じ色なので見た目は変わりませんでした。"@,
            FloodFillFailure::RegionNotFound => "閉じた領域が見つかりませんでした。"@,
            FloodFillFailure::RenderFailed => "塗りの準備中に失敗しました。"@,
        }
    }

    /// The message shown to the user.
    pub fn message(self) -> (r: &'static str)
        ensures
            r@ == self.spec_message(),
    {
        match self {
            FloodFillFailure::ActiveLayerNotEditable => "現在のレイヤーは編集できません。表示とロックを確認してください。",
            FloodFillFailure::OutsideCanvas => "キャンバスの外は塗れません。",
            FloodFillFailure::SameColor => "同じ色なので見た目は変わりませんでした。",
            FloodFillFailure::RegionNotFound => "閉じた領域が見つかりませんでした。",
            FloodFillFailure::RenderFailed => "塗りの準備中に失敗しました。",
        }
    }
}

/// A bucket fill ready to be committed, with the number of pixels it covers.
#[derive(Debug, PartialEq)]
pub struct FloodFillResult {
    pub element: FillElement,
    pub pixel_count: usize,
}

/// Pixels `x_start..x_end` of row `y`, in canvas pixels.
#[derive(Debug, Clone, Copy, PartialEq, Eq, Structural)]
pub struct AbsoluteFillSpan {
    pub y: u32,
    pub x_start: u32,
    pub x_end: u32,
}

/// The color a region is grown over and how far a pixel may differ from it.
#[derive(Debug, Clone, Copy, PartialEq, Eq, Structural)]
pub struct FillMatchRule {
    pub target_color: RgbaColor,
    pub tolerance: u8,
}

/// A rendered drawing: `width` × `height` premultiplied RGBA pixels, row after row,
/// four bytes each.
#[derive(Debug)]
pub struct PixelGrid {
    pub width: u32,
    pub height: u32,
    pub data: Vec<u8>,
}

impl PixelGrid {
    /// The pixel count fits in `u32` and the bytes hold exactly the pixels.
    pub open spec fn wf(&self) -> bool {
        &&& self.width * self.height <= u32::MAX
        &&& self.data@.len() == 4 * (self.width * self.height)
    }
}

/// What `tiny_skia::PremultipliedColorU8::demultiply` makes of the premultiplied color
/// `(r, g, b, a)`.
pub uninterp spec fn demultiplied(r: u8, g: u8, b: u8, a: u8) -> RgbaColor;

/// Builds a `tiny_skia::PremultipliedColorU8` from the four bytes and demultiplies it.
/// As the crate's source shows, the color exists exactly when no color channel exceeds
/// alpha, demultiplying keeps alpha, and an opaque color is returned as it is; the
/// rounding of the other channels is left to the crate.
#[verifier::external_body]
fn demultiply_pixel(r: u8, g: u8, b: u8, a: u8) -> (c: Option<RgbaColor>)
    ensures
        c is Some <==> (r <= a && g <= a && b <= a),
        c matches Some(v) ==> v == demultiplied(r, g, b, a),
        c matches Some(v) ==> v.a == a,
        c matches Some(v) ==> (a == 255 ==> v == RgbaColor { r, g, b, a }),
{
    let color = tiny_skia::PremultipliedColorU8::from_rgba(r, g, b, a)?;
    let d = color.demultiply();
    Some(RgbaColor { r: d.red(), g: d.green(), b: d.blue(), a: d.alpha() })
}

/// The straight color of the pixel at index `y * width + x`, as `Pixmap::pixel` finds it
/// (the index is computed in `u32`, so an `x` past the row end reads the next row);
/// `None` past the data or for bytes that are no premultiplied color.
pub open spec fn grid_pixel(g: &PixelGrid, x: int, y: int) -> Option<RgbaColor> {
    let i = y * g.width + x;
    if 0 <= x <= u32::MAX && 0 <= y <= u32::MAX && g.width * y <= u32::MAX && i <= u32::MAX
        && i < g.width * g.height {
        let r = g.data@[4 * i];
        let gr = g.data@[4 * i + 1];
        let b = g.data@[4 * i + 2];
        let a = g.data@[4 * i + 3];
        if r <= a && gr <= a && b <= a {
            Some(demultiplied(r, gr, b, a))
        } else {
            None
        }
    } else {
        None
    }
}

pub open spec fn distance(a: u8, b: u8) -> int {
    if a >= b {
        a - b
    } else {
        b - a
    }
}

/// Every channel of `a` is within `tolerance` of the same channel of `b`.
pub open spec fn within_tolerance(a: RgbaColor, b: RgbaColor, tolerance: u8) -> bool {
    &&& distance(a.r, b.r) <= tolerance
    &&& distance(a.g, b.g) <= tolerance
    &&& distance(a.b, b.b) <= tolerance
    &&& distance(a.a, b.a) <= tolerance
}

/// Index of pixel `(x, y)` in a row-by-row grid of the given width.
pub fn pixel_index(width: u32, x: u32, y: u32) -> (r: usize)
    requires
        y * width + x <= u32::MAX,
    ensures
        r == y * width + x,
{
    assert(y * width <= u32::MAX) by (nonlinear_arith)
        requires
            y * width + x <= u32::MAX,
            x >= 0,
    ;
    (y * width + x) as usize
}

/// The straight color of the pixel at `(x, y)`; see `grid_pixel`.
pub fn pixel_color(grid: &PixelGrid, x: u32, y: u32) -> (r: Option<RgbaColor>)
    requires
        grid.wf(),
    ensures
        r == grid_pixel(grid, x as int, y as int),
{
    let row = match grid.width.checked_mul(y) {
        Some(v) => v,
        None => return None,
    };
    let index = match row.checked_add(x) {
        Some(v) => v,
        None => return None,
    };
    assert(grid.width * y == y * grid.width) by (nonlinear_arith);
    if index >= grid.width * grid.height {
        return None;
    }
    let n = grid.data.len();
    assert(4 * index + 3 < n);
    let k = 4 * (index as usize);
    demultiply_pixel(grid.data[k], grid.data[k + 1], grid.data[k + 2], grid.data[k + 3])
}

/// How far apart two channel values are.
pub fn channel_distance(left: u8, right: u8) -> (r: u8)
    ensures
        r == distance(left, right),
{
    if left >= right {
        left - right
    } else {
        right - left
    }
}

/// Every channel of `left` is within `tolerance` of the same channel of `right`.
pub fn rgba_within_tolerance(left: RgbaColor, right: RgbaColor, tolerance: u8) -> (r: bool)
    ensures
        r == within_tolerance(left, right, tolerance),
{
    channel_distance(left.r, right.r) <= tolerance && channel_distance(left.g, right.g)
        <= tolerance && channel_distance(left.b, right.b) <= tolerance && channel_distance(
        left.a,
        right.a,
    ) <= tolerance
}

/// `(x, y)` lies on the grid.
pub open spec fn in_grid(g: &PixelGrid, x: int, y: int) -> bool {
    0 <= x < g.width && 0 <= y < g.height
}

/// The pixel at `(x, y)` lies on the grid and its color is within the rule's tolerance
/// of the rule's color.
pub open spec fn matching(g: &PixelGrid, rule: FillMatchRule, x: int, y: int) -> bool {
    &&& in_grid(g, x, y)
    &&& grid_pixel(g, x, y) matches Some(c) && within_tolerance(
        c,
        rule.target_color,
        rule.tolerance,
    )
}

/// The two pixels share an edge.
pub open spec fn adjacent(a: (int, int), b: (int, int)) -> bool {
    ||| a.1 == b.1 && (a.0 == b.0 + 1 || b.0 == a.0 + 1)
    ||| a.0 == b.0 && (a.1 == b.1 + 1 || b.1 == a.1 + 1)
}

/// A walk from pixel to edge-sharing pixel over matching pixels only.
pub open spec fn fill_path(g: &PixelGrid, rule: FillMatchRule, path: Seq<(int, int)>) -> bool {
    &&& path.len() > 0
    &&& forall|i: int| 0 <= i < path.len() ==> matching(g, rule, #[trigger] path[i].0, path[i].1)
    &&& forall|i: int| 0 <= i < path.len() - 1 ==> adjacent(#[trigger] path[i], path[i + 1])
}

/// `p` can be reached from `seed` over matching pixels: it belongs to the region a fill
/// started at `seed` covers.
pub open spec fn reachable(g: &PixelGrid, rule: FillMatchRule, seed: (int, int), p: (int, int)) -> bool {
    exists|path: Seq<(int, int)>| #[trigger] fill_path(g, rule, path) && path[0] == seed
        && path.last() == p
}

proof fn lemma_reach_start(g: &PixelGrid, rule: FillMatchRule, seed: (int, int))
    requires
        matching(g, rule, seed.0, seed.1),
    ensures
        reachable(g, rule, seed, seed),
{
    let path = seq![seed];
    assert(fill_path(g, rule, path));
}

proof fn lemma_reach_step(g: &PixelGrid, rule: FillMatchRule, seed: (int, int), p: (int, int), q: (int, int))
    requires
        reachable(g, rule, seed, p),
        matching(g, rule, q.0, q.1),
        adjacent(p, q),
    ensures
        reachable(g, rule, seed, q),
{
    let path = choose|path: Seq<(int, int)>| #[trigger] fill_path(g, rule, path) && path[0] == seed
        && path.last() == p;
    let next = path.push(q);
    assert forall|i: int| 0 <= i < next.len() implies matching(g, rule, #[trigger] next[i].0, next[i].1) by {
        if i < path.len() {
            assert(next[i] == path[i]);
        }
    }
    assert forall|i: int| 0 <= i < next.len() - 1 implies adjacent(#[trigger] next[i], next[i + 1]) by {
        if i < path.len() - 1 {
            assert(next[i] == path[i] && next[i + 1] == path[i + 1]);
        } else {
            assert(next[i] == p);
        }
    }
    assert(fill_path(g, rule, next));
}

/// Walking along a row of matching pixels keeps them reachable.
proof fn lemma_reach_row(g: &PixelGrid, rule: FillMatchRule, seed: (int, int), a: int, b: int, y: int)
    requires
        reachable(g, rule, seed, (a, y)),
        forall|t: int| #![trigger matching(g, rule, t, y)]
            (a <= t <= b || b <= t <= a) ==> matching(g, rule, t, y),
    ensures
        reachable(g, rule, seed, (b, y)),
    decreases if a <= b {
        b - a
    } else {
        a - b
    },
{
    if a < b {
        lemma_reach_row(g, rule, seed, a, b - 1, y);
        assert(matching(g, rule, b, y));
        lemma_reach_step(g, rule, seed, (b - 1, y), (b, y));
    } else if b < a {
        lemma_reach_row(g, rule, seed, a, b + 1, y);
        assert(matching(g, rule, b, y));
        lemma_reach_step(g, rule, seed, (b + 1, y), (b, y));
    }
}

/// Position of pixel `(x, y)` in a row-by-row sequence.
pub open spec fn flat_index(g: &PixelGrid, x: int, y: int) -> int {
    y * g.width + x
}

proof fn lemma_flat_index(g: &PixelGrid, x: int, y: int)
    requires
        in_grid(g, x, y),
    ensures
        0 <= flat_index(g, x, y) < g.width * g.height,
        flat_index(g, x, y) <= u32::MAX || g.width * g.height > u32::MAX,
{
    assert(0 <= y * g.width + x < g.width * g.height) by (nonlinear_arith)
        requires
            0 <= x < g.width,
            0 <= y < g.height,
    ;
}

proof fn lemma_flat_index_injective(g: &PixelGrid, x1: int, y1: int, x2: int, y2: int)
    requires
        in_grid(g, x1, y1),
        in_grid(g, x2, y2),
        flat_index(g, x1, y1) == flat_index(g, x2, y2),
    ensures
        x1 == x2,
        y1 == y2,
{
    let w = g.width as int;
    assert(y1 == y2) by (nonlinear_arith)
        requires
            0 <= x1 < w,
            0 <= x2 < w,
            y1 * w + x1 == y2 * w + x2,
            y1 >= 0,
            y2 >= 0,
    {
        if y1 < y2 {
            assert(y1 * w + w <= y2 * w);
        } else if y2 < y1 {
            assert(y2 * w + w <= y1 * w);
        }
    }
}

/// The pixel lies on the grid and is marked in `vis`.
pub open spec fn marked(g: &PixelGrid, vis: Seq<bool>, x: int, y: int) -> bool {
    in_grid(g, x, y) && vis[flat_index(g, x, y)]
}

/// A matching pixel that is not marked yet.
pub open spec fn open_pixel(g: &PixelGrid, rule: FillMatchRule, vis: Seq<bool>, x: int, y: int) -> bool {
    matching(g, rule, x, y) && !vis[flat_index(g, x, y)]
}

/// The pixel shares an edge with a marked pixel.
pub open spec fn touches_marked(g: &PixelGrid, vis: Seq<bool>, x: int, y: int) -> bool {
    ||| marked(g, vis, x - 1, y)
    ||| marked(g, vis, x + 1, y)
    ||| marked(g, vis, x, y - 1)
    ||| marked(g, vis, x, y + 1)
}

/// Every pixel of row `y` from `a` to `b` (either way round) is open.
pub open spec fn open_run(g: &PixelGrid, rule: FillMatchRule, vis: Seq<bool>, y: int, a: int, b: int) -> bool {
    forall|t: int| #![trigger open_pixel(g, rule, vis, t, y)]
        (a <= t <= b || b <= t <= a) ==> open_pixel(g, rule, vis, t, y)
}

/// Some queued pixel at or after `head` lies in row `y` and reaches `x` over open
/// pixels of that row.
pub open spec fn witnessed(
    g: &PixelGrid,
    rule: FillMatchRule,
    vis: Seq<bool>,
    queue: Seq<(u32, u32)>,
    head: int,
    x: int,
    y: int,
) -> bool {
    exists|j: int|
        head <= j < queue.len() && queue[j].1 == y && #[trigger] open_run(
            g,
            rule,
            vis,
            y,
            queue[j].0 as int,
            x,
        )
}

/// Pixels of row `ey` from `left` to `right` are exempt.
pub open spec fn excused(x: int, y: int, ey: int, left: int, right: int) -> bool {
    y == ey && left <= x <= right
}

/// Every open pixel next to a marked one, but for the exempt ones, is witnessed by the
/// queue.
pub open spec fn frontier(
    g: &PixelGrid,
    rule: FillMatchRule,
    vis: Seq<bool>,
    queue: Seq<(u32, u32)>,
    head: int,
    e1: int,
    e2: int,
    left: int,
    right: int,
) -> bool {
    forall|x: int, y: int|
        #![trigger open_pixel(g, rule, vis, x, y)]
        open_pixel(g, rule, vis, x, y) && touches_marked(g, vis, x, y) && !excused(
            x,
            y,
            e1,
            left,
            right,
        ) && !excused(x, y, e2, left, right) ==> witnessed(g, rule, vis, queue, head, x, y)
}

/// Whether pixel `(x, y)` is matching and not yet marked in `visited`.
fn is_open_pixel(grid: &PixelGrid, visited: &Vec<bool>, rule: FillMatchRule, x: u32, y: u32) -> (r: bool)
    requires
        grid.wf(),
        visited@.len() == grid.width * grid.height,
        x < grid.width,
        y < grid.height,
    ensures
        r == open_pixel(grid, rule, visited@, x as int, y as int),
{
    proof {
        lemma_flat_index(grid, x as int, y as int);
    }
    let index = pixel_index(grid.width, x, y);
    if visited[index] {
        return false;
    }
    match pixel_color(grid, x, y) {
        Some(color) => rgba_within_tolerance(color, rule.target_color, rule.tolerance),
        None => false,
    }
}

/// Queues the first pixel of every run of open pixels in row `y` between `start` and
/// `end`, so that each open pixel there is reached along its row from a queued pixel.
fn enqueue_adjacent_matches(
    grid: &PixelGrid,
    visited: &Vec<bool>,
    queue: &mut Vec<(u32, u32)>,
    start: u32,
    end: u32,
    y: u32,
    rule: FillMatchRule,
)
    requires
        grid.wf(),
        visited@.len() == grid.width * grid.height,
        start <= end < grid.width,
        y < grid.height,
    ensures
        final(queue)@.len() >= old(queue)@.len(),
        final(queue)@.subrange(0, old(queue)@.len() as int) == old(queue)@,
        forall|j: int|
            old(queue)@.len() <= j < final(queue)@.len() ==> (#[trigger] final(queue)@[j]).1 == y
                && start <= final(queue)@[j].0 <= end && open_pixel(
                grid,
                rule,
                visited@,
                final(queue)@[j].0 as int,
                y as int,
            ),
        forall|t: int|
            #![trigger open_pixel(grid, rule, visited@, t, y as int)]
            start <= t <= end && open_pixel(grid, rule, visited@, t, y as int) ==> exists|j: int|
                old(queue)@.len() <= j < final(queue)@.len() && final(queue)@[j].1 == y
                    && #[trigger] open_run(grid, rule, visited@, y as int, final(queue)@[j].0 as int, t),
{
    let ghost q0 = queue@;
    let mut x = start;
    while x <= end
        invariant
            grid.wf(),
            visited@.len() == grid.width * grid.height,
            start <= x <= end + 1,
            end < grid.width,
            y < grid.height,
            queue@.len() >= q0.len(),
            queue@.subrange(0, q0.len() as int) == q0,
            forall|j: int|
                q0.len() <= j < queue@.len() ==> (#[trigger] queue@[j]).1 == y && start
                    <= queue@[j].0 < x && open_pixel(grid, rule, visited@, queue@[j].0 as int, y as int),
            forall|t: int|
                #![trigger open_pixel(grid, rule, visited@, t, y as int)]
                start <= t < x && open_pixel(grid, rule, visited@, t, y as int) ==> exists|j: int|
                    q0.len() <= j < queue@.len() && queue@[j].1 == y
                        && #[trigger] open_run(grid, rule, visited@, y as int, queue@[j].0 as int, t),
        decreases end + 1 - x,
    {
        if is_open_pixel(grid, visited, rule, x, y) {
            let ghost before = queue@;
            queue.push((x, y));
            let ghost s = x;
            let ghost js = before.len() as int;
            proof {
                assert(queue@.subrange(0, q0.len() as int) =~= before.subrange(0, q0.len() as int));
                assert forall|t: int|
                    #![trigger open_pixel(grid, rule, visited@, t, y as int)]
                    start <= t < x && open_pixel(grid, rule, visited@, t, y as int) implies exists|j: int|
                        q0.len() <= j < queue@.len() && queue@[j].1 == y
                            && #[trigger] open_run(grid, rule, visited@, y as int, queue@[j].0 as int, t) by {
                    let j = choose|j: int|
                        q0.len() <= j < before.len() && before[j].1 == y
                            && #[trigger] open_run(grid, rule, visited@, y as int, before[j].0 as int, t);
                    assert(queue@[j] == before[j]);
                }
            }
            x = x + 1;
            while x <= end && is_open_pixel(grid, visited, rule, x, y)
                invariant
                    grid.wf(),
                    visited@.len() == grid.width * grid.height,
                    start <= s < x <= end + 1,
                    end < grid.width,
                    y < grid.height,
                    queue@.len() == js + 1,
                    queue@[js] == (s, y),
                    js >= q0.len(),
                    open_run(grid, rule, visited@, y as int, s as int, x - 1),
                decreases end + 1 - x,
            {
                x = x + 1;
            }
            proof {
                assert forall|t: int|
                    #![trigger open_pixel(grid, rule, visited@, t, y as int)]
                    start <= t < x && open_pixel(grid, rule, visited@, t, y as int) implies exists|j: int|
                        q0.len() <= j < queue@.len() && queue@[j].1 == y
                            && #[trigger] open_run(grid, rule, visited@, y as int, queue@[j].0 as int, t) by {
                    if t >= s {
                        assert(open_run(grid, rule, visited@, y as int, queue@[js].0 as int, t));
                    }
                }
            }
        } else {
            x = x + 1;
        }
    }
}

/// The span holds pixel `(x, y)`.
pub open spec fn in_span(sp: AbsoluteFillSpan, x: int, y: int) -> bool {
    y == sp.y && sp.x_start <= x < sp.x_end
}

/// Some span holds pixel `(x, y)`.
pub open spec fn covered(spans: Seq<AbsoluteFillSpan>, x: int, y: int) -> bool {
    exists|k: int| 0 <= k < spans.len() && #[trigger] in_span(spans[k], x, y)
}

/// No two spans share a pixel.
pub open spec fn spans_disjoint(spans: Seq<AbsoluteFillSpan>) -> bool {
    forall|i: int, j: int|
        0 <= i < j < spans.len() ==> (#[trigger] spans[i]).y != (#[trigger] spans[j]).y
            || spans[i].x_end <= spans[j].x_start || spans[j].x_end <= spans[i].x_start
}

/// Every span is non-empty and lies on the grid.
pub open spec fn spans_on_grid(g: &PixelGrid, spans: Seq<AbsoluteFillSpan>) -> bool {
    forall|k: int|
        0 <= k < spans.len() ==> (#[trigger] spans[k]).x_start < spans[k].x_end <= g.width
            && spans[k].y < g.height
}

/// Number of pixels the spans hold, counted span by span.
pub open spec fn span_total(spans: Seq<AbsoluteFillSpan>) -> nat
    decreases spans.len(),
{
    if spans.len() == 0 {
        0
    } else {
        span_total(spans.drop_last()) + (spans.last().x_end - spans.last().x_start) as nat
    }
}

proof fn lemma_count_true_bound(flags: Seq<bool>)
    ensures
        count_true(flags) <= flags.len(),
    decreases flags.len(),
{
    if flags.len() > 0 {
        lemma_count_true_bound(flags.drop_last());
    }
}

proof fn lemma_count_true_set(flags: Seq<bool>, i: int)
    requires
        0 <= i < flags.len(),
        !flags[i],
    ensures
        count_true(flags.update(i, true)) == count_true(flags) + 1,
    decreases flags.len(),
{
    let u = flags.update(i, true);
    if i == flags.len() - 1 {
        assert(u.drop_last() =~= flags.drop_last());
    } else {
        assert(u.drop_last() =~= flags.drop_last().update(i, true));
        lemma_count_true_set(flags.drop_last(), i);
    }
}

/// A run of open pixels that meets a maximal run `left..=right` lies inside it.
proof fn lemma_run_inside_block(
    g: &PixelGrid,
    rule: FillMatchRule,
    vis: Seq<bool>,
    y: int,
    a: int,
    b: int,
    t: int,
    left: int,
    right: int,
)
    requires
        open_run(g, rule, vis, y, a, b),
        a <= t <= b || b <= t <= a,
        left <= t <= right,
        left == 0 || !open_pixel(g, rule, vis, left - 1, y),
        right + 1 == g.width || !open_pixel(g, rule, vis, right + 1, y),
    ensures
        left <= a <= right,
        left <= b <= right,
{
    assert(open_pixel(g, rule, vis, a, y));
    assert(open_pixel(g, rule, vis, b, y));
    if a < left || b < left {
        assert(open_pixel(g, rule, vis, left - 1, y));
    }
    if a > right || b > right {
        assert(open_pixel(g, rule, vis, right + 1, y));
    }
}

/// Marking the maximal open run `left..=right` of row `y`, found from the queued pixel
/// at `head`, keeps every open pixel next to a marked one witnessed, but for those
/// right above and below the run.
proof fn lemma_fill_frontier(
    g: &PixelGrid,
    rule: FillMatchRule,
    vis0: Seq<bool>,
    vis1: Seq<bool>,
    queue: Seq<(u32, u32)>,
    head: int,
    y: int,
    left: int,
    right: int,
)
    requires
        vis0.len() == g.width * g.height,
        vis1.len() == vis0.len(),
        frontier(g, rule, vis0, queue, head, -1, -1, 0, 0),
        0 <= head < queue.len(),
        queue[head].1 == y,
        left <= queue[head].0 <= right,
        open_run(g, rule, vis0, y, left, right),
        left == 0 || !open_pixel(g, rule, vis0, left - 1, y),
        right + 1 == g.width || !open_pixel(g, rule, vis0, right + 1, y),
        forall|x: int, yy: int|
            #![trigger vis1[flat_index(g, x, yy)]]
            in_grid(g, x, yy) ==> vis1[flat_index(g, x, yy)] == (vis0[flat_index(g, x, yy)] || (
            yy == y && left <= x <= right)),
    ensures
        frontier(g, rule, vis1, queue, head + 1, y - 1, y + 1, left, right),
{
    assert forall|px: int, py: int|
        #![trigger open_pixel(g, rule, vis1, px, py)]
        open_pixel(g, rule, vis1, px, py) && touches_marked(g, vis1, px, py) && !excused(
            px,
            py,
            y - 1,
            left,
            right,
        ) && !excused(px, py, y + 1, left, right) implies witnessed(
        g,
        rule,
        vis1,
        queue,
        head + 1,
        px,
        py,
    ) by {
        assert(vis1[flat_index(g, px, py)] == (vis0[flat_index(g, px, py)] || (py == y && left
            <= px <= right)));
        assert(open_pixel(g, rule, vis0, px, py));
        assert(!(py == y && left <= px <= right));
        if touches_marked(g, vis0, px, py) {
            assert(!excused(px, py, -1, 0, 0));
            let j = choose|j: int|
                head <= j < queue.len() && queue[j].1 == py && #[trigger] open_run(
                    g,
                    rule,
                    vis0,
                    py,
                    queue[j].0 as int,
                    px,
                );
            let a = queue[j].0 as int;
            if py == y {
                let lo = if a <= px {
                    a
                } else {
                    px
                };
                let hi = if a <= px {
                    px
                } else {
                    a
                };
                let t = if lo >= left {
                    lo
                } else {
                    left
                };
                if t <= hi && t <= right {
                    lemma_run_inside_block(g, rule, vis0, y, a, px, t, left, right);
                }
            }
            if j == head {
                assert(py == y);
                let t = queue[head].0 as int;
                lemma_run_inside_block(g, rule, vis0, y, a, px, t, left, right);
            }
            assert forall|t: int|
                #![trigger open_pixel(g, rule, vis1, t, py)]
                (a <= t <= px || px <= t <= a) implies open_pixel(g, rule, vis1, t, py) by {
                assert(open_pixel(g, rule, vis0, t, py));
                assert(vis1[flat_index(g, t, py)] == (vis0[flat_index(g, t, py)] || (py == y
                    && left <= t <= right)));
            }
            assert(open_run(g, rule, vis1, py, a, px));
        } else {
            if marked(g, vis1, px - 1, py) {
                assert(vis1[flat_index(g, px - 1, py)] == (vis0[flat_index(g, px - 1, py)] || (py
                    == y && left <= px - 1 <= right)));
                assert(px == right + 1);
            } else if marked(g, vis1, px + 1, py) {
                assert(vis1[flat_index(g, px + 1, py)] == (vis0[flat_index(g, px + 1, py)] || (py
                    == y && left <= px + 1 <= right)));
                assert(px == left - 1);
            } else if marked(g, vis1, px, py - 1) {
                assert(vis1[flat_index(g, px, py - 1)] == (vis0[flat_index(g, px, py - 1)] || (py
                    - 1 == y && left <= px <= right)));
            } else {
                assert(vis1[flat_index(g, px, py + 1)] == (vis0[flat_index(g, px, py + 1)] || (py
                    + 1 == y && left <= px <= right)));
            }
        }
    }
}

/// Queuing the open runs of row `ey` over `left..=right` settles the pixels of that row
/// that were exempt.
proof fn lemma_enqueue_frontier(
    g: &PixelGrid,
    rule: FillMatchRule,
    vis: Seq<bool>,
    q0: Seq<(u32, u32)>,
    q1: Seq<(u32, u32)>,
    head: int,
    ey: int,
    other: int,
    left: int,
    right: int,
)
    requires
        frontier(g, rule, vis, q0, head, ey, other, left, right),
        0 <= head <= q0.len(),
        q1.len() >= q0.len(),
        q1.subrange(0, q0.len() as int) == q0,
        forall|t: int|
            #![trigger open_pixel(g, rule, vis, t, ey)]
            left <= t <= right && open_pixel(g, rule, vis, t, ey) ==> exists|j: int|
                q0.len() <= j < q1.len() && q1[j].1 == ey && #[trigger] open_run(
                    g,
                    rule,
                    vis,
                    ey,
                    q1[j].0 as int,
                    t,
                ),
    ensures
        frontier(g, rule, vis, q1, head, -1, other, left, right),
{
    assert forall|px: int, py: int|
        #![trigger open_pixel(g, rule, vis, px, py)]
        open_pixel(g, rule, vis, px, py) && touches_marked(g, vis, px, py) && !excused(
            px,
            py,
            -1,
            left,
            right,
        ) && !excused(px, py, other, left, right) implies witnessed(
        g,
        rule,
        vis,
        q1,
        head,
        px,
        py,
    ) by {
        if excused(px, py, ey, left, right) {
            let j = choose|j: int|
                q0.len() <= j < q1.len() && q1[j].1 == ey && #[trigger] open_run(
                    g,
                    rule,
                    vis,
                    ey,
                    q1[j].0 as int,
                    px,
                );
        } else {
            let j = choose|j: int|
                head <= j < q0.len() && q0[j].1 == py && #[trigger] open_run(
                    g,
                    rule,
                    vis,
                    py,
                    q0[j].0 as int,
                    px,
                );
            assert(q1[j] == q1.subrange(0, q0.len() as int)[j]);
        }
    }
}

/// A row with no pixel on the grid needs no queuing.
proof fn lemma_frontier_off_grid_row(
    g: &PixelGrid,
    rule: FillMatchRule,
    vis: Seq<bool>,
    q: Seq<(u32, u32)>,
    head: int,
    ey: int,
    other: int,
    left: int,
    right: int,
)
    requires
        frontier(g, rule, vis, q, head, ey, other, left, right),
        ey < 0 || ey >= g.height,
    ensures
        frontier(g, rule, vis, q, head, -1, other, left, right),
{
}

/// With nothing exempt, the bounds of the exemption do not matter.
proof fn lemma_frontier_plain(
    g: &PixelGrid,
    rule: FillMatchRule,
    vis: Seq<bool>,
    q: Seq<(u32, u32)>,
    head: int,
    left: int,
    right: int,
)
    requires
        frontier(g, rule, vis, q, head, -1, -1, left, right),
    ensures
        frontier(g, rule, vis, q, head, -1, -1, 0, 0),
{
}

/// Dropping a queued pixel that is not open keeps every witness.
proof fn lemma_frontier_skip(
    g: &PixelGrid,
    rule: FillMatchRule,
    vis: Seq<bool>,
    q: Seq<(u32, u32)>,
    head: int,
)
    requires
        frontier(g, rule, vis, q, head, -1, -1, 0, 0),
        0 <= head < q.len(),
        !open_pixel(g, rule, vis, q[head].0 as int, q[head].1 as int),
    ensures
        frontier(g, rule, vis, q, head + 1, -1, -1, 0, 0),
{
    assert forall|px: int, py: int|
        #![trigger open_pixel(g, rule, vis, px, py)]
        open_pixel(g, rule, vis, px, py) && touches_marked(g, vis, px, py) && !excused(
            px,
            py,
            -1,
            0,
            0,
        ) && !excused(px, py, -1, 0, 0) implies witnessed(g, rule, vis, q, head + 1, px, py) by {
        let j = choose|j: int|
            head <= j < q.len() && q[j].1 == py && #[trigger] open_run(
                g,
                rule,
                vis,
                py,
                q[j].0 as int,
                px,
            );
        if j == head {
            assert(open_pixel(g, rule, vis, q[j].0 as int, py));
        }
    }
}

/// Once nothing is queued, every pixel reached from a marked seed is marked.
proof fn lemma_closed_region(
    g: &PixelGrid,
    rule: FillMatchRule,
    vis: Seq<bool>,
    q: Seq<(u32, u32)>,
    seed: (int, int),
    path: Seq<(int, int)>,
)
    requires
        frontier(g, rule, vis, q, q.len() as int, -1, -1, 0, 0),
        fill_path(g, rule, path),
        path[0] == seed,
        marked(g, vis, seed.0, seed.1),
    ensures
        marked(g, vis, path.last().0, path.last().1),
    decreases path.len(),
{
    if path.len() > 1 {
        let prefix = path.drop_last();
        assert forall|i: int| 0 <= i < prefix.len() implies matching(
            g,
            rule,
            #[trigger] prefix[i].0,
            prefix[i].1,
        ) by {
            assert(prefix[i] == path[i]);
        }
        assert forall|i: int| 0 <= i < prefix.len() - 1 implies adjacent(
            #[trigger] prefix[i],
            prefix[i + 1],
        ) by {
            assert(prefix[i] == path[i] && prefix[i + 1] == path[i + 1]);
        }
        lemma_closed_region(g, rule, vis, q, seed, prefix);
        let n = path.len() - 1;
        let p = path[n - 1];
        let l = path[n];
        assert(prefix.last() == p);
        assert(adjacent(path[n - 1], path[n]));
        assert(matching(g, rule, path[n].0, path[n].1));
        if !marked(g, vis, l.0, l.1) {
            assert(open_pixel(g, rule, vis, l.0, l.1));
            assert(touches_marked(g, vis, l.0, l.1));
            assert(!witnessed(g, rule, vis, q, q.len() as int, l.0, l.1));
        }
    }
}

proof fn lemma_frontier_swap(
    g: &PixelGrid,
    rule: FillMatchRule,
    vis: Seq<bool>,
    q: Seq<(u32, u32)>,
    head: int,
    e1: int,
    e2: int,
    left: int,
    right: int,
)
    requires
        frontier(g, rule, vis, q, head, e1, e2, left, right),
    ensures
        frontier(g, rule, vis, q, head, e2, e1, left, right),
{
}

proof fn lemma_count_true_none(flags: Seq<bool>)
    requires
        forall|i: int| 0 <= i < flags.len() ==> !flags[i],
    ensures
        count_true(flags) == 0,
    decreases flags.len(),
{
    if flags.len() > 0 {
        lemma_count_true_none(flags.drop_last());
    }
}

/// `n` unmarked flags.
fn unmarked(n: usize) -> (v: Vec<bool>)
    ensures
        v@.len() == n,
        forall|i: int| 0 <= i < n ==> !v@[i],
{
    let mut v: Vec<bool> = Vec::new();
    let mut i: usize = 0;
    while i < n
        invariant
            i <= n,
            v@.len() == i,
            forall|k: int| 0 <= k < i ==> !v@[k],
        decreases n - i,
    {
        v.push(false);
        i += 1;
    }
    v
}

/// What the growing loop keeps: marks and spans agree, spans are disjoint and on the
/// grid, everything marked or queued and matching is reachable from the seed, the seed
/// is marked or still queued, and the marks count the span pixels.
pub open spec fn region_ok(
    g: &PixelGrid,
    rule: FillMatchRule,
    seed: (int, int),
    vis: Seq<bool>,
    queue: Seq<(u32, u32)>,
    head: int,
    spans: Seq<AbsoluteFillSpan>,
) -> bool {
    &&& vis.len() == g.width * g.height
    &&& 0 <= head <= queue.len()
    &&& forall|j: int|
        0 <= j < queue.len() ==> (#[trigger] queue[j]).0 < g.width && queue[j].1 < g.height
    &&& spans_on_grid(g, spans)
    &&& spans_disjoint(spans)
    &&& forall|x: int, y: int|
        #![trigger marked(g, vis, x, y)]
        #![trigger covered(spans, x, y)]
        marked(g, vis, x, y) <==> covered(spans, x, y)
    &&& forall|x: int, y: int|
        #![trigger marked(g, vis, x, y)]
        marked(g, vis, x, y) ==> reachable(g, rule, seed, (x, y))
    &&& forall|j: int|
        head <= j < queue.len() && matching(g, rule, (#[trigger] queue[j]).0 as int, queue[j].1 as int)
            ==> reachable(g, rule, seed, (queue[j].0 as int, queue[j].1 as int))
    &&& matching(g, rule, seed.0, seed.1) ==> marked(g, vis, seed.0, seed.1) || exists|j: int|
        head <= j < queue.len() && queue[j].0 == seed.0 && queue[j].1 == seed.1
    &&& span_total(spans) == count_true(vis)
}

proof fn lemma_region_skip(
    g: &PixelGrid,
    rule: FillMatchRule,
    seed: (int, int),
    vis: Seq<bool>,
    queue: Seq<(u32, u32)>,
    head: int,
    spans: Seq<AbsoluteFillSpan>,
)
    requires
        g.wf(),
        region_ok(g, rule, seed, vis, queue, head, spans),
        frontier(g, rule, vis, queue, head, -1, -1, 0, 0),
        head < queue.len(),
        !open_pixel(g, rule, vis, queue[head].0 as int, queue[head].1 as int),
    ensures
        region_ok(g, rule, seed, vis, queue, head + 1, spans),
        frontier(g, rule, vis, queue, head + 1, -1, -1, 0, 0),
{
    lemma_frontier_skip(g, rule, vis, queue, head);
    if matching(g, rule, seed.0, seed.1) && !marked(g, vis, seed.0, seed.1) {
        let j = choose|j: int| head <= j < queue.len() && queue[j].0 == seed.0 && queue[j].1 == seed.1;
        if j == head {
            assert(open_pixel(g, rule, vis, seed.0, seed.1));
        }
    }
}

/// Marks the open run `left..=right` of row `y`.
fn mark_run(grid: &PixelGrid, visited: &mut Vec<bool>, rule: FillMatchRule, left: u32, right: u32, y: u32)
    requires
        grid.wf(),
        old(visited)@.len() == grid.width * grid.height,
        left <= right < grid.width,
        y < grid.height,
        open_run(grid, rule, old(visited)@, y as int, left as int, right as int),
    ensures
        final(visited)@.len() == old(visited)@.len(),
        forall|px: int, py: int|
            #![trigger final(visited)@[flat_index(grid, px, py)]]
            in_grid(grid, px, py) ==> final(visited)@[flat_index(grid, px, py)] == (old(
                visited,
            )@[flat_index(grid, px, py)] || (py == y && left <= px <= right)),
        count_true(final(visited)@) == count_true(old(visited)@) + (right - left + 1),
{
    let ghost vis0 = visited@;
    let mut fx = left;
    while fx <= right
        invariant
            grid.wf(),
            visited@.len() == vis0.len(),
            vis0.len() == grid.width * grid.height,
            left <= fx <= right + 1,
            right < grid.width,
            y < grid.height,
            forall|px: int, py: int|
                #![trigger visited@[flat_index(grid, px, py)]]
                in_grid(grid, px, py) ==> visited@[flat_index(grid, px, py)] == (vis0[flat_index(
                    grid,
                    px,
                    py,
                )] || (py == y && left <= px < fx)),
            count_true(visited@) == count_true(vis0) + (fx - left),
            open_run(grid, rule, vis0, y as int, left as int, right as int),
        decreases right + 1 - fx,
    {
        proof {
            lemma_flat_index(grid, fx as int, y as int);
        }
        let index = pixel_index(grid.width, fx, y);
        proof {
            assert(open_pixel(grid, rule, vis0, fx as int, y as int));
            assert(visited@[flat_index(grid, fx as int, y as int)] == (vis0[flat_index(
                grid,
                fx as int,
                y as int,
            )] || (y == y && left <= fx < fx)));
            lemma_count_true_set(visited@, index as int);
        }
        let ghost before = visited@;
        visited.set(index, true);
        proof {
            assert forall|px: int, py: int|
                #![trigger visited@[flat_index(grid, px, py)]]
                in_grid(grid, px, py) implies visited@[flat_index(grid, px, py)] == (vis0[flat_index(
                    grid,
                    px,
                    py,
                )] || (py == y && left <= px < fx + 1)) by {
                lemma_flat_index(grid, px, py);
                assert(before[flat_index(grid, px, py)] == (vis0[flat_index(grid, px, py)] || (py
                    == y && left <= px < fx)));
                if flat_index(grid, px, py) == index as int {
                    lemma_flat_index_injective(grid, px, py, fx as int, y as int);
                }
            }
        }
        fx = fx + 1;
    }
}

/// Marking the maximal open run around the queued pixel at `head` and recording it as
/// a span keeps the loop's facts, with the rows right above and below the run left to
/// queue.
proof fn lemma_region_fill(
    g: &PixelGrid,
    rule: FillMatchRule,
    seed: (int, int),
    vis0: Seq<bool>,
    vis1: Seq<bool>,
    queue: Seq<(u32, u32)>,
    head: int,
    spans0: Seq<AbsoluteFillSpan>,
    span: AbsoluteFillSpan,
)
    requires
        g.wf(),
        region_ok(g, rule, seed, vis0, queue, head, spans0),
        frontier(g, rule, vis0, queue, head, -1, -1, 0, 0),
        head < queue.len(),
        queue[head].1 == span.y,
        span.x_start <= queue[head].0 < span.x_end <= g.width,
        span.y < g.height,
        open_run(g, rule, vis0, span.y as int, span.x_start as int, span.x_end - 1),
        span.x_start == 0 || !open_pixel(g, rule, vis0, span.x_start - 1, span.y as int),
        span.x_end == g.width || !open_pixel(g, rule, vis0, span.x_end as int, span.y as int),
        vis1.len() == vis0.len(),
        forall|px: int, py: int|
            #![trigger vis1[flat_index(g, px, py)]]
            in_grid(g, px, py) ==> vis1[flat_index(g, px, py)] == (vis0[flat_index(g, px, py)] || (
            py == span.y && span.x_start <= px <= span.x_end - 1)),
        count_true(vis1) == count_true(vis0) + (span.x_end - span.x_start),
    ensures
        region_ok(g, rule, seed, vis1, queue, head + 1, spans0.push(span)),
        frontier(g, rule, vis1, queue, head + 1, span.y - 1, span.y + 1, span.x_start as int, span.x_end - 1),
{
    let y = span.y as int;
    let left = span.x_start as int;
    let right = span.x_end - 1;
    let x = queue[head].0 as int;
    let spans1 = spans0.push(span);
    assert(open_pixel(g, rule, vis0, x, y));
    assert(reachable(g, rule, seed, (x, y)));
    assert(spans1.drop_last() == spans0);
    assert forall|px: int, py: int|
        #![trigger marked(g, vis1, px, py)]
        #![trigger covered(spans1, px, py)]
        marked(g, vis1, px, py) <==> covered(spans1, px, py) by {
        if covered(spans1, px, py) {
            let k = choose|k: int| 0 <= k < spans1.len() && #[trigger] in_span(spans1[k], px, py);
            if k < spans0.len() {
                assert(in_span(spans0[k], px, py));
                assert(covered(spans0, px, py));
            }
        }
        if in_grid(g, px, py) {
            assert(vis1[flat_index(g, px, py)] == (vis0[flat_index(g, px, py)] || (py == y && left
                <= px <= right)));
            if covered(spans0, px, py) {
                let k = choose|k: int| 0 <= k < spans0.len() && #[trigger] in_span(spans0[k], px, py);
                assert(in_span(spans1[k], px, py));
            }
            if py == y && left <= px <= right {
                assert(in_span(spans1[spans0.len() as int], px, py));
            }
        }
    }
    assert forall|i: int, j: int|
        0 <= i < j < spans1.len() implies (#[trigger] spans1[i]).y != (#[trigger] spans1[j]).y
            || spans1[i].x_end <= spans1[j].x_start || spans1[j].x_end <= spans1[i].x_start by {
        if j == spans0.len() && spans1[i].y == y && !(spans1[i].x_end <= left) && !(right + 1
            <= spans1[i].x_start) {
            let t = if spans1[i].x_start >= left {
                spans1[i].x_start as int
            } else {
                left
            };
            assert(in_span(spans0[i], t, y));
            assert(covered(spans0, t, y));
            assert(open_pixel(g, rule, vis0, t, y));
        }
    }
    assert forall|px: int, py: int|
        #![trigger marked(g, vis1, px, py)]
        marked(g, vis1, px, py) implies reachable(g, rule, seed, (px, py)) by {
        assert(vis1[flat_index(g, px, py)] == (vis0[flat_index(g, px, py)] || (py == y && left
            <= px <= right)));
        if !marked(g, vis0, px, py) {
            assert forall|t: int|
                #![trigger matching(g, rule, t, y)]
                (x <= t <= px || px <= t <= x) implies matching(g, rule, t, y) by {
                assert(open_pixel(g, rule, vis0, t, y));
            }
            lemma_reach_row(g, rule, seed, x, px, y);
        }
    }
    lemma_fill_frontier(g, rule, vis0, vis1, queue, head, y, left, right);
    if matching(g, rule, seed.0, seed.1) && !marked(g, vis1, seed.0, seed.1) {
        assert(vis1[flat_index(g, seed.0, seed.1)] == (vis0[flat_index(g, seed.0, seed.1)] || (
        seed.1 == y && left <= seed.0 <= right)));
        let j = choose|j: int| head <= j < queue.len() && queue[j].0 == seed.0 && queue[j].1 == seed.1;
        assert(j != head);
    }
}

/// Queuing the open runs of row `ey`, next to the marked run `left..=right` of row `y`,
/// keeps the loop's facts and settles the exempt pixels of that row.
proof fn lemma_region_enqueue(
    g: &PixelGrid,
    rule: FillMatchRule,
    seed: (int, int),
    vis: Seq<bool>,
    q0: Seq<(u32, u32)>,
    q1: Seq<(u32, u32)>,
    head: int,
    spans: Seq<AbsoluteFillSpan>,
    y: int,
    ey: int,
    other: int,
    left: int,
    right: int,
)
    requires
        g.wf(),
        region_ok(g, rule, seed, vis, q0, head, spans),
        frontier(g, rule, vis, q0, head, ey, other, left, right),
        ey == y - 1 || ey == y + 1,
        0 <= ey < g.height,
        forall|t: int| left <= t <= right ==> #[trigger] marked(g, vis, t, y),
        q1.len() >= q0.len(),
        q1.subrange(0, q0.len() as int) == q0,
        forall|j: int|
            q0.len() <= j < q1.len() ==> (#[trigger] q1[j]).1 == ey && left <= q1[j].0 <= right
                && open_pixel(g, rule, vis, q1[j].0 as int, ey),
        forall|t: int|
            #![trigger open_pixel(g, rule, vis, t, ey)]
            left <= t <= right && open_pixel(g, rule, vis, t, ey) ==> exists|j: int|
                q0.len() <= j < q1.len() && q1[j].1 == ey && #[trigger] open_run(
                    g,
                    rule,
                    vis,
                    ey,
                    q1[j].0 as int,
                    t,
                ),
    ensures
        region_ok(g, rule, seed, vis, q1, head, spans),
        frontier(g, rule, vis, q1, head, -1, other, left, right),
{
    lemma_enqueue_frontier(g, rule, vis, q0, q1, head, ey, other, left, right);
    assert forall|j: int| 0 <= j < q1.len() implies (#[trigger] q1[j]).0 < g.width && q1[j].1
        < g.height by {
        if j < q0.len() {
            assert(q1[j] == q1.subrange(0, q0.len() as int)[j]);
        }
    }
    assert forall|j: int|
        head <= j < q1.len() && matching(g, rule, (#[trigger] q1[j]).0 as int, q1[j].1 as int)
            implies reachable(g, rule, seed, (q1[j].0 as int, q1[j].1 as int)) by {
        if j < q0.len() {
            assert(q1[j] == q1.subrange(0, q0.len() as int)[j]);
        } else {
            let t = q1[j].0 as int;
            assert(marked(g, vis, t, y));
            lemma_reach_step(g, rule, seed, (t, y), (t, ey));
        }
    }
    if matching(g, rule, seed.0, seed.1) && !marked(g, vis, seed.0, seed.1) {
        let j = choose|j: int| head <= j < q0.len() && q0[j].0 == seed.0 && q0[j].1 == seed.1;
        assert(q1[j] == q1.subrange(0, q0.len() as int)[j]);
    }
}

/// Each span's neighbors in its row, where they match, lie in spans found before it.
pub open spec fn spans_bounded_by_earlier(g: &PixelGrid, rule: FillMatchRule, spans: Seq<AbsoluteFillSpan>) -> bool {
    forall|k: int|
        0 <= k < spans.len() ==> {
            let sp = #[trigger] spans[k];
            &&& matching(g, rule, sp.x_start - 1, sp.y as int) ==> exists|m: int|
                0 <= m < k && in_span(spans[m], sp.x_start - 1, sp.y as int)
            &&& matching(g, rule, sp.x_end as int, sp.y as int) ==> exists|m: int|
                0 <= m < k && in_span(spans[m], sp.x_end as int, sp.y as int)
        }
}

/// Every span is a maximal run of its row: the pixels just left and right of it are in
/// no span.
pub open spec fn spans_maximal(spans: Seq<AbsoluteFillSpan>) -> bool {
    forall|k: int|
        0 <= k < spans.len() ==> !covered(spans, (#[trigger] spans[k]).x_start - 1, spans[k].y as int)
            && !covered(spans, spans[k].x_end as int, spans[k].y as int)
}

proof fn lemma_spans_maximal(g: &PixelGrid, rule: FillMatchRule, spans: Seq<AbsoluteFillSpan>)
    requires
        spans_bounded_by_earlier(g, rule, spans),
        spans_disjoint(spans),
        spans_on_grid(g, spans),
        forall|x: int, y: int| #![trigger covered(spans, x, y)] covered(spans, x, y) ==> matching(g, rule, x, y),
    ensures
        spans_maximal(spans),
{
    assert forall|k: int| 0 <= k < spans.len() implies !covered(
        spans,
        (#[trigger] spans[k]).x_start - 1,
        spans[k].y as int,
    ) && !covered(spans, spans[k].x_end as int, spans[k].y as int) by {
        let sp = spans[k];
        let y = sp.y as int;
        if covered(spans, sp.x_start - 1, y) {
            let a = choose|a: int| 0 <= a < spans.len() && #[trigger] in_span(spans[a], sp.x_start - 1, y);
            assert(a != k);
            assert(covered(spans, sp.x_start as int, y)) by {
                assert(in_span(spans[k], sp.x_start as int, y));
            }
            if a < k {
                assert(spans[a].x_end == sp.x_start) by {
                    assert(spans[a].y == spans[k].y);
                }
                let b = choose|b: int| 0 <= b < a && in_span(spans[b], spans[a].x_end as int, spans[a].y as int);
                assert(in_span(spans[k], sp.x_start as int, y));
                assert(spans[b].y == spans[k].y);
            } else {
                let b = choose|b: int| 0 <= b < k && in_span(spans[b], sp.x_start - 1, y);
                assert(spans[b].y == spans[a].y);
            }
        }
        if covered(spans, sp.x_end as int, y) {
            let a = choose|a: int| 0 <= a < spans.len() && #[trigger] in_span(spans[a], sp.x_end as int, y);
            assert(a != k);
            assert(covered(spans, sp.x_end - 1, y)) by {
                assert(in_span(spans[k], sp.x_end - 1, y));
            }
            if a < k {
                assert(spans[a].x_start == sp.x_end) by {
                    assert(spans[a].y == spans[k].y);
                }
                let b = choose|b: int| 0 <= b < a && in_span(spans[b], spans[a].x_start - 1, spans[a].y as int);
                assert(in_span(spans[k], sp.x_end - 1, y));
                assert(spans[b].y == spans[k].y);
            } else {
                let b = choose|b: int| 0 <= b < k && in_span(spans[b], sp.x_end as int, y);
                assert(spans[b].y == spans[a].y);
            }
        }
    }
}

/// The region a bucket fill started at `(seed_x, seed_y)` covers: the pixels reached
/// from the seed over edge-sharing pixels whose colors are within `tolerance` of
/// `target_color` (nothing when the seed's own color is not), as non-empty,
/// non-overlapping row spans, each a maximal run of its row, found breadth first from
/// the run through the seed, which comes first.
pub fn extract_fill_region(
    grid: &PixelGrid,
    seed_x: u32,
    seed_y: u32,
    target_color: RgbaColor,
    tolerance: u8,
) -> (spans: Vec<AbsoluteFillSpan>)
    requires
        grid.wf(),
        seed_x < grid.width,
        seed_y < grid.height,
    ensures
        spans_on_grid(grid, spans@),
        spans_disjoint(spans@),
        forall|x: int, y: int|
            #![trigger covered(spans@, x, y)]
            covered(spans@, x, y) <==> reachable(
                grid,
                (FillMatchRule { target_color, tolerance }),
                (seed_x as int, seed_y as int),
                (x, y),
            ),
        span_total(spans@) <= grid.width * grid.height,
        spans_maximal(spans@),
        spans@.len() > 0 <==> matching(grid, (FillMatchRule { target_color, tolerance }), seed_x as int, seed_y as int),
        spans@.len() > 0 ==> in_span(spans@[0], seed_x as int, seed_y as int),
{
    let width = grid.width;
    let height = grid.height;
    let rule = FillMatchRule { target_color, tolerance };
    let ghost seed = (seed_x as int, seed_y as int);
    let mut visited = unmarked((width * height) as usize);
    let mut queue: Vec<(u32, u32)> = Vec::new();
    queue.push((seed_x, seed_y));
    let mut head: usize = 0;
    let mut spans: Vec<AbsoluteFillSpan> = Vec::new();
    proof {
        lemma_count_true_none(visited@);
        assert forall|x: int, y: int| #![trigger marked(grid, visited@, x, y)]
            !marked(grid, visited@, x, y) by {
            if in_grid(grid, x, y) {
                lemma_flat_index(grid, x, y);
            }
        }
        assert(queue@[0] == (seed_x, seed_y));
        if matching(grid, rule, seed.0, seed.1) {
            lemma_reach_start(grid, rule, seed);
        }
        assert(region_ok(grid, rule, seed, visited@, queue@, 0, spans@));
    }
    while head < queue.len()
        invariant
            grid.wf(),
            width == grid.width,
            height == grid.height,
            rule == (FillMatchRule { target_color, tolerance }),
            seed == (seed_x as int, seed_y as int),
            region_ok(grid, rule, seed, visited@, queue@, head as int, spans@),
            frontier(grid, rule, visited@, queue@, head as int, -1, -1, 0, 0),
            spans_bounded_by_earlier(grid, rule, spans@),
            head == 0 ==> spans@.len() == 0 && queue@.len() > 0 && queue@[0] == (seed_x, seed_y)
                && forall|px: int, py: int| #![trigger marked(grid, visited@, px, py)]
                    !marked(grid, visited@, px, py),
            head > 0 && matching(grid, rule, seed.0, seed.1) ==> spans@.len() > 0,
            spans@.len() > 0 && matching(grid, rule, seed.0, seed.1) ==> in_span(spans@[0], seed.0, seed.1),
        decreases (width * height) as int - count_true(visited@), queue@.len() - head,
    {
        proof {
            lemma_count_true_bound(visited@);
        }
        let (x, y) = queue[head];
        let ghost h0 = head as int;
        if !is_open_pixel(grid, &visited, rule, x, y) {
            proof {
                lemma_region_skip(grid, rule, seed, visited@, queue@, h0, spans@);
                if h0 == 0 {
                    assert(!marked(grid, visited@, seed.0, seed.1));
                }
            }
            head = head + 1;
            continue;
        }
        let ghost vis0 = visited@;
        let ghost spans0 = spans@;
        let mut left = x;
        while left > 0 && is_open_pixel(grid, &visited, rule, left - 1, y)
            invariant
                grid.wf(),
                visited@.len() == grid.width * grid.height,
                left <= x < grid.width,
                y < grid.height,
                open_run(grid, rule, visited@, y as int, left as int, x as int),
            decreases left,
        {
            left = left - 1;
        }
        let mut right = x;
        while right + 1 < width && is_open_pixel(grid, &visited, rule, right + 1, y)
            invariant
                grid.wf(),
                width == grid.width,
                visited@.len() == grid.width * grid.height,
                left <= x <= right < grid.width,
                y < grid.height,
                open_run(grid, rule, visited@, y as int, left as int, right as int),
            decreases width - right,
        {
            right = right + 1;
        }
        proof {
            assert(visited@ == vis0);
            if matching(grid, rule, left - 1, y as int) {
                assert(left > 0);
                assert(marked(grid, vis0, left - 1, y as int));
                let m = choose|m: int| 0 <= m < spans0.len() && #[trigger] in_span(spans0[m], left - 1, y as int);
            }
            if matching(grid, rule, right + 1, y as int) {
                assert(right + 1 < width);
                assert(marked(grid, vis0, right + 1, y as int));
                let m = choose|m: int| 0 <= m < spans0.len() && #[trigger] in_span(spans0[m], right + 1, y as int);
            }
        }
        mark_run(grid, &mut visited, rule, left, right, y);
        let span = AbsoluteFillSpan { y, x_start: left, x_end: right + 1 };
        proof {
            lemma_region_fill(grid, rule, seed, vis0, visited@, queue@, h0, spans0, span);
        }
        spans.push(span);
        proof {
            let sn = spans@;
            assert(sn[0] == if spans0.len() == 0 { span } else { spans0[0] });
            if spans0.len() == 0 && matching(grid, rule, seed.0, seed.1) {
                assert(h0 == 0);
                assert(in_span(span, seed.0, seed.1));
            }
            assert forall|k: int| 0 <= k < sn.len() implies {
                let sp = #[trigger] sn[k];
                &&& matching(grid, rule, sp.x_start - 1, sp.y as int) ==> exists|m: int|
                    0 <= m < k && in_span(sn[m], sp.x_start - 1, sp.y as int)
                &&& matching(grid, rule, sp.x_end as int, sp.y as int) ==> exists|m: int|
                    0 <= m < k && in_span(sn[m], sp.x_end as int, sp.y as int)
            } by {
                if k < spans0.len() {
                    assert(sn[k] == spans0[k]);
                    let sp = spans0[k];
                    if matching(grid, rule, sp.x_start - 1, sp.y as int) {
                        let m = choose|m: int| 0 <= m < k && in_span(spans0[m], sp.x_start - 1, sp.y as int);
                        assert(sn[m] == spans0[m]);
                    }
                    if matching(grid, rule, sp.x_end as int, sp.y as int) {
                        let m = choose|m: int| 0 <= m < k && in_span(spans0[m], sp.x_end as int, sp.y as int);
                        assert(sn[m] == spans0[m]);
                    }
                } else {
                    if matching(grid, rule, left - 1, y as int) {
                        let m = choose|m: int| 0 <= m < spans0.len() && #[trigger] in_span(spans0[m], left - 1, y as int);
                        assert(sn[m] == spans0[m]);
                    }
                    if matching(grid, rule, right + 1, y as int) {
                        let m = choose|m: int| 0 <= m < spans0.len() && #[trigger] in_span(spans0[m], right + 1, y as int);
                        assert(sn[m] == spans0[m]);
                    }
                }
            }
        }
        head = head + 1;
        proof {
            assert forall|t: int| left <= t <= right implies #[trigger] marked(grid, visited@, t, y as int) by {
                assert(visited@[flat_index(grid, t, y as int)] == (vis0[flat_index(grid, t, y as int)] || (
                y == y && left <= t <= right)));
            }
        }
        if y > 0 {
            let ghost q0 = queue@;
            enqueue_adjacent_matches(grid, &visited, &mut queue, left, right, y - 1, rule);
            proof {
                lemma_region_enqueue(grid, rule, seed, visited@, q0, queue@, head as int, spans@,
                    y as int, y - 1, y + 1, left as int, right as int);
            }
        } else {
            proof {
                lemma_frontier_off_grid_row(grid, rule, visited@, queue@, head as int, y - 1, y + 1,
                    left as int, right as int);
            }
        }
        proof {
            lemma_frontier_swap(grid, rule, visited@, queue@, head as int, -1, y + 1, left as int, right as int);
        }
        if y + 1 < height {
            let ghost q0 = queue@;
            enqueue_adjacent_matches(grid, &visited, &mut queue, left, right, y + 1, rule);
            proof {
                lemma_region_enqueue(grid, rule, seed, visited@, q0, queue@, head as int, spans@,
                    y as int, y + 1, -1, left as int, right as int);
            }
        } else {
            proof {
                lemma_frontier_off_grid_row(grid, rule, visited@, queue@, head as int, y + 1, -1,
                    left as int, right as int);
            }
        }
        proof {
            lemma_frontier_plain(grid, rule, visited@, queue@, head as int, left as int, right as int);
            lemma_count_true_bound(visited@);
        }
    }
    proof {
        lemma_count_true_bound(visited@);
        assert forall|px: int, py: int|
            #![trigger covered(spans@, px, py)]
            covered(spans@, px, py) <==> reachable(grid, rule, seed, (px, py)) by {
            if reachable(grid, rule, seed, (px, py)) {
                let path = choose|path: Seq<(int, int)>| #[trigger] fill_path(grid, rule, path)
                    && path[0] == seed && path.last() == (px, py);
                assert(matching(grid, rule, path[0].0, path[0].1));
                lemma_closed_region(grid, rule, visited@, queue@, seed, path);
                assert(marked(grid, visited@, px, py));
            }
        }
        assert forall|px: int, py: int| #![trigger covered(spans@, px, py)] covered(spans@, px, py)
            implies matching(grid, rule, px, py) by {
            assert(marked(grid, visited@, px, py));
            let path = choose|path: Seq<(int, int)>| #[trigger] fill_path(grid, rule, path)
                && path[0] == seed && path.last() == (px, py);
            assert(matching(grid, rule, path[path.len() - 1].0, path[path.len() - 1].1));
        }
        lemma_spans_maximal(grid, rule, spans@);
        if spans@.len() > 0 {
            let first = spans@[0];
            assert(in_span(spans@[0], first.x_start as int, first.y as int));
            assert(covered(spans@, first.x_start as int, first.y as int));
            let path = choose|path: Seq<(int, int)>| #[trigger] fill_path(grid, rule, path)
                && path[0] == seed && path.last() == (first.x_start as int, first.y as int);
            assert(matching(grid, rule, path[0].0, path[0].1));
        }
        if matching(grid, rule, seed.0, seed.1) {
            lemma_reach_start(grid, rule, seed);
            assert(covered(spans@, seed.0, seed.1));
        }
    }
    spans
}

/// The relative span holds pixel `(x, y)` of the fill's own frame.
pub open spec fn fill_span_holds(sp: FillSpan, x: int, y: int) -> bool {
    y == sp.y && sp.x_start <= x < sp.x_end
}

pub open spec fn fill_covers(spans: Seq<FillSpan>, x: int, y: int) -> bool {
    exists|k: int| 0 <= k < spans.len() && #[trigger] fill_span_holds(spans[k], x, y)
}

pub open spec fn fill_spans_disjoint(spans: Seq<FillSpan>) -> bool {
    forall|i: int, j: int|
        0 <= i < j < spans.len() ==> (#[trigger] spans[i]).y != (#[trigger] spans[j]).y
            || spans[i].x_end <= spans[j].x_start || spans[j].x_end <= spans[i].x_start
}

/// Number of pixels the spans hold, counted span by span.
pub open spec fn fill_span_total(spans: Seq<FillSpan>) -> nat
    decreases spans.len(),
{
    if spans.len() == 0 {
        0
    } else {
        fill_span_total(spans.drop_last()) + (spans.last().x_end - spans.last().x_start) as nat
    }
}

/// `res` is exactly the fill of the region around `seed` with `fill_color`: its spans,
/// placed at the region's smallest column and row (as single-precision numbers), hold
/// the region's pixels, each once, and `pixel_count` counts them.
pub open spec fn exact_fill(
    g: &PixelGrid,
    rule: FillMatchRule,
    seed: (int, int),
    fill_color: RgbaColor,
    res: FloodFillResult,
) -> bool {
    let e = res.element@;
    &&& e.color == fill_color
    &&& exists|ox: nat, oy: nat|
        #![trigger f32_bits_of(ox), f32_bits_of(oy)]
        {
            &&& e.origin.x.bits == f32_bits_of(ox)
            &&& e.origin.y.bits == f32_bits_of(oy)
            &&& exists|y: int| #[trigger] reachable(g, rule, seed, (ox as int, y))
            &&& exists|x: int| #[trigger] reachable(g, rule, seed, (x, oy as int))
            &&& forall|x: int, y: int| #[trigger]
                reachable(g, rule, seed, (x, y)) ==> x >= ox && y >= oy
            &&& forall|x: int, y: int| #[trigger]
                reachable(g, rule, seed, (x, y)) <==> fill_covers(e.spans, x - ox, y - oy)
        }
    &&& forall|k: int| 0 <= k < e.spans.len() ==> (#[trigger] e.spans[k]).x_start < e.spans[k].x_end
    &&& fill_spans_disjoint(e.spans)
    &&& res.pixel_count == fill_span_total(e.spans)
}

/// The seed lies left of or above the canvas, or at or past its right or bottom edge,
/// compared as numbers with the pixel dimensions.
pub open spec fn seed_outside(seed: PaintPoint, width: u32, height: u32) -> bool {
    ||| bits_less(seed.x.bits, 0)
    ||| bits_less(seed.y.bits, 0)
    ||| bits_at_least(seed.x.bits, f32_bits_of(width as nat))
    ||| bits_at_least(seed.y.bits, f32_bits_of(height as nat))
}

/// The color under the seed pixel, when that pixel is on the grid.
pub open spec fn seed_color(g: &PixelGrid, x: int, y: int) -> Option<RgbaColor> {
    if in_grid(g, x, y) {
        grid_pixel(g, x, y)
    } else {
        None
    }
}

proof fn lemma_span_total_prefix(s: Seq<AbsoluteFillSpan>, i: int)
    requires
        0 <= i <= s.len(),
    ensures
        span_total(s.take(i)) <= span_total(s),
    decreases s.len() - i,
{
    if i == s.len() {
        assert(s.take(i) =~= s);
    } else {
        lemma_span_total_prefix(s, i + 1);
        assert(s.take(i + 1).drop_last() =~= s.take(i));
    }
}

/// Fills the region of the visible drawing around `seed` on the active layer: `grid`
/// holds the drawing rendered over an opaque background. The region is what
/// `extract_fill_region` finds from the seed pixel with the seed pixel's color and
/// `FILL_TOLERANCE`. Fails when the active layer cannot be edited, the seed is off the
/// canvas, or the seed's color already matches `fill_color` within the tolerance.
#[verifier::rlimit(40)]
pub fn flood_fill_document(
    document: &PaintDocument,
    grid: &PixelGrid,
    seed: PaintPoint,
    fill_color: RgbaColor,
) -> (r: Result<FloodFillResult, FloodFillFailure>)
    requires
        grid.wf(),
    ensures
        !(match document.active_position() {
            Some(i) => document@.layers[i].is_editable(),
            None => false,
        }) ==> r == Err::<FloodFillResult, FloodFillFailure>(
            FloodFillFailure::ActiveLayerNotEditable,
        ),
        (match document.active_position() {
            Some(i) => document@.layers[i].is_editable(),
            None => false,
        }) ==> ({
            let sx = floor_u32_of_bits(seed.x.bits) as int;
            let sy = floor_u32_of_bits(seed.y.bits) as int;
            if seed_outside(seed, grid.width, grid.height) {
                r == Err::<FloodFillResult, FloodFillFailure>(FloodFillFailure::OutsideCanvas)
            } else {
                match seed_color(grid, sx, sy) {
                    None => r == Err::<FloodFillResult, FloodFillFailure>(
                        FloodFillFailure::OutsideCanvas,
                    ),
                    Some(c) => if within_tolerance(c, fill_color, FILL_TOLERANCE) {
                        r == Err::<FloodFillResult, FloodFillFailure>(FloodFillFailure::SameColor)
                    } else {
                        r matches Ok(res) && exact_fill(
                            grid,
                            (FillMatchRule { target_color: c, tolerance: FILL_TOLERANCE }),
                            (sx, sy),
                            fill_color,
                            res,
                        )
                    },
                }
            }
        }),
{
    if !document.active_layer_is_editable() {
        return Err(FloodFillFailure::ActiveLayerNotEditable);
    }
    let width = grid.width;
    let height = grid.height;
    let zero = Scalar::zero();
    if seed.x.less_than(zero) || seed.y.less_than(zero) || seed.x.at_least(Scalar::from_u32(width))
        || seed.y.at_least(Scalar::from_u32(height)) {
        return Err(FloodFillFailure::OutsideCanvas);
    }
    let seed_x = seed.x.floor_to_u32();
    let seed_y = seed.y.floor_to_u32();
    if seed_x >= width || seed_y >= height {
        return Err(FloodFillFailure::OutsideCanvas);
    }
    let target_color = match pixel_color(grid, seed_x, seed_y) {
        Some(c) => c,
        None => return Err(FloodFillFailure::OutsideCanvas),
    };
    if rgba_within_tolerance(target_color, fill_color, FILL_TOLERANCE) {
        return Err(FloodFillFailure::SameColor);
    }
    let ghost rule = FillMatchRule { target_color, tolerance: FILL_TOLERANCE };
    let ghost sp = (seed_x as int, seed_y as int);
    let spans = extract_fill_region(grid, seed_x, seed_y, target_color, FILL_TOLERANCE);
    proof {
        assert(matching(grid, rule, sp.0, sp.1));
        lemma_reach_start(grid, rule, sp);
        assert(covered(spans@, sp.0, sp.1));
    }
    if spans.len() == 0 {
        return Err(FloodFillFailure::RegionNotFound);
    }
    let mut min_x = spans[0].x_start;
    let mut min_y = spans[0].y;
    let mut i: usize = 1;
    while i < spans.len()
        invariant
            1 <= i <= spans@.len(),
            forall|k: int| 0 <= k < i ==> min_x <= (#[trigger] spans@[k]).x_start && min_y <= spans@[k].y,
            exists|k: int| 0 <= k < i && (#[trigger] spans@[k]).x_start == min_x,
            exists|k: int| 0 <= k < i && (#[trigger] spans@[k]).y == min_y,
        decreases spans.len() - i,
    {
        if spans[i].x_start < min_x {
            min_x = spans[i].x_start;
        }
        if spans[i].y < min_y {
            min_y = spans[i].y;
        }
        i += 1;
    }
    let mut relative: Vec<FillSpan> = Vec::new();
    let mut pixel_count: usize = 0;
    let mut j: usize = 0;
    while j < spans.len()
        invariant
            j <= spans@.len(),
            spans_on_grid(grid, spans@),
            grid.wf(),
            forall|k: int| 0 <= k < spans@.len() ==> min_x <= (#[trigger] spans@[k]).x_start && min_y <= spans@[k].y,
            span_total(spans@) <= grid.width * grid.height,
            relative@.len() == j,
            forall|k: int|
                0 <= k < j ==> (#[trigger] relative@[k]) == (FillSpan {
                    y: (spans@[k].y - min_y) as u32,
                    x_start: (spans@[k].x_start - min_x) as u32,
                    x_end: (spans@[k].x_end - min_x) as u32,
                }),
            pixel_count == fill_span_total(relative@),
            fill_span_total(relative@) == span_total(spans@.take(j as int)),
        decreases spans.len() - j,
    {
        let sp_j = spans[j];
        let rel = FillSpan { y: sp_j.y - min_y, x_start: sp_j.x_start - min_x, x_end: sp_j.x_end - min_x };
        proof {
            lemma_span_total_prefix(spans@, j + 1);
            assert(spans@.take(j + 1).drop_last() =~= spans@.take(j as int));
            assert(relative@.push(rel).drop_last() =~= relative@);
        }
        pixel_count = pixel_count + (rel.x_end - rel.x_start) as usize;
        relative.push(rel);
        j += 1;
    }
    let ghost rel_spans = relative@;
    let origin = PaintPoint { x: Scalar::from_u32(min_x), y: Scalar::from_u32(min_y) };
    let res = FloodFillResult { element: FillElement::new(fill_color, origin, relative), pixel_count };
    proof {
        let ox = min_x as nat;
        let oy = min_y as nat;
        assert(spans@.take(spans@.len() as int) =~= spans@);
        let k0 = choose|k: int| 0 <= k < spans@.len() && (#[trigger] spans@[k]).x_start == min_x;
        assert(covered(spans@, min_x as int, spans@[k0].y as int)) by {
            assert(in_span(spans@[k0], min_x as int, spans@[k0].y as int));
        }
        let k1 = choose|k: int| 0 <= k < spans@.len() && (#[trigger] spans@[k]).y == min_y;
        assert(covered(spans@, spans@[k1].x_start as int, min_y as int)) by {
            assert(in_span(spans@[k1], spans@[k1].x_start as int, min_y as int));
        }
        assert(reachable(grid, rule, sp, (ox as int, spans@[k0].y as int)));
        assert(reachable(grid, rule, sp, (spans@[k1].x_start as int, oy as int)));
        assert forall|x: int, y: int| #[trigger]
            reachable(grid, rule, sp, (x, y)) implies x >= ox && y >= oy by {
            assert(covered(spans@, x, y));
            let k = choose|k: int| 0 <= k < spans@.len() && #[trigger] in_span(spans@[k], x, y);
        }
        assert forall|x: int, y: int| #[trigger]
            reachable(grid, rule, sp, (x, y)) <==> fill_covers(rel_spans, x - ox, y - oy) by {
            if covered(spans@, x, y) {
                let k = choose|k: int| 0 <= k < spans@.len() && #[trigger] in_span(spans@[k], x, y);
                assert(fill_span_holds(rel_spans[k], x - ox, y - oy));
            }
            if fill_covers(rel_spans, x - ox, y - oy) {
                let k = choose|k: int| 0 <= k < rel_spans.len() && #[trigger] fill_span_holds(rel_spans[k], x - ox, y - oy);
                assert(in_span(spans@[k], x, y));
            }
        }
        assert forall|a: int, b: int|
            0 <= a < b < rel_spans.len() implies (#[trigger] rel_spans[a]).y != (#[trigger] rel_spans[b]).y
                || rel_spans[a].x_end <= rel_spans[b].x_start || rel_spans[b].x_end <= rel_spans[a].x_start by {
            assert(spans@[a].y != spans@[b].y || spans@[a].x_end <= spans@[b].x_start
                || spans@[b].x_end <= spans@[a].x_start);
        }
        assert(res.element@.origin.x.bits == f32_bits_of(ox));
        assert(res.element@.origin.y.bits == f32_bits_of(oy));
    }
    Ok(res)
}

} // verus!
