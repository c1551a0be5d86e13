//! The toolbar's **wrap box** layout: children left to right at their natural size, a
//! child that would overflow the row moving whole to the next one, every row flush against
//! the left edge, and a child shorter than its row centred in it.
//!
//! A plain greedy pack with no shared column grid, so a wrapped row can never inherit an
//! offset from the row above it. The height the box asks for and the rows it lays out come
//! from the one [`pack`], so the two cannot disagree.

use vstd::prelude::*;

verus! {

/// A child's allocation.
#[derive(Clone, Copy, PartialEq, Eq, Debug, Structural)]
pub struct Rect {
    pub x: i32,
    pub y: i32,
    pub width: i32,
    pub height: i32,
}

/// Whether a child `w` wide, placed after a row that ends at `x`, starts a new row: it
/// does when the row already holds something and the child, after the spacing, would run
/// past the available width. A child wider than the whole width still gets a row of its
/// own rather than being squeezed.
pub open spec fn wraps(x: int, w: int, avail: int, col: int) -> bool {
    x > 0 && x + col + w > avail
}

/// Where the next child starts on a row that ends at `x`: at the left edge on an empty
/// row, one spacing after the row's end otherwise.
pub open spec fn next_x(x: int, col: int) -> int {
    if x == 0 { 0 } else { x + col }
}

/// The flow after the first `k` children: where the current row ends, and its index.
pub open spec fn flow(sizes: Seq<(i32, i32)>, avail: int, col: int, k: int) -> (int, int)
    decreases k,
{
    if k <= 0 {
        (0, 0)
    } else {
        let (x, row) = flow(sizes, avail, col, k - 1);
        let w = sizes[k - 1].0 as int;
        if wraps(x, w, avail, col) { (w, row + 1) } else { (next_x(x, col) + w, row) }
    }
}

/// The x at which child `k` is placed.
pub open spec fn child_x(sizes: Seq<(i32, i32)>, avail: int, col: int, k: int) -> int {
    let (x, _) = flow(sizes, avail, col, k);
    if wraps(x, sizes[k].0 as int, avail, col) { 0 } else { next_x(x, col) }
}

/// The row child `k` is placed on.
pub open spec fn child_row(sizes: Seq<(i32, i32)>, avail: int, col: int, k: int) -> int {
    flow(sizes, avail, col, k + 1).1
}

/// The height of row `r` among the first `k` children: the tallest of them on it.
pub open spec fn row_height_upto(sizes: Seq<(i32, i32)>, avail: int, col: int, r: int, k: int) -> int
    decreases k,
{
    if k <= 0 {
        0
    } else {
        let prev = row_height_upto(sizes, avail, col, r, k - 1);
        let h = sizes[k - 1].1 as int;
        if child_row(sizes, avail, col, k - 1) == r && h > prev { h } else { prev }
    }
}

/// The height of row `r`: its tallest child.
pub open spec fn row_height(sizes: Seq<(i32, i32)>, avail: int, col: int, r: int) -> int {
    row_height_upto(sizes, avail, col, r, sizes.len() as int)
}

/// The y at which row `r` starts: every row above it, each followed by the row spacing.
pub open spec fn row_y(sizes: Seq<(i32, i32)>, avail: int, col: int, row_sp: int, r: int) -> int
    decreases r,
{
    if r <= 0 {
        0
    } else {
        row_y(sizes, avail, col, row_sp, r - 1) + row_height(sizes, avail, col, r - 1) + row_sp
    }
}

/// Child `k`'s allocation: its natural size, at its place in its row, centred vertically
/// in the row.
pub open spec fn child_rect(sizes: Seq<(i32, i32)>, avail: int, col: int, row_sp: int, k: int) -> (int, int, int, int) {
    let r = child_row(sizes, avail, col, k);
    let h = sizes[k].1 as int;
    (
        child_x(sizes, avail, col, k),
        row_y(sizes, avail, col, row_sp, r) + (row_height(sizes, avail, col, r) - h) / 2,
        sizes[k].0 as int,
        h,
    )
}

/// The height the rows take: down to the bottom of the last row, or nothing when there is
/// no child.
pub open spec fn packed_height(sizes: Seq<(i32, i32)>, avail: int, col: int, row_sp: int) -> int {
    if sizes.len() == 0 {
        0
    } else {
        let last = child_row(sizes, avail, col, sizes.len() - 1);
        row_y(sizes, avail, col, row_sp, last) + row_height(sizes, avail, col, last)
    }
}

/// The widths of the first `k` children, each with one column spacing.
pub open spec fn span(sizes: Seq<(i32, i32)>, col: int, k: int) -> int
    decreases k,
{
    if k <= 0 { 0 } else { span(sizes, col, k - 1) + sizes[k - 1].0 + col }
}

/// The heights of the first `k` children, each with one row spacing.
pub open spec fn tower(sizes: Seq<(i32, i32)>, row_sp: int, k: int) -> int
    decreases k,
{
    if k <= 0 { 0 } else { tower(sizes, row_sp, k - 1) + sizes[k - 1].1 + row_sp }
}

/// What a layout is given: natural sizes, which are never negative, non-negative spacings,
/// and an extent that fits an `i32` even with every child laid end to end, either way.
pub open spec fn packable(sizes: Seq<(i32, i32)>, col: int, row_sp: int) -> bool {
    &&& col >= 0
    &&& row_sp >= 0
    &&& forall|k: int| 0 <= k < sizes.len() ==> (#[trigger] sizes[k]).0 >= 0 && sizes[k].1 >= 0
    &&& span(sizes, col, sizes.len() as int) <= i32::MAX
    &&& tower(sizes, row_sp, sizes.len() as int) + row_sp <= i32::MAX
}

proof fn lemma_span_mono(sizes: Seq<(i32, i32)>, col: int, j: int, k: int)
    requires
        0 <= j <= k <= sizes.len(),
        col >= 0,
        forall|i: int| 0 <= i < sizes.len() ==> (#[trigger] sizes[i]).0 >= 0,
    ensures
        span(sizes, col, j) <= span(sizes, col, k),
    decreases k - j,
{
    if j < k {
        lemma_span_mono(sizes, col, j, k - 1);
        assert(sizes[k - 1].0 >= 0);
    }
}

proof fn lemma_tower_mono(sizes: Seq<(i32, i32)>, row_sp: int, j: int, k: int)
    requires
        0 <= j <= k <= sizes.len(),
        row_sp >= 0,
        forall|i: int| 0 <= i < sizes.len() ==> (#[trigger] sizes[i]).1 >= 0,
    ensures
        tower(sizes, row_sp, j) <= tower(sizes, row_sp, k),
    decreases k - j,
{
    if j < k {
        lemma_tower_mono(sizes, row_sp, j, k - 1);
        assert(sizes[k - 1].1 >= 0);
    }
}

/// Rows are numbered in order: a later child is never on an earlier row.
proof fn lemma_flow_row_mono(sizes: Seq<(i32, i32)>, avail: int, col: int, j: int, k: int)
    requires
        0 <= j <= k,
    ensures
        flow(sizes, avail, col, j).1 <= flow(sizes, avail, col, k).1,
    decreases k - j,
{
    if j < k {
        lemma_flow_row_mono(sizes, avail, col, j, k - 1);
    }
}

/// A row's height stops changing once no later child is on it.
proof fn lemma_row_height_settles(sizes: Seq<(i32, i32)>, avail: int, col: int, r: int, i: int, k: int)
    requires
        0 <= i <= k,
        forall|j: int| i <= j < k ==> child_row(sizes, avail, col, j) != r,
    ensures
        row_height_upto(sizes, avail, col, r, k) == row_height_upto(sizes, avail, col, r, i),
    decreases k - i,
{
    if i < k {
        lemma_row_height_settles(sizes, avail, col, r, i, k - 1);
    }
}

/// A row is at least as tall as each of its children, and no taller than the tallest.
proof fn lemma_row_height_bounds(sizes: Seq<(i32, i32)>, avail: int, col: int, r: int, k: int)
    requires
        0 <= k <= sizes.len(),
        forall|i: int| 0 <= i < sizes.len() ==> (#[trigger] sizes[i]).1 >= 0,
    ensures
        row_height_upto(sizes, avail, col, r, k) >= 0,
        forall|j: int| 0 <= j < k && child_row(sizes, avail, col, j) == r
            ==> sizes[j].1 <= row_height_upto(sizes, avail, col, r, k),
    decreases k,
{
    if k > 0 {
        lemma_row_height_bounds(sizes, avail, col, r, k - 1);
        assert(sizes[k - 1].1 >= 0);
    }
}

/// Lay the children out at `avail_width`: each child's allocation, in order, and the total
/// height the rows take. A child is placed at its natural size where the row it starts
/// ends; one that would overflow a row that already holds something starts the next row,
/// flush left; each row is as tall as its tallest child, the rows stacked with
/// `row_spacing` between them; a shorter child is centred in its row.
pub fn pack(sizes: &[(i32, i32)], avail_width: i32, col_spacing: i32, row_spacing: i32) -> (r: (Vec<Rect>, i32))
    requires
        packable(sizes@, col_spacing as int, row_spacing as int),
    ensures
        r.0@.len() == sizes@.len(),
        forall|k: int| 0 <= k < sizes@.len() ==> {
            let c = child_rect(sizes@, avail_width as int, col_spacing as int, row_spacing as int, k);
            &&& (#[trigger] r.0@[k]).x == c.0
            &&& r.0@[k].y == c.1
            &&& r.0@[k].width == c.2
            &&& r.0@[k].height == c.3
        },
        r.1 == packed_height(sizes@, avail_width as int, col_spacing as int, row_spacing as int),
{
    let ghost s = sizes@;
    let ghost avail = avail_width as int;
    let ghost col = col_spacing as int;
    let ghost rsp = row_spacing as int;
    let n = sizes.len();
    let mut rects: Vec<Rect> = Vec::new();
    let mut x: i32 = 0;
    let mut y: i32 = 0;
    let mut row_h: i32 = 0;
    let mut row_start: usize = 0;
    let ghost mut cur: int = 0;
    proof {
        lemma_span_mono(s, col, 0, n as int);
        lemma_tower_mono(s, rsp, 0, n as int);
    }
    let mut i: usize = 0;
    while i < n
        invariant
            s == sizes@,
            n == s.len(),
            avail == avail_width as int,
            col == col_spacing as int,
            rsp == row_spacing as int,
            packable(s, col, rsp),
            i <= n,
            row_start <= i,
            i > 0 ==> row_start < i,
            flow(s, avail, col, i as int) == (x as int, cur),
            0 <= cur,
            0 <= x <= span(s, col, i as int),
            0 <= y,
            y + row_h <= tower(s, rsp, i as int) + rsp,
            y == row_y(s, avail, col, rsp, cur),
            row_h as int == row_height_upto(s, avail, col, cur, i as int),
            forall|j: int| row_start <= j < i ==> child_row(s, avail, col, j) == cur,
            forall|j: int| 0 <= j < row_start ==> child_row(s, avail, col, j) < cur,
            rects@.len() == i,
            forall|j: int| 0 <= j < row_start ==> {
                let c = child_rect(s, avail, col, rsp, j);
                &&& (#[trigger] rects@[j]).x == c.0
                &&& rects@[j].y == c.1
                &&& rects@[j].width == c.2
                &&& rects@[j].height == c.3
            },
            forall|j: int| row_start <= j < i ==> {
                &&& (#[trigger] rects@[j]).x == child_x(s, avail, col, j)
                &&& rects@[j].y == y
                &&& rects@[j].width == s[j].0
                &&& rects@[j].height == s[j].1
            },
        decreases n - i,
    {
        let (w, h) = sizes[i];
        proof {
            assert(s[i as int].0 >= 0 && s[i as int].1 >= 0);
            lemma_span_mono(s, col, i as int + 1, n as int);
            lemma_tower_mono(s, rsp, i as int + 1, n as int);
        }
        let would_overflow = x > 0 && x + col_spacing + w > avail_width;
        if would_overflow {
            proof {
                // The row just closed is final: every later child is on a later row.
                assert forall|j: int| i <= j < n implies child_row(s, avail, col, j) != cur by {
                    lemma_flow_row_mono(s, avail, col, i as int + 1, j + 1);
                }
                lemma_row_height_settles(s, avail, col, cur, i as int, n as int);
                lemma_row_height_bounds(s, avail, col, cur, i as int);
                lemma_tower_mono(s, rsp, i as int, n as int);
                assert(row_h as int == row_height(s, avail, col, cur));
                assert forall|j: int| row_start <= j < i implies (#[trigger] rects@[j]).height == s[j].1 && s[j].1 <= row_h by {
                    assert(child_row(s, avail, col, j) == cur);
                }
                assert forall|j: int| row_start <= j < i implies (#[trigger] rects@[j]).height >= 0 by {
                    assert(s[j].1 >= 0);
                }
            }
            centre_row(&mut rects, row_start, row_h, Ghost(s), Ghost(avail), Ghost(col), Ghost(rsp), Ghost(cur), Ghost(i as int));
            y = y + row_h + row_spacing;
            x = 0;
            row_h = 0;
            row_start = i;
            proof {
                assert(y == row_y(s, avail, col, rsp, cur) + row_height(s, avail, col, cur) + rsp);
                cur = cur + 1;
                assert(row_y(s, avail, col, rsp, cur) == row_y(s, avail, col, rsp, cur - 1) + row_height(s, avail, col, cur - 1) + rsp);
                assert forall|j: int| 0 <= j < row_start implies child_row(s, avail, col, j) < cur by {
                    if j < i {
                        lemma_flow_row_mono(s, avail, col, j + 1, i as int);
                    }
                }
                lemma_row_height_settles(s, avail, col, cur, 0, i as int);
                assert(row_height_upto(s, avail, col, cur, 0) == 0);
            }
        }
        let cx: i32 = if x == 0 { 0 } else { x + col_spacing };
        rects.push(Rect { x: cx, y, width: w, height: h });
        x = cx + w;
        if h > row_h {
            row_h = h;
        }
        i += 1;
    }
    proof {
        if n > 0 {
            assert(child_row(s, avail, col, n - 1) == cur);
        }
        lemma_row_height_bounds(s, avail, col, cur, n as int);
        assert(row_h as int == row_height(s, avail, col, cur));
        assert forall|j: int| row_start <= j < n implies (#[trigger] rects@[j]).height == s[j].1 && s[j].1 <= row_h by {
            assert(child_row(s, avail, col, j) == cur);
        }
        assert forall|j: int| row_start <= j < n implies (#[trigger] rects@[j]).height >= 0 by {
            assert(s[j].1 >= 0);
        }
    }
    centre_row(&mut rects, row_start, row_h, Ghost(s), Ghost(avail), Ghost(col), Ghost(rsp), Ghost(cur), Ghost(n as int));
    let total = if n == 0 { 0 } else { y + row_h };
    (rects, total)
}

/// Centre each child of the finished row `rects[row_start..]` in the row's height.
fn centre_row(
    rects: &mut Vec<Rect>,
    row_start: usize,
    row_h: i32,
    Ghost(s): Ghost<Seq<(i32, i32)>>,
    Ghost(avail): Ghost<int>,
    Ghost(col): Ghost<int>,
    Ghost(rsp): Ghost<int>,
    Ghost(cur): Ghost<int>,
    Ghost(end): Ghost<int>,
)
    requires
        old(rects)@.len() == end,
        row_start <= end <= s.len(),
        row_h as int == row_height(s, avail, col, cur),
        old(rects)@.len() <= s.len(),
        forall|j: int| row_start <= j < end ==> child_row(s, avail, col, j) == cur,
        forall|j: int| row_start <= j < end ==> (#[trigger] old(rects)@[j]).height == s[j].1 && s[j].1 <= row_h,
        forall|j: int| row_start <= j < end ==> (#[trigger] old(rects)@[j]).y == row_y(s, avail, col, rsp, cur)
            && row_y(s, avail, col, rsp, cur) + row_h <= i32::MAX,
        forall|j: int| row_start <= j < end ==> (#[trigger] old(rects)@[j]).height >= 0,
    ensures
        final(rects)@.len() == old(rects)@.len(),
        forall|j: int| 0 <= j < row_start ==> #[trigger] final(rects)@[j] == old(rects)@[j],
        forall|j: int| row_start <= j < end ==> {
            &&& (#[trigger] final(rects)@[j]).x == old(rects)@[j].x
            &&& final(rects)@[j].width == old(rects)@[j].width
            &&& final(rects)@[j].height == old(rects)@[j].height
            &&& final(rects)@[j].y == row_y(s, avail, col, rsp, cur) + (row_h - s[j].1) / 2
        },
{
    let mut j = row_start;
    while j < rects.len()
        invariant
            rects@.len() == old(rects)@.len(),
            rects@.len() == end,
            row_start <= j <= end,
            forall|k: int| 0 <= k < row_start ==> #[trigger] rects@[k] == old(rects)@[k],
            forall|k: int| j <= k < end ==> #[trigger] rects@[k] == old(rects)@[k],
            forall|k: int| row_start <= k < end ==> (#[trigger] old(rects)@[k]).height == s[k].1 && s[k].1 <= row_h,
            forall|k: int| row_start <= k < end ==> (#[trigger] old(rects)@[k]).y == row_y(s, avail, col, rsp, cur)
                && row_y(s, avail, col, rsp, cur) + row_h <= i32::MAX,
            forall|k: int| row_start <= k < end ==> (#[trigger] old(rects)@[k]).height >= 0,
            forall|k: int| row_start <= k < j ==> {
                &&& (#[trigger] rects@[k]).x == old(rects)@[k].x
                &&& rects@[k].width == old(rects)@[k].width
                &&& rects@[k].height == old(rects)@[k].height
                &&& rects@[k].y == row_y(s, avail, col, rsp, cur) + (row_h - s[k].1) / 2
            },
        decreases end - j,
    {
        let r = rects[j];
        proof {
            assert(old(rects)@[j as int] == r);
        }
        let lift = (row_h - r.height) / 2;
        rects.set(j, Rect { y: r.y + lift, ..r });
        j += 1;
    }
}

/// The flow never runs left of the edge.
proof fn lemma_flow_x_nonneg(sizes: Seq<(i32, i32)>, avail: int, col: int, k: int)
    requires
        0 <= k <= sizes.len(),
        col >= 0,
        forall|i: int| 0 <= i < sizes.len() ==> (#[trigger] sizes[i]).0 >= 0,
    ensures
        flow(sizes, avail, col, k).0 >= 0,
        flow(sizes, avail, col, k).1 >= 0,
    decreases k,
{
    if k > 0 {
        lemma_flow_x_nonneg(sizes, avail, col, k - 1);
        assert(sizes[k - 1].0 >= 0);
    }
}

/// **No row overflows.** Every child that does not start its row ends within the available
/// width; only a child that starts a row — at the left edge — can be wider than the width.
pub proof fn lemma_rows_never_overflow(sizes: Seq<(i32, i32)>, avail: int, col: int, row_sp: int, k: int)
    requires
        packable(sizes, col, row_sp),
        0 <= k < sizes.len(),
    ensures
        child_x(sizes, avail, col, k) > 0 ==> child_x(sizes, avail, col, k) + sizes[k].0 <= avail,
        child_x(sizes, avail, col, k) >= 0,
{
    lemma_flow_x_nonneg(sizes, avail, col, k);
}

/// **A wrapped row starts flush against the left edge**: a child that starts a new row is
/// placed at x = 0, with no offset inherited from the row above it.
pub proof fn lemma_a_wrapped_row_starts_at_the_left_edge(sizes: Seq<(i32, i32)>, avail: int, col: int, k: int)
    requires
        0 < k < sizes.len(),
        child_row(sizes, avail, col, k) != child_row(sizes, avail, col, k - 1),
    ensures
        child_x(sizes, avail, col, k) == 0,
        child_row(sizes, avail, col, k) == child_row(sizes, avail, col, k - 1) + 1,
{
}

/// **A short child is centred in its row**: its middle is the row's middle, to within the
/// rounding of halving an odd height.
pub proof fn lemma_a_short_child_is_centred(sizes: Seq<(i32, i32)>, avail: int, col: int, row_sp: int, k: int)
    requires
        packable(sizes, col, row_sp),
        0 <= k < sizes.len(),
    ensures
        ({
            let c = child_rect(sizes, avail, col, row_sp, k);
            let r = child_row(sizes, avail, col, k);
            let mid = c.1 + c.3 / 2;
            let row_mid = row_y(sizes, avail, col, row_sp, r) + row_height(sizes, avail, col, r) / 2;
            row_mid - 1 <= mid <= row_mid + 1
        }),
{
    let r = child_row(sizes, avail, col, k);
    lemma_row_height_bounds(sizes, avail, col, r, sizes.len() as int);
    assert(sizes[k].1 >= 0);
}

/// Which way a size is measured.
#[derive(Clone, Copy, PartialEq, Eq, Debug, Structural)]
pub enum Orientation {
    Horizontal,
    Vertical,
}

/// The widest of the first `k` children, or 0.
pub open spec fn widest(sizes: Seq<(i32, i32)>, k: int) -> int
    decreases k,
{
    if k <= 0 { 0 } else if sizes[k - 1].0 > widest(sizes, k - 1) { sizes[k - 1].0 as int } else { widest(sizes, k - 1) }
}

/// The tallest of the first `k` children, or 0.
pub open spec fn tallest(sizes: Seq<(i32, i32)>, k: int) -> int
    decreases k,
{
    if k <= 0 { 0 } else if sizes[k - 1].1 > tallest(sizes, k - 1) { sizes[k - 1].1 as int } else { tallest(sizes, k - 1) }
}

proof fn lemma_widest_le_span(sizes: Seq<(i32, i32)>, col: int, k: int)
    requires
        0 <= k <= sizes.len(),
        col >= 0,
        forall|i: int| 0 <= i < sizes.len() ==> (#[trigger] sizes[i]).0 >= 0,
    ensures
        0 <= widest(sizes, k) <= span(sizes, col, k),
    decreases k,
{
    if k > 0 {
        lemma_widest_le_span(sizes, col, k - 1);
        lemma_span_mono(sizes, col, k - 1, k);
        assert(sizes[k - 1].0 >= 0);
    }
}

proof fn lemma_tallest_le_tower(sizes: Seq<(i32, i32)>, row_sp: int, k: int)
    requires
        0 <= k <= sizes.len(),
        row_sp >= 0,
        forall|i: int| 0 <= i < sizes.len() ==> (#[trigger] sizes[i]).1 >= 0,
    ensures
        0 <= tallest(sizes, k) <= tower(sizes, row_sp, k),
    decreases k,
{
    if k > 0 {
        lemma_tallest_le_tower(sizes, row_sp, k - 1);
        lemma_tower_mono(sizes, row_sp, k - 1, k);
        assert(sizes[k - 1].1 >= 0);
    }
}

/// The wrap box's spacing between the children of a row and between rows.
pub struct ToolbarWrapBox {
    pub column_spacing: i32,
    pub row_spacing: i32,
}

impl ToolbarWrapBox {
    /// The box's `(minimum, natural)` size for children of natural `sizes` (the visible
    /// ones, in order). Across: at least the widest child, since with unlimited height
    /// every child could have a row of its own, and naturally every child on one row.
    /// Down: the height of the rows at the width `for_size`, or of the one row every child
    /// would share when no width is known yet.
    pub fn measure(&self, sizes: &[(i32, i32)], orientation: Orientation, for_size: i32) -> (r: (i32, i32))
        requires
            packable(sizes@, self.column_spacing as int, self.row_spacing as int),
        ensures
            orientation == Orientation::Horizontal ==> r == (
                widest(sizes@, sizes@.len() as int) as i32,
                if sizes@.len() == 0 { 0i32 } else { (span(sizes@, self.column_spacing as int, sizes@.len() as int) - self.column_spacing) as i32 },
            ),
            orientation == Orientation::Vertical ==> {
                let h = if for_size <= 0 {
                    tallest(sizes@, sizes@.len() as int)
                } else {
                    packed_height(sizes@, for_size as int, self.column_spacing as int, self.row_spacing as int)
                };
                r.0 == h && r.1 == h
            },
    {
        let ghost s = sizes@;
        let col = self.column_spacing;
        let n = sizes.len();
        match orientation {
            Orientation::Horizontal => {
                let mut min_w: i32 = 0;
                let mut sum_w: i32 = 0;
                let mut i: usize = 0;
                while i < n
                    invariant
                        s == sizes@,
                        n == s.len(),
                        col == self.column_spacing,
                        packable(s, col as int, self.row_spacing as int),
                        i <= n,
                        min_w == widest(s, i as int),
                        sum_w == if i == 0 { 0 } else { span(s, col as int, i as int) - col },
                    decreases n - i,
                {
                    proof {
                        lemma_span_mono(s, col as int, i as int + 1, n as int);
                        assert(s[i as int].0 >= 0);
                    }
                    let (w, _) = sizes[i];
                    if w > min_w {
                        min_w = w;
                    }
                    if i > 0 {
                        sum_w = sum_w + col;
                    }
                    sum_w = sum_w + w;
                    proof {
                        assert(span(s, col as int, i as int + 1) == span(s, col as int, i as int) + s[i as int].0 + col);
                        assert(span(s, col as int, 0) == 0);
                    }
                    i += 1;
                }
                (min_w, sum_w)
            },
            Orientation::Vertical => {
                let h = if for_size <= 0 {
                    let mut tallest_h: i32 = 0;
                    let mut i: usize = 0;
                    while i < n
                        invariant
                            s == sizes@,
                            n == s.len(),
                            packable(s, col as int, self.row_spacing as int),
                            i <= n,
                            tallest_h == tallest(s, i as int),
                        decreases n - i,
                    {
                        proof {
                            lemma_tallest_le_tower(s, self.row_spacing as int, i as int + 1);
                            lemma_tower_mono(s, self.row_spacing as int, i as int + 1, n as int);
                        }
                        let (_, h) = sizes[i];
                        if h > tallest_h {
                            tallest_h = h;
                        }
                        i += 1;
                    }
                    tallest_h
                } else {
                    pack(sizes, for_size, col, self.row_spacing).1
                };
                (h, h)
            },
        }
    }

    /// Lay the children out across the allocated `width` (at least 1): the same
    /// [`pack`] the height was measured with.
    pub fn size_allocate(&self, sizes: &[(i32, i32)], width: i32) -> (rects: Vec<Rect>)
        requires
            packable(sizes@, self.column_spacing as int, self.row_spacing as int),
        ensures
            rects@ == pack_spec(sizes@, if width < 1 { 1 } else { width as int }, self.column_spacing as int, self.row_spacing as int),
    {
        let w = if width < 1 { 1 } else { width };
        let (rects, _) = pack(sizes, w, self.column_spacing, self.row_spacing);
        proof {
            assert(rects@ =~= pack_spec(sizes@, w as int, self.column_spacing as int, self.row_spacing as int));
        }
        rects
    }
}

/// Every child's allocation, as [`pack`] computes it.
pub open spec fn pack_spec(sizes: Seq<(i32, i32)>, avail: int, col: int, row_sp: int) -> Seq<Rect> {
    Seq::new(sizes.len(), |k: int| {
        let c = child_rect(sizes, avail, col, row_sp, k);
        Rect { x: c.0 as i32, y: c.1 as i32, width: c.2 as i32, height: c.3 as i32 }
    })
}

} // verus!
