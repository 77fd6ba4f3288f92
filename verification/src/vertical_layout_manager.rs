//! Lays out widgets vertically in a bounding box.

use crate::layout_manager::{
    frames_are_nonnegative, frames_are_representable, frames_of, layout_fits, layout_of,
    layout_outcome, result_view, Coordinates, Frame, LayoutError, LayoutManager, LayoutManagerCoordinates,
    LayoutManagerPadding,
};
use crate::point::{Point, Size};
use vstd::prelude::*;

verus! {

/// Integer division that truncates toward zero, for a positive divisor.
pub open spec fn trunc_div(a: int, b: int) -> int
    recommends
        b > 0,
{
    if a >= 0 {
        a / b
    } else {
        -((-a) / b)
    }
}

/// Half of the configured spacing, rounded toward zero.
pub open spec fn half_spacing(padding: LayoutManagerPadding) -> int {
    trunc_div(padding.spacing as int, 2)
}

/// The height budget of one of `n` children: an even share of the container
/// height, less half the spacing.
pub open spec fn height_per_widget(padding: LayoutManagerPadding, size: Size, n: int) -> int
    recommends
        n > 0,
{
    trunc_div(size.h as int, n) - half_spacing(padding)
}

/// The frame of child `i` of `n` children stacked top to bottom in the
/// container at `origin` with extent `size`. Every child starts at the left
/// padding and spans the width left between the side paddings. The first
/// child starts at the top padding, and each next one an even share of the
/// container height further down. A child is its budget less half the
/// spacing high, except the last, which is its budget less the bottom
/// padding high.
pub open spec fn vertical_frame(
    padding: LayoutManagerPadding,
    origin: Point,
    size: Size,
    n: int,
    i: int,
) -> Frame
    recommends
        0 <= i < n,
{
    let each = height_per_widget(padding, size, n);
    Frame {
        x: origin.x + padding.left,
        y: padding.top + origin.y + i * (each + half_spacing(padding)),
        w: size.w - (padding.left + padding.right),
        h: if i == n - 1 {
            each - padding.bottom
        } else {
            each - half_spacing(padding)
        },
    }
}

/// The frames of `n` children stacked top to bottom.
pub open spec fn vertical_frames(
    padding: LayoutManagerPadding,
    origin: Point,
    size: Size,
    n: nat,
) -> Seq<Frame> {
    Seq::new(n, |i: int| vertical_frame(padding, origin, size, n as int, i))
}

/// What a vertical layout pass returns under `padding`.
pub open spec fn vertical_layout(
    padding: LayoutManagerPadding,
    origin: Point,
    size: Size,
    input: Coordinates,
) -> Result<Coordinates, LayoutError> {
    layout_outcome(vertical_frames(padding, origin, size, input.widget_sizes.len()), input)
}

/// The numbers all frames of one vertical pass are made of.
struct VerticalPlan {
    x: i64,
    first_y: i64,
    step: i64,
    width: i64,
    inner_height: i64,
    last_height: i64,
}

impl VerticalPlan {
    /// The plan holds the numbers of `vertical_frame` for `n` children.
    spec fn describes(
        self,
        padding: LayoutManagerPadding,
        origin: Point,
        size: Size,
        n: int,
    ) -> bool {
        let each = height_per_widget(padding, size, n);
        &&& self.x == origin.x + padding.left
        &&& self.first_y == padding.top + origin.y
        &&& self.step == each + half_spacing(padding)
        &&& self.width == size.w - (padding.left + padding.right)
        &&& self.inner_height == each - half_spacing(padding)
        &&& self.last_height == each - padding.bottom
    }

    /// No child gets a negative width or height.
    spec fn is_nonnegative(self, n: int) -> bool {
        &&& self.width >= 0
        &&& self.last_height >= 0
        &&& n > 1 ==> self.inner_height >= 0
    }

    fn check_nonnegative(&self, n: usize) -> (ok: bool)
        ensures
            ok == self.is_nonnegative(n as int),
    {
        self.width >= 0 && self.last_height >= 0 && (n <= 1 || self.inner_height >= 0)
    }
}

/// The even share of height `h` that each of `n` children gets.
fn share_of(h: i32, n: usize) -> (share: i64)
    requires
        n > 0,
    ensures
        share == trunc_div(h as int, n as int),
        h >= 0 ==> 0 <= share <= h,
        h < 0 ==> h <= share <= 0,
        0 <= share * n <= h || h <= share * n <= 0,
{
    if n > 0x8000_0000 {
        proof {
            if h >= 0 {
                vstd::arithmetic::div_mod::lemma_basic_div(h as int, n as int);
            } else {
                vstd::arithmetic::div_mod::lemma_basic_div(-(h as int), n as int);
            }
        }
        0
    } else {
        let d: i64 = n as i64;
        let share: i64 = (h as i64) / d;
        proof {
            let a: int = if h >= 0 {
                h as int
            } else {
                -(h as int)
            };
            vstd::arithmetic::div_mod::lemma_fundamental_div_mod(a, d as int);
            vstd::arithmetic::div_mod::lemma_div_pos_is_pos(a, d as int);
            vstd::arithmetic::div_mod::lemma_mod_bound(a, d as int);
            vstd::arithmetic::mul::lemma_mul_is_commutative(d as int, a / (d as int));
            assert(0 <= (a / (d as int)) * d <= a);
            assert((a / (d as int)) <= a) by (nonlinear_arith)
                requires
                    0 <= (a / (d as int)) * d <= a,
                    d >= 1,
                    0 <= a / (d as int),
            ;
            if h < 0 {
                assert(share * n == -((a / (d as int)) * d)) by (nonlinear_arith)
                    requires
                        share == -(a / (d as int)),
                        n == d,
                ;
            }
        }
        share
    }
}

/// Stacks the children of a container top to bottom in a single column,
/// sharing the container's height evenly among them.
pub struct VerticalLayoutManager {
    container_widget_id: i32,
    padding: LayoutManagerPadding,
}

impl VerticalLayoutManager {
    /// A manager for the container `widget_id` that lays out under
    /// `padding`.
    pub fn new(widget_id: i32, padding: LayoutManagerPadding) -> (manager: Self)
        requires
            padding.is_valid(),
        ensures
            manager.well_formed(),
            manager.container_id() == widget_id,
            manager.padding() == padding,
    {
        Self { container_widget_id: widget_id, padding }
    }

    /// Works out the numbers of a pass over `n` children.
    fn plan(&self, origin: Point, size: Size, n: usize) -> (plan: VerticalPlan)
        requires
            self.well_formed(),
            n > 0,
        ensures
            plan.describes(self.padding, origin, size, n as int),
            plan.step == trunc_div(size.h as int, n as int),
            0 <= plan.step * n <= size.h || size.h <= plan.step * n <= 0,
            -0x8000_0000 <= plan.step <= 0x7fff_ffff,
            plan.inner_height <= plan.step,
            plan.last_height <= plan.step,
            -0x8000_0000 <= plan.x <= 0xffff_ffff,
            -0x8000_0000 <= plan.first_y <= 0xffff_ffff,
            plan.width <= size.w,
    {
        let half: i64 = (self.padding.spacing / 2) as i64;
        let share: i64 = share_of(size.h, n);
        let each: i64 = share - half;
        VerticalPlan {
            x: origin.x as i64 + self.padding.left as i64,
            first_y: self.padding.top as i64 + origin.y as i64,
            step: each + half,
            width: size.w as i64 - (self.padding.left as i64 + self.padding.right as i64),
            inner_height: each - half,
            last_height: each - self.padding.bottom as i64,
        }
    }
}

/// The frames the strategy assigns are those of `vertical_frames`.
proof fn lemma_frames_agree(
    padding: LayoutManagerPadding,
    origin: Point,
    size: Size,
    hints: Seq<Size>,
)
    ensures
        Seq::new(
            hints.len(),
            |i: int| VerticalLayoutManager::frame(padding, origin, size, hints, i),
        ) == vertical_frames(padding, origin, size, hints.len()),
{
    assert(Seq::new(
        hints.len(),
        |i: int| VerticalLayoutManager::frame(padding, origin, size, hints, i),
    ) =~= vertical_frames(padding, origin, size, hints.len()));
}

/// A plan is non-negative exactly when all the frames it stands for are.
proof fn lemma_plan_nonnegative(
    plan: VerticalPlan,
    padding: LayoutManagerPadding,
    origin: Point,
    size: Size,
    n: nat,
)
    requires
        n > 0,
        plan.describes(padding, origin, size, n as int),
    ensures
        plan.is_nonnegative(n as int) == frames_are_nonnegative(
            vertical_frames(padding, origin, size, n),
        ),
{
    let frames = vertical_frames(padding, origin, size, n);
    if plan.is_nonnegative(n as int) {
        assert forall|i: int| 0 <= i < frames.len() implies (#[trigger] frames[i]).is_nonnegative() by {
            if i != n - 1 {
                assert(n > 1);
            }
        }
    } else {
        if plan.width < 0 || plan.last_height < 0 {
            assert(!frames[n - 1].is_nonnegative());
        } else {
            assert(!frames[0].is_nonnegative());
        }
    }
}

/// With a non-negative step, child `i` starts no higher than the first
/// child and no lower than the last.
proof fn lemma_child_between(step: int, n: int, i: int)
    by (nonlinear_arith)
    requires
        step >= 0,
        0 <= i < n,
    ensures
        0 <= i * step <= (n - 1) * step,
        (i + 1) * step == i * step + step,
{
}

/// The last child starts at most the container height below the first.
proof fn lemma_last_offset(step: int, n: int, h: int)
    by (nonlinear_arith)
    requires
        n > 0,
        step >= 0,
        0 <= step * n <= h || h <= step * n <= 0,
    ensures
        0 <= (n - 1) * step <= step * n,
        step * n <= if h >= 0 { h } else { 0 },
        step > 0 ==> n <= step * n,
{
}

impl LayoutManager for VerticalLayoutManager {
    closed spec fn well_formed(&self) -> bool {
        self.padding.is_valid()
    }

    closed spec fn padding(&self) -> LayoutManagerPadding {
        self.padding
    }

    closed spec fn container_id(&self) -> i32 {
        self.container_widget_id
    }

    open spec fn frame(
        padding: LayoutManagerPadding,
        origin: Point,
        size: Size,
        hints: Seq<Size>,
        i: int,
    ) -> Frame {
        vertical_frame(padding, origin, size, hints.len() as int, i)
    }

    fn fits(&self, origin: Point, size: Size, coordinates: &LayoutManagerCoordinates) -> (ok:
        bool) {
        let n = coordinates.widget_sizes.len();
        proof {
            lemma_frames_agree(self.padding, origin, size, coordinates@.widget_sizes);
        }
        if n == 0 || coordinates.widget_positions.len() != n {
            return true;
        }
        let plan = self.plan(origin, size, n);
        proof {
            lemma_plan_nonnegative(plan, self.padding, origin, size, n as nat);
        }
        if !plan.check_nonnegative(n) {
            return true;
        }
        proof {
            lemma_last_offset(plan.step as int, n as int, size.h as int);
        }
        let last_offset: i64 = if plan.step == 0 {
            0
        } else {
            (n - 1) as i64 * plan.step
        };
        assert(last_offset == (n - 1) * plan.step) by (nonlinear_arith)
            requires
                plan.step == 0 ==> last_offset == 0,
                plan.step != 0 ==> last_offset == (n - 1) * plan.step,
        ;
        let last_y: i64 = plan.first_y + last_offset;
        let ok = plan.x <= 0x7fff_ffff && last_y <= 0x7fff_ffff;
        proof {
            let frames = vertical_frames(self.padding, origin, size, n as nat);
            if ok {
                assert forall|i: int| 0 <= i < frames.len() implies (#[trigger] frames[i]).is_representable() by {
                    lemma_child_between(plan.step as int, n as int, i);
                    if i != n - 1 {
                        assert(n > 1);
                    }
                }
            } else {
                if plan.x > 0x7fff_ffff {
                    assert(!frames[0].is_representable());
                } else {
                    assert(!frames[n - 1].is_representable());
                }
            }
        }
        ok
    }

    fn do_layout(
        &self,
        origin: Point,
        size: Size,
        coordinates: LayoutManagerCoordinates,
    ) -> (result: Result<LayoutManagerCoordinates, LayoutError>)
        ensures
            result_view(result) == vertical_layout(self.padding(), origin, size, coordinates@),
    {
        let n = coordinates.widget_sizes.len();
        proof {
            lemma_frames_agree(self.padding, origin, size, coordinates@.widget_sizes);
        }
        if n == 0 || coordinates.widget_positions.len() != n {
            return Err(LayoutError::InvalidLayoutInput);
        }
        let plan = self.plan(origin, size, n);
        proof {
            lemma_plan_nonnegative(plan, self.padding, origin, size, n as nat);
        }
        if !plan.check_nonnegative(n) {
            return Err(LayoutError::NegativeGeometry);
        }
        let ghost frames = vertical_frames(self.padding, origin, size, n as nat);
        let mut widget_origins: Vec<Point> = Vec::new();
        let mut widget_sizes: Vec<Size> = Vec::new();
        let mut current_y: i64 = plan.first_y;
        let mut i: usize = 0;
        while i < n
            invariant
                0 <= i <= n,
                n > 0,
                plan.describes(self.padding, origin, size, n as int),
                plan.is_nonnegative(n as int),
                0 <= plan.step <= 0x7fff_ffff,
                frames == vertical_frames(self.padding, origin, size, n as nat),
                frames_are_representable(frames),
                current_y == plan.first_y + i * plan.step,
                widget_origins@ == frames.take(i as int).map_values(|f: Frame| f.origin()),
                widget_sizes@ == frames.take(i as int).map_values(|f: Frame| f.size()),
            decreases n - i,
        {
            let ghost frame = frames[i as int];
            assert(frame.is_representable());
            assert(frame.y == current_y);
            let height: i64 = if i == n - 1 {
                plan.last_height
            } else {
                plan.inner_height
            };
            assert(frame.h == height);
            widget_origins.push(Point { x: plan.x as i32, y: current_y as i32 });
            widget_sizes.push(Size { w: plan.width as i32, h: height as i32 });
            proof {
                lemma_child_between(plan.step as int, n as int, i as int);
                assert(frames.take(i + 1) =~= frames.take(i as int).push(frame));
                assert(widget_origins@ =~= frames.take(i + 1).map_values(|f: Frame| f.origin()));
                assert(widget_sizes@ =~= frames.take(i + 1).map_values(|f: Frame| f.size()));
            }
            current_y = current_y + plan.step;
            i = i + 1;
        }
        assert(frames.take(n as int) =~= frames);
        Ok(
            LayoutManagerCoordinates {
                widget_origins,
                widget_sizes,
                widget_positions: coordinates.widget_positions,
            },
        )
    }

    fn adjust_layout(&mut self, padding: LayoutManagerPadding) {
        self.padding = padding;
    }

    fn get_widget_id(&self) -> (id: i32) {
        self.container_widget_id
    }
}

/// The sum of the heights in `sizes`.
pub open spec fn total_height(sizes: Seq<Size>) -> int
    decreases sizes.len(),
{
    if sizes.len() == 0 {
        0
    } else {
        total_height(sizes.drop_last()) + sizes.last().h
    }
}

/// The heights of the first `k` of `n` stacked children add up to `k` inner
/// heights, or, with the last child among them, to `n - 1` inner heights and
/// the last child's height.
proof fn lemma_heights_add_up(
    padding: LayoutManagerPadding,
    origin: Point,
    size: Size,
    n: nat,
    k: nat,
)
    requires
        0 < n,
        k <= n,
        frames_are_representable(vertical_frames(padding, origin, size, n)),
    ensures
        total_height(
            vertical_frames(padding, origin, size, n).map_values(|f: Frame| f.size()).take(
                k as int,
            ),
        ) == if k == n {
            (n - 1) * (height_per_widget(padding, size, n as int) - half_spacing(padding)) + (
            height_per_widget(padding, size, n as int) - padding.bottom)
        } else {
            k * (height_per_widget(padding, size, n as int) - half_spacing(padding))
        },
    decreases k,
{
    let frames = vertical_frames(padding, origin, size, n);
    let sizes = frames.map_values(|f: Frame| f.size());
    let inner = height_per_widget(padding, size, n as int) - half_spacing(padding);
    if k > 0 {
        lemma_heights_add_up(padding, origin, size, n, (k - 1) as nat);
        assert(sizes.take(k as int).drop_last() =~= sizes.take(k - 1));
        assert(frames[k - 1].is_representable());
        assert(sizes.take(k as int).last().h == frames[k - 1].h);
        assert(k * inner == (k - 1) * inner + inner) by (nonlinear_arith);
    } else {
        assert(0 * inner == 0) by (nonlinear_arith);
    }
}

/// A successful vertical pass tiles the container. Across, every child
/// starts at the left padding and, with both side paddings, spans the
/// container's width exactly. Down, the first child starts at the top
/// padding and each next child starts below its predecessor after a gap of
/// twice the halved spacing. The heights, the gaps and the top and bottom
/// padding together fall short of the container's height by the remainder of
/// the even split, plus the halved spacing, less the top padding. They cover
/// the height up to `n - 1` units of rounding exactly when the top padding is
/// within `n - 1` of that remainder plus the halved spacing, as it is when
/// the top padding is half the spacing.
pub proof fn lemma_vertical_layout_tiles(
    padding: LayoutManagerPadding,
    origin: Point,
    size: Size,
    input: Coordinates,
)
    requires
        padding.is_valid(),
        size.is_valid(),
        layout_fits(vertical_frames(padding, origin, size, input.widget_sizes.len()), input),
    ensures
        match vertical_layout(padding, origin, size, input) {
            Ok(laid_out) => {
                let n = input.widget_sizes.len() as int;
                let gap = 2 * half_spacing(padding);
                let used = total_height(laid_out.widget_sizes) + (n - 1) * gap + padding.top
                    + padding.bottom;
                &&& n >= 1
                &&& laid_out.widget_origins.len() == n
                &&& laid_out.widget_sizes.len() == n
                &&& forall|i: int|
                    #![trigger laid_out.widget_origins[i]]
                    #![trigger laid_out.widget_sizes[i]]
                    0 <= i < n ==> {
                        &&& laid_out.widget_origins[i].x == origin.x + padding.left
                        &&& padding.left + laid_out.widget_sizes[i].w + padding.right == size.w
                    }
                &&& laid_out.widget_origins[0].y == origin.y + padding.top
                &&& forall|i: int, j: int|
                    #![trigger laid_out.widget_sizes[i], laid_out.widget_origins[j]]
                    0 <= i && j == i + 1 && j < n ==> laid_out.widget_origins[j].y
                        == laid_out.widget_origins[i].y + laid_out.widget_sizes[i].h + gap
                &&& size.h - used == (size.h as int) % n + half_spacing(padding) - padding.top
                &&& padding.top == half_spacing(padding) ==> 0 <= size.h - used <= n - 1
                &&& (-(n - 1) <= size.h - used <= n - 1) == (padding.top - (n - 1) <= (
                size.h as int) % n + half_spacing(padding) <= padding.top + (n - 1))
            },
            Err(_) => true,
        },
{
    let count = input.widget_sizes.len();
    let frames = vertical_frames(padding, origin, size, count);
    match vertical_layout(padding, origin, size, input) {
        Ok(laid_out) => {
            let n = count as int;
            let share = trunc_div(size.h as int, n);
            let inner = height_per_widget(padding, size, n) - half_spacing(padding);
            assert forall|i: int| 0 <= i < n implies (#[trigger] frames[i]).is_representable() by {}
            assert forall|i: int, j: int|
                #![trigger laid_out.widget_sizes[i], laid_out.widget_origins[j]]
                0 <= i && j == i + 1 && j < n implies laid_out.widget_origins[j].y
                == laid_out.widget_origins[i].y + laid_out.widget_sizes[i].h + 2 * half_spacing(
                padding,
            ) by {
                assert(frames[i].is_representable());
                assert(frames[j].is_representable());
                assert((i + 1) * share == i * share + share) by (nonlinear_arith);
            }
            assert(frames[0].is_representable());
            assert(0 * share == 0) by (nonlinear_arith);
            lemma_heights_add_up(padding, origin, size, count, count);
            assert(laid_out.widget_sizes.take(n) =~= laid_out.widget_sizes);
            vstd::arithmetic::div_mod::lemma_fundamental_div_mod(size.h as int, n);
            vstd::arithmetic::div_mod::lemma_mod_bound(size.h as int, n);
            assert((n - 1) * inner + (n - 1) * (2 * half_spacing(padding)) == (n - 1) * share)
                by (nonlinear_arith)
                requires
                    inner + 2 * half_spacing(padding) == share,
            ;
            assert((n - 1) * share + share == n * share) by (nonlinear_arith);
        },
        Err(_) => {},
    }
}

/// The layout of the vertical strategy is `vertical_layout`.
pub proof fn lemma_vertical_layout_is_layout_of(
    padding: LayoutManagerPadding,
    origin: Point,
    size: Size,
    input: Coordinates,
)
    ensures
        layout_of::<VerticalLayoutManager>(padding, origin, size, input) == vertical_layout(
            padding,
            origin,
            size,
            input,
        ),
{
    assert(frames_of::<VerticalLayoutManager>(padding, origin, size, input.widget_sizes)
        =~= vertical_frames(padding, origin, size, input.widget_sizes.len()));
}

} // verus!
