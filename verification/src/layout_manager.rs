//! The contract every layout strategy implements.

use crate::point::{Point, Size};
use vstd::prelude::*;

verus! {

/// Space a layout manager keeps free around and between the children of
/// its container.
#[derive(Clone, Copy, Debug, PartialEq, Eq, Structural)]
pub struct LayoutManagerPadding {
    pub top: i32,
    pub bottom: i32,
    pub left: i32,
    pub right: i32,
    pub spacing: i32,
}

impl LayoutManagerPadding {
    /// Padding is valid when none of its five amounts is negative.
    pub open spec fn is_valid(self) -> bool {
        &&& self.top >= 0
        &&& self.bottom >= 0
        &&& self.left >= 0
        &&& self.right >= 0
        &&& self.spacing >= 0
    }

    /// Decides `is_valid`.
    pub fn check_valid(&self) -> (valid: bool)
        ensures
            valid == self.is_valid(),
    {
        self.top >= 0 && self.bottom >= 0 && self.left >= 0 && self.right >= 0 && self.spacing
            >= 0
    }
}

/// Why a layout pass produced no geometry.
#[derive(Clone, Copy, Debug, PartialEq, Eq, Structural)]
pub enum LayoutError {
    /// No children were passed, or the number of size hints differs from
    /// the number of widget ids.
    InvalidLayoutInput,
    /// Some child would get a negative width or height.
    NegativeGeometry,
}

/// The record a layout pass works on. `widget_positions` holds the ids of
/// the children in the order they are laid out, `widget_sizes` one size per
/// child (size hints on the way in, assigned sizes on the way out), and
/// `widget_origins` the assigned origins.
pub struct LayoutManagerCoordinates {
    pub widget_origins: Vec<Point>,
    pub widget_sizes: Vec<Size>,
    pub widget_positions: Vec<i32>,
}

/// Mathematical content of a `LayoutManagerCoordinates`.
pub struct Coordinates {
    pub widget_origins: Seq<Point>,
    pub widget_sizes: Seq<Size>,
    pub widget_positions: Seq<i32>,
}

impl View for LayoutManagerCoordinates {
    type V = Coordinates;

    open spec fn view(&self) -> Coordinates {
        Coordinates {
            widget_origins: self.widget_origins@,
            widget_sizes: self.widget_sizes@,
            widget_positions: self.widget_positions@,
        }
    }
}

/// Where a strategy puts one child, over unbounded integers.
pub struct Frame {
    pub x: int,
    pub y: int,
    pub w: int,
    pub h: int,
}

impl Frame {
    /// Neither dimension is negative.
    pub open spec fn is_nonnegative(self) -> bool {
        self.w >= 0 && self.h >= 0
    }

    /// All four numbers are representable as `i32`.
    pub open spec fn is_representable(self) -> bool {
        &&& i32::MIN <= self.x <= i32::MAX
        &&& i32::MIN <= self.y <= i32::MAX
        &&& i32::MIN <= self.w <= i32::MAX
        &&& i32::MIN <= self.h <= i32::MAX
    }

    /// The frame's position as a `Point`.
    pub open spec fn origin(self) -> Point {
        Point { x: self.x as i32, y: self.y as i32 }
    }

    /// The frame's extent as a `Size`.
    pub open spec fn size(self) -> Size {
        Size { w: self.w as i32, h: self.h as i32 }
    }
}

/// A layout pass needs at least one child, and one size hint per child.
pub open spec fn input_is_valid(input: Coordinates) -> bool {
    input.widget_sizes.len() >= 1 && input.widget_positions.len() == input.widget_sizes.len()
}

/// Every child gets a width and a height of at least zero.
pub open spec fn frames_are_nonnegative(frames: Seq<Frame>) -> bool {
    forall|i: int| 0 <= i < frames.len() ==> (#[trigger] frames[i]).is_nonnegative()
}

/// Every child's frame is representable as a `Point` and a `Size`.
pub open spec fn frames_are_representable(frames: Seq<Frame>) -> bool {
    forall|i: int| 0 <= i < frames.len() ==> (#[trigger] frames[i]).is_representable()
}

/// The machine limit on a layout pass that assigns `frames`: where the pass
/// would succeed, what it assigns fits in 32 bits.
pub open spec fn layout_fits(frames: Seq<Frame>, input: Coordinates) -> bool {
    input_is_valid(input) && frames_are_nonnegative(frames) ==> frames_are_representable(frames)
}

/// What a layout pass that assigns `frames` returns: an error for unusable
/// input or negative geometry, and otherwise the input's widget ids,
/// unchanged and in the same order, with the origin and size of each frame.
pub open spec fn layout_outcome(frames: Seq<Frame>, input: Coordinates) -> Result<
    Coordinates,
    LayoutError,
> {
    if !input_is_valid(input) {
        Err(LayoutError::InvalidLayoutInput)
    } else if !frames_are_nonnegative(frames) {
        Err(LayoutError::NegativeGeometry)
    } else {
        Ok(
            Coordinates {
                widget_origins: frames.map_values(|f: Frame| f.origin()),
                widget_sizes: frames.map_values(|f: Frame| f.size()),
                widget_positions: input.widget_positions,
            },
        )
    }
}

/// Mathematical content of what `do_layout` returns.
pub open spec fn result_view(result: Result<LayoutManagerCoordinates, LayoutError>) -> Result<
    Coordinates,
    LayoutError,
> {
    match result {
        Ok(coordinates) => Ok(coordinates@),
        Err(error) => Err(error),
    }
}

/// A layout strategy bound to one container widget.
pub trait LayoutManager: Sized {
    /// The invariant of the manager.
    spec fn well_formed(&self) -> bool;

    /// The padding currently in force.
    spec fn padding(&self) -> LayoutManagerPadding;

    /// The id of the container widget this manager is bound to.
    spec fn container_id(&self) -> i32;

    /// The strategy itself: the frame of child `i` when the children with
    /// size hints `hints` are laid out under `padding` in the container at
    /// `origin` with extent `size`.
    spec fn frame(
        padding: LayoutManagerPadding,
        origin: Point,
        size: Size,
        hints: Seq<Size>,
        i: int,
    ) -> Frame;

    /// Decides `layout_fits`, the condition under which `do_layout` may be
    /// called.
    fn fits(&self, origin: Point, size: Size, coordinates: &LayoutManagerCoordinates) -> (ok:
        bool)
        requires
            self.well_formed(),
        ensures
            ok == layout_fits(
                Seq::new(
                    coordinates@.widget_sizes.len(),
                    |i: int|
                        Self::frame(self.padding(), origin, size, coordinates@.widget_sizes, i),
                ),
                coordinates@,
            ),
    ;

    /// Lays out the children named in `coordinates` inside the container at
    /// `origin` with extent `size`. The result depends on the arguments and
    /// the padding in force, and on nothing else.
    fn do_layout(
        &self,
        origin: Point,
        size: Size,
        coordinates: LayoutManagerCoordinates,
    ) -> (result: Result<LayoutManagerCoordinates, LayoutError>)
        requires
            self.well_formed(),
            layout_fits(
                Seq::new(
                    coordinates@.widget_sizes.len(),
                    |i: int|
                        Self::frame(self.padding(), origin, size, coordinates@.widget_sizes, i),
                ),
                coordinates@,
            ),
        ensures
            result_view(result) == layout_outcome(
                Seq::new(
                    coordinates@.widget_sizes.len(),
                    |i: int|
                        Self::frame(self.padding(), origin, size, coordinates@.widget_sizes, i),
                ),
                coordinates@,
            ),
            result matches Ok(laid_out) ==> {
                &&& laid_out@.widget_positions == coordinates@.widget_positions
                &&& laid_out@.widget_origins.len() == coordinates@.widget_sizes.len()
                &&& laid_out@.widget_sizes.len() == coordinates@.widget_sizes.len()
                &&& forall|i: int|
                    0 <= i < laid_out@.widget_sizes.len() ==> (
                    #[trigger] laid_out@.widget_sizes[i]).is_valid()
            },
    ;

    /// Replaces the padding. The next `do_layout` uses the new padding;
    /// nothing is laid out again by this call.
    fn adjust_layout(&mut self, padding: LayoutManagerPadding)
        requires
            old(self).well_formed(),
            padding.is_valid(),
        ensures
            final(self).well_formed(),
            final(self).padding() == padding,
            final(self).container_id() == old(self).container_id(),
    ;

    /// The id of the container widget this manager is bound to.
    fn get_widget_id(&self) -> (id: i32)
        ensures
            id == self.container_id(),
    ;
}

/// The frames a strategy assigns to the children with size hints `hints`.
pub open spec fn frames_of<L: LayoutManager>(
    padding: LayoutManagerPadding,
    origin: Point,
    size: Size,
    hints: Seq<Size>,
) -> Seq<Frame> {
    Seq::new(hints.len(), |i: int| L::frame(padding, origin, size, hints, i))
}

/// What a layout pass of a strategy returns under `padding`.
pub open spec fn layout_of<L: LayoutManager>(
    padding: LayoutManagerPadding,
    origin: Point,
    size: Size,
    input: Coordinates,
) -> Result<Coordinates, LayoutError> {
    layout_outcome(frames_of::<L>(padding, origin, size, input.widget_sizes), input)
}

/// Lays out with `manager` where the result is representable, as
/// `do_layout` does, and returns `None` where it is not.
pub fn checked_layout<L: LayoutManager>(
    manager: &L,
    origin: Point,
    size: Size,
    coordinates: LayoutManagerCoordinates,
) -> (result: Option<Result<LayoutManagerCoordinates, LayoutError>>)
    requires
        manager.well_formed(),
    ensures
        match result {
            Some(outcome) => {
                &&& layout_fits(
                    frames_of::<L>(manager.padding(), origin, size, coordinates@.widget_sizes),
                    coordinates@,
                )
                &&& result_view(outcome) == layout_of::<L>(
                    manager.padding(),
                    origin,
                    size,
                    coordinates@,
                )
            },
            None => !layout_fits(
                frames_of::<L>(manager.padding(), origin, size, coordinates@.widget_sizes),
                coordinates@,
            ),
        },
{
    assert(frames_of::<L>(manager.padding(), origin, size, coordinates@.widget_sizes) =~= Seq::new(
        coordinates@.widget_sizes.len(),
        |i: int| L::frame(manager.padding(), origin, size, coordinates@.widget_sizes, i),
    ));
    if manager.fits(origin, size, &coordinates) {
        Some(manager.do_layout(origin, size, coordinates))
    } else {
        None
    }
}

/// A layout pass is repeatable: what `do_layout` returns is `layout_of` its
/// arguments and the padding in force, so two passes over the same
/// arguments under the same padding return the same, whichever managers
/// of the strategy made them.
pub proof fn lemma_layout_is_repeatable<L: LayoutManager>(
    first: &L,
    second: &L,
    origin: Point,
    size: Size,
    input: Coordinates,
    first_result: Result<LayoutManagerCoordinates, LayoutError>,
    second_result: Result<LayoutManagerCoordinates, LayoutError>,
)
    requires
        first.padding() == second.padding(),
        result_view(first_result) == layout_outcome(
            Seq::new(
                input.widget_sizes.len(),
                |i: int| L::frame(first.padding(), origin, size, input.widget_sizes, i),
            ),
            input,
        ),
        result_view(second_result) == layout_outcome(
            Seq::new(
                input.widget_sizes.len(),
                |i: int| L::frame(second.padding(), origin, size, input.widget_sizes, i),
            ),
            input,
        ),
    ensures
        result_view(first_result) == result_view(second_result),
        result_view(first_result) == layout_of::<L>(first.padding(), origin, size, input),
{
    let frames = frames_of::<L>(first.padding(), origin, size, input.widget_sizes);
    assert(frames =~= Seq::new(
        input.widget_sizes.len(),
        |i: int| L::frame(first.padding(), origin, size, input.widget_sizes, i),
    ));
    assert(frames =~= Seq::new(
        input.widget_sizes.len(),
        |i: int| L::frame(second.padding(), origin, size, input.widget_sizes, i),
    ));
}

} // verus!
