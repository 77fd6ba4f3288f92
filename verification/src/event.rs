//! What the host tells the dispatcher, and what the dispatcher asks of the
//! application in return.

use crate::layout_manager::LayoutError;
use vstd::prelude::*;

verus! {

/// An event pulled from the host window.
#[derive(Clone, Copy, Debug, PartialEq, Eq, Structural)]
pub enum HostEvent {
    /// The pointer moved to this position, which may lie outside the
    /// window.
    PointerMotion { x: i32, y: i32 },
    /// The pointer button went down.
    PointerButtonDown,
    /// The pointer button went up.
    PointerButtonUp,
    /// The window now has this size.
    WindowResized { w: u32, h: u32 },
    /// A frame is due.
    RenderTick,
    /// The host is shutting down.
    Quit,
}

/// Something the application is to do after an event was dispatched.
#[derive(Clone, Copy, Debug, PartialEq, Eq, Structural)]
pub enum Action {
    /// Run the click hook of the widget with this id.
    WidgetClicked { id: i32 },
    /// Run the toggle hook of the widget with this id with this new state.
    WidgetToggled { id: i32, state: bool },
    /// Draw the widgets, in the order of `iter_in_zorder`.
    Render,
    /// Log that the layout of this container failed; its children keep the
    /// geometry they had.
    LayoutFailed { container_id: i32, error: LayoutError },
    /// Log that the layout of this container is not representable in 32
    /// bits; its children keep the geometry they had.
    LayoutOutOfRange { container_id: i32 },
}

} // verus!
