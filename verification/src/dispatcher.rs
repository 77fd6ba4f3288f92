//! The main event dispatcher.

use crate::config::Config;
use crate::event::{Action, HostEvent};
use crate::layout_manager::{
    checked_layout, frames_of, layout_fits, layout_outcome, Coordinates, LayoutManager,
    LayoutManagerCoordinates,
};
use crate::point::{Point, Size};
use crate::widget::{InteractionState, Widget, WidgetView};
use crate::widget_tree::{
    after_motion, after_press, after_release, has_id, ids_are_unique, index_of_id,
    lemma_index_of_id, lemma_same_identities_keep_well_formed, lemma_top_index_is_topmost,
    registration, release_actions, same_identities, top_id, top_index, TreeError, WidgetTree,
    ROOT_ID,
};
use crate::window_list::WindowList;
use vstd::prelude::*;

verus! {

/// A layout manager together with the ids of the children it lays out, in
/// the order they are laid out.
pub struct LayoutBinding<L> {
    pub manager: L,
    pub children: Vec<i32>,
}

/// Some binding in `layouts` is for the container `container_id`.
pub open spec fn has_binding<L: LayoutManager>(
    layouts: Seq<LayoutBinding<L>>,
    container_id: i32,
) -> bool {
    exists|k: int|
        0 <= k < layouts.len() && (#[trigger] layouts[k]).manager.container_id() == container_id
}

/// The position of the binding for the container `container_id`;
/// meaningful where `has_binding`.
pub open spec fn index_of_binding<L: LayoutManager>(
    layouts: Seq<LayoutBinding<L>>,
    container_id: i32,
) -> int {
    choose|k: int|
        0 <= k < layouts.len() && (#[trigger] layouts[k]).manager.container_id() == container_id
}

/// Every manager is well formed and bound to the window or to a widget in
/// `widgets`, and no container has two managers.
pub open spec fn layouts_are_well_formed<L: LayoutManager>(
    widgets: Seq<WidgetView>,
    layouts: Seq<LayoutBinding<L>>,
) -> bool {
    &&& forall|k: int|
        0 <= k < layouts.len() ==> {
            &&& (#[trigger] layouts[k]).manager.well_formed()
            &&& layouts[k].manager.container_id() == ROOT_ID || has_id(
                widgets,
                layouts[k].manager.container_id(),
            )
        }
    &&& forall|j: int, k: int|
        0 <= j < k < layouts.len() ==> (#[trigger] layouts[j]).manager.container_id() != (
        #[trigger] layouts[k]).manager.container_id()
}

/// A pointer coordinate clamped to the window: no less than 0 and no more
/// than `limit`, the window's extent along that axis.
pub open spec fn clamp_coordinate(v: i32, limit: u32) -> i32 {
    if v < 0 {
        0
    } else if v > limit {
        limit as i32
    } else {
        v
    }
}

/// The pointer position the dispatcher works with when the host reports
/// `(x, y)` for a window of `width` by `height`: a position outside the
/// window counts as the nearest position on its boundary.
pub open spec fn normalize(x: i32, y: i32, width: u32, height: u32) -> Point {
    Point { x: clamp_coordinate(x, width), y: clamp_coordinate(y, height) }
}

/// Computes `normalize`.
pub fn normalized(x: i32, y: i32, width: u32, height: u32) -> (p: Point)
    ensures
        p == normalize(x, y, width, height),
        0 <= p.x <= width,
        0 <= p.y <= height,
{
    let true_x: i32 = if x < 0 {
        0
    } else if x as i64 > width as i64 {
        width as i32
    } else {
        x
    };
    let true_y: i32 = if y < 0 {
        0
    } else if y as i64 > height as i64 {
        height as i32
    } else {
        y
    };
    Point { x: true_x, y: true_y }
}

/// The origin and size of the container `container_id`: the window's
/// rectangle for the root, where its size is representable in 32 bits, and
/// a registered widget's rectangle otherwise.
pub open spec fn container_frame(
    widgets: Seq<WidgetView>,
    window_width: u32,
    window_height: u32,
    container_id: i32,
) -> Option<(Point, Size)> {
    if container_id == ROOT_ID {
        if window_width <= i32::MAX && window_height <= i32::MAX {
            Some((Point { x: 0, y: 0 }, Size { w: window_width as i32, h: window_height as i32 }))
        } else {
            None
        }
    } else if has_id(widgets, container_id) {
        let container = widgets[index_of_id(widgets, container_id)];
        Some((container.origin, container.size))
    } else {
        None
    }
}

/// The input of a layout pass over `children`: the ids among them that are
/// registered, in the same order, each with the widget's current size as
/// its size hint.
pub open spec fn gathered(widgets: Seq<WidgetView>, children: Seq<i32>) -> Coordinates
    decreases children.len(),
{
    if children.len() == 0 {
        Coordinates {
            widget_origins: Seq::empty(),
            widget_sizes: Seq::empty(),
            widget_positions: Seq::empty(),
        }
    } else {
        let rest = gathered(widgets, children.drop_last());
        let id = children.last();
        if has_id(widgets, id) {
            Coordinates {
                widget_origins: rest.widget_origins,
                widget_sizes: rest.widget_sizes.push(widgets[index_of_id(widgets, id)].size),
                widget_positions: rest.widget_positions.push(id),
            }
        } else {
            rest
        }
    }
}

/// The widgets after the first `count` entries of `laid_out` were written
/// back: the widget named by an entry gets the entry's origin and size.
pub open spec fn written(widgets: Seq<WidgetView>, laid_out: Coordinates, count: int) -> Seq<
    WidgetView,
>
    decreases count,
{
    if count <= 0 {
        widgets
    } else {
        let before = written(widgets, laid_out, count - 1);
        let id = laid_out.widget_positions[count - 1];
        if has_id(before, id) {
            before.update(
                index_of_id(before, id),
                WidgetView {
                    origin: laid_out.widget_origins[count - 1],
                    size: laid_out.widget_sizes[count - 1],
                    ..before[index_of_id(before, id)]
                },
            )
        } else {
            before
        }
    }
}

/// One layout pass: the widgets afterwards, and what the application is to
/// do. The manager lays out the registered children of its binding inside
/// its container. Where that succeeds the children get their new geometry
/// and nothing is asked of the application; where it fails, or where the
/// result would not be representable, every widget keeps its geometry and
/// the application is asked to log that.
pub open spec fn layout_pass<L: LayoutManager>(
    widgets: Seq<WidgetView>,
    window_width: u32,
    window_height: u32,
    binding: LayoutBinding<L>,
) -> (Seq<WidgetView>, Seq<Action>) {
    let container_id = binding.manager.container_id();
    match container_frame(widgets, window_width, window_height, container_id) {
        None => (widgets, seq![Action::LayoutOutOfRange { container_id }]),
        Some((origin, size)) => {
            let input = gathered(widgets, binding.children@);
            let frames = frames_of::<L>(
                binding.manager.padding(),
                origin,
                size,
                input.widget_sizes,
            );
            if !layout_fits(frames, input) {
                (widgets, seq![Action::LayoutOutOfRange { container_id }])
            } else {
                match layout_outcome(frames, input) {
                    Ok(laid_out) => (
                        written(widgets, laid_out, laid_out.widget_positions.len() as int),
                        Seq::empty(),
                    ),
                    Err(error) => (widgets, seq![Action::LayoutFailed { container_id, error }]),
                }
            }
        },
    }
}

/// A layout pass for every binding in `layouts`, in order, each working on
/// what the passes before it left.
pub open spec fn relayout<L: LayoutManager>(
    widgets: Seq<WidgetView>,
    window_width: u32,
    window_height: u32,
    layouts: Seq<LayoutBinding<L>>,
) -> (Seq<WidgetView>, Seq<Action>)
    decreases layouts.len(),
{
    if layouts.len() == 0 {
        (widgets, Seq::empty())
    } else {
        let (earlier, earlier_actions) = relayout(
            widgets,
            window_width,
            window_height,
            layouts.drop_last(),
        );
        let (last, last_actions) = layout_pass(
            earlier,
            window_width,
            window_height,
            layouts.last(),
        );
        (last, earlier_actions + last_actions)
    }
}

/// What the dispatcher knows between two events.
pub struct DispatchState<L> {
    /// The registered widgets, in registration order.
    pub widgets: Seq<WidgetView>,
    /// The layout managers, in the order they were bound.
    pub layouts: Seq<LayoutBinding<L>>,
    /// The current width of the window.
    pub window_width: u32,
    /// The current height of the window.
    pub window_height: u32,
    /// Where the pointer was seen last, clamped to the window.
    pub pointer: Point,
    /// Whether the host has not asked to quit yet.
    pub running: bool,
}

impl<L: LayoutManager> DispatchState<L> {
    /// The state after `event`, and what the application is to do.
    ///
    /// A pointer motion moves the pointer to the reported position,
    /// clamped to the window, and tells every widget whether it is the
    /// target now. A press or a release of the button goes to the widgets
    /// with the pointer where it was seen last; a release may complete a
    /// click. A resize records the window's new size and lays everything
    /// out again. A render tick asks for a frame, and a quit ends the run.
    pub open spec fn step(self, event: HostEvent) -> (DispatchState<L>, Seq<Action>) {
        match event {
            HostEvent::PointerMotion { x, y } => {
                let pointer = normalize(x, y, self.window_width, self.window_height);
                (
                    DispatchState { pointer, widgets: after_motion(self.widgets, pointer), ..self },
                    Seq::empty(),
                )
            },
            HostEvent::PointerButtonDown => (
                DispatchState { widgets: after_press(self.widgets, self.pointer), ..self },
                Seq::empty(),
            ),
            HostEvent::PointerButtonUp => (
                DispatchState { widgets: after_release(self.widgets, self.pointer), ..self },
                release_actions(self.widgets, self.pointer),
            ),
            HostEvent::WindowResized { w, h } => {
                let (widgets, actions) = relayout(self.widgets, w, h, self.layouts);
                (DispatchState { widgets, window_width: w, window_height: h, ..self }, actions)
            },
            HostEvent::RenderTick => (self, seq![Action::Render]),
            HostEvent::Quit => (DispatchState { running: false, ..self }, Seq::empty()),
        }
    }

    /// The state after the events in `events` were dispatched in order, up
    /// to and including the first quit, and what the application is to do,
    /// in the order it was asked.
    pub open spec fn run(self, events: Seq<HostEvent>) -> (DispatchState<L>, Seq<Action>)
        decreases events.len(),
    {
        if events.len() == 0 {
            (self, Seq::empty())
        } else {
            let (next, first_actions) = self.step(events.first());
            if events.first() is Quit {
                (next, first_actions)
            } else {
                let (last, more_actions) = next.run(events.drop_first());
                (last, first_actions + more_actions)
            }
        }
    }
}

/// The dispatcher: the registry of widgets, the layout managers bound to
/// its containers, the windows of type `W`, and what it knows of the
/// pointer and the window from the events it was given.
pub struct Pushrod<W, L> {
    config: Config,
    windows: WindowList<W>,
    tree: WidgetTree,
    layouts: Vec<LayoutBinding<L>>,
    window_width: u32,
    window_height: u32,
    pointer: Point,
    running: bool,
}

impl<W, L: LayoutManager> View for Pushrod<W, L> {
    type V = DispatchState<L>;

    closed spec fn view(&self) -> DispatchState<L> {
        DispatchState {
            widgets: self.tree@,
            layouts: self.layouts@,
            window_width: self.window_width,
            window_height: self.window_height,
            pointer: self.pointer,
            running: self.running,
        }
    }
}

impl<W, L: LayoutManager> Pushrod<W, L> {
    /// The settings the dispatcher was made with.
    pub closed spec fn spec_config(&self) -> Config {
        self.config
    }

    /// The windows of the application.
    pub closed spec fn spec_windows(&self) -> WindowList<W> {
        self.windows
    }

    /// The registry of widgets.
    pub closed spec fn spec_tree(&self) -> WidgetTree {
        self.tree
    }

    /// The invariant of the dispatcher: its registry and its window list
    /// are well formed, and so are its layout bindings.
    pub open spec fn well_formed(&self) -> bool {
        &&& self.spec_tree().well_formed()
        &&& self.spec_tree()@ == self@.widgets
        &&& self.spec_windows().well_formed()
        &&& layouts_are_well_formed(self@.widgets, self@.layouts)
    }

    /// A dispatcher without windows, widgets or layout managers, for a
    /// window of the configured size, with the pointer in its top left
    /// corner.
    pub fn new(config: Config) -> (pushrod: Self)
        ensures
            pushrod.well_formed(),
            pushrod.spec_config() == config,
            pushrod.spec_windows().windows() == Seq::<W>::empty(),
            pushrod.spec_tree().last_id() == 0,
            pushrod@ == (DispatchState::<L> {
                widgets: Seq::empty(),
                layouts: Seq::empty(),
                window_width: config.width(),
                window_height: config.height(),
                pointer: Point { x: 0, y: 0 },
                running: true,
            }),
    {
        let window_width = config.window_width();
        let window_height = config.window_height();
        Self {
            config,
            windows: WindowList::new(),
            tree: WidgetTree::new(),
            layouts: Vec::new(),
            window_width,
            window_height,
            pointer: Point { x: 0, y: 0 },
            running: true,
        }
    }

    /// Adds `window` to the windows of the application.
    pub fn add_window(&mut self, window: W)
        requires
            old(self).well_formed(),
        ensures
            final(self).well_formed(),
            final(self).spec_windows().windows() == old(self).spec_windows().windows().push(
                window,
            ),
            final(self).spec_windows().position() == old(self).spec_windows().position(),
            final(self)@ == old(self)@,
            final(self).spec_config() == old(self).spec_config(),
            final(self).spec_tree() == old(self).spec_tree(),
    {
        self.windows.push(window);
    }

    /// The settings the dispatcher was made with.
    pub fn config(&self) -> (config: &Config)
        ensures
            *config == self.spec_config(),
    {
        &self.config
    }

    /// The windows of the application.
    pub fn windows(&self) -> (windows: &WindowList<W>)
        ensures
            *windows == self.spec_windows(),
    {
        &self.windows
    }

    /// The windows of the application, to poll them. The widgets and the
    /// dispatch state stay as they are.
    pub fn windows_mut(&mut self) -> (windows: &mut WindowList<W>)
        ensures
            *windows == old(self).spec_windows(),
            final(self).spec_windows() == *final(windows),
            final(self)@ == old(self)@,
            final(self).spec_config() == old(self).spec_config(),
            final(self).spec_tree() == old(self).spec_tree(),
    {
        &mut self.windows
    }

    /// The registry of widgets.
    pub fn tree(&self) -> (tree: &WidgetTree)
        ensures
            *tree == self.spec_tree(),
    {
        &self.tree
    }

    /// Where the pointer was seen last, clamped to the window.
    pub fn pointer(&self) -> (pointer: Point)
        ensures
            pointer == self@.pointer,
    {
        self.pointer
    }

    /// The current width and height of the window.
    pub fn window_size(&self) -> (size: (u32, u32))
        ensures
            size == (self@.window_width, self@.window_height),
    {
        (self.window_width, self.window_height)
    }

    /// Whether the host has not asked to quit yet.
    pub fn is_running(&self) -> (running: bool)
        ensures
            running == self@.running,
    {
        self.running
    }

    /// Registers `widget` as `name` under the next unused id and returns
    /// that id, as `WidgetTree::add_widget` does. A call that fails leaves
    /// the dispatcher as it was.
    pub fn register_widget(&mut self, widget: Widget, name: String) -> (result: Result<
        i32,
        TreeError,
    >)
        requires
            old(self).well_formed(),
        ensures
            final(self).well_formed(),
            result == registration(
                old(self)@.widgets,
                name@,
                old(self).spec_tree().last_id() + 1,
            ),
            final(self)@ == (DispatchState {
                widgets: match result {
                    Ok(id) => old(self)@.widgets.push(WidgetView { id, name: name@, ..widget@ }),
                    Err(_) => old(self)@.widgets,
                },
                ..old(self)@
            }),
            final(self).spec_tree().last_id() == match result {
                Ok(id) => id,
                Err(_) => old(self).spec_tree().last_id(),
            },
            final(self).spec_config() == old(self).spec_config(),
            final(self).spec_windows() == old(self).spec_windows(),
    {
        let result = self.tree.add_widget(widget, name);
        proof {
            let before = old(self)@.widgets;
            let after = self@.widgets;
            assert forall|i: int| 0 <= i < before.len() implies has_id(
                after,
                (#[trigger] before[i]).id,
            ) by {
                assert(after[i].id == before[i].id);
            }
            lemma_layouts_survive_growth(before, after, self@.layouts);
        }
        result
    }

    /// Registers `widget` as `name` under the id the caller chose, as
    /// `WidgetTree::add_widget_with_id` does. A call that fails leaves the
    /// dispatcher as it was.
    pub fn register_widget_with_id(&mut self, widget: Widget, name: String, id: i32) -> (result:
        Result<i32, TreeError>)
        requires
            old(self).well_formed(),
        ensures
            final(self).well_formed(),
            result == registration(old(self)@.widgets, name@, id as int),
            final(self)@ == (DispatchState {
                widgets: match result {
                    Ok(_) => old(self)@.widgets.push(WidgetView { id, name: name@, ..widget@ }),
                    Err(_) => old(self)@.widgets,
                },
                ..old(self)@
            }),
            final(self).spec_tree().last_id() == match result {
                Ok(_) if id > old(self).spec_tree().last_id() => id,
                _ => old(self).spec_tree().last_id(),
            },
            final(self).spec_config() == old(self).spec_config(),
            final(self).spec_windows() == old(self).spec_windows(),
    {
        let result = self.tree.add_widget_with_id(widget, name, id);
        proof {
            let before = old(self)@.widgets;
            let after = self@.widgets;
            assert forall|i: int| 0 <= i < before.len() implies has_id(
                after,
                (#[trigger] before[i]).id,
            ) by {
                assert(after[i].id == before[i].id);
            }
            lemma_layouts_survive_growth(before, after, self@.layouts);
        }
        result
    }

    /// The position of the binding for the container `container_id`.
    fn find_binding(&self, container_id: i32) -> (found: Option<usize>)
        ensures
            match found {
                Some(k) => k < self@.layouts.len() && self@.layouts[k as int].manager.container_id()
                    == container_id,
                None => !has_binding(self@.layouts, container_id),
            },
    {
        let mut k: usize = 0;
        while k < self.layouts.len()
            invariant
                k <= self.layouts.len(),
                forall|j: int|
                    0 <= j < k ==> (#[trigger] self.layouts@[j]).manager.container_id()
                        != container_id,
            decreases self.layouts.len() - k,
        {
            if self.layouts[k].manager.get_widget_id() == container_id {
                return Some(k);
            }
            k = k + 1;
        }
        None
    }

    /// Detaches the widget with id `id` and hands it back; if the widget
    /// was a container with a layout manager, the manager goes too. Fails
    /// with `NotFound` and leaves the dispatcher as it was if there is no
    /// such widget.
    pub fn remove_widget(&mut self, id: i32) -> (result: Result<Widget, TreeError>)
        requires
            old(self).well_formed(),
        ensures
            final(self).well_formed(),
            final(self).spec_tree().last_id() == old(self).spec_tree().last_id(),
            final(self).spec_config() == old(self).spec_config(),
            final(self).spec_windows() == old(self).spec_windows(),
            match result {
                Ok(widget) => {
                    &&& has_id(old(self)@.widgets, id)
                    &&& widget@ == old(self)@.widgets[index_of_id(old(self)@.widgets, id)]
                    &&& !has_binding(final(self)@.layouts, id)
                    &&& final(self)@ == (DispatchState {
                        widgets: old(self)@.widgets.remove(index_of_id(old(self)@.widgets, id)),
                        layouts: if has_binding(old(self)@.layouts, id) {
                            old(self)@.layouts.remove(index_of_binding(old(self)@.layouts, id))
                        } else {
                            old(self)@.layouts
                        },
                        ..old(self)@
                    })
                },
                Err(error) => {
                    &&& error == TreeError::NotFound
                    &&& !has_id(old(self)@.widgets, id)
                    &&& final(self)@ == old(self)@
                },
            },
    {
        let result = self.tree.remove(id);
        if result.is_ok() {
            let ghost removed_at = index_of_id(old(self)@.widgets, id);
            match self.find_binding(id) {
                Some(k) => {
                    proof {
                        lemma_index_of_binding(self@.layouts, id, k as int);
                    }
                    let _ = self.layouts.remove(k);
                },
                None => {},
            }
            proof {
                let before = old(self)@.widgets;
                let after = self@.widgets;
                assert forall|other: i32| other != id && has_id(before, other) implies has_id(
                    after,
                    other,
                ) by {
                    let i = index_of_id(before, other);
                    if i < removed_at {
                        assert(after[i].id == other);
                    } else {
                        assert(after[i - 1].id == other);
                    }
                }
            }
        }
        result
    }

    /// Binds `manager` to the container it names, the window or a
    /// registered widget, to lay out the widgets with the ids in
    /// `children`, in that order. A manager bound to that container before
    /// is replaced. Nothing is laid out by this call. Fails with
    /// `NotFound` and leaves the dispatcher as it was if the container is
    /// neither the window nor a registered widget.
    pub fn bind_layout_manager(&mut self, manager: L, children: Vec<i32>) -> (result: Result<
        (),
        TreeError,
    >)
        requires
            old(self).well_formed(),
            manager.well_formed(),
        ensures
            final(self).well_formed(),
            final(self).spec_tree() == old(self).spec_tree(),
            final(self).spec_config() == old(self).spec_config(),
            final(self).spec_windows() == old(self).spec_windows(),
            match result {
                Ok(_) => {
                    &&& manager.container_id() == ROOT_ID || has_id(
                        old(self)@.widgets,
                        manager.container_id(),
                    )
                    &&& final(self)@ == (DispatchState {
                        layouts: if has_binding(old(self)@.layouts, manager.container_id()) {
                            old(self)@.layouts.update(
                                index_of_binding(old(self)@.layouts, manager.container_id()),
                                LayoutBinding { manager, children },
                            )
                        } else {
                            old(self)@.layouts.push(LayoutBinding { manager, children })
                        },
                        ..old(self)@
                    })
                },
                Err(error) => {
                    &&& error == TreeError::NotFound
                    &&& manager.container_id() != ROOT_ID
                    &&& !has_id(old(self)@.widgets, manager.container_id())
                    &&& final(self)@ == old(self)@
                },
            },
    {
        let container_id = manager.get_widget_id();
        if container_id != ROOT_ID && self.tree.get_by_id(container_id).is_err() {
            return Err(TreeError::NotFound);
        }
        match self.find_binding(container_id) {
            Some(k) => {
                proof {
                    lemma_index_of_binding(self@.layouts, container_id, k as int);
                }
                self.layouts[k] = LayoutBinding { manager, children };
            },
            None => {
                self.layouts.push(LayoutBinding { manager, children });
            },
        }
        Ok(())
    }

    /// Says whether the application has a click hook for the widget with
    /// id `id`; fails with `NotFound` and leaves the dispatcher as it was
    /// if there is no such widget.
    pub fn set_on_click(&mut self, id: i32, wanted: bool) -> (result: Result<(), TreeError>)
        requires
            old(self).well_formed(),
        ensures
            final(self).well_formed(),
            final(self).spec_tree().last_id() == old(self).spec_tree().last_id(),
            final(self).spec_config() == old(self).spec_config(),
            final(self).spec_windows() == old(self).spec_windows(),
            match result {
                Ok(_) => {
                    &&& has_id(old(self)@.widgets, id)
                    &&& final(self)@ == (DispatchState {
                        widgets: old(self)@.widgets.update(
                            index_of_id(old(self)@.widgets, id),
                            WidgetView {
                                on_click: wanted,
                                ..old(self)@.widgets[index_of_id(old(self)@.widgets, id)]
                            },
                        ),
                        ..old(self)@
                    })
                },
                Err(error) => {
                    &&& error == TreeError::NotFound
                    &&& !has_id(old(self)@.widgets, id)
                    &&& final(self)@ == old(self)@
                },
            },
    {
        let result = self.tree.set_on_click(id, wanted);
        proof {
            if result is Ok {
                lemma_index_of_id(old(self)@.widgets, id, index_of_id(old(self)@.widgets, id));
                lemma_same_identities_keep_well_formed(old(self)@.widgets, self@.widgets);
            }
        }
        result
    }

    /// Says whether the application has a toggle hook for the widget with
    /// id `id`; fails with `NotFound` and leaves the dispatcher as it was
    /// if there is no such widget.
    pub fn set_on_toggle(&mut self, id: i32, wanted: bool) -> (result: Result<(), TreeError>)
        requires
            old(self).well_formed(),
        ensures
            final(self).well_formed(),
            final(self).spec_tree().last_id() == old(self).spec_tree().last_id(),
            final(self).spec_config() == old(self).spec_config(),
            final(self).spec_windows() == old(self).spec_windows(),
            match result {
                Ok(_) => {
                    &&& has_id(old(self)@.widgets, id)
                    &&& final(self)@ == (DispatchState {
                        widgets: old(self)@.widgets.update(
                            index_of_id(old(self)@.widgets, id),
                            WidgetView {
                                on_toggle: wanted,
                                ..old(self)@.widgets[index_of_id(old(self)@.widgets, id)]
                            },
                        ),
                        ..old(self)@
                    })
                },
                Err(error) => {
                    &&& error == TreeError::NotFound
                    &&& !has_id(old(self)@.widgets, id)
                    &&& final(self)@ == old(self)@
                },
            },
    {
        let result = self.tree.set_on_toggle(id, wanted);
        proof {
            if result is Ok {
                lemma_index_of_id(old(self)@.widgets, id, index_of_id(old(self)@.widgets, id));
                lemma_same_identities_keep_well_formed(old(self)@.widgets, self@.widgets);
            }
        }
        result
    }

    /// `self` has the settings, the windows and the id counter of
    /// `other`: all that dispatching an event leaves alone.
    pub open spec fn same_setup(&self, other: &Self) -> bool {
        &&& self.spec_config() == other.spec_config()
        &&& self.spec_windows() == other.spec_windows()
        &&& self.spec_tree().last_id() == other.spec_tree().last_id()
    }

    /// Dispatches a pointer event: a motion, a press or a release.
    fn handle_mouse_event(&mut self, event: HostEvent) -> (actions: Vec<Action>)
        requires
            old(self).well_formed(),
            event is PointerMotion || event is PointerButtonDown || event is PointerButtonUp,
        ensures
            final(self).well_formed(),
            final(self).same_setup(old(self)),
            (final(self)@, actions@) == old(self)@.step(event),
    {
        let actions = match event {
            HostEvent::PointerMotion { x, y } => {
                let pointer = normalized(x, y, self.window_width, self.window_height);
                self.pointer = pointer;
                self.tree.pointer_moved(pointer);
                Vec::new()
            },
            HostEvent::PointerButtonDown => {
                self.tree.button_pressed(self.pointer);
                Vec::new()
            },
            _ => self.tree.button_released(self.pointer),
        };
        proof {
            let before = old(self)@.widgets;
            let after = self@.widgets;
            assert(same_identities(before, after));
            assert forall|i: int| 0 <= i < before.len() implies has_id(
                after,
                (#[trigger] before[i]).id,
            ) by {
                assert(after[i].id == before[i].id);
            }
            lemma_layouts_survive_growth(before, after, self@.layouts);
        }
        actions
    }

    /// Collects the input of a layout pass for the binding at `k`.
    fn gather(&self, k: usize) -> (coordinates: LayoutManagerCoordinates)
        requires
            self.well_formed(),
            k < self@.layouts.len(),
        ensures
            coordinates@ == gathered(self@.widgets, self@.layouts[k as int].children@),
    {
        let children = &self.layouts[k].children;
        let mut widget_sizes: Vec<Size> = Vec::new();
        let mut widget_positions: Vec<i32> = Vec::new();
        let mut j: usize = 0;
        while j < children.len()
            invariant
                j <= children.len(),
                self.tree.well_formed(),
                gathered(self.tree@, children@.take(j as int)) == (Coordinates {
                    widget_origins: Seq::empty(),
                    widget_sizes: widget_sizes@,
                    widget_positions: widget_positions@,
                }),
            decreases children.len() - j,
        {
            let id = children[j];
            assert(children@.take(j + 1).drop_last() =~= children@.take(j as int));
            match self.tree.get_by_id(id) {
                Ok(widget) => {
                    widget_positions.push(id);
                    widget_sizes.push(widget.size);
                },
                Err(_) => {},
            }
            j = j + 1;
        }
        assert(children@.take(j as int) =~= children@);
        LayoutManagerCoordinates { widget_origins: Vec::new(), widget_sizes, widget_positions }
    }

    /// Writes the geometry in `laid_out` back into the widgets it names.
    fn write_back(&mut self, laid_out: &LayoutManagerCoordinates)
        requires
            old(self).well_formed(),
            laid_out@.widget_origins.len() == laid_out@.widget_positions.len(),
            laid_out@.widget_sizes.len() == laid_out@.widget_positions.len(),
        ensures
            final(self).well_formed(),
            final(self).same_setup(old(self)),
            final(self)@ == (DispatchState {
                widgets: written(
                    old(self)@.widgets,
                    laid_out@,
                    laid_out@.widget_positions.len() as int,
                ),
                ..old(self)@
            }),
    {
        let n = laid_out.widget_positions.len();
        let mut j: usize = 0;
        while j < n
            invariant
                j <= n,
                n == laid_out@.widget_positions.len(),
                laid_out@.widget_origins.len() == n,
                laid_out@.widget_sizes.len() == n,
                self.tree.well_formed(),
                self.same_setup(old(self)),
                same_identities(old(self)@.widgets, self@.widgets),
                self@ == (DispatchState {
                    widgets: written(old(self)@.widgets, laid_out@, j as int),
                    ..old(self)@
                }),
            decreases n - j,
        {
            let ghost before = self@.widgets;
            let id = laid_out.widget_positions[j];
            let result = self.tree.set_geometry(
                id,
                laid_out.widget_origins[j],
                laid_out.widget_sizes[j],
            );
            proof {
                if result is Ok {
                    lemma_index_of_id(before, id, index_of_id(before, id));
                }
                assert(same_identities(before, self@.widgets));
            }
            j = j + 1;
        }
        proof {
            let before = old(self)@.widgets;
            let after = self@.widgets;
            assert forall|i: int| 0 <= i < before.len() implies has_id(
                after,
                (#[trigger] before[i]).id,
            ) by {
                assert(after[i].id == before[i].id);
            }
            lemma_layouts_survive_growth(before, after, self@.layouts);
        }
    }

    /// Runs the layout pass of the binding at `k`, and appends what the
    /// application is to do to `actions`.
    fn layout_container(&mut self, k: usize, actions: &mut Vec<Action>)
        requires
            old(self).well_formed(),
            k < old(self)@.layouts.len(),
        ensures
            final(self).well_formed(),
            final(self).same_setup(old(self)),
            final(self)@ == (DispatchState {
                widgets: layout_pass(
                    old(self)@.widgets,
                    old(self)@.window_width,
                    old(self)@.window_height,
                    old(self)@.layouts[k as int],
                ).0,
                ..old(self)@
            }),
            final(actions)@ == old(actions)@ + layout_pass(
                old(self)@.widgets,
                old(self)@.window_width,
                old(self)@.window_height,
                old(self)@.layouts[k as int],
            ).1,
    {
        let container_id = self.layouts[k].manager.get_widget_id();
        let frame: Option<(Point, Size)> = if container_id == ROOT_ID {
            if self.window_width <= 0x7fff_ffff && self.window_height <= 0x7fff_ffff {
                Some(
                    (
                        Point { x: 0, y: 0 },
                        Size { w: self.window_width as i32, h: self.window_height as i32 },
                    ),
                )
            } else {
                None
            }
        } else {
            match self.tree.get_by_id(container_id) {
                Ok(container) => Some((container.origin, container.size)),
                Err(_) => None,
            }
        };
        assert(frame == container_frame(
            self@.widgets,
            self@.window_width,
            self@.window_height,
            container_id,
        ));
        match frame {
            None => {
                actions.push(Action::LayoutOutOfRange { container_id });
            },
            Some((origin, size)) => {
                let coordinates = self.gather(k);
                match checked_layout(&self.layouts[k].manager, origin, size, coordinates) {
                    None => {
                        actions.push(Action::LayoutOutOfRange { container_id });
                    },
                    Some(Ok(laid_out)) => {
                        self.write_back(&laid_out);
                        assert(actions@ =~= old(actions)@ + Seq::<Action>::empty());
                    },
                    Some(Err(error)) => {
                        actions.push(Action::LayoutFailed { container_id, error });
                    },
                }
            },
        }
    }

    /// Lays everything out again: runs the layout pass of every binding,
    /// in the order the managers were bound, and returns what the
    /// application is to do. A pass that fails changes nothing and asks
    /// for a log entry; the passes after it still run.
    pub fn relayout(&mut self) -> (actions: Vec<Action>)
        requires
            old(self).well_formed(),
        ensures
            final(self).well_formed(),
            final(self).same_setup(old(self)),
            final(self)@ == (DispatchState {
                widgets: relayout(
                    old(self)@.widgets,
                    old(self)@.window_width,
                    old(self)@.window_height,
                    old(self)@.layouts,
                ).0,
                ..old(self)@
            }),
            actions@ == relayout(
                old(self)@.widgets,
                old(self)@.window_width,
                old(self)@.window_height,
                old(self)@.layouts,
            ).1,
    {
        let mut actions: Vec<Action> = Vec::new();
        let n = self.layouts.len();
        let mut k: usize = 0;
        while k < n
            invariant
                k <= n,
                n == old(self)@.layouts.len(),
                self.well_formed(),
                self.same_setup(old(self)),
                self@ == (DispatchState {
                    widgets: relayout(
                        old(self)@.widgets,
                        old(self)@.window_width,
                        old(self)@.window_height,
                        old(self)@.layouts.take(k as int),
                    ).0,
                    ..old(self)@
                }),
                actions@ == relayout(
                    old(self)@.widgets,
                    old(self)@.window_width,
                    old(self)@.window_height,
                    old(self)@.layouts.take(k as int),
                ).1,
            decreases n - k,
        {
            assert(old(self)@.layouts.take(k + 1).drop_last() =~= old(self)@.layouts.take(
                k as int,
            ));
            self.layout_container(k, &mut actions);
            k = k + 1;
        }
        assert(old(self)@.layouts.take(n as int) =~= old(self)@.layouts);
        actions
    }

    /// Moves and resizes the widget with id `id`, then lays everything
    /// out again, as `relayout` does, so that the children of a container
    /// follow it. Fails with `NotFound` and leaves the dispatcher as it
    /// was if there is no such widget.
    pub fn set_widget_geometry(&mut self, id: i32, origin: Point, size: Size) -> (result: Result<
        Vec<Action>,
        TreeError,
    >)
        requires
            old(self).well_formed(),
        ensures
            final(self).well_formed(),
            final(self).same_setup(old(self)),
            match result {
                Ok(actions) => {
                    let moved = old(self)@.widgets.update(
                        index_of_id(old(self)@.widgets, id),
                        WidgetView {
                            origin,
                            size,
                            ..old(self)@.widgets[index_of_id(old(self)@.widgets, id)]
                        },
                    );
                    let laid_out = relayout(
                        moved,
                        old(self)@.window_width,
                        old(self)@.window_height,
                        old(self)@.layouts,
                    );
                    &&& has_id(old(self)@.widgets, id)
                    &&& final(self)@ == (DispatchState { widgets: laid_out.0, ..old(self)@ })
                    &&& actions@ == laid_out.1
                },
                Err(error) => {
                    &&& error == TreeError::NotFound
                    &&& !has_id(old(self)@.widgets, id)
                    &&& final(self)@ == old(self)@
                },
            },
    {
        match self.tree.set_geometry(id, origin, size) {
            Ok(_) => {
                proof {
                    let before = old(self)@.widgets;
                    let after = self@.widgets;
                    lemma_index_of_id(before, id, index_of_id(before, id));
                    assert forall|i: int| 0 <= i < before.len() implies has_id(
                        after,
                        (#[trigger] before[i]).id,
                    ) by {
                        assert(after[i].id == before[i].id);
                    }
                    lemma_layouts_survive_growth(before, after, self@.layouts);
                }
                Ok(self.relayout())
            },
            Err(error) => Err(error),
        }
    }

    /// Dispatches a window event: a resize, a render tick or a quit.
    fn handle_window_event(&mut self, event: HostEvent) -> (actions: Vec<Action>)
        requires
            old(self).well_formed(),
            event is WindowResized || event is RenderTick || event is Quit,
        ensures
            final(self).well_formed(),
            final(self).same_setup(old(self)),
            (final(self)@, actions@) == old(self)@.step(event),
    {
        match event {
            HostEvent::WindowResized { w, h } => {
                self.window_width = w;
                self.window_height = h;
                self.relayout()
            },
            HostEvent::RenderTick => {
                let mut actions: Vec<Action> = Vec::new();
                actions.push(Action::Render);
                assert(actions@ =~= seq![Action::Render]);
                actions
            },
            _ => {
                self.running = false;
                Vec::new()
            },
        }
    }

    /// Dispatches one event of the host: brings the widgets and the
    /// dispatch state up to date and returns what the application is to
    /// do, as `DispatchState::step` says.
    pub fn handle_event(&mut self, event: HostEvent) -> (actions: Vec<Action>)
        requires
            old(self).well_formed(),
        ensures
            final(self).well_formed(),
            final(self).same_setup(old(self)),
            (final(self)@, actions@) == old(self)@.step(event),
    {
        match event {
            HostEvent::PointerMotion { .. }
            | HostEvent::PointerButtonDown
            | HostEvent::PointerButtonUp => self.handle_mouse_event(event),
            _ => self.handle_window_event(event),
        }
    }

    /// Dispatches the events in `events` in order, up to and including
    /// the first quit, and returns what the application is to do, in the
    /// order it was asked.
    pub fn run(&mut self, events: &Vec<HostEvent>) -> (actions: Vec<Action>)
        requires
            old(self).well_formed(),
        ensures
            final(self).well_formed(),
            final(self).same_setup(old(self)),
            (final(self)@, actions@) == old(self)@.run(events@),
    {
        let mut actions: Vec<Action> = Vec::new();
        let mut i: usize = 0;
        let mut quit = false;
        assert(events@.skip(0) =~= events@);
        while i < events.len() && !quit
            invariant
                i <= events.len(),
                self.well_formed(),
                self.same_setup(old(self)),
                old(self)@.run(events@) == if quit {
                    (self@, actions@)
                } else {
                    (self@.run(events@.skip(i as int)).0, actions@ + self@.run(
                        events@.skip(i as int),
                    ).1)
                },
            decreases events.len() - i,
        {
            let event = events[i];
            let ghost rest = events@.skip(i as int);
            let ghost before = self@;
            let ghost done = actions@;
            assert(rest.first() == event);
            assert(rest.drop_first() =~= events@.skip(i + 1));
            let mut more = self.handle_event(event);
            actions.append(&mut more);
            match event {
                HostEvent::Quit => {
                    quit = true;
                },
                _ => {},
            }
            proof {
                let (next, first_actions) = before.step(event);
                if !quit {
                    let (last, more_actions) = next.run(rest.drop_first());
                    assert(done + (first_actions + more_actions) =~= (done + first_actions)
                        + more_actions);
                }
            }
            i = i + 1;
        }
        proof {
            if !quit {
                assert(events@.skip(i as int).len() == 0);
                assert(actions@ + Seq::<Action>::empty() =~= actions@);
            }
        }
        actions
    }

    /// Starts a run in a window of `window_width` by `window_height`:
    /// records that size, then dispatches `events` as `run` does.
    pub fn start(&mut self, window_width: u32, window_height: u32, events: &Vec<HostEvent>) -> (actions:
        Vec<Action>)
        requires
            old(self).well_formed(),
        ensures
            final(self).well_formed(),
            final(self).same_setup(old(self)),
            (final(self)@, actions@) == (DispatchState {
                window_width,
                window_height,
                running: true,
                ..old(self)@
            }).run(events@),
    {
        self.window_width = window_width;
        self.window_height = window_height;
        self.running = true;
        self.run(events)
    }

    /// The id of the top-most widget under `p`, if any.
    pub fn hit_test(&self, p: Point) -> (hit: Option<i32>)
        ensures
            hit == top_id(self@.widgets, p),
    {
        self.tree.hit_test(p)
    }
}

/// Among bindings with distinct containers, the binding for a given
/// container is at one position only.
pub proof fn lemma_index_of_binding<L: LayoutManager>(
    layouts: Seq<LayoutBinding<L>>,
    container_id: i32,
    k: int,
)
    requires
        0 <= k < layouts.len(),
        layouts[k].manager.container_id() == container_id,
    ensures
        has_binding(layouts, container_id),
        0 <= index_of_binding(layouts, container_id) < layouts.len(),
        layouts[index_of_binding(layouts, container_id)].manager.container_id() == container_id,
        (forall|i: int, j: int|
            0 <= i < j < layouts.len() ==> (#[trigger] layouts[i]).manager.container_id() != (
            #[trigger] layouts[j]).manager.container_id()) ==> index_of_binding(
            layouts,
            container_id,
        ) == k,
{
}

/// Bindings that were well formed stay so when every id they rely on
/// stays registered.
pub proof fn lemma_layouts_survive_growth<L: LayoutManager>(
    before: Seq<WidgetView>,
    after: Seq<WidgetView>,
    layouts: Seq<LayoutBinding<L>>,
)
    requires
        layouts_are_well_formed(before, layouts),
        forall|i: int| 0 <= i < before.len() ==> has_id(after, (#[trigger] before[i]).id),
    ensures
        layouts_are_well_formed(after, layouts),
{
    assert forall|k: int| 0 <= k < layouts.len() implies {
        &&& (#[trigger] layouts[k]).manager.well_formed()
        &&& layouts[k].manager.container_id() == ROOT_ID || has_id(
            after,
            layouts[k].manager.container_id(),
        )
    } by {
        let container_id = layouts[k].manager.container_id();
        if container_id != ROOT_ID {
            let i = index_of_id(before, container_id);
            assert(has_id(after, before[i].id));
        }
    }
}

/// Dragging off cancels a click. When the button goes down, the pointer
/// then moves to a position that, clamped to the window, lies outside the
/// widget at `a`, and the button goes up, the application is asked neither
/// to run that widget's click hook nor its toggle hook, the widget's
/// `toggled` flag is what it was, and the widget is not left pressed.
pub proof fn lemma_drag_off_cancels_click<L: LayoutManager>(
    state: DispatchState<L>,
    a: int,
    x: i32,
    y: i32,
)
    requires
        ids_are_unique(state.widgets),
        0 <= a < state.widgets.len(),
        !state.widgets[a].contains(normalize(x, y, state.window_width, state.window_height)),
    ensures
        ({
            let pressed = state.step(HostEvent::PointerButtonDown).0;
            let moved = pressed.step(HostEvent::PointerMotion { x, y }).0;
            let (released, actions) = moved.step(HostEvent::PointerButtonUp);
            let widget = state.widgets[a];
            &&& !actions.contains(Action::WidgetClicked { id: widget.id })
            &&& !actions.contains(Action::WidgetToggled { id: widget.id, state: true })
            &&& !actions.contains(Action::WidgetToggled { id: widget.id, state: false })
            &&& released.widgets[a].toggled == widget.toggled
            &&& released.widgets[a].state != InteractionState::Pressed
        }),
{
    let pressed = state.step(HostEvent::PointerButtonDown).0;
    let moved = pressed.step(HostEvent::PointerMotion { x, y }).0;
    let (released, actions) = moved.step(HostEvent::PointerButtonUp);
    let widget = state.widgets[a];
    let p = moved.pointer;
    assert(moved.widgets[a].origin == widget.origin && moved.widgets[a].size == widget.size);
    assert(moved.widgets[a].id == widget.id);
    lemma_top_index_is_topmost(moved.widgets, p);
    match top_index(moved.widgets, p) {
        Some(t) => {
            assert(t != a);
            assert(moved.widgets[t].id == state.widgets[t].id);
            assert(moved.widgets[t].id != widget.id);
            let reported = moved.widgets[t].release_actions(true);
            assert(actions == reported);
            assert forall|i: int| 0 <= i < reported.len() implies match #[trigger] reported[i] {
                Action::WidgetClicked { id } => id == moved.widgets[t].id,
                Action::WidgetToggled { id, .. } => id == moved.widgets[t].id,
                _ => false,
            } by {}
        },
        None => {},
    }
}

} // verus!
