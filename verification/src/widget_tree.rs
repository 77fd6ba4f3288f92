//! The registry of widgets, in registration order.

use crate::event::Action;
use crate::point::{Point, Size};
use crate::widget::{Widget, WidgetView};
use vstd::prelude::*;

verus! {

/// The id of the root of the tree: the window itself. No widget has it.
pub const ROOT_ID: i32 = 0;

/// Why the tree refused a call.
#[derive(Clone, Copy, Debug, PartialEq, Eq, Structural)]
pub enum TreeError {
    /// A widget of that name is registered already.
    DuplicateName,
    /// The id is taken already, or no fresh id is left.
    DuplicateId,
    /// No widget has that id or name.
    NotFound,
}

/// Some widget in `widgets` has id `id`.
pub open spec fn has_id(widgets: Seq<WidgetView>, id: i32) -> bool {
    exists|i: int| 0 <= i < widgets.len() && (#[trigger] widgets[i]).id == id
}

/// Some widget in `widgets` has name `name`.
pub open spec fn has_name(widgets: Seq<WidgetView>, name: Seq<char>) -> bool {
    exists|i: int| 0 <= i < widgets.len() && (#[trigger] widgets[i]).name == name
}

/// No two widgets in `widgets` share an id.
pub open spec fn ids_are_unique(widgets: Seq<WidgetView>) -> bool {
    forall|i: int, j: int|
        0 <= i < j < widgets.len() ==> (#[trigger] widgets[i]).id != (#[trigger] widgets[j]).id
}

/// No two widgets in `widgets` share a name.
pub open spec fn names_are_unique(widgets: Seq<WidgetView>) -> bool {
    forall|i: int, j: int|
        0 <= i < j < widgets.len() ==> (#[trigger] widgets[i]).name != (
        #[trigger] widgets[j]).name
}

/// The position of the widget with id `id`; meaningful where `has_id`.
pub open spec fn index_of_id(widgets: Seq<WidgetView>, id: i32) -> int {
    choose|i: int| 0 <= i < widgets.len() && (#[trigger] widgets[i]).id == id
}

/// The position of the widget with name `name`; meaningful where
/// `has_name`.
pub open spec fn index_of_name(widgets: Seq<WidgetView>, name: Seq<char>) -> int {
    choose|i: int| 0 <= i < widgets.len() && (#[trigger] widgets[i]).name == name
}

/// Whether a widget can be registered under `id`: the id is not the
/// root's and no widget has it.
pub open spec fn id_is_free(widgets: Seq<WidgetView>, id: i32) -> bool {
    id != ROOT_ID && !has_id(widgets, id)
}

/// What registering a widget as `name` under `id` returns: the id, unless
/// the name is taken, or the id is taken or no `i32`.
pub open spec fn registration(widgets: Seq<WidgetView>, name: Seq<char>, id: int) -> Result<
    i32,
    TreeError,
> {
    if has_name(widgets, name) {
        Err(TreeError::DuplicateName)
    } else if id < i32::MIN || id > i32::MAX || !id_is_free(widgets, id as i32) {
        Err(TreeError::DuplicateId)
    } else {
        Ok(id as i32)
    }
}

/// The position of the top-most widget that covers `p`: the one registered
/// last among those that do.
pub open spec fn top_index(widgets: Seq<WidgetView>, p: Point) -> Option<int>
    decreases widgets.len(),
{
    if widgets.len() == 0 {
        None
    } else if widgets.last().contains(p) {
        Some(widgets.len() - 1)
    } else {
        top_index(widgets.drop_last(), p)
    }
}

/// The id of the top-most widget that covers `p`.
pub open spec fn top_id(widgets: Seq<WidgetView>, p: Point) -> Option<i32> {
    match top_index(widgets, p) {
        Some(i) => Some(widgets[i].id),
        None => None,
    }
}

/// The widgets after the pointer moved to `p`: the top-most widget under
/// `p` is the target, and every widget follows its own state machine.
pub open spec fn after_motion(widgets: Seq<WidgetView>, p: Point) -> Seq<WidgetView> {
    Seq::new(widgets.len(), |i: int| widgets[i].after_motion(top_index(widgets, p) == Some(i)))
}

/// The widgets after the pointer button went down at `p`.
pub open spec fn after_press(widgets: Seq<WidgetView>, p: Point) -> Seq<WidgetView> {
    Seq::new(widgets.len(), |i: int| widgets[i].after_press(top_index(widgets, p) == Some(i)))
}

/// The widgets after the pointer button went up at `p`.
pub open spec fn after_release(widgets: Seq<WidgetView>, p: Point) -> Seq<WidgetView> {
    Seq::new(widgets.len(), |i: int| widgets[i].after_release(top_index(widgets, p) == Some(i)))
}

/// What the application is to do when the pointer button goes up at `p`:
/// what the top-most widget under `p` asks for, and nothing for any other.
pub open spec fn release_actions(widgets: Seq<WidgetView>, p: Point) -> Seq<Action> {
    match top_index(widgets, p) {
        Some(i) => widgets[i].release_actions(true),
        None => Seq::<Action>::empty(),
    }
}

/// `after` holds the widgets of `before` with the same ids and names, in
/// the same order.
pub open spec fn same_identities(before: Seq<WidgetView>, after: Seq<WidgetView>) -> bool {
    &&& after.len() == before.len()
    &&& forall|i: int|
        0 <= i < before.len() ==> (#[trigger] after[i]).id == before[i].id && after[i].name
            == before[i].name
}

/// The views of the widgets in `widgets`.
pub open spec fn views_of(widgets: Seq<Widget>) -> Seq<WidgetView> {
    widgets.map_values(|w: Widget| w@)
}

/// An ordered collection of widgets. The order of registration is the
/// order of drawing, back to front; the widget registered last is on top.
pub struct WidgetTree {
    widgets: Vec<Widget>,
    last_id: i32,
}

impl View for WidgetTree {
    type V = Seq<WidgetView>;

    closed spec fn view(&self) -> Seq<WidgetView> {
        views_of(self.widgets@)
    }
}

impl WidgetTree {
    /// The largest id the tree has handed out or accepted, and 0 before
    /// the first.
    pub closed spec fn last_id(&self) -> i32 {
        self.last_id
    }

    /// The invariant of the tree: ids and names are unique, no widget has
    /// the root's id, and no id exceeds `last_id`.
    pub open spec fn well_formed(&self) -> bool {
        &&& ids_are_unique(self@)
        &&& names_are_unique(self@)
        &&& self.last_id() >= 0
        &&& forall|i: int|
            0 <= i < self@.len() ==> (#[trigger] self@[i]).id != ROOT_ID && self@[i].id
                <= self.last_id()
    }

    /// An empty tree.
    pub fn new() -> (tree: WidgetTree)
        ensures
            tree.well_formed(),
            tree@ == Seq::<WidgetView>::empty(),
            tree.last_id() == 0,
    {
        let tree = WidgetTree { widgets: Vec::new(), last_id: 0 };
        assert(tree@ =~= Seq::<WidgetView>::empty());
        tree
    }

    /// The number of registered widgets.
    pub fn len(&self) -> (n: usize)
        ensures
            n == self@.len(),
    {
        self.widgets.len()
    }

    /// The position of the widget with id `id`.
    fn find_id(&self, id: i32) -> (found: Option<usize>)
        ensures
            match found {
                Some(i) => i < self@.len() && self@[i as int].id == id,
                None => !has_id(self@, id),
            },
    {
        let mut i: usize = 0;
        while i < self.widgets.len()
            invariant
                i <= self.widgets.len(),
                forall|k: int| 0 <= k < i ==> (#[trigger] self@[k]).id != id,
            decreases self.widgets.len() - i,
        {
            if self.widgets[i].id == id {
                return Some(i);
            }
            i = i + 1;
        }
        None
    }

    /// The position of the widget with name `name`.
    fn find_name(&self, name: &String) -> (found: Option<usize>)
        ensures
            match found {
                Some(i) => i < self@.len() && self@[i as int].name == name@,
                None => !has_name(self@, name@),
            },
    {
        let mut i: usize = 0;
        while i < self.widgets.len()
            invariant
                i <= self.widgets.len(),
                forall|k: int| 0 <= k < i ==> (#[trigger] self@[k]).name != name@,
            decreases self.widgets.len() - i,
        {
            if self.widgets[i].name == *name {
                return Some(i);
            }
            i = i + 1;
        }
        None
    }

    /// Appends `widget` as `name` under `id`.
    fn attach(&mut self, widget: Widget, name: String, id: i32)
        requires
            old(self).well_formed(),
            !has_name(old(self)@, name@),
            id_is_free(old(self)@, id),
        ensures
            final(self).well_formed(),
            final(self)@ == old(self)@.push(WidgetView { id, name: name@, ..widget@ }),
            final(self).last_id() == if id > old(self).last_id() {
                id
            } else {
                old(self).last_id()
            },
    {
        let mut widget = widget;
        widget.id = id;
        widget.name = name;
        if id > self.last_id {
            self.last_id = id;
        }
        self.widgets.push(widget);
        assert(self@ =~= old(self)@.push(widget@));
    }

    /// Registers `widget` as `name` under the next unused id, one more
    /// than `last_id`, and returns that id. Fails with `DuplicateName` if
    /// the name is taken, else with `DuplicateId` if no id is left; a call
    /// that fails leaves the tree as it was.
    pub fn add_widget(&mut self, widget: Widget, name: String) -> (result: Result<i32, TreeError>)
        requires
            old(self).well_formed(),
        ensures
            final(self).well_formed(),
            result == registration(old(self)@, name@, old(self).last_id() + 1),
            match result {
                Ok(id) => {
                    &&& id == old(self).last_id() + 1
                    &&& final(self).last_id() == id
                    &&& final(self)@ == old(self)@.push(
                        WidgetView { id, name: name@, ..widget@ },
                    )
                },
                Err(_) => final(self)@ == old(self)@ && final(self).last_id() == old(
                    self,
                ).last_id(),
            },
    {
        if self.find_name(&name).is_some() {
            return Err(TreeError::DuplicateName);
        }
        if self.last_id == i32::MAX {
            return Err(TreeError::DuplicateId);
        }
        let id = self.last_id + 1;
        self.attach(widget, name, id);
        Ok(id)
    }

    /// Registers `widget` as `name` under the id the caller chose. Fails
    /// with `DuplicateName` if the name is taken, else with `DuplicateId`
    /// if the id is the root's or a registered widget's; a call that fails
    /// leaves the tree as it was.
    pub fn add_widget_with_id(&mut self, widget: Widget, name: String, id: i32) -> (result:
        Result<i32, TreeError>)
        requires
            old(self).well_formed(),
        ensures
            final(self).well_formed(),
            result == registration(old(self)@, name@, id as int),
            match result {
                Ok(_) => {
                    &&& final(self).last_id() == if id > old(self).last_id() {
                        id
                    } else {
                        old(self).last_id()
                    }
                    &&& final(self)@ == old(self)@.push(
                        WidgetView { id, name: name@, ..widget@ },
                    )
                },
                Err(_) => final(self)@ == old(self)@ && final(self).last_id() == old(
                    self,
                ).last_id(),
            },
    {
        if self.find_name(&name).is_some() {
            return Err(TreeError::DuplicateName);
        }
        if id == ROOT_ID || self.find_id(id).is_some() {
            return Err(TreeError::DuplicateId);
        }
        self.attach(widget, name, id);
        Ok(id)
    }

    /// The widget with id `id`, or `NotFound`.
    pub fn get_by_id(&self, id: i32) -> (result: Result<&Widget, TreeError>)
        requires
            self.well_formed(),
        ensures
            match result {
                Ok(widget) => has_id(self@, id) && widget@ == self@[index_of_id(self@, id)]
                    && widget@.id == id,
                Err(error) => error == TreeError::NotFound && !has_id(self@, id),
            },
    {
        match self.find_id(id) {
            Some(i) => {
                proof {
                    lemma_index_of_id(self@, id, i as int);
                }
                Ok(&self.widgets[i])
            },
            None => Err(TreeError::NotFound),
        }
    }

    /// The widget with name `name`, or `NotFound`.
    pub fn get_by_name(&self, name: &str) -> (result: Result<&Widget, TreeError>)
        requires
            self.well_formed(),
        ensures
            match result {
                Ok(widget) => has_name(self@, name@) && widget@ == self@[index_of_name(
                    self@,
                    name@,
                )] && widget@.name == name@,
                Err(error) => error == TreeError::NotFound && !has_name(self@, name@),
            },
    {
        let owned = name.to_owned();
        match self.find_name(&owned) {
            Some(i) => {
                proof {
                    lemma_index_of_name(self@, name@, i as int);
                }
                Ok(&self.widgets[i])
            },
            None => Err(TreeError::NotFound),
        }
    }

    /// Detaches the widget with id `id` and hands it back, or fails with
    /// `NotFound` and leaves the tree as it was. The widgets that stay
    /// keep their order.
    pub fn remove(&mut self, id: i32) -> (result: Result<Widget, TreeError>)
        requires
            old(self).well_formed(),
        ensures
            final(self).well_formed(),
            final(self).last_id() == old(self).last_id(),
            match result {
                Ok(widget) => {
                    &&& has_id(old(self)@, id)
                    &&& widget@ == old(self)@[index_of_id(old(self)@, id)]
                    &&& final(self)@ == old(self)@.remove(index_of_id(old(self)@, id))
                    &&& !has_id(final(self)@, id)
                },
                Err(error) => {
                    &&& error == TreeError::NotFound
                    &&& !has_id(old(self)@, id)
                    &&& final(self)@ == old(self)@
                },
            },
    {
        match self.find_id(id) {
            Some(i) => {
                proof {
                    lemma_index_of_id(self@, id, i as int);
                }
                let widget = self.widgets.remove(i);
                assert(self@ =~= old(self)@.remove(i as int));
                Ok(widget)
            },
            None => Err(TreeError::NotFound),
        }
    }

    /// The widgets in registration order, which is the order of drawing:
    /// the first is at the back. Hit-testing walks the same sequence from
    /// its end.
    pub fn iter_in_zorder(&self) -> (widgets: &[Widget])
        ensures
            views_of(widgets@) == self@,
    {
        self.widgets.as_slice()
    }

    /// The position of the top-most widget that covers `p`.
    fn find_top(&self, p: Point) -> (found: Option<usize>)
        ensures
            match found {
                Some(i) => i < self@.len() && top_index(self@, p) == Some(i as int),
                None => top_index(self@, p) is None,
            },
    {
        let mut i: usize = self.widgets.len();
        assert(self@.take(i as int) =~= self@);
        while i > 0
            invariant
                i <= self.widgets.len(),
                top_index(self@, p) == top_index(self@.take(i as int), p),
            decreases i,
        {
            i = i - 1;
            assert(self@.take(i + 1).drop_last() =~= self@.take(i as int));
            if self.widgets[i].contains(p) {
                return Some(i);
            }
        }
        None
    }

    /// The id of the top-most widget that covers `p`: of those whose
    /// rectangle holds `p`, the one registered last. `None` where `p` is on
    /// the background.
    pub fn hit_test(&self, p: Point) -> (hit: Option<i32>)
        ensures
            hit == top_id(self@, p),
    {
        match self.find_top(p) {
            Some(i) => Some(self.widgets[i].id),
            None => None,
        }
    }

    /// Moves and resizes the widget with id `id`, or fails with `NotFound`
    /// and leaves the tree as it was.
    pub fn set_geometry(&mut self, id: i32, origin: Point, size: Size) -> (result: Result<
        (),
        TreeError,
    >)
        requires
            old(self).well_formed(),
        ensures
            final(self).well_formed(),
            final(self).last_id() == old(self).last_id(),
            match result {
                Ok(_) => {
                    &&& has_id(old(self)@, id)
                    &&& final(self)@ == old(self)@.update(
                        index_of_id(old(self)@, id),
                        WidgetView { origin, size, ..old(self)@[index_of_id(old(self)@, id)] },
                    )
                },
                Err(error) => {
                    &&& error == TreeError::NotFound
                    &&& !has_id(old(self)@, id)
                    &&& final(self)@ == old(self)@
                },
            },
    {
        match self.find_id(id) {
            Some(i) => {
                proof {
                    lemma_index_of_id(self@, id, i as int);
                }
                self.widgets[i].origin = origin;
                self.widgets[i].size = size;
                assert(self@ =~= old(self)@.update(
                    i as int,
                    WidgetView { origin, size, ..old(self)@[i as int] },
                ));
                Ok(())
            },
            None => Err(TreeError::NotFound),
        }
    }

    /// Says whether the application has a click hook for the widget with
    /// id `id`; fails with `NotFound` and leaves the tree as it was
    /// if there is no such widget.
    pub fn set_on_click(&mut self, id: i32, wanted: bool) -> (result: Result<(), TreeError>)
        requires
            old(self).well_formed(),
        ensures
            final(self).well_formed(),
            final(self).last_id() == old(self).last_id(),
            match result {
                Ok(_) => {
                    &&& has_id(old(self)@, id)
                    &&& final(self)@ == old(self)@.update(
                        index_of_id(old(self)@, id),
                        WidgetView { on_click: wanted, ..old(self)@[index_of_id(old(self)@, id)] },
                    )
                },
                Err(error) => {
                    &&& error == TreeError::NotFound
                    &&& !has_id(old(self)@, id)
                    &&& final(self)@ == old(self)@
                },
            },
    {
        match self.find_id(id) {
            Some(i) => {
                proof {
                    lemma_index_of_id(self@, id, i as int);
                }
                self.widgets[i].on_click = wanted;
                assert(self@ =~= old(self)@.update(
                    i as int,
                    WidgetView { on_click: wanted, ..old(self)@[i as int] },
                ));
                Ok(())
            },
            None => Err(TreeError::NotFound),
        }
    }

    /// Says whether the application has a toggle hook for the widget with
    /// id `id`; fails with `NotFound` and leaves the tree as it was
    /// if there is no such widget.
    pub fn set_on_toggle(&mut self, id: i32, wanted: bool) -> (result: Result<(), TreeError>)
        requires
            old(self).well_formed(),
        ensures
            final(self).well_formed(),
            final(self).last_id() == old(self).last_id(),
            match result {
                Ok(_) => {
                    &&& has_id(old(self)@, id)
                    &&& final(self)@ == old(self)@.update(
                        index_of_id(old(self)@, id),
                        WidgetView {
                            on_toggle: wanted,
                            ..old(self)@[index_of_id(old(self)@, id)]
                        },
                    )
                },
                Err(error) => {
                    &&& error == TreeError::NotFound
                    &&& !has_id(old(self)@, id)
                    &&& final(self)@ == old(self)@
                },
            },
    {
        match self.find_id(id) {
            Some(i) => {
                proof {
                    lemma_index_of_id(self@, id, i as int);
                }
                self.widgets[i].on_toggle = wanted;
                assert(self@ =~= old(self)@.update(
                    i as int,
                    WidgetView { on_toggle: wanted, ..old(self)@[i as int] },
                ));
                Ok(())
            },
            None => Err(TreeError::NotFound),
        }
    }

    /// Routes a pointer motion to `p`: every widget learns whether it is
    /// the pointer's target now.
    pub fn pointer_moved(&mut self, p: Point)
        requires
            old(self).well_formed(),
        ensures
            final(self).well_formed(),
            final(self).last_id() == old(self).last_id(),
            final(self)@ == after_motion(old(self)@, p),
    {
        let target = self.find_top(p);
        let n = self.widgets.len();
        let mut i: usize = 0;
        while i < n
            invariant
                i <= n,
                n == old(self)@.len(),
                n == self.widgets.len(),
                self.last_id == old(self).last_id,
                match target {
                    Some(t) => top_index(old(self)@, p) == Some(t as int),
                    None => top_index(old(self)@, p) is None,
                },
                self@ == Seq::new(
                    n as nat,
                    |k: int|
                        if k < i {
                            after_motion(old(self)@, p)[k]
                        } else {
                            old(self)@[k]
                        },
                ),
            decreases n - i,
        {
            let ghost before = self@;
            let over = match target {
                Some(t) => t == i,
                None => false,
            };
            self.widgets[i].pointer_moved(over);
            assert(self@ =~= before.update(i as int, before[i as int].after_motion(over)));
            i = i + 1;
            assert(self@ =~= Seq::new(
                n as nat,
                |k: int|
                    if k < i {
                        after_motion(old(self)@, p)[k]
                    } else {
                        old(self)@[k]
                    },
            ));
        }
        assert(self@ =~= after_motion(old(self)@, p));
        proof {
            lemma_same_identities_keep_well_formed(old(self)@, self@);
        }
    }

    /// Routes a press of the pointer button at `p`.
    pub fn button_pressed(&mut self, p: Point)
        requires
            old(self).well_formed(),
        ensures
            final(self).well_formed(),
            final(self).last_id() == old(self).last_id(),
            final(self)@ == after_press(old(self)@, p),
    {
        let target = self.find_top(p);
        let n = self.widgets.len();
        let mut i: usize = 0;
        while i < n
            invariant
                i <= n,
                n == old(self)@.len(),
                n == self.widgets.len(),
                self.last_id == old(self).last_id,
                match target {
                    Some(t) => top_index(old(self)@, p) == Some(t as int),
                    None => top_index(old(self)@, p) is None,
                },
                self@ == Seq::new(
                    n as nat,
                    |k: int|
                        if k < i {
                            after_press(old(self)@, p)[k]
                        } else {
                            old(self)@[k]
                        },
                ),
            decreases n - i,
        {
            let ghost before = self@;
            let over = match target {
                Some(t) => t == i,
                None => false,
            };
            self.widgets[i].button_pressed(over);
            assert(self@ =~= before.update(i as int, before[i as int].after_press(over)));
            i = i + 1;
            assert(self@ =~= Seq::new(
                n as nat,
                |k: int|
                    if k < i {
                        after_press(old(self)@, p)[k]
                    } else {
                        old(self)@[k]
                    },
            ));
        }
        assert(self@ =~= after_press(old(self)@, p));
        proof {
            lemma_same_identities_keep_well_formed(old(self)@, self@);
        }
    }

    /// Routes a release of the pointer button at `p`, and returns what the
    /// application is to do.
    pub fn button_released(&mut self, p: Point) -> (actions: Vec<Action>)
        requires
            old(self).well_formed(),
        ensures
            final(self).well_formed(),
            final(self).last_id() == old(self).last_id(),
            final(self)@ == after_release(old(self)@, p),
            actions@ == release_actions(old(self)@, p),
    {
        let target = self.find_top(p);
        let n = self.widgets.len();
        let mut actions: Vec<Action> = Vec::new();
        let mut i: usize = 0;
        while i < n
            invariant
                i <= n,
                n == old(self)@.len(),
                n == self.widgets.len(),
                self.last_id == old(self).last_id,
                match target {
                    Some(t) => t < n && top_index(old(self)@, p) == Some(t as int),
                    None => top_index(old(self)@, p) is None,
                },
                self@ == Seq::new(
                    n as nat,
                    |k: int|
                        if k < i {
                            after_release(old(self)@, p)[k]
                        } else {
                            old(self)@[k]
                        },
                ),
                actions@ == match target {
                    Some(t) if t < i => old(self)@[t as int].release_actions(true),
                    _ => Seq::<Action>::empty(),
                },
            decreases n - i,
        {
            let ghost before = self@;
            let ghost reported = actions@;
            let over = match target {
                Some(t) => t == i,
                None => false,
            };
            self.widgets[i].button_released(over, &mut actions);
            assert(self@ =~= before.update(i as int, before[i as int].after_release(over)));
            assert(actions@ =~= reported + before[i as int].release_actions(over));
            i = i + 1;
            assert(self@ =~= Seq::new(
                n as nat,
                |k: int|
                    if k < i {
                        after_release(old(self)@, p)[k]
                    } else {
                        old(self)@[k]
                    },
            ));
        }
        assert(self@ =~= after_release(old(self)@, p));
        proof {
            lemma_same_identities_keep_well_formed(old(self)@, self@);
        }
        actions
    }
}

/// Among unique ids, the widget with a given id is at one position only.
pub proof fn lemma_index_of_id(widgets: Seq<WidgetView>, id: i32, i: int)
    requires
        0 <= i < widgets.len(),
        widgets[i].id == id,
    ensures
        has_id(widgets, id),
        ids_are_unique(widgets) ==> index_of_id(widgets, id) == i,
        widgets[index_of_id(widgets, id)].id == id,
        0 <= index_of_id(widgets, id) < widgets.len(),
{
}

/// Among unique names, the widget with a given name is at one position
/// only.
pub proof fn lemma_index_of_name(widgets: Seq<WidgetView>, name: Seq<char>, i: int)
    requires
        0 <= i < widgets.len(),
        widgets[i].name == name,
    ensures
        has_name(widgets, name),
        names_are_unique(widgets) ==> index_of_name(widgets, name) == i,
        widgets[index_of_name(widgets, name)].name == name,
        0 <= index_of_name(widgets, name) < widgets.len(),
{
}

/// Widgets that keep their ids and names keep them unique.
pub proof fn lemma_same_identities_keep_well_formed(
    before: Seq<WidgetView>,
    after: Seq<WidgetView>,
)
    requires
        same_identities(before, after),
    ensures
        ids_are_unique(before) ==> ids_are_unique(after),
        names_are_unique(before) ==> names_are_unique(after),
        forall|id: i32| has_id(before, id) == has_id(after, id),
{
    assert forall|id: i32| has_id(before, id) == has_id(after, id) by {
        if has_id(before, id) {
            let i = index_of_id(before, id);
            assert(after[i].id == id);
        }
        if has_id(after, id) {
            let i = index_of_id(after, id);
            assert(before[i].id == id);
        }
    }
}

/// Hit-testing finds the top-most widget: the widget it names covers the
/// point and no widget registered after it does; it names none only where
/// no widget covers the point.
pub proof fn lemma_top_index_is_topmost(widgets: Seq<WidgetView>, p: Point)
    ensures
        match top_index(widgets, p) {
            Some(i) => {
                &&& 0 <= i < widgets.len()
                &&& widgets[i].contains(p)
                &&& forall|j: int| i < j < widgets.len() ==> !(#[trigger] widgets[j]).contains(p)
            },
            None => forall|j: int| 0 <= j < widgets.len() ==> !(#[trigger] widgets[j]).contains(p),
        },
    decreases widgets.len(),
{
    if widgets.len() > 0 && !widgets.last().contains(p) {
        let rest = widgets.drop_last();
        lemma_top_index_is_topmost(rest, p);
        assert forall|j: int| 0 <= j < rest.len() implies rest[j] == widgets[j] by {}
        match top_index(rest, p) {
            Some(i) => {
                assert forall|j: int| i < j < widgets.len() implies !(
                #[trigger] widgets[j]).contains(p) by {
                    if j < rest.len() {
                        assert(rest[j] == widgets[j]);
                    }
                }
            },
            None => {
                assert forall|j: int| 0 <= j < widgets.len() implies !(
                #[trigger] widgets[j]).contains(p) by {
                    if j < rest.len() {
                        assert(rest[j] == widgets[j]);
                    }
                }
            },
        }
    }
}

/// Where two widgets overlap at `p`, the one registered later wins: the
/// hit is never the earlier one, and it is the later one unless a widget
/// registered after both covers `p` too.
pub proof fn lemma_later_widget_wins(
    widgets: Seq<WidgetView>,
    p: Point,
    earlier: int,
    later: int,
)
    requires
        0 <= earlier < later < widgets.len(),
        widgets[earlier].contains(p),
        widgets[later].contains(p),
    ensures
        top_index(widgets, p) matches Some(hit) && later <= hit < widgets.len(),
        (forall|j: int| later < j < widgets.len() ==> !(#[trigger] widgets[j]).contains(p))
            ==> top_index(widgets, p) == Some(later),
        ids_are_unique(widgets) ==> top_id(widgets, p) != Some(widgets[earlier].id),
{
    lemma_top_index_is_topmost(widgets, p);
}

/// Registration keeps ids and names unique. A registration succeeds
/// exactly when the name is new and the id is free, and the widgets with
/// the new one among them then still have unique ids and unique names;
/// one that fails says which of the two was taken, the name first.
pub proof fn lemma_registration_keeps_identities_unique(
    widgets: Seq<WidgetView>,
    widget: WidgetView,
    name: Seq<char>,
    id: int,
)
    requires
        ids_are_unique(widgets),
        names_are_unique(widgets),
    ensures
        match registration(widgets, name, id) {
            Ok(registered) => {
                &&& registered == id
                &&& !has_name(widgets, name)
                &&& id_is_free(widgets, registered)
                &&& ids_are_unique(widgets.push(WidgetView { id: registered, name, ..widget }))
                &&& names_are_unique(widgets.push(WidgetView { id: registered, name, ..widget }))
            },
            Err(TreeError::DuplicateName) => has_name(widgets, name),
            Err(TreeError::DuplicateId) => !has_name(widgets, name) && (id < i32::MIN || id
                > i32::MAX || !id_is_free(widgets, id as i32)),
            Err(TreeError::NotFound) => false,
        },
{
}

} // verus!
