//! Widgets and their interaction state machine.

use crate::event::Action;
use crate::point::{contains_point, rect_contains, Point, Size};
use vstd::prelude::*;

verus! {

/// What a completed click does to a widget.
#[derive(Clone, Copy, Debug, PartialEq, Eq, Structural)]
pub enum WidgetKind {
    /// A click is reported and leaves no trace on the widget.
    Push,
    /// A click also flips the widget's `toggled` flag.
    Toggle,
}

/// The transient part of a widget's interaction state.
#[derive(Clone, Copy, Debug, PartialEq, Eq, Structural)]
pub enum InteractionState {
    Idle,
    Hovered,
    Pressed,
}

/// An on-screen widget. `id` and `name` are assigned when the widget is
/// registered; `on_click` and `on_toggle` say whether the application has
/// set a hook for clicks and for toggles.
pub struct Widget {
    pub id: i32,
    pub name: String,
    pub origin: Point,
    pub size: Size,
    pub kind: WidgetKind,
    pub state: InteractionState,
    pub toggled: bool,
    pub on_click: bool,
    pub on_toggle: bool,
}

/// Mathematical content of a `Widget`.
pub struct WidgetView {
    pub id: i32,
    pub name: Seq<char>,
    pub origin: Point,
    pub size: Size,
    pub kind: WidgetKind,
    pub state: InteractionState,
    pub toggled: bool,
    pub on_click: bool,
    pub on_toggle: bool,
}

impl View for Widget {
    type V = WidgetView;

    open spec fn view(&self) -> WidgetView {
        WidgetView {
            id: self.id,
            name: self.name@,
            origin: self.origin,
            size: self.size,
            kind: self.kind,
            state: self.state,
            toggled: self.toggled,
            on_click: self.on_click,
            on_toggle: self.on_toggle,
        }
    }
}

impl WidgetView {
    /// Whether the widget's rectangle covers `p`.
    pub open spec fn contains(self, p: Point) -> bool {
        rect_contains(self.origin, self.size, p)
    }

    /// The widget after the pointer moved; `over` says whether the widget
    /// is now the pointer's target. An idle target becomes hovered, a
    /// hovered widget that is no longer the target becomes idle, and a
    /// pressed widget stays pressed wherever the pointer goes.
    pub open spec fn after_motion(self, over: bool) -> WidgetView {
        match self.state {
            InteractionState::Idle if over => WidgetView {
                state: InteractionState::Hovered,
                ..self
            },
            InteractionState::Hovered if !over => WidgetView {
                state: InteractionState::Idle,
                ..self
            },
            _ => self,
        }
    }

    /// The widget after the pointer button went down: a hovered target
    /// becomes pressed.
    pub open spec fn after_press(self, over: bool) -> WidgetView {
        if over && self.state == InteractionState::Hovered {
            WidgetView { state: InteractionState::Pressed, ..self }
        } else {
            self
        }
    }

    /// Whether a release of the pointer button completes a click on the
    /// widget: it is pressed and still the pointer's target.
    pub open spec fn is_clicked_by_release(self, over: bool) -> bool {
        over && self.state == InteractionState::Pressed
    }

    /// The widget after the pointer button went up. A pressed widget
    /// becomes idle, and if the release completes a click on a toggle
    /// widget, its `toggled` flag flips.
    pub open spec fn after_release(self, over: bool) -> WidgetView {
        if self.state == InteractionState::Pressed {
            WidgetView {
                state: InteractionState::Idle,
                toggled: if over && self.kind == WidgetKind::Toggle {
                    !self.toggled
                } else {
                    self.toggled
                },
                ..self
            }
        } else {
            self
        }
    }

    /// What the application is to do when the pointer button goes up:
    /// nothing unless the release completes a click; then run the click
    /// hook, if one is set, and for a toggle widget the toggle hook with
    /// the new state, if one is set.
    pub open spec fn release_actions(self, over: bool) -> Seq<Action> {
        if self.is_clicked_by_release(over) {
            let clicked = if self.on_click {
                seq![Action::WidgetClicked { id: self.id }]
            } else {
                Seq::<Action>::empty()
            };
            if self.kind == WidgetKind::Toggle && self.on_toggle {
                clicked.push(Action::WidgetToggled { id: self.id, state: !self.toggled })
            } else {
                clicked
            }
        } else {
            Seq::<Action>::empty()
        }
    }
}

impl Widget {
    /// A push widget at `origin` with extent `size`: idle, unregistered,
    /// and without hooks.
    pub fn new(origin: Point, size: Size) -> (widget: Widget)
        ensures
            widget@ == (WidgetView {
                id: 0,
                name: Seq::<char>::empty(),
                origin,
                size,
                kind: WidgetKind::Push,
                state: InteractionState::Idle,
                toggled: false,
                on_click: false,
                on_toggle: false,
            }),
    {
        Widget {
            id: 0,
            name: String::new(),
            origin,
            size,
            kind: WidgetKind::Push,
            state: InteractionState::Idle,
            toggled: false,
            on_click: false,
            on_toggle: false,
        }
    }

    /// A toggle widget at `origin` with extent `size` whose flag starts as
    /// `toggled`: idle, unregistered, and without hooks.
    pub fn new_toggle(origin: Point, size: Size, toggled: bool) -> (widget: Widget)
        ensures
            widget@ == (WidgetView {
                id: 0,
                name: Seq::<char>::empty(),
                origin,
                size,
                kind: WidgetKind::Toggle,
                state: InteractionState::Idle,
                toggled,
                on_click: false,
                on_toggle: false,
            }),
    {
        Widget {
            id: 0,
            name: String::new(),
            origin,
            size,
            kind: WidgetKind::Toggle,
            state: InteractionState::Idle,
            toggled,
            on_click: false,
            on_toggle: false,
        }
    }

    /// Decides whether the widget's rectangle covers `p`.
    pub fn contains(&self, p: Point) -> (inside: bool)
        ensures
            inside == self@.contains(p),
    {
        contains_point(self.origin, self.size, p)
    }

    /// Tells the widget that the pointer moved.
    pub fn pointer_moved(&mut self, over: bool)
        ensures
            final(self)@ == old(self)@.after_motion(over),
    {
        match self.state {
            InteractionState::Idle => {
                if over {
                    self.state = InteractionState::Hovered;
                }
            },
            InteractionState::Hovered => {
                if !over {
                    self.state = InteractionState::Idle;
                }
            },
            InteractionState::Pressed => {},
        }
    }

    /// Tells the widget that the pointer button went down.
    pub fn button_pressed(&mut self, over: bool)
        ensures
            final(self)@ == old(self)@.after_press(over),
    {
        if over {
            match self.state {
                InteractionState::Hovered => {
                    self.state = InteractionState::Pressed;
                },
                _ => {},
            }
        }
    }

    /// Tells the widget that the pointer button went up, and appends what
    /// the application is to do to `actions`.
    pub fn button_released(&mut self, over: bool, actions: &mut Vec<Action>)
        ensures
            final(self)@ == old(self)@.after_release(over),
            final(actions)@ == old(actions)@ + old(self)@.release_actions(over),
    {
        match self.state {
            InteractionState::Pressed => {
                self.state = InteractionState::Idle;
                if over {
                    if self.on_click {
                        actions.push(Action::WidgetClicked { id: self.id });
                    }
                    match self.kind {
                        WidgetKind::Toggle => {
                            self.toggled = !self.toggled;
                            if self.on_toggle {
                                actions.push(
                                    Action::WidgetToggled {
                                        id: self.id,
                                        state: self.toggled,
                                    },
                                );
                            }
                        },
                        WidgetKind::Push => {},
                    }
                }
            },
            _ => {},
        }
        assert(actions@ =~= old(actions)@ + old(self)@.release_actions(over));
    }
}

} // verus!
