use pushrod::event::Action;
use pushrod::point::{Point, Size};
use pushrod::widget::{InteractionState, Widget, WidgetKind};
use pushrod::widget_tree::{TreeError, WidgetTree, ROOT_ID};

fn button(x: i32, y: i32, w: i32, h: i32) -> Widget {
    Widget::new(Point { x, y }, Size { w, h })
}

fn names(tree: &WidgetTree) -> Vec<String> {
    tree.iter_in_zorder().iter().map(|w| w.name.clone()).collect()
}

fn ids(tree: &WidgetTree) -> Vec<i32> {
    tree.iter_in_zorder().iter().map(|w| w.id).collect()
}

#[test]
fn new_widgets_are_idle_and_unregistered() {
    let push = button(1, 2, 3, 4);
    assert_eq!(push.id, 0);
    assert_eq!(push.name, "");
    assert_eq!(push.origin, Point { x: 1, y: 2 });
    assert_eq!(push.size, Size { w: 3, h: 4 });
    assert_eq!(push.kind, WidgetKind::Push);
    assert_eq!(push.state, InteractionState::Idle);
    assert!(!push.toggled && !push.on_click && !push.on_toggle);
    let toggle = Widget::new_toggle(Point { x: 5, y: 6 }, Size { w: 7, h: 8 }, true);
    assert_eq!(toggle.kind, WidgetKind::Toggle);
    assert_eq!(toggle.state, InteractionState::Idle);
    assert!(toggle.toggled);
    assert!(!Widget::new_toggle(Point { x: 5, y: 6 }, Size { w: 7, h: 8 }, false).toggled);
}

#[test]
fn duplicate_name_is_refused() {
    let mut tree = WidgetTree::new();
    assert_eq!(tree.add_widget(button(20, 20, 360, 60), String::from("button1")), Ok(1));
    assert_eq!(
        tree.add_widget(button(0, 0, 10, 10), String::from("button1")),
        Err(TreeError::DuplicateName)
    );
    assert_eq!(tree.len(), 1);
    let only = tree.get_by_id(1).unwrap();
    assert_eq!(only.name, "button1");
    assert_eq!(only.origin, Point { x: 20, y: 20 });
    assert_eq!(only.size, Size { w: 360, h: 60 });
}

#[test]
fn ids_count_up_from_one() {
    let mut tree = WidgetTree::new();
    assert_eq!(tree.len(), 0);
    assert_eq!(tree.add_widget(button(0, 0, 1, 1), String::from("a")), Ok(1));
    assert_eq!(tree.add_widget(button(0, 0, 1, 1), String::from("b")), Ok(2));
    assert_eq!(tree.add_widget(button(0, 0, 1, 1), String::from("c")), Ok(3));
    assert_eq!(ids(&tree), vec![1, 2, 3]);
    assert_eq!(names(&tree), vec!["a", "b", "c"]);
}

#[test]
fn ids_are_not_reused_after_removal() {
    let mut tree = WidgetTree::new();
    tree.add_widget(button(0, 0, 1, 1), String::from("a")).unwrap();
    tree.add_widget(button(0, 0, 1, 1), String::from("b")).unwrap();
    let removed = tree.remove(2).unwrap();
    assert_eq!(removed.name, "b");
    assert_eq!(removed.id, 2);
    assert_eq!(tree.add_widget(button(0, 0, 1, 1), String::from("b")), Ok(3));
    assert_eq!(ids(&tree), vec![1, 3]);
}

#[test]
fn duplicate_id_is_refused() {
    let mut tree = WidgetTree::new();
    assert_eq!(tree.add_widget_with_id(button(0, 0, 1, 1), String::from("a"), 7), Ok(7));
    assert_eq!(
        tree.add_widget_with_id(button(5, 5, 1, 1), String::from("b"), 7),
        Err(TreeError::DuplicateId)
    );
    assert_eq!(tree.len(), 1);
    assert_eq!(names(&tree), vec!["a"]);
    // the root's id is never free
    assert_eq!(
        tree.add_widget_with_id(button(0, 0, 1, 1), String::from("b"), ROOT_ID),
        Err(TreeError::DuplicateId)
    );
    // a taken name is reported before a taken id
    assert_eq!(
        tree.add_widget_with_id(button(0, 0, 1, 1), String::from("a"), 7),
        Err(TreeError::DuplicateName)
    );
    assert_eq!(tree.len(), 1);
    // generated ids go on after the largest id seen
    assert_eq!(tree.add_widget(button(0, 0, 1, 1), String::from("b")), Ok(8));
    assert_eq!(tree.add_widget_with_id(button(0, 0, 1, 1), String::from("c"), -3), Ok(-3));
    assert_eq!(tree.add_widget(button(0, 0, 1, 1), String::from("d")), Ok(9));
    assert_eq!(ids(&tree), vec![7, 8, -3, 9]);
}

#[test]
fn exhausted_ids_are_refused() {
    let mut tree = WidgetTree::new();
    assert_eq!(
        tree.add_widget_with_id(button(0, 0, 1, 1), String::from("last"), i32::MAX),
        Ok(i32::MAX)
    );
    assert_eq!(
        tree.add_widget(button(0, 0, 1, 1), String::from("more")),
        Err(TreeError::DuplicateId)
    );
    assert_eq!(tree.len(), 1);
}

#[test]
fn uniqueness_holds_after_many_registrations() {
    let mut tree = WidgetTree::new();
    let wanted = ["a", "b", "a", "c", "b", "d", "a"];
    let mut accepted = 0;
    for name in wanted {
        match tree.add_widget(button(0, 0, 1, 1), String::from(name)) {
            Ok(_) => accepted += 1,
            Err(error) => assert_eq!(error, TreeError::DuplicateName),
        }
    }
    assert_eq!(accepted, 4);
    assert_eq!(names(&tree), vec!["a", "b", "c", "d"]);
    let all = ids(&tree);
    for i in 0..all.len() {
        for j in 0..i {
            assert_ne!(all[i], all[j]);
        }
    }
}

#[test]
fn lookup_by_id_and_by_name() {
    let mut tree = WidgetTree::new();
    tree.add_widget(button(1, 1, 1, 1), String::from("one")).unwrap();
    tree.add_widget(button(2, 2, 2, 2), String::from("two")).unwrap();
    assert_eq!(tree.get_by_id(2).unwrap().name, "two");
    assert_eq!(tree.get_by_name("one").unwrap().id, 1);
    assert_eq!(tree.get_by_name("two").unwrap().origin, Point { x: 2, y: 2 });
    assert_eq!(tree.get_by_id(3).err(), Some(TreeError::NotFound));
    assert_eq!(tree.get_by_id(ROOT_ID).err(), Some(TreeError::NotFound));
    assert_eq!(tree.get_by_name("three").err(), Some(TreeError::NotFound));
    assert_eq!(tree.get_by_name("").err(), Some(TreeError::NotFound));
}

#[test]
fn remove_keeps_the_order_of_the_rest() {
    let mut tree = WidgetTree::new();
    for name in ["a", "b", "c", "d"] {
        tree.add_widget(button(0, 0, 1, 1), String::from(name)).unwrap();
    }
    assert_eq!(tree.remove(2).unwrap().name, "b");
    assert_eq!(names(&tree), vec!["a", "c", "d"]);
    assert_eq!(tree.remove(2).err(), Some(TreeError::NotFound));
    assert_eq!(tree.remove(9).err(), Some(TreeError::NotFound));
    assert_eq!(names(&tree), vec!["a", "c", "d"]);
    assert_eq!(tree.get_by_name("b").err(), Some(TreeError::NotFound));
}

#[test]
fn later_widget_wins_the_hit_test() {
    let mut tree = WidgetTree::new();
    let back = tree.add_widget(button(0, 0, 100, 100), String::from("back")).unwrap();
    let front = tree.add_widget(button(50, 50, 100, 100), String::from("front")).unwrap();
    assert_eq!(tree.hit_test(Point { x: 75, y: 75 }), Some(front));
    assert_eq!(tree.hit_test(Point { x: 25, y: 25 }), Some(back));
    assert_eq!(tree.hit_test(Point { x: 125, y: 125 }), Some(front));
    assert_eq!(tree.hit_test(Point { x: 125, y: 25 }), None);
    assert_eq!(tree.hit_test(Point { x: 150, y: 150 }), None);
    // a third widget on top of both wins over both
    let top = tree.add_widget(button(70, 70, 10, 10), String::from("top")).unwrap();
    assert_eq!(tree.hit_test(Point { x: 75, y: 75 }), Some(top));
    assert_eq!(tree.hit_test(Point { x: 60, y: 60 }), Some(front));
    // and once the front widget is gone the back one is hit again
    tree.remove(top).unwrap();
    tree.remove(front).unwrap();
    assert_eq!(tree.hit_test(Point { x: 75, y: 75 }), Some(back));
}

#[test]
fn hit_test_on_an_empty_tree() {
    let tree = WidgetTree::new();
    assert_eq!(tree.hit_test(Point { x: 0, y: 0 }), None);
}

#[test]
fn set_geometry_moves_one_widget() {
    let mut tree = WidgetTree::new();
    tree.add_widget(button(0, 0, 10, 10), String::from("a")).unwrap();
    tree.add_widget(button(0, 0, 10, 10), String::from("b")).unwrap();
    assert_eq!(tree.set_geometry(1, Point { x: 30, y: 40 }, Size { w: 5, h: 6 }), Ok(()));
    assert_eq!(tree.get_by_id(1).unwrap().origin, Point { x: 30, y: 40 });
    assert_eq!(tree.get_by_id(1).unwrap().size, Size { w: 5, h: 6 });
    assert_eq!(tree.get_by_id(2).unwrap().origin, Point { x: 0, y: 0 });
    assert_eq!(tree.get_by_id(2).unwrap().size, Size { w: 10, h: 10 });
    assert_eq!(
        tree.set_geometry(3, Point { x: 1, y: 1 }, Size { w: 1, h: 1 }),
        Err(TreeError::NotFound)
    );
    assert_eq!(tree.hit_test(Point { x: 32, y: 42 }), Some(1));
}

#[test]
fn hooks_are_set_per_widget() {
    let mut tree = WidgetTree::new();
    tree.add_widget(button(0, 0, 10, 10), String::from("a")).unwrap();
    tree.add_widget(button(0, 0, 10, 10), String::from("b")).unwrap();
    assert_eq!(tree.set_on_click(2, true), Ok(()));
    assert_eq!(tree.set_on_toggle(1, true), Ok(()));
    assert!(!tree.get_by_id(1).unwrap().on_click);
    assert!(tree.get_by_id(1).unwrap().on_toggle);
    assert!(tree.get_by_id(2).unwrap().on_click);
    assert!(!tree.get_by_id(2).unwrap().on_toggle);
    assert_eq!(tree.set_on_click(2, false), Ok(()));
    assert!(!tree.get_by_id(2).unwrap().on_click);
    assert_eq!(tree.set_on_click(5, true), Err(TreeError::NotFound));
    assert_eq!(tree.set_on_toggle(5, true), Err(TreeError::NotFound));
}

#[test]
fn widget_state_machine_hover() {
    let mut widget = button(0, 0, 10, 10);
    widget.pointer_moved(false);
    assert_eq!(widget.state, InteractionState::Idle);
    widget.pointer_moved(true);
    assert_eq!(widget.state, InteractionState::Hovered);
    widget.pointer_moved(true);
    assert_eq!(widget.state, InteractionState::Hovered);
    widget.pointer_moved(false);
    assert_eq!(widget.state, InteractionState::Idle);
}

#[test]
fn widget_state_machine_press() {
    let mut widget = button(0, 0, 10, 10);
    // an idle widget is not pressed
    widget.button_pressed(true);
    assert_eq!(widget.state, InteractionState::Idle);
    widget.pointer_moved(true);
    // a press elsewhere leaves a hovered widget alone
    widget.button_pressed(false);
    assert_eq!(widget.state, InteractionState::Hovered);
    widget.button_pressed(true);
    assert_eq!(widget.state, InteractionState::Pressed);
    // a pressed widget stays pressed while the pointer wanders
    widget.pointer_moved(false);
    assert_eq!(widget.state, InteractionState::Pressed);
    widget.pointer_moved(true);
    assert_eq!(widget.state, InteractionState::Pressed);
}

#[test]
fn widget_state_machine_release() {
    let mut actions = vec![Action::Render];
    let mut widget = button(0, 0, 10, 10);
    widget.id = 4;
    widget.on_click = true;
    widget.on_toggle = true;
    // a release on a widget that is not pressed does nothing
    widget.button_released(true, &mut actions);
    assert_eq!(widget.state, InteractionState::Idle);
    widget.pointer_moved(true);
    widget.button_released(true, &mut actions);
    assert_eq!(widget.state, InteractionState::Hovered);
    assert_eq!(actions, vec![Action::Render]);
    // a release inside is a click; a push widget has nothing to toggle
    widget.button_pressed(true);
    widget.button_released(true, &mut actions);
    assert_eq!(widget.state, InteractionState::Idle);
    assert!(!widget.toggled);
    assert_eq!(actions, vec![Action::Render, Action::WidgetClicked { id: 4 }]);
    // a release outside is none
    widget.pointer_moved(true);
    widget.button_pressed(true);
    widget.button_released(false, &mut actions);
    assert_eq!(widget.state, InteractionState::Idle);
    assert_eq!(actions.len(), 2);
}

#[test]
fn toggle_widget_reports_click_then_toggle() {
    let mut actions = vec![];
    let mut widget = Widget::new_toggle(Point { x: 0, y: 0 }, Size { w: 1, h: 1 }, true);
    widget.id = 9;
    widget.on_click = true;
    widget.on_toggle = true;
    widget.pointer_moved(true);
    widget.button_pressed(true);
    widget.button_released(true, &mut actions);
    assert!(!widget.toggled);
    assert_eq!(
        actions,
        vec![Action::WidgetClicked { id: 9 }, Action::WidgetToggled { id: 9, state: false }]
    );
    // without hooks the flag still flips, silently
    widget.on_click = false;
    widget.on_toggle = false;
    widget.pointer_moved(true);
    widget.button_pressed(true);
    widget.button_released(true, &mut actions);
    assert!(widget.toggled);
    assert_eq!(actions.len(), 2);
    // a drag off a toggle widget leaves the flag alone
    widget.on_toggle = true;
    widget.pointer_moved(true);
    widget.button_pressed(true);
    widget.button_released(false, &mut actions);
    assert!(widget.toggled);
    assert_eq!(widget.state, InteractionState::Idle);
    assert_eq!(actions.len(), 2);
}

#[test]
fn routing_goes_to_the_top_widget_only() {
    let mut tree = WidgetTree::new();
    let back = tree.add_widget(button(0, 0, 100, 100), String::from("back")).unwrap();
    let front = tree.add_widget(button(50, 50, 100, 100), String::from("front")).unwrap();
    tree.set_on_click(back, true).unwrap();
    tree.set_on_click(front, true).unwrap();
    let p = Point { x: 75, y: 75 };
    tree.pointer_moved(p);
    assert_eq!(tree.get_by_id(back).unwrap().state, InteractionState::Idle);
    assert_eq!(tree.get_by_id(front).unwrap().state, InteractionState::Hovered);
    tree.button_pressed(p);
    assert_eq!(tree.get_by_id(back).unwrap().state, InteractionState::Idle);
    assert_eq!(tree.get_by_id(front).unwrap().state, InteractionState::Pressed);
    assert_eq!(tree.button_released(p), vec![Action::WidgetClicked { id: front }]);
    assert_eq!(tree.get_by_id(front).unwrap().state, InteractionState::Idle);
    // moving on to the back widget un-hovers the front one
    tree.pointer_moved(p);
    tree.pointer_moved(Point { x: 10, y: 10 });
    assert_eq!(tree.get_by_id(back).unwrap().state, InteractionState::Hovered);
    assert_eq!(tree.get_by_id(front).unwrap().state, InteractionState::Idle);
    // and on to the background un-hovers both
    tree.pointer_moved(Point { x: 10, y: 120 });
    assert_eq!(tree.get_by_id(back).unwrap().state, InteractionState::Idle);
    assert_eq!(tree.button_released(Point { x: 10, y: 120 }), vec![]);
}
