use pushrod::config::{Config, OpenGL};
use pushrod::window_list::WindowList;

#[test]
fn default_config() {
    let config = Config::default();
    assert_eq!(config.window_width(), 1024);
    assert_eq!(config.window_height(), 768);
    assert_eq!(config.window_fps(), 60);
    assert_eq!(config.window_opengl(), OpenGL::V3_2);
}

#[test]
fn custom_config() {
    let config = Config::new(400, 100, 30, OpenGL::V4_5);
    assert_eq!(config.window_width(), 400);
    assert_eq!(config.window_height(), 100);
    assert_eq!(config.window_fps(), 30);
    assert_eq!(config.window_opengl(), OpenGL::V4_5);
}

#[test]
fn empty_window_list_has_no_next_window() {
    let mut list: WindowList<&str> = WindowList::new();
    assert_eq!(list.len(), 0);
    assert_eq!(list.next_window(), None);
    assert_eq!(list.next_window(), None);
    assert!(list.window(0).is_none());
    assert!(list.window_mut(0).is_none());
}

#[test]
fn single_window_is_polled_every_time() {
    let mut list: WindowList<&str> = WindowList::new();
    list.push("main");
    assert_eq!(list.next_window(), Some(0));
    assert_eq!(list.next_window(), Some(0));
}

#[test]
fn cursor_goes_round_the_windows() {
    let mut list: WindowList<&str> = WindowList::new();
    list.push("a");
    list.push("b");
    list.push("c");
    assert_eq!(list.len(), 3);
    // the cursor starts on the first window, so the second is next
    assert_eq!(list.next_window(), Some(1));
    assert_eq!(list.next_window(), Some(2));
    assert_eq!(list.next_window(), Some(0));
    assert_eq!(list.next_window(), Some(1));
    list.push("d");
    assert_eq!(list.next_window(), Some(2));
    assert_eq!(list.next_window(), Some(3));
    assert_eq!(list.next_window(), Some(0));
}

#[test]
fn windows_are_reached_by_position() {
    let mut list: WindowList<String> = WindowList::new();
    list.push(String::from("a"));
    list.push(String::from("b"));
    assert_eq!(list.window(1).map(|w| w.as_str()), Some("b"));
    assert!(list.window(2).is_none());
    list.window_mut(0).unwrap().push('!');
    assert_eq!(list.window(0).map(|w| w.as_str()), Some("a!"));
    assert_eq!(list.len(), 2);
    assert!(list.window_mut(2).is_none());
}
