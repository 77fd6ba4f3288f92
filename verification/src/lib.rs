//! A retained-mode widget toolkit: a registry of on-screen widgets, layout
//! strategies that compute their geometry, and an event dispatcher that
//! routes pointer and window events to them.

pub mod config;
pub mod dispatcher;
pub mod event;
pub mod layout_manager;
pub mod point;
pub mod vertical_layout_manager;
pub mod widget;
pub mod widget_tree;
pub mod window_list;
