//! A tree-view widget, the view that builds and updates it, and a selectable text
//! block with per-range colors.
pub mod access;
pub mod event;
pub mod layout;
pub mod view;
pub mod widget;
pub mod widgets;
