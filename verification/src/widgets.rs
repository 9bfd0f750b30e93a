//! The widgets of the library.
pub mod disclosure_button;
pub mod label;
pub mod colored_text;
pub mod tree_node;
