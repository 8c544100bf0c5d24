//! Grocery list: a catalog of shop sections, a working list, and the state
//! machine of the terminal interface that edits them.

pub mod app;
pub mod catalog;
pub mod list;
pub mod search;
pub mod sorting;
pub mod suggest;
pub mod text;
