//! A personal task tracker's store: tasks in a tree, content-derived identifiers,
//! shortest unique display prefixes and a line-oriented file format.

pub mod digest;
pub mod laws;
pub mod listing;
pub mod lookup;
pub mod model;
pub mod order;
pub mod prefix;
pub mod saving;
pub mod stamp;
pub mod subtree;
pub mod task;
pub mod task_list;
pub mod text;
