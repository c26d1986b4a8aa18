pub mod graph;
pub mod list;
