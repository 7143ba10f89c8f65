pub mod graphviz;
pub mod visualization;
