//! The terminal: colour detection, and the cell arithmetic a fixed-width medium needs.

pub mod detect;
pub mod width;
pub mod plan;
pub mod render;

pub use detect::{ColorCapability, ColorChoice, Environment};
pub use render::Terminal;
pub use width::{column_in, columns_in, expand_in, width_in, Cluster, LineCells};
pub use crate::input::Input;
