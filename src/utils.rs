//! The local monitor buffer and the grid it is built on.

pub use crate::local_monitor::{AsIfPixel, LocalMonitor};
pub use crate::vec2d::{IterIndex, Vec2d};
