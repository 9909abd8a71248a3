//! Turtle-graphics drawing core: a registry of "drawers" (position, heading,
//! pen state, accumulated path) driven by a small scripting bridge.
//!
//! Geometry is held in fixed-point integers: coordinates are thousandths of a
//! drawing unit, headings are whole degrees. The bridge parses a script of
//! drawing commands and applies them to a drawer held in the registry.

pub mod bridge;
pub mod drawer;
pub mod drawers;
pub mod laws;
pub mod panes;
pub mod script;
pub mod scripts;
pub mod trig;
