//! Axis scales for charts: a scale maps a value of its domain to a position
//! along an axis and lists the ticks to draw on that axis.
//!
//! Positions are exact ratios, so that every statement made about them is a
//! statement of arithmetic; rounding to a pixel is left to whoever draws.
pub mod axis;
pub mod linear_axis_scale;
pub mod steps;
pub mod time_axis_scale;
