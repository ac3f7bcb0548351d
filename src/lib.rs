//! Flat `{{ key }}` template interpolation.
//!
//! The scanner splits a template into literal segments and placeholder keys;
//! the interpolator resolves every key against named values and joins
//! literals and rendered values into one string. The strict path fails on a
//! key without a value; the lenient path writes such a placeholder back.

pub mod text;
pub mod scan;
pub mod render;
pub mod interp;
pub mod laws;

pub use crate::interp::{html_format, html_format_dynamic, interpolate, FormatError};
pub use crate::render::Render;
pub use crate::scan::parse_literal_tpl;
