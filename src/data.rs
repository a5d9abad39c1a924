//! Market data.

pub mod text;
pub mod tradebars;
