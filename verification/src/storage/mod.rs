//! The music catalogue.

pub mod completeness;
pub mod judged;
pub mod memory;
pub mod playlist;
pub mod sql;
