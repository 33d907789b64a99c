//! Building GVDB data in memory and writing it out.

pub mod error;
pub mod file;
pub mod hash;
pub mod item;
