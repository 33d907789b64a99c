//! Reading GVDB data from a byte buffer.

pub mod error;
pub mod file;
pub mod hash;
pub mod hash_item;
pub mod header;
pub mod names;
pub mod pointer;
pub mod record;
