//! Reader and writer for GVDB files: a hash-indexed store of keys and
//! serialised variant values that can be used straight from a byte buffer.

pub mod read;
pub mod roundtrip;
pub mod util;
pub mod write;
