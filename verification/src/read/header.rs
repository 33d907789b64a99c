//! The fixed header at the start of a GVDB file.

use crate::read::error::{GvdbReaderError, GvdbReaderErrorView};
use crate::read::pointer::{lemma_pointer_roundtrip, GvdbPointer};
use crate::read::record::transmute_exact;
use crate::util::{
    lemma_u32_le_roundtrip, read_u32_le, spec_u32_at, spec_u32_le_bytes, write_u32_le,
};
use vstd::prelude::*;
use vstd::string::StringExecFns;

verus! {

/// The first signature word: the bytes `GVar`, read as a little-endian word.
pub const GVDB_SIGNATURE0: u32 = 0x7261_5647;

/// The second signature word: the bytes `iant`, read as a little-endian word.
pub const GVDB_SIGNATURE1: u32 = 0x746e_6169;

/// The number of bytes the header takes in a file.
pub const GVDB_HEADER_SIZE: usize = 32;

/// The bit of the options that marks a bundle.
pub const GVDB_OPTION_BUNDLE: u32 = 1;

/// The header of a file: two signature words, the byte order, the options,
/// the pointer to the root hash table, and eight reserved bytes.
#[derive(Debug, Clone, Copy, PartialEq, Eq, Structural)]
pub struct GvdbHeader {
    pub signature0: u32,
    pub signature1: u32,
    /// Zero for a little-endian file.
    pub byte_order: u32,
    pub options: u32,
    pub root: GvdbPointer,
    pub reserved0: u32,
    pub reserved1: u32,
}

/// A run of zero bytes.
pub open spec fn spec_zeros(len: nat) -> Seq<u8> {
    Seq::new(len, |i: int| 0u8)
}

/// The explanation given for a file in another byte order.
pub open spec fn spec_byte_order_message() -> Seq<char> {
    "Files in swapped byte order are not supported"@
}

impl GvdbHeader {
    /// The header stored in 32 bytes.
    pub open spec fn spec_from_bytes(bytes: Seq<u8>) -> GvdbHeader
        recommends
            bytes.len() == 32,
    {
        GvdbHeader {
            signature0: spec_u32_at(bytes, 0),
            signature1: spec_u32_at(bytes, 4),
            byte_order: spec_u32_at(bytes, 8),
            options: spec_u32_at(bytes, 12),
            root: GvdbPointer::spec_from_bytes(bytes.subrange(16, 24)),
            reserved0: spec_u32_at(bytes, 24),
            reserved1: spec_u32_at(bytes, 28),
        }
    }

    /// The 32 bytes that store this header.
    pub open spec fn spec_to_bytes(self) -> Seq<u8> {
        spec_u32_le_bytes(self.signature0) + spec_u32_le_bytes(self.signature1)
            + spec_u32_le_bytes(self.byte_order) + spec_u32_le_bytes(self.options)
            + self.root.spec_to_bytes() + spec_u32_le_bytes(self.reserved0) + spec_u32_le_bytes(
            self.reserved1,
        )
    }

    /// The header of a little-endian file with these options and this root.
    pub open spec fn spec_new(options: u32, root: GvdbPointer) -> GvdbHeader {
        GvdbHeader {
            signature0: GVDB_SIGNATURE0,
            signature1: GVDB_SIGNATURE1,
            byte_order: 0,
            options,
            root,
            reserved0: 0,
            reserved1: 0,
        }
    }

    /// Why a reader rejects this header, or `None` where it accepts it: both
    /// signature words must be right, and the file little-endian.
    pub open spec fn spec_error(self) -> Option<GvdbReaderErrorView> {
        if self.signature0 != GVDB_SIGNATURE0 || self.signature1 != GVDB_SIGNATURE1 {
            Some(GvdbReaderErrorView::InvalidData)
        } else if self.byte_order != 0 {
            Some(GvdbReaderErrorView::DataError(spec_byte_order_message()))
        } else {
            None
        }
    }

    pub fn new(options: u32, root: GvdbPointer) -> (header: GvdbHeader)
        ensures
            header == GvdbHeader::spec_new(options, root),
    {
        GvdbHeader {
            signature0: GVDB_SIGNATURE0,
            signature1: GVDB_SIGNATURE1,
            byte_order: 0,
            options,
            root,
            reserved0: 0,
            reserved1: 0,
        }
    }

    /// Whether both signature words are right.
    pub fn header_valid(&self) -> (valid: bool)
        ensures
            valid == (self.signature0 == GVDB_SIGNATURE0 && self.signature1 == GVDB_SIGNATURE1),
    {
        self.signature0 == GVDB_SIGNATURE0 && self.signature1 == GVDB_SIGNATURE1
    }

    /// Whether the file is marked as a bundle.
    pub fn is_bundle(&self) -> (bundle: bool)
        ensures
            bundle == (self.options & GVDB_OPTION_BUNDLE != 0),
    {
        self.options & GVDB_OPTION_BUNDLE != 0
    }

    pub fn root(&self) -> (root: &GvdbPointer)
        ensures
            *root == self.root,
    {
        &self.root
    }

    /// Checks what [`GvdbHeader::spec_error`] says.
    pub fn check(&self) -> (r: Result<(), GvdbReaderError>)
        ensures
            match self.spec_error() {
                Some(error) => r matches Err(e) && e@ == error,
                None => r is Ok,
            },
    {
        if !self.header_valid() {
            Err(GvdbReaderError::InvalidData)
        } else if self.byte_order != 0 {
            Err(
                GvdbReaderError::DataError(
                    String::from_str("Files in swapped byte order are not supported"),
                ),
            )
        } else {
            Ok(())
        }
    }

    /// Reads a header from exactly 32 bytes.
    pub fn from_bytes(bytes: &[u8]) -> (r: Result<GvdbHeader, GvdbReaderError>)
        ensures
            r is Ok <==> bytes@.len() == 32,
            r matches Ok(header) ==> header == GvdbHeader::spec_from_bytes(bytes@),
            r matches Err(e) ==> e@ == crate::read::error::spec_from_transmute_error(
                crate::read::error::TransmuteError::Guard {
                    required: 32,
                    actual: bytes@.len() as usize,
                },
            ),
    {
        match transmute_exact::<32>(bytes) {
            Ok(array) => {
                let raw = array.as_slice();
                let signature0 = read_u32_le(raw, 0);
                let signature1 = read_u32_le(raw, 4);
                let byte_order = read_u32_le(raw, 8);
                let options = read_u32_le(raw, 12);
                let start = read_u32_le(raw, 16);
                let end = read_u32_le(raw, 20);
                let reserved0 = read_u32_le(raw, 24);
                let reserved1 = read_u32_le(raw, 28);
                proof {
                    let tail = raw@.subrange(16, 24);
                    assert(tail.subrange(0, 4) =~= raw@.subrange(16, 20));
                    assert(tail.subrange(4, 8) =~= raw@.subrange(20, 24));
                }
                Ok(
                    GvdbHeader {
                        signature0: signature0.unwrap(),
                        signature1: signature1.unwrap(),
                        byte_order: byte_order.unwrap(),
                        options: options.unwrap(),
                        root: GvdbPointer { start: start.unwrap(), end: end.unwrap() },
                        reserved0: reserved0.unwrap(),
                        reserved1: reserved1.unwrap(),
                    },
                )
            },
            Err(e) => Err(GvdbReaderError::from_transmute_error(e)),
        }
    }

    /// Appends the 32 bytes of this header to `out`.
    pub fn write(&self, out: &mut Vec<u8>)
        ensures
            final(out)@ == old(out)@ + self.spec_to_bytes(),
    {
        write_u32_le(out, self.signature0);
        write_u32_le(out, self.signature1);
        write_u32_le(out, self.byte_order);
        write_u32_le(out, self.options);
        self.root.write(out);
        write_u32_le(out, self.reserved0);
        write_u32_le(out, self.reserved1);
        proof {
            assert(out@ =~= old(out)@ + self.spec_to_bytes());
        }
    }
}

/// Writing a header and reading it back gives the header.
pub proof fn lemma_header_roundtrip(header: GvdbHeader)
    ensures
        header.spec_to_bytes().len() == 32,
        GvdbHeader::spec_from_bytes(header.spec_to_bytes()) == header,
{
    let bytes = header.spec_to_bytes();
    lemma_u32_le_roundtrip(header.signature0);
    lemma_u32_le_roundtrip(header.signature1);
    lemma_u32_le_roundtrip(header.byte_order);
    lemma_u32_le_roundtrip(header.options);
    lemma_u32_le_roundtrip(header.reserved0);
    lemma_u32_le_roundtrip(header.reserved1);
    lemma_pointer_roundtrip(header.root);
    assert(bytes.subrange(0, 4) =~= spec_u32_le_bytes(header.signature0));
    assert(bytes.subrange(4, 8) =~= spec_u32_le_bytes(header.signature1));
    assert(bytes.subrange(8, 12) =~= spec_u32_le_bytes(header.byte_order));
    assert(bytes.subrange(12, 16) =~= spec_u32_le_bytes(header.options));
    assert(bytes.subrange(16, 24) =~= header.root.spec_to_bytes());
    assert(bytes.subrange(24, 28) =~= spec_u32_le_bytes(header.reserved0));
    assert(bytes.subrange(28, 32) =~= spec_u32_le_bytes(header.reserved1));
}

} // verus!
