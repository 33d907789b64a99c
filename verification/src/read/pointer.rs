//! Byte ranges inside a GVDB file.

use crate::read::error::GvdbReaderError;
use crate::read::record::transmute_exact;
use crate::util::{
    read_u32_le, spec_u32_at, spec_u32_le_bytes, write_u32_le,
};
use vstd::prelude::*;

verus! {

/// A pair of absolute offsets that delimits the bytes `[start, end)` of a file.
#[derive(Debug, Clone, Copy, PartialEq, Eq, Structural)]
pub struct GvdbPointer {
    pub start: u32,
    pub end: u32,
}

impl GvdbPointer {
    /// The number of bytes a pointer takes in a file.
    pub const SIZE: usize = 8;

    /// The pointer stored in eight bytes: two little-endian offsets.
    pub open spec fn spec_from_bytes(bytes: Seq<u8>) -> GvdbPointer
        recommends
            bytes.len() == 8,
    {
        GvdbPointer { start: spec_u32_at(bytes, 0), end: spec_u32_at(bytes, 4) }
    }

    /// The eight bytes that store this pointer.
    pub open spec fn spec_to_bytes(self) -> Seq<u8> {
        spec_u32_le_bytes(self.start) + spec_u32_le_bytes(self.end)
    }

    /// The number of bytes the pointer spans; none where `end` lies before `start`.
    pub open spec fn spec_size(self) -> nat {
        if self.start <= self.end {
            (self.end - self.start) as nat
        } else {
            0
        }
    }

    /// The pointer to the empty range at the start of the file.
    pub fn null() -> (pointer: GvdbPointer)
        ensures
            pointer == (GvdbPointer { start: 0, end: 0 }),
    {
        GvdbPointer { start: 0, end: 0 }
    }

    pub fn new(start: u32, end: u32) -> (pointer: GvdbPointer)
        ensures
            pointer == (GvdbPointer { start, end }),
    {
        GvdbPointer { start, end }
    }

    pub fn start(&self) -> (start: u32)
        ensures
            start == self.start,
    {
        self.start
    }

    pub fn end(&self) -> (end: u32)
        ensures
            end == self.end,
    {
        self.end
    }

    pub fn size(&self) -> (size: usize)
        ensures
            size == self.spec_size(),
    {
        if self.start <= self.end {
            (self.end - self.start) as usize
        } else {
            0
        }
    }

    /// Reads a pointer from exactly eight bytes.
    pub fn from_bytes(bytes: &[u8]) -> (r: Result<GvdbPointer, GvdbReaderError>)
        ensures
            r is Ok <==> bytes@.len() == 8,
            r matches Ok(pointer) ==> pointer == GvdbPointer::spec_from_bytes(bytes@),
            r matches Err(e) ==> e@ == crate::read::error::spec_from_transmute_error(
                crate::read::error::TransmuteError::Guard {
                    required: 8,
                    actual: bytes@.len() as usize,
                },
            ),
    {
        match transmute_exact::<8>(bytes) {
            Ok(array) => {
                let raw = array.as_slice();
                let start = read_u32_le(raw, 0);
                let end = read_u32_le(raw, 4);
                Ok(GvdbPointer { start: start.unwrap(), end: end.unwrap() })
            },
            Err(e) => Err(GvdbReaderError::from_transmute_error(e)),
        }
    }

    /// Appends the eight bytes of this pointer to `out`.
    pub fn write(&self, out: &mut Vec<u8>)
        ensures
            final(out)@ == old(out)@ + self.spec_to_bytes(),
    {
        write_u32_le(out, self.start);
        write_u32_le(out, self.end);
        proof {
            assert(out@ =~= old(out)@ + self.spec_to_bytes());
        }
    }
}

/// Reads the pointer stored in `data` at `offset`, or `None` where its eight
/// bytes do not lie inside `data`.
pub fn read_pointer(data: &[u8], offset: usize) -> (pointer: Option<GvdbPointer>)
    ensures
        pointer is Some <==> offset + 8 <= data@.len(),
        pointer matches Some(p) ==> p == GvdbPointer::spec_from_bytes(
            data@.subrange(offset as int, offset + 8),
        ),
{
    if data.len() < 8 || offset > data.len() - 8 {
        return None;
    }
    let start = read_u32_le(data, offset);
    let end = read_u32_le(data, offset + 4);
    proof {
        let bytes = data@.subrange(offset as int, offset + 8);
        assert(bytes.subrange(0, 4) =~= data@.subrange(offset as int, offset + 4));
        assert(bytes.subrange(4, 8) =~= data@.subrange(offset + 4, offset + 8));
    }
    Some(GvdbPointer { start: start.unwrap(), end: end.unwrap() })
}

/// Writing a pointer and reading it back gives the pointer.
pub proof fn lemma_pointer_roundtrip(pointer: GvdbPointer)
    ensures
        pointer.spec_to_bytes().len() == 8,
        GvdbPointer::spec_from_bytes(pointer.spec_to_bytes()) == pointer,
{
    let bytes = pointer.spec_to_bytes();
    crate::util::lemma_u32_le_roundtrip(pointer.start);
    crate::util::lemma_u32_le_roundtrip(pointer.end);
    assert(bytes.subrange(0, 4) =~= spec_u32_le_bytes(pointer.start));
    assert(bytes.subrange(4, 8) =~= spec_u32_le_bytes(pointer.end));
}

} // verus!
