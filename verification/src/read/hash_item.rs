//! The fixed-size records of a hash table: its header and its items.

use crate::read::error::{spec_from_transmute_error, GvdbReaderError, TransmuteError};
use crate::read::pointer::{lemma_pointer_roundtrip, GvdbPointer};
use crate::read::record::{transmute_exact, transmute_prefix};
use crate::util::{
    lemma_u16_le_roundtrip, lemma_u32_le_roundtrip, read_u16_le, read_u32_le, spec_u16_at,
    spec_u16_le_bytes, spec_u32_at, spec_u32_le_bytes, write_u16_le, write_u32_le,
};
use vstd::prelude::*;

verus! {

/// The `parent` of an item that holds a complete key.
pub const NO_PARENT: u32 = 0xffff_ffff;

/// The number of bytes an item takes in a file.
pub const HASH_ITEM_SIZE: usize = 24;

/// The number of bytes a hash table header takes in a file.
pub const HASH_HEADER_SIZE: usize = 8;

/// One entry of a hash table.
#[derive(Debug, Clone, Copy, PartialEq, Eq, Structural)]
pub struct GvdbHashItem {
    /// The hash of the item's full key.
    pub hash_value: u32,
    /// The index of the item that owns the part of the key before this
    /// item's own, or [`NO_PARENT`].
    pub parent: u32,
    /// Where the item's own part of the key starts in the file.
    pub key_start: u32,
    /// The length in bytes of the item's own part of the key.
    pub key_size: u16,
    /// The kind of value: `b'v'` for a variant, `b'L'` for a nested table.
    pub typ: u8,
    pub unused: u8,
    /// Where the value lies in the file.
    pub value: GvdbPointer,
}

impl GvdbHashItem {
    /// The item stored in 24 bytes.
    pub open spec fn spec_from_bytes(bytes: Seq<u8>) -> GvdbHashItem
        recommends
            bytes.len() == 24,
    {
        GvdbHashItem {
            hash_value: spec_u32_at(bytes, 0),
            parent: spec_u32_at(bytes, 4),
            key_start: spec_u32_at(bytes, 8),
            key_size: spec_u16_at(bytes, 12),
            typ: bytes[14],
            unused: bytes[15],
            value: GvdbPointer::spec_from_bytes(bytes.subrange(16, 24)),
        }
    }

    /// The 24 bytes that store this item.
    pub open spec fn spec_to_bytes(self) -> Seq<u8> {
        spec_u32_le_bytes(self.hash_value) + spec_u32_le_bytes(self.parent) + spec_u32_le_bytes(
            self.key_start,
        ) + spec_u16_le_bytes(self.key_size) + seq![self.typ, self.unused]
            + self.value.spec_to_bytes()
    }

    pub fn new(
        hash_value: u32,
        parent: u32,
        key_start: u32,
        key_size: u16,
        typ: u8,
        value: GvdbPointer,
    ) -> (item: GvdbHashItem)
        ensures
            item == (GvdbHashItem {
                hash_value,
                parent,
                key_start,
                key_size,
                typ,
                unused: 0,
                value,
            }),
    {
        GvdbHashItem { hash_value, parent, key_start, key_size, typ, unused: 0, value }
    }

    pub fn hash_value(&self) -> (hash_value: u32)
        ensures
            hash_value == self.hash_value,
    {
        self.hash_value
    }

    pub fn parent(&self) -> (parent: u32)
        ensures
            parent == self.parent,
    {
        self.parent
    }

    pub fn key_start(&self) -> (key_start: u32)
        ensures
            key_start == self.key_start,
    {
        self.key_start
    }

    pub fn key_size(&self) -> (key_size: u16)
        ensures
            key_size == self.key_size,
    {
        self.key_size
    }

    pub fn typ(&self) -> (typ: char)
        ensures
            typ == self.typ as char,
    {
        self.typ as char
    }

    pub fn value_ptr(&self) -> (value: &GvdbPointer)
        ensures
            *value == self.value,
    {
        &self.value
    }

    /// Reads an item from exactly 24 bytes.
    pub fn from_bytes(bytes: &[u8]) -> (r: Result<GvdbHashItem, GvdbReaderError>)
        ensures
            r is Ok <==> bytes@.len() == 24,
            r matches Ok(item) ==> item == GvdbHashItem::spec_from_bytes(bytes@),
            r matches Err(e) ==> e@ == spec_from_transmute_error(
                TransmuteError::Guard { required: 24, actual: bytes@.len() as usize },
            ),
    {
        match transmute_exact::<24>(bytes) {
            Ok(array) => {
                let raw = array.as_slice();
                let hash_value = read_u32_le(raw, 0);
                let parent = read_u32_le(raw, 4);
                let key_start = read_u32_le(raw, 8);
                let key_size = read_u16_le(raw, 12);
                let start = read_u32_le(raw, 16);
                let end = read_u32_le(raw, 20);
                proof {
                    let tail = raw@.subrange(16, 24);
                    assert(tail.subrange(0, 4) =~= raw@.subrange(16, 20));
                    assert(tail.subrange(4, 8) =~= raw@.subrange(20, 24));
                }
                Ok(
                    GvdbHashItem {
                        hash_value: hash_value.unwrap(),
                        parent: parent.unwrap(),
                        key_start: key_start.unwrap(),
                        key_size: key_size.unwrap(),
                        typ: raw[14],
                        unused: raw[15],
                        value: GvdbPointer { start: start.unwrap(), end: end.unwrap() },
                    },
                )
            },
            Err(e) => Err(GvdbReaderError::from_transmute_error(e)),
        }
    }

    /// Appends the 24 bytes of this item to `out`.
    pub fn write(&self, out: &mut Vec<u8>)
        ensures
            final(out)@ == old(out)@ + self.spec_to_bytes(),
    {
        write_u32_le(out, self.hash_value);
        write_u32_le(out, self.parent);
        write_u32_le(out, self.key_start);
        write_u16_le(out, self.key_size);
        out.push(self.typ);
        out.push(self.unused);
        self.value.write(out);
        proof {
            assert(out@ =~= old(out)@ + self.spec_to_bytes());
        }
    }
}

/// Writing an item and reading it back gives the item.
pub proof fn lemma_hash_item_roundtrip(item: GvdbHashItem)
    ensures
        item.spec_to_bytes().len() == 24,
        GvdbHashItem::spec_from_bytes(item.spec_to_bytes()) == item,
{
    let bytes = item.spec_to_bytes();
    lemma_u32_le_roundtrip(item.hash_value);
    lemma_u32_le_roundtrip(item.parent);
    lemma_u32_le_roundtrip(item.key_start);
    lemma_u16_le_roundtrip(item.key_size);
    lemma_pointer_roundtrip(item.value);
    assert(bytes.subrange(0, 4) =~= spec_u32_le_bytes(item.hash_value));
    assert(bytes.subrange(4, 8) =~= spec_u32_le_bytes(item.parent));
    assert(bytes.subrange(8, 12) =~= spec_u32_le_bytes(item.key_start));
    assert(bytes.subrange(12, 14) =~= spec_u16_le_bytes(item.key_size));
    assert(bytes.subrange(16, 24) =~= item.value.spec_to_bytes());
}

/// The header of a hash table.
#[derive(Debug, Clone, Copy, PartialEq, Eq, Structural)]
pub struct GvdbHashHeader {
    /// The number of bloom filter words in the low 27 bits; the bits above
    /// are reserved.
    pub n_bloom_words: u32,
    /// The number of buckets.
    pub n_buckets: u32,
}

impl GvdbHashHeader {
    /// The header stored in eight bytes.
    pub open spec fn spec_from_bytes(bytes: Seq<u8>) -> GvdbHashHeader
        recommends
            bytes.len() == 8,
    {
        GvdbHashHeader { n_bloom_words: spec_u32_at(bytes, 0), n_buckets: spec_u32_at(bytes, 4) }
    }

    /// The eight bytes that store this header.
    pub open spec fn spec_to_bytes(self) -> Seq<u8> {
        spec_u32_le_bytes(self.n_bloom_words) + spec_u32_le_bytes(self.n_buckets)
    }

    /// The number of bloom filter words: the low 27 bits of the stored word.
    pub open spec fn spec_n_bloom_words(self) -> u32 {
        (self.n_bloom_words % 0x800_0000) as u32
    }

    pub fn new(n_bloom_words: u32, n_buckets: u32) -> (header: GvdbHashHeader)
        ensures
            header == (GvdbHashHeader { n_bloom_words, n_buckets }),
    {
        GvdbHashHeader { n_bloom_words, n_buckets }
    }

    pub fn n_bloom_words(&self) -> (n: u32)
        ensures
            n == self.spec_n_bloom_words(),
    {
        self.n_bloom_words % 0x800_0000
    }

    pub fn n_buckets(&self) -> (n: u32)
        ensures
            n == self.n_buckets,
    {
        self.n_buckets
    }

    /// Reads a header from the first eight bytes of `bytes`.
    pub fn from_bytes(bytes: &[u8]) -> (r: Result<GvdbHashHeader, GvdbReaderError>)
        ensures
            r is Ok <==> bytes@.len() >= 8,
            r matches Ok(header) ==> header == GvdbHashHeader::spec_from_bytes(bytes@.take(8)),
            r matches Err(e) ==> e@ == spec_from_transmute_error(
                TransmuteError::Guard { required: 8, actual: bytes@.len() as usize },
            ),
    {
        match transmute_prefix::<8>(bytes) {
            Ok(array) => {
                let raw = array.as_slice();
                let n_bloom_words = read_u32_le(raw, 0);
                let n_buckets = read_u32_le(raw, 4);
                Ok(
                    GvdbHashHeader {
                        n_bloom_words: n_bloom_words.unwrap(),
                        n_buckets: n_buckets.unwrap(),
                    },
                )
            },
            Err(e) => Err(GvdbReaderError::from_transmute_error(e)),
        }
    }

    /// Appends the eight bytes of this header to `out`.
    pub fn write(&self, out: &mut Vec<u8>)
        ensures
            final(out)@ == old(out)@ + self.spec_to_bytes(),
    {
        write_u32_le(out, self.n_bloom_words);
        write_u32_le(out, self.n_buckets);
        proof {
            assert(out@ =~= old(out)@ + self.spec_to_bytes());
        }
    }
}

/// Writing a header and reading it back gives the header.
pub proof fn lemma_hash_header_roundtrip(header: GvdbHashHeader)
    ensures
        header.spec_to_bytes().len() == 8,
        GvdbHashHeader::spec_from_bytes(header.spec_to_bytes()) == header,
{
    let bytes = header.spec_to_bytes();
    lemma_u32_le_roundtrip(header.n_bloom_words);
    lemma_u32_le_roundtrip(header.n_buckets);
    assert(bytes.subrange(0, 4) =~= spec_u32_le_bytes(header.n_bloom_words));
    assert(bytes.subrange(4, 8) =~= spec_u32_le_bytes(header.n_buckets));
}

} // verus!
