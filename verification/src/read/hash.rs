//! A hash table inside a GVDB file, used in place: lookups read the bytes
//! they need and copy nothing but what they return.

use crate::read::error::{GvdbReaderError, GvdbReaderErrorView};
use crate::read::hash_item::{GvdbHashHeader, GvdbHashItem, NO_PARENT};
use crate::read::names::{resolve_names, spec_chain_name, spec_entry_views};
use crate::read::pointer::GvdbPointer;
use crate::util::{
    bytes_eq, decimal_string, djb_hash, read_u32_le, spec_decimal, spec_djb_hash, spec_u32_at,
};
use std::string::FromUtf8Error;
use vstd::prelude::*;
use vstd::slice::{slice_subrange, slice_to_vec};
use vstd::string::StringExecFns;
use vstd::string::StringSliceAdditionalSpecFns;
use vstd::utf8::{decode_utf8, decode_utf8_encode_utf8, encode_utf8, valid_utf8};

verus! {

/// The header of the table that `ptr` delimits.
pub open spec fn spec_hash_header(data: Seq<u8>, ptr: GvdbPointer) -> GvdbHashHeader {
    GvdbHashHeader::spec_from_bytes(data.subrange(ptr.start as int, ptr.start + 8))
}

/// Where the bloom filter words start.
pub open spec fn spec_bloom_words_offset(ptr: GvdbPointer) -> int {
    ptr.start + 8
}

/// Where the bucket array starts, which is where the bloom filter ends.
pub open spec fn spec_hash_buckets_offset(data: Seq<u8>, ptr: GvdbPointer) -> int {
    spec_bloom_words_offset(ptr) + 4 * spec_hash_header(data, ptr).spec_n_bloom_words()
}

/// Where the item array starts, which is where the bucket array ends.
pub open spec fn spec_hash_items_offset(data: Seq<u8>, ptr: GvdbPointer) -> int {
    spec_hash_buckets_offset(data, ptr) + 4 * spec_hash_header(data, ptr).n_buckets
}

/// The number of items: what remains of the table after the buckets, in
/// units of 24 bytes.
pub open spec fn spec_n_hash_items(data: Seq<u8>, ptr: GvdbPointer) -> int {
    (ptr.end - spec_hash_items_offset(data, ptr)) / 24
}

/// The explanation given for a table whose item array is not a whole number
/// of items.
pub open spec fn spec_remaining_size_message(table_len: nat) -> Seq<char> {
    "Remaining size invalid: Expected a multiple of 24, got "@ + spec_decimal(table_len)
}

/// Why `ptr` does not delimit a table inside `data`, or `None` where it does:
/// the header must lie inside the data, the range must be well-ordered,
/// aligned to 4 and inside the data, the three regions must fit in it, and
/// the items must fill the rest exactly.
pub open spec fn spec_table_error(data: Seq<u8>, ptr: GvdbPointer) -> Option<GvdbReaderErrorView> {
    if ptr.start + 8 > data.len() {
        Some(GvdbReaderErrorView::DataOffset)
    } else if ptr.start > ptr.end {
        Some(GvdbReaderErrorView::DataOffset)
    } else if ptr.start & 3 != 0 {
        Some(GvdbReaderErrorView::DataAlignment)
    } else if ptr.end > data.len() {
        Some(GvdbReaderErrorView::DataOffset)
    } else if spec_hash_items_offset(data, ptr) > ptr.end {
        Some(GvdbReaderErrorView::DataOffset)
    } else if (ptr.end - spec_hash_items_offset(data, ptr)) % 24 != 0 {
        Some(
            GvdbReaderErrorView::DataError(
                spec_remaining_size_message((ptr.end - ptr.start) as nat),
            ),
        )
    } else {
        None
    }
}

/// The `index`-th word of the bloom filter.
pub open spec fn spec_bloom_word(data: Seq<u8>, ptr: GvdbPointer, index: int) -> u32 {
    spec_u32_at(data, spec_bloom_words_offset(ptr) + 4 * index)
}

/// The first item index of bucket `index`.
pub open spec fn spec_hash_bucket(data: Seq<u8>, ptr: GvdbPointer, index: int) -> u32 {
    spec_u32_at(data, spec_hash_buckets_offset(data, ptr) + 4 * index)
}

/// The `index`-th item.
pub open spec fn spec_hash_item(data: Seq<u8>, ptr: GvdbPointer, index: int) -> GvdbHashItem {
    GvdbHashItem::spec_from_bytes(
        data.subrange(
            spec_hash_items_offset(data, ptr) + 24 * index,
            spec_hash_items_offset(data, ptr) + 24 * index + 24,
        ),
    )
}

/// The shift that selects the second bloom filter bit of a hash.
pub open spec fn spec_bloom_shift() -> u32 {
    0
}

/// The bits of a bloom filter word that a hash sets.
pub open spec fn spec_bloom_mask(hash_value: u32) -> u32 {
    (1u32 << (hash_value & 31)) | (1u32 << ((hash_value >> spec_bloom_shift()) & 31))
}

/// The index of the bloom filter word that holds the bits of a hash.
pub open spec fn spec_bloom_word_index(hash_value: u32, n_bloom_words: u32) -> int {
    (hash_value / 32) as int % (n_bloom_words as int)
}

/// Whether the bloom filter lets a hash through: it has no words, or both
/// bits of the hash are set in the hash's word.
pub open spec fn spec_bloom_filter(data: Seq<u8>, ptr: GvdbPointer, hash_value: u32) -> bool {
    let n_bloom_words = spec_hash_header(data, ptr).spec_n_bloom_words();
    n_bloom_words == 0 || spec_bloom_word(
        data,
        ptr,
        spec_bloom_word_index(hash_value, n_bloom_words),
    ) & spec_bloom_mask(hash_value) == spec_bloom_mask(hash_value)
}

/// The bytes of an item's own part of its key, where they lie inside the data.
pub open spec fn spec_key_bytes(data: Seq<u8>, item: GvdbHashItem) -> Option<Seq<u8>> {
    if item.key_start + item.key_size <= data.len() {
        Some(data.subrange(item.key_start as int, item.key_start + item.key_size))
    } else {
        None
    }
}

/// Whether `key` ends with `suffix`.
pub open spec fn spec_ends_with(key: Seq<u8>, suffix: Seq<u8>) -> bool {
    suffix.len() <= key.len() && key.subrange(key.len() - suffix.len(), key.len() as int)
        == suffix
}

/// Whether `item` and its chain of parents spell `key`: the item's own part
/// is readable text that ends `key`, and either the item has no parent and
/// nothing of `key` is left, or something of `key` was there and the parent
/// spells what is left. `fuel` bounds the length of the chain.
pub open spec fn spec_check_name(
    data: Seq<u8>,
    ptr: GvdbPointer,
    item: GvdbHashItem,
    key: Seq<u8>,
    fuel: nat,
) -> bool
    decreases fuel,
{
    match spec_key_bytes(data, item) {
        None => false,
        Some(suffix) => {
            if !valid_utf8(suffix) || !spec_ends_with(key, suffix) {
                false
            } else if item.parent == NO_PARENT && key.len() == suffix.len() {
                true
            } else if item.parent < spec_n_hash_items(data, ptr) && key.len() > 0 && fuel > 0 {
                spec_check_name(
                    data,
                    ptr,
                    spec_hash_item(data, ptr, item.parent as int),
                    key.take(key.len() - suffix.len()),
                    (fuel - 1) as nat,
                )
            } else {
                false
            }
        },
    }
}

/// Whether `item` is the entry for `key` with a value of kind `typ`.
pub open spec fn spec_item_matches(
    data: Seq<u8>,
    ptr: GvdbPointer,
    item: GvdbHashItem,
    key: Seq<u8>,
    typ: char,
) -> bool {
    &&& item.hash_value == spec_djb_hash(key)
    &&& spec_check_name(data, ptr, item, key, spec_n_hash_items(data, ptr) as nat)
    &&& item.typ as char == typ
}

/// The first item with an index in `[first, last)` that matches.
pub open spec fn spec_find_item(
    data: Seq<u8>,
    ptr: GvdbPointer,
    key: Seq<u8>,
    typ: char,
    first: int,
    last: int,
) -> Option<GvdbHashItem>
    decreases last - first,
{
    if first >= last {
        None
    } else if spec_item_matches(data, ptr, spec_hash_item(data, ptr, first), key, typ) {
        Some(spec_hash_item(data, ptr, first))
    } else {
        spec_find_item(data, ptr, key, typ, first + 1, last)
    }
}

/// One past the last item index of a bucket: the start of the next bucket,
/// capped by the number of items; for the last bucket, the number of items.
pub open spec fn spec_bucket_end(data: Seq<u8>, ptr: GvdbPointer, bucket: int) -> int {
    let n_items = spec_n_hash_items(data, ptr);
    if bucket == spec_hash_header(data, ptr).n_buckets - 1 {
        n_items
    } else if spec_hash_bucket(data, ptr, bucket + 1) < n_items {
        spec_hash_bucket(data, ptr, bucket + 1) as int
    } else {
        n_items
    }
}

/// The item that a lookup of `key` with kind `typ` finds: none in a table
/// without buckets or items, none where the bloom filter rejects the key's
/// hash, and else the first match in the bucket of the hash.
pub open spec fn spec_table_lookup(
    data: Seq<u8>,
    ptr: GvdbPointer,
    key: Seq<u8>,
    typ: char,
) -> Option<GvdbHashItem> {
    let n_buckets = spec_hash_header(data, ptr).n_buckets;
    let hash_value = spec_djb_hash(key);
    if n_buckets == 0 || spec_n_hash_items(data, ptr) == 0 {
        None
    } else if !spec_bloom_filter(data, ptr, hash_value) {
        None
    } else {
        let bucket = hash_value as int % n_buckets as int;
        spec_find_item(
            data,
            ptr,
            key,
            typ,
            spec_hash_bucket(data, ptr, bucket) as int,
            spec_bucket_end(data, ptr, bucket),
        )
    }
}

/// The bytes that `pointer` delimits, or why it delimits none: the range must
/// be well-ordered, start at a multiple of `alignment` (a power of two) and
/// lie inside the data.
pub open spec fn spec_deref_pointer(data: Seq<u8>, pointer: GvdbPointer, alignment: u32) -> Result<
    Seq<u8>,
    GvdbReaderErrorView,
> {
    if pointer.start > pointer.end {
        Err(GvdbReaderErrorView::DataOffset)
    } else if pointer.start & ((alignment - 1) as u32) != 0 {
        Err(GvdbReaderErrorView::DataAlignment)
    } else if pointer.end > data.len() {
        Err(GvdbReaderErrorView::DataOffset)
    } else {
        Ok(data.subrange(pointer.start as int, pointer.end as int))
    }
}

/// `String::from_utf8`: the text that the bytes encode, where they are valid
/// UTF-8, and the standard library's error where they are not.
#[verifier::external_body]
pub(crate) fn string_from_utf8(bytes: Vec<u8>) -> (r: Result<String, FromUtf8Error>)
    ensures
        r is Ok <==> valid_utf8(bytes@),
        r matches Ok(text) ==> text@ == decode_utf8(bytes@),
{
    String::from_utf8(bytes)
}

/// A hash table that lies in a byte buffer.
#[derive(Clone, Copy)]
pub struct GvdbHashTable<'a> {
    data: &'a [u8],
    table_ptr: GvdbPointer,
    header: GvdbHashHeader,
}

impl<'a> GvdbHashTable<'a> {
    /// The bytes of the whole file.
    pub closed spec fn spec_data(&self) -> Seq<u8> {
        self.data@
    }

    /// The range of the file that holds this table.
    pub closed spec fn spec_table_ptr(&self) -> GvdbPointer {
        self.table_ptr
    }

    /// The table's pointer delimits a table inside the data, and the header
    /// is the one stored there.
    pub closed spec fn wf(&self) -> bool {
        &&& spec_table_error(self.data@, self.table_ptr) is None
        &&& self.header == spec_hash_header(self.data@, self.table_ptr)
    }

    /// The table that `table_ptr` delimits inside `data`.
    pub fn for_bytes(data: &'a [u8], table_ptr: GvdbPointer) -> (r: Result<Self, GvdbReaderError>)
        ensures
            match spec_table_error(data@, table_ptr) {
                Some(error) => r matches Err(e) && e@ == error,
                None => r matches Ok(table) && table.wf() && table.spec_data() == data@
                    && table.spec_table_ptr() == table_ptr,
            },
    {
        let header = match Self::hash_header(data, &table_ptr) {
            Ok(header) => header,
            Err(e) => return Err(e),
        };
        let this = Self { data, table_ptr, header };
        let table_data = match this.deref_pointer(&table_ptr, 4) {
            Ok(table_data) => table_data,
            Err(e) => return Err(e),
        };
        let items_offset: u64 = table_ptr.start as u64 + 8 + 4 * (header.n_bloom_words() as u64) + 4
            * (header.n_buckets as u64);
        if items_offset > table_ptr.end as u64 {
            Err(GvdbReaderError::DataOffset)
        } else if (table_ptr.end as u64 - items_offset) % 24 != 0 {
            let mut text = String::from_str(
                "Remaining size invalid: Expected a multiple of 24, got ",
            );
            text.append(decimal_string(table_data.len()).as_str());
            Err(GvdbReaderError::DataError(text))
        } else {
            Ok(this)
        }
    }

    /// The header stored where `pointer` starts.
    pub fn hash_header(data: &'a [u8], pointer: &GvdbPointer) -> (r: Result<
        GvdbHashHeader,
        GvdbReaderError,
    >)
        ensures
            r is Ok <==> pointer.start + 8 <= data@.len(),
            r matches Ok(header) ==> header == spec_hash_header(data@, *pointer),
            r matches Err(e) ==> e@ == GvdbReaderErrorView::DataOffset,
    {
        let start = pointer.start as usize;
        if data.len() < 8 || start > data.len() - 8 {
            return Err(GvdbReaderError::DataOffset);
        }
        let bytes = slice_subrange(data, start, start + 8);
        match GvdbHashHeader::from_bytes(bytes) {
            Ok(header) => {
                proof {
                    assert(bytes@.take(8) =~= bytes@);
                }
                Ok(header)
            },
            Err(e) => Err(GvdbReaderError::DataOffset),
        }
    }

    /// The bytes that `pointer` delimits.
    pub fn deref_pointer(&self, pointer: &GvdbPointer, alignment: u32) -> (r: Result<
        &'a [u8],
        GvdbReaderError,
    >)
        requires
            alignment > 0,
        ensures
            match spec_deref_pointer(self.spec_data(), *pointer, alignment) {
                Ok(bytes) => r matches Ok(slice) && slice@ == bytes,
                Err(error) => r matches Err(e) && e@ == error,
            },
    {
        let start = pointer.start as usize;
        let end = pointer.end as usize;
        if pointer.start > pointer.end {
            Err(GvdbReaderError::DataOffset)
        } else if pointer.start & (alignment - 1) != 0 {
            Err(GvdbReaderError::DataAlignment)
        } else if end > self.data.len() {
            Err(GvdbReaderError::DataOffset)
        } else {
            Ok(slice_subrange(self.data, start, end))
        }
    }

    /// The little-endian word at `offset`, where it lies inside the data.
    pub fn get_u32(&self, offset: usize) -> (value: Option<u32>)
        ensures
            value is Some <==> offset + 4 <= self.spec_data().len(),
            value matches Some(v) ==> v == spec_u32_at(self.spec_data(), offset as int),
    {
        read_u32_le(self.data, offset)
    }

    pub fn data_offset(&self) -> (offset: usize)
        ensures
            offset == self.spec_table_ptr().start,
    {
        self.table_ptr.start as usize
    }

    pub fn bloom_words_offset(&self) -> (offset: usize)
        requires
            self.wf(),
        ensures
            offset == spec_bloom_words_offset(self.spec_table_ptr()),
    {
        self.table_ptr.start as usize + 8
    }

    pub fn bloom_words_end(&self) -> (offset: usize)
        requires
            self.wf(),
        ensures
            offset == spec_hash_buckets_offset(self.spec_data(), self.spec_table_ptr()),
    {
        self.bloom_words_offset() + self.header.n_bloom_words() as usize * 4
    }

    /// The header of this table.
    pub fn header(&self) -> (header: GvdbHashHeader)
        requires
            self.wf(),
        ensures
            header == spec_hash_header(self.spec_data(), self.spec_table_ptr()),
    {
        self.header
    }

    /// The words of the bloom filter.
    pub fn bloom_words(&self) -> (words: Option<Vec<u32>>)
        requires
            self.wf(),
        ensures
            words matches Some(w) && w@.len() == spec_hash_header(
                self.spec_data(),
                self.spec_table_ptr(),
            ).spec_n_bloom_words() && forall|i: int|
                0 <= i < w@.len() ==> w@[i] == spec_bloom_word(
                    self.spec_data(),
                    self.spec_table_ptr(),
                    i,
                ),
    {
        let n = self.header.n_bloom_words() as usize;
        let mut words: Vec<u32> = Vec::new();
        let mut i: usize = 0;
        while i < n
            invariant
                self.wf(),
                n == self.header.spec_n_bloom_words(),
                i <= n,
                words@.len() == i,
                forall|j: int|
                    0 <= j < i ==> words@[j] == spec_bloom_word(self.data@, self.table_ptr, j),
            decreases n - i,
        {
            let word = self.get_bloom_word(i);
            words.push(word.unwrap());
            i += 1;
        }
        Some(words)
    }

    /// The `index`-th word from the start of the bloom filter, where it lies
    /// inside the data.
    pub fn get_bloom_word(&self, index: usize) -> (word: Option<u32>)
        requires
            self.wf(),
        ensures
            word is Some <==> spec_bloom_words_offset(self.spec_table_ptr()) + 4 * index + 4
                <= self.spec_data().len(),
            word matches Some(w) ==> w == spec_bloom_word(
                self.spec_data(),
                self.spec_table_ptr(),
                index as int,
            ),
    {
        if index > (self.data.len() - self.bloom_words_offset()) / 4 {
            return None;
        }
        let start = self.bloom_words_offset() + index * 4;
        self.get_u32(start)
    }

    pub fn bloom_shift(&self) -> (shift: usize)
        ensures
            shift == spec_bloom_shift(),
    {
        0
    }

    /// Whether the bloom filter lets `hash_value` through. Where it does not,
    /// the table holds no item for a key with this hash.
    pub fn bloom_filter(&self, hash_value: u32) -> (pass: bool)
        requires
            self.wf(),
        ensures
            pass == spec_bloom_filter(self.spec_data(), self.spec_table_ptr(), hash_value),
    {
        let n_bloom_words = self.header.n_bloom_words();
        if n_bloom_words == 0 {
            return true;
        }
        let word = (hash_value / 32) % n_bloom_words;
        proof {
            assert(hash_value & 31 < 32) by (bit_vector);
            assert((hash_value >> 0u32) & 31 < 32) by (bit_vector);
        }
        let mut mask: u32 = 1u32 << (hash_value & 31);
        mask |= 1u32 << ((hash_value >> (self.bloom_shift() as u32)) & 31);
        let bloom_word = self.get_bloom_word(word as usize);
        bloom_word.unwrap() & mask == mask
    }

    pub fn hash_buckets_offset(&self) -> (offset: usize)
        requires
            self.wf(),
        ensures
            offset == spec_hash_buckets_offset(self.spec_data(), self.spec_table_ptr()),
    {
        self.bloom_words_end()
    }

    pub fn hash_buckets_end(&self) -> (offset: usize)
        requires
            self.wf(),
        ensures
            offset == spec_hash_items_offset(self.spec_data(), self.spec_table_ptr()),
    {
        self.hash_buckets_offset() + self.header.n_buckets as usize * 4
    }

    /// The `index`-th word from the start of the bucket array, where it lies
    /// inside the data.
    pub fn get_hash(&self, index: usize) -> (first: Option<u32>)
        requires
            self.wf(),
        ensures
            first is Some <==> spec_hash_buckets_offset(self.spec_data(), self.spec_table_ptr())
                + 4 * index + 4 <= self.spec_data().len(),
            first matches Some(f) ==> f == spec_hash_bucket(
                self.spec_data(),
                self.spec_table_ptr(),
                index as int,
            ),
    {
        if index > (self.data.len() - self.hash_buckets_offset()) / 4 {
            return None;
        }
        let start = self.hash_buckets_offset() + index * 4;
        self.get_u32(start)
    }

    pub fn hash_items_offset(&self) -> (offset: usize)
        requires
            self.wf(),
        ensures
            offset == spec_hash_items_offset(self.spec_data(), self.spec_table_ptr()),
    {
        self.hash_buckets_end()
    }

    /// The number of items in the table.
    pub fn n_hash_items(&self) -> (n: usize)
        requires
            self.wf(),
        ensures
            n == spec_n_hash_items(self.spec_data(), self.spec_table_ptr()),
    {
        let len = self.table_ptr.end as usize - self.hash_items_offset();
        len / 24
    }

    pub fn hash_items_end(&self) -> (offset: usize)
        ensures
            offset == self.spec_data().len(),
    {
        self.data.len()
    }

    /// The text of an item's own part of its key.
    pub fn get_key(&self, item: &GvdbHashItem) -> (r: Result<String, GvdbReaderError>)
        ensures
            match spec_key_bytes(self.spec_data(), *item) {
                None => r matches Err(e) && e@ == GvdbReaderErrorView::DataOffset,
                Some(bytes) => if valid_utf8(bytes) {
                    r matches Ok(key) && key@ == decode_utf8(bytes) && encode_utf8(key@) == bytes
                } else {
                    r matches Err(e) && e@ == GvdbReaderErrorView::Utf8
                },
            },
    {
        let start = item.key_start as usize;
        let size = item.key_size as usize;
        if size > self.data.len() || start > self.data.len() - size {
            return Err(GvdbReaderError::DataOffset);
        }
        let bytes = slice_subrange(self.data, start, start + size);
        match string_from_utf8(slice_to_vec(bytes)) {
            Ok(key) => {
                proof {
                    decode_utf8_encode_utf8(bytes@);
                }
                Ok(key)
            },
            Err(e) => Err(GvdbReaderError::Utf8(e)),
        }
    }

    /// The `index`-th item from the start of the item array, where it lies
    /// inside the data.
    pub fn get_hash_item(&self, index: usize) -> (r: Result<GvdbHashItem, GvdbReaderError>)
        requires
            self.wf(),
        ensures
            r is Ok <==> spec_hash_items_offset(self.spec_data(), self.spec_table_ptr()) + 24
                * index + 24 <= self.spec_data().len(),
            r matches Ok(item) ==> item == spec_hash_item(
                self.spec_data(),
                self.spec_table_ptr(),
                index as int,
            ),
            r matches Err(e) ==> e@ == GvdbReaderErrorView::DataOffset,
    {
        let offset = self.hash_items_offset();
        if self.data.len() - offset < 24 || index > (self.data.len() - offset - 24) / 24 {
            return Err(GvdbReaderError::DataOffset);
        }
        let start = offset + 24 * index;
        let bytes = slice_subrange(self.data, start, start + 24);
        match GvdbHashItem::from_bytes(bytes) {
            Ok(item) => Ok(item),
            Err(e) => Err(GvdbReaderError::DataOffset),
        }
    }
}

} // verus!

verus! {

impl<'a> GvdbHashTable<'a> {
    /// Whether `item` and its chain of parents spell `key`.
    pub fn check_name(&self, item: &GvdbHashItem, key: &str) -> (matches: bool)
        requires
            self.wf(),
        ensures
            matches == spec_check_name(
                self.spec_data(),
                self.spec_table_ptr(),
                *item,
                key.spec_bytes(),
                spec_n_hash_items(self.spec_data(), self.spec_table_ptr()) as nat,
            ),
    {
        let key_bytes = key.as_bytes();
        let n_items = self.n_hash_items();
        let mut current = *item;
        let mut key_len = key_bytes.len();
        let mut fuel = n_items;
        proof {
            assert(key_bytes@.take(key_len as int) =~= key_bytes@);
        }
        loop
            invariant
                self.wf(),
                key_bytes@ == key.spec_bytes(),
                n_items == spec_n_hash_items(self.data@, self.table_ptr),
                key_len <= key_bytes@.len(),
                spec_check_name(
                    self.data@,
                    self.table_ptr,
                    *item,
                    key.spec_bytes(),
                    n_items as nat,
                ) == spec_check_name(
                    self.data@,
                    self.table_ptr,
                    current,
                    key_bytes@.take(key_len as int),
                    fuel as nat,
                ),
            decreases fuel,
        {
            let ghost rest_key = key_bytes@.take(key_len as int);
            let this_key = match self.get_key(&current) {
                Ok(this_key) => this_key,
                Err(_) => {
                    return false;
                },
            };
            let suffix = this_key.as_str().as_bytes();
            if suffix.len() > key_len {
                return false;
            }
            let rest = key_len - suffix.len();
            let tail = slice_subrange(key_bytes, rest, key_len);
            proof {
                assert(tail@ =~= rest_key.subrange(rest as int, key_len as int));
            }
            if !bytes_eq(tail, suffix) {
                return false;
            }
            let parent = current.parent;
            if parent == NO_PARENT && rest == 0 {
                return true;
            }
            if (parent as usize) < n_items && key_len > 0 && fuel > 0 {
                proof {
                    assert(rest_key.take(rest as int) =~= key_bytes@.take(rest as int));
                }
                current =
                match self.get_hash_item(parent as usize) {
                    Ok(parent_item) => parent_item,
                    Err(_) => {
                        return false;
                    },
                };
                key_len = rest;
                fuel = fuel - 1;
            } else {
                return false;
            }
        }
    }

    /// The item for `key` with a value of kind `typ`.
    pub fn table_lookup(&self, key: &str, typ: char) -> (found: Option<GvdbHashItem>)
        requires
            self.wf(),
        ensures
            found == spec_table_lookup(
                self.spec_data(),
                self.spec_table_ptr(),
                key.spec_bytes(),
                typ,
            ),
    {
        let n_items = self.n_hash_items();
        if self.header.n_buckets == 0 || n_items == 0 {
            return None;
        }
        let hash_value = djb_hash(key);
        if !self.bloom_filter(hash_value) {
            return None;
        }
        let bucket = hash_value % self.header.n_buckets;
        let first = self.get_hash(bucket as usize);
        let mut itemno = first.unwrap() as usize;
        let lastno = if bucket == self.header.n_buckets - 1 {
            n_items
        } else {
            let next = self.get_hash(bucket as usize + 1);
            let next = next.unwrap() as usize;
            if next < n_items {
                next
            } else {
                n_items
            }
        };
        while itemno < lastno
            invariant
                self.wf(),
                lastno <= n_items,
                n_items == spec_n_hash_items(self.data@, self.table_ptr),
                hash_value == spec_djb_hash(key.spec_bytes()),
                spec_table_lookup(self.data@, self.table_ptr, key.spec_bytes(), typ)
                    == spec_find_item(
                    self.data@,
                    self.table_ptr,
                    key.spec_bytes(),
                    typ,
                    itemno as int,
                    lastno as int,
                ),
            decreases lastno - itemno,
        {
            let item = self.get_hash_item(itemno);
            let item = item.unwrap();
            if hash_value == item.hash_value {
                if self.check_name(&item, key) {
                    if item.typ() == typ {
                        return Some(item);
                    }
                }
            }
            itemno += 1;
        }
        None
    }

    /// The bytes of an item's value, where its pointer starts at a multiple
    /// of 8 and delimits bytes inside the data.
    pub fn value_from_item(&self, item: &GvdbHashItem) -> (value: Option<&'a [u8]>)
        ensures
            match spec_deref_pointer(self.spec_data(), item.value, 8) {
                Ok(bytes) => value matches Some(slice) && slice@ == bytes,
                Err(_) => value is None,
            },
    {
        match self.deref_pointer(item.value_ptr(), 8) {
            Ok(bytes) => Some(bytes),
            Err(_) => None,
        }
    }

    /// The bytes of the variant stored under `key`.
    pub fn get_value(&self, key: &str) -> (value: Option<&'a [u8]>)
        requires
            self.wf(),
        ensures
            match spec_table_lookup(
                self.spec_data(),
                self.spec_table_ptr(),
                key.spec_bytes(),
                'v',
            ) {
                None => value is None,
                Some(item) => match spec_deref_pointer(self.spec_data(), item.value, 8) {
                    Ok(bytes) => value matches Some(slice) && slice@ == bytes,
                    Err(_) => value is None,
                },
            },
    {
        match self.table_lookup(key, 'v') {
            Some(item) => self.value_from_item(&item),
            None => None,
        }
    }
}

} // verus!

verus! {

/// The explanation given for an item whose parent is no item of the table.
pub open spec fn spec_invalid_parent_message(parent: u32) -> Seq<char> {
    "Parent with invalid offset encountered: "@ + spec_decimal(parent as nat)
}

/// What is wrong with the `index`-th item taken by itself, if anything: its
/// parent is neither an item nor absent, its own part of the key lies outside
/// the data, or that part is not valid UTF-8.
pub open spec fn spec_item_defect(data: Seq<u8>, ptr: GvdbPointer, index: int) -> Option<
    GvdbReaderErrorView,
> {
    let item = spec_hash_item(data, ptr, index);
    if item.parent != NO_PARENT && item.parent >= spec_n_hash_items(data, ptr) {
        Some(GvdbReaderErrorView::DataError(spec_invalid_parent_message(item.parent)))
    } else {
        match spec_key_bytes(data, item) {
            None => Some(GvdbReaderErrorView::DataOffset),
            Some(bytes) => if valid_utf8(bytes) {
                None
            } else {
                Some(GvdbReaderErrorView::Utf8)
            },
        }
    }
}

/// The defect of the first defective item among the first `upto` items.
pub open spec fn spec_first_defect(data: Seq<u8>, ptr: GvdbPointer, upto: int) -> Option<
    GvdbReaderErrorView,
>
    decreases upto,
{
    if upto <= 0 {
        None
    } else {
        match spec_first_defect(data, ptr, upto - 1) {
            Some(error) => Some(error),
            None => spec_item_defect(data, ptr, upto - 1),
        }
    }
}

/// The full key of the `index`-th item: its own part of the key, after the
/// full key of its parent where it has one. `None` where a part cannot be
/// read or where the chain of parents is longer than `fuel`.
pub open spec fn spec_full_name(data: Seq<u8>, ptr: GvdbPointer, index: int, fuel: nat) -> Option<
    Seq<char>,
>
    decreases fuel,
{
    if fuel == 0 || index < 0 || index >= spec_n_hash_items(data, ptr) {
        None
    } else {
        let item = spec_hash_item(data, ptr, index);
        match spec_key_bytes(data, item) {
            None => None,
            Some(bytes) => if !valid_utf8(bytes) {
                None
            } else if item.parent == NO_PARENT {
                Some(decode_utf8(bytes))
            } else {
                match spec_full_name(data, ptr, item.parent as int, (fuel - 1) as nat) {
                    Some(prefix) => Some(prefix + decode_utf8(bytes)),
                    None => None,
                }
            },
        }
    }
}

/// Why the keys of a table cannot be listed, or `None` where they can: the
/// defect of the first defective item, or else `InvalidData` where the
/// parents of some item never reach an item without parent.
pub open spec fn spec_names_error(data: Seq<u8>, ptr: GvdbPointer) -> Option<GvdbReaderErrorView> {
    let n_items = spec_n_hash_items(data, ptr);
    match spec_first_defect(data, ptr, n_items) {
        Some(error) => Some(error),
        None => if exists|i: int|
            0 <= i < n_items && (#[trigger] spec_full_name(data, ptr, i, n_items as nat)) is None {
            Some(GvdbReaderErrorView::InvalidData)
        } else {
            None
        },
    }
}

/// What was read of the `index`-th item before its full key is put together.
pub open spec fn spec_entry(
    data: Seq<u8>,
    ptr: GvdbPointer,
    index: int,
    parent: u32,
    suffix: Seq<char>,
) -> bool {
    let item = spec_hash_item(data, ptr, index);
    &&& parent == item.parent
    &&& parent == NO_PARENT || parent < spec_n_hash_items(data, ptr)
    &&& spec_key_bytes(data, item) matches Some(bytes) && valid_utf8(bytes) && suffix
        == decode_utf8(bytes)
}

/// A defect found among the first items is the defect found among more.
proof fn lemma_first_defect_stays(data: Seq<u8>, ptr: GvdbPointer, upto: int, more: int)
    requires
        upto <= more,
        spec_first_defect(data, ptr, upto) is Some,
    ensures
        spec_first_defect(data, ptr, more) == spec_first_defect(data, ptr, upto),
    decreases more - upto,
{
    if upto < more {
        lemma_first_defect_stays(data, ptr, upto, more - 1);
    }
}

/// The full key of an item is that of its entry among the entries read.
proof fn lemma_full_name_is_chain_name(
    data: Seq<u8>,
    ptr: GvdbPointer,
    entries: Seq<(u32, Seq<char>)>,
    index: int,
    fuel: nat,
)
    requires
        entries.len() == spec_n_hash_items(data, ptr),
        forall|i: int|
            0 <= i < entries.len() ==> spec_entry(data, ptr, i, (#[trigger] entries[i]).0, entries[i].1),
    ensures
        spec_full_name(data, ptr, index, fuel) == spec_chain_name(entries, index, fuel),
    decreases fuel,
{
    if fuel > 0 && 0 <= index < entries.len() {
        assert(spec_entry(data, ptr, index, entries[index].0, entries[index].1));
        if entries[index].0 != NO_PARENT {
            lemma_full_name_is_chain_name(
                data,
                ptr,
                entries,
                entries[index].0 as int,
                (fuel - 1) as nat,
            );
        }
    }
}

impl<'a> GvdbHashTable<'a> {
    /// Reads the parent and the own part of the key of every item, and stops
    /// at the first defective item.
    fn read_entries(&self) -> (r: Result<Vec<(u32, String)>, GvdbReaderError>)
        requires
            self.wf(),
        ensures
            match spec_first_defect(
                self.spec_data(),
                self.spec_table_ptr(),
                spec_n_hash_items(self.spec_data(), self.spec_table_ptr()),
            ) {
                Some(error) => r matches Err(e) && e@ == error,
                None => r matches Ok(entries) && entries@.len() == spec_n_hash_items(
                    self.spec_data(),
                    self.spec_table_ptr(),
                ) && forall|i: int|
                    0 <= i < entries@.len() ==> spec_entry(
                        self.spec_data(),
                        self.spec_table_ptr(),
                        i,
                        (#[trigger] entries@[i]).0,
                        entries@[i].1@,
                    ),
            },
    {
        let count = self.n_hash_items();
        let mut entries: Vec<(u32, String)> = Vec::new();
        let mut index: usize = 0;
        while index < count
            invariant
                self.wf(),
                count == spec_n_hash_items(self.data@, self.table_ptr),
                index <= count,
                entries@.len() == index,
                spec_first_defect(self.data@, self.table_ptr, index as int) is None,
                forall|i: int|
                    0 <= i < index ==> spec_entry(
                        self.data@,
                        self.table_ptr,
                        i,
                        (#[trigger] entries@[i]).0,
                        entries@[i].1@,
                    ),
            decreases count - index,
        {
            let item = self.get_hash_item(index);
            let item = item.unwrap();
            let parent = item.parent;
            if parent != NO_PARENT && parent as usize >= count {
                let mut text = String::from_str("Parent with invalid offset encountered: ");
                text.append(decimal_string(parent as usize).as_str());
                proof {
                    lemma_first_defect_stays(
                        self.data@,
                        self.table_ptr,
                        index + 1,
                        count as int,
                    );
                }
                return Err(GvdbReaderError::DataError(text));
            }
            let suffix = match self.get_key(&item) {
                Ok(suffix) => suffix,
                Err(e) => {
                    proof {
                        lemma_first_defect_stays(
                            self.data@,
                            self.table_ptr,
                            index + 1,
                            count as int,
                        );
                    }
                    return Err(e);
                },
            };
            entries.push((parent, suffix));
            index += 1;
        }
        Ok(entries)
    }

    /// The full key of every item, in the order of the items.
    ///
    /// Every item is read first, and the first defective item ends the
    /// listing with its error. The keys are then put together in rounds
    /// (see [`resolve_names`]); where the parents of some item never reach an
    /// item without parent, a round names nothing and the listing ends with
    /// `InvalidData`.
    pub fn get_names(&self) -> (r: Result<Vec<String>, GvdbReaderError>)
        requires
            self.wf(),
        ensures
            match spec_names_error(self.spec_data(), self.spec_table_ptr()) {
                Some(error) => r matches Err(e) && e@ == error,
                None => r matches Ok(names) && names@.len() == spec_n_hash_items(
                    self.spec_data(),
                    self.spec_table_ptr(),
                ) && forall|i: int|
                    0 <= i < names@.len() ==> spec_full_name(
                        self.spec_data(),
                        self.spec_table_ptr(),
                        i,
                        names@.len(),
                    ) == Some((#[trigger] names@[i])@),
            },
    {
        let entries = match self.read_entries() {
            Ok(entries) => entries,
            Err(e) => {
                return Err(e);
            },
        };
        let ghost views = spec_entry_views(entries@);
        proof {
            assert forall|i: int, fuel: nat|
                spec_full_name(self.data@, self.table_ptr, i, fuel) == #[trigger] spec_chain_name(
                    views,
                    i,
                    fuel,
                ) by {
                lemma_full_name_is_chain_name(self.data@, self.table_ptr, views, i, fuel);
            }
        }
        match resolve_names(&entries) {
            Some(names) => {
                proof {
                    assert forall|i: int| 0 <= i < views.len() implies (#[trigger] spec_full_name(
                        self.data@,
                        self.table_ptr,
                        i,
                        views.len(),
                    )) is Some by {
                        assert(spec_chain_name(views, i, views.len()) is Some);
                    }
                }
                Ok(names)
            },
            None => {
                proof {
                    let i = choose|i: int|
                        0 <= i < views.len() && (#[trigger] spec_chain_name(
                            views,
                            i,
                            views.len(),
                        )) is None;
                    assert(spec_full_name(self.data@, self.table_ptr, i, views.len()) is None);
                }
                Err(GvdbReaderError::InvalidData)
            },
        }
    }
}

} // verus!
