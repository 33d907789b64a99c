//! What a written file reads back as: every key of the table is found with
//! its value, no other key is found, and the keys are listed in the order in
//! which they were written.

use crate::read::error::GvdbReaderErrorView;
use crate::read::file::{spec_file_error, spec_file_get, spec_file_header, spec_file_require};
use crate::read::hash::{
    spec_bloom_filter, spec_bloom_mask, spec_bloom_word, spec_bloom_word_index, spec_bucket_end,
    spec_check_name, spec_deref_pointer, spec_ends_with, spec_find_item, spec_first_defect,
    spec_full_name, spec_hash_bucket, spec_hash_buckets_offset, spec_hash_header, spec_hash_item,
    spec_hash_items_offset, spec_item_matches, spec_key_bytes, spec_n_hash_items,
    spec_names_error, spec_table_error, spec_table_lookup,
};
use crate::read::hash_item::{
    lemma_hash_header_roundtrip, lemma_hash_item_roundtrip, GvdbHashHeader, GvdbHashItem,
    NO_PARENT,
};
use crate::read::header::{lemma_header_roundtrip, spec_zeros, GvdbHeader};
use crate::read::pointer::GvdbPointer;
use crate::util::{lemma_u32_le_roundtrip, spec_djb_hash, spec_u32_le_bytes};
use crate::write::file::{
    lemma_items_bytes_len, lemma_keys_bytes_len, lemma_keys_len_monotonic, lemma_values_bytes_len,
    lemma_values_end_monotonic, lemma_words_bytes_len, spec_align8, spec_bloom_word_of,
    spec_bloom_words, spec_bucket_start, spec_bucket_starts, spec_file_bytes, spec_file_entries,
    spec_items_bytes, spec_keys_bytes, spec_keys_len, spec_layout_error, spec_layout_item,
    spec_layout_items, spec_layout_items_offset, spec_layout_keys_offset, spec_layout_len,
    spec_layout_root, spec_layout_values_offset, spec_values_bytes, spec_values_end,
    spec_words_bytes, GvdbFileEntry,
};
use crate::write::hash::{
    lemma_chain_index_unique, spec_bucket_wf, spec_chains_get, spec_chains_wf, spec_entries_from,
    spec_key_bucket, SimpleHashTable,
};
use crate::write::item::{spec_chain_contains, spec_chain_index, GvdbBuilderEntry};
use vstd::prelude::*;
use vstd::utf8::{encode_utf8, encode_utf8_decode_utf8, encode_utf8_valid_utf8, valid_utf8};

verus! {

/// A range inside the middle one of three parts is a range of that part.
proof fn lemma_part(
    data: Seq<u8>,
    prefix: Seq<u8>,
    part: Seq<u8>,
    suffix: Seq<u8>,
    from: int,
    to: int,
)
    requires
        data == prefix + part + suffix,
        0 <= from <= to <= part.len(),
    ensures
        data.subrange(prefix.len() + from, prefix.len() + to) == part.subrange(from, to),
{
    assert(data.subrange(prefix.len() + from, prefix.len() + to) =~= part.subrange(from, to));
}

/// The bytes of the `index`-th word among the bytes of the words.
proof fn lemma_words_at(words: Seq<u32>, upto: int, index: int)
    requires
        0 <= index < upto,
    ensures
        spec_words_bytes(words, upto).len() == 4 * upto,
        spec_words_bytes(words, upto).subrange(4 * index, 4 * index + 4) == spec_u32_le_bytes(
            words[index],
        ),
    decreases upto,
{
    lemma_words_bytes_len(words, upto);
    lemma_words_bytes_len(words, upto - 1);
    let before = spec_words_bytes(words, upto - 1);
    let last = spec_u32_le_bytes(words[upto - 1]);
    if index == upto - 1 {
        assert((before + last).subrange(4 * index, 4 * index + 4) =~= last);
    } else {
        lemma_words_at(words, upto - 1, index);
        assert((before + last).subrange(4 * index, 4 * index + 4) =~= before.subrange(
            4 * index,
            4 * index + 4,
        ));
    }
}

/// The bytes of the `index`-th item among the bytes of the items.
proof fn lemma_items_at(items: Seq<GvdbHashItem>, upto: int, index: int)
    requires
        0 <= index < upto,
    ensures
        spec_items_bytes(items, upto).len() == 24 * upto,
        spec_items_bytes(items, upto).subrange(24 * index, 24 * index + 24)
            == items[index].spec_to_bytes(),
    decreases upto,
{
    lemma_items_bytes_len(items, upto);
    lemma_items_bytes_len(items, upto - 1);
    lemma_hash_item_roundtrip(items[upto - 1]);
    let before = spec_items_bytes(items, upto - 1);
    let last = items[upto - 1].spec_to_bytes();
    if index == upto - 1 {
        assert((before + last).subrange(24 * index, 24 * index + 24) =~= last);
    } else {
        lemma_items_at(items, upto - 1, index);
        assert((before + last).subrange(24 * index, 24 * index + 24) =~= before.subrange(
            24 * index,
            24 * index + 24,
        ));
    }
}

/// The `index`-th key among the keys.
proof fn lemma_keys_at(entries: Seq<GvdbFileEntry>, upto: int, index: int)
    requires
        0 <= index < upto,
    ensures
        spec_keys_bytes(entries, upto).len() == spec_keys_len(entries, upto),
        0 <= spec_keys_len(entries, index) <= spec_keys_len(entries, index + 1) <= spec_keys_len(
            entries,
            upto,
        ),
        spec_keys_bytes(entries, upto).subrange(
            spec_keys_len(entries, index),
            spec_keys_len(entries, index + 1),
        ) == entries[index].key,
    decreases upto,
{
    lemma_keys_bytes_len(entries, upto);
    lemma_keys_bytes_len(entries, upto - 1);
    lemma_keys_len_monotonic(entries, 0, index);
    lemma_keys_len_monotonic(entries, index + 1, upto);
    let before = spec_keys_bytes(entries, upto - 1);
    let last = entries[upto - 1].key;
    if index == upto - 1 {
        assert((before + last).subrange(
            spec_keys_len(entries, index),
            spec_keys_len(entries, index + 1),
        ) =~= last);
    } else {
        lemma_keys_at(entries, upto - 1, index);
        assert((before + last).subrange(
            spec_keys_len(entries, index),
            spec_keys_len(entries, index + 1),
        ) =~= before.subrange(spec_keys_len(entries, index), spec_keys_len(entries, index + 1)));
    }
}

/// The `index`-th value among the values: it starts at a multiple of 8.
proof fn lemma_values_at(entries: Seq<GvdbFileEntry>, base: int, upto: int, index: int)
    requires
        0 <= base,
        0 <= index < upto,
    ensures
        spec_values_bytes(entries, base, upto).len() == spec_values_end(entries, base, upto)
            - base,
        base <= spec_values_end(entries, base, index) <= spec_align8(
            spec_values_end(entries, base, index),
        ) <= spec_values_end(entries, base, index + 1) <= spec_values_end(entries, base, upto),
        spec_align8(spec_values_end(entries, base, index)) % 8 == 0,
        spec_values_bytes(entries, base, upto).subrange(
            spec_align8(spec_values_end(entries, base, index)) - base,
            spec_values_end(entries, base, index + 1) - base,
        ) == entries[index].value,
    decreases upto,
{
    lemma_values_bytes_len(entries, base, upto);
    lemma_values_bytes_len(entries, base, upto - 1);
    lemma_values_end_monotonic(entries, base, 0, index);
    lemma_values_end_monotonic(entries, base, index + 1, upto);
    lemma_values_end_monotonic(entries, base, 0, upto - 1);
    let end = spec_values_end(entries, base, upto - 1);
    let before = spec_values_bytes(entries, base, upto - 1);
    let padding = spec_zeros((spec_align8(end) - end) as nat);
    let last = entries[upto - 1].value;
    let from = spec_align8(spec_values_end(entries, base, index)) - base;
    let to = spec_values_end(entries, base, index + 1) - base;
    if index == upto - 1 {
        assert((before + padding + last).subrange(from, to) =~= last);
    } else {
        lemma_values_at(entries, base, upto - 1, index);
        assert((before + padding + last).subrange(from, to) =~= before.subrange(from, to));
    }
}

/// Whether `item` is the item of `entry`: it carries the entry's hash, has
/// no parent, is of kind `'v'`, and its key and its value can be read from
/// `data` and are the entry's.
pub open spec fn spec_stores_item(data: Seq<u8>, item: GvdbHashItem, entry: GvdbFileEntry) -> bool {
    &&& item.hash_value == entry.hash_value
    &&& item.parent == NO_PARENT
    &&& item.typ == 118
    &&& spec_key_bytes(data, item) == Some(entry.key)
    &&& spec_deref_pointer(data, item.value, 8) == Ok::<Seq<u8>, GvdbReaderErrorView>(
        entry.value,
    )
}

/// Whether `data` is a file whose root table stores `entries` with this
/// bucket array: it can be opened, and its bloom filter words, buckets and
/// items read as those of the entries.
#[verifier::opaque]
pub open spec fn spec_stores(
    data: Seq<u8>,
    options: u32,
    n_bloom_words: u32,
    buckets: Seq<u32>,
    entries: Seq<GvdbFileEntry>,
) -> bool {
    let root = spec_file_header(data).root;
    &&& spec_file_error(data) is None
    &&& spec_file_header(data).options == options
    &&& n_bloom_words < 0x800_0000
    &&& buckets.len() <= u32::MAX
    &&& spec_hash_header(data, root) == (GvdbHashHeader {
        n_bloom_words,
        n_buckets: buckets.len() as u32,
    })
    &&& spec_n_hash_items(data, root) == entries.len()
    &&& forall|w: int|
        0 <= w < n_bloom_words ==> #[trigger] spec_bloom_word(data, root, w) == spec_bloom_word_of(
            entries,
            n_bloom_words,
            w,
            entries.len() as int,
        )
    &&& forall|b: int|
        0 <= b < buckets.len() ==> #[trigger] spec_hash_bucket(data, root, b) == buckets[b]
    &&& forall|i: int|
        0 <= i < entries.len() ==> spec_stores_item(
            data,
            #[trigger] spec_hash_item(data, root, i),
            entries[i],
        )
}

/// The table of a file that stores entries.
pub proof fn lemma_stored_table(
    data: Seq<u8>,
    options: u32,
    n_bloom_words: u32,
    buckets: Seq<u32>,
    entries: Seq<GvdbFileEntry>,
)
    requires
        spec_stores(data, options, n_bloom_words, buckets, entries),
    ensures
        spec_file_error(data) is None,
        spec_file_header(data).options == options,
        n_bloom_words < 0x800_0000,
        buckets.len() <= u32::MAX,
        spec_hash_header(data, spec_file_header(data).root).spec_n_bloom_words() == n_bloom_words,
        spec_hash_header(data, spec_file_header(data).root).n_buckets == buckets.len(),
        spec_n_hash_items(data, spec_file_header(data).root) == entries.len(),
{
    reveal(spec_stores);
}

/// A bloom filter word of a file that stores entries.
pub proof fn lemma_stored_bloom_word(
    data: Seq<u8>,
    options: u32,
    n_bloom_words: u32,
    buckets: Seq<u32>,
    entries: Seq<GvdbFileEntry>,
    word: int,
)
    requires
        spec_stores(data, options, n_bloom_words, buckets, entries),
        0 <= word < n_bloom_words,
    ensures
        spec_bloom_word(data, spec_file_header(data).root, word) == spec_bloom_word_of(
            entries,
            n_bloom_words,
            word,
            entries.len() as int,
        ),
{
    reveal(spec_stores);
}

/// A bucket of a file that stores entries.
pub proof fn lemma_stored_bucket(
    data: Seq<u8>,
    options: u32,
    n_bloom_words: u32,
    buckets: Seq<u32>,
    entries: Seq<GvdbFileEntry>,
    bucket: int,
)
    requires
        spec_stores(data, options, n_bloom_words, buckets, entries),
        0 <= bucket < buckets.len(),
    ensures
        spec_hash_bucket(data, spec_file_header(data).root, bucket) == buckets[bucket],
{
    reveal(spec_stores);
}

/// An item of a file that stores entries.
pub proof fn lemma_stored_item(
    data: Seq<u8>,
    options: u32,
    n_bloom_words: u32,
    buckets: Seq<u32>,
    entries: Seq<GvdbFileEntry>,
    index: int,
)
    requires
        spec_stores(data, options, n_bloom_words, buckets, entries),
        0 <= index < entries.len(),
    ensures
        spec_stores_item(
            data,
            spec_hash_item(data, spec_file_header(data).root, index),
            entries[index],
        ),
{
    reveal(spec_stores);
}

/// The seven parts of a file and where each starts.
struct FileParts {
    header: Seq<u8>,
    table_header: Seq<u8>,
    bloom: Seq<u8>,
    buckets: Seq<u8>,
    items: Seq<u8>,
    keys: Seq<u8>,
    values: Seq<u8>,
}

impl FileParts {
    #[verifier::opaque]
    spec fn bytes(self) -> Seq<u8> {
        self.header + self.table_header + self.bloom + self.buckets + self.items + self.keys
            + self.values
    }

    spec fn bloom_offset(self) -> int {
        (self.header.len() + self.table_header.len()) as int
    }

    spec fn buckets_offset(self) -> int {
        self.bloom_offset() + self.bloom.len()
    }

    spec fn items_offset(self) -> int {
        self.buckets_offset() + self.buckets.len()
    }

    spec fn keys_offset(self) -> int {
        self.items_offset() + self.items.len()
    }

    spec fn values_offset(self) -> int {
        self.keys_offset() + self.keys.len()
    }

    proof fn lemma_header(self)
        ensures
            self.bytes().subrange(0, self.header.len() as int) == self.header,
            self.bytes().subrange(self.header.len() as int, self.bloom_offset())
                == self.table_header,
            self.bytes().len() == self.values_offset() + self.values.len(),
    {
        reveal(FileParts::bytes);
        assert(self.bytes().subrange(0, self.header.len() as int) =~= self.header);
        assert(self.bytes().subrange(self.header.len() as int, self.bloom_offset())
            =~= self.table_header);
    }

    proof fn lemma_bloom(self, from: int, to: int)
        requires
            0 <= from <= to <= self.bloom.len(),
        ensures
            self.bytes().subrange(self.bloom_offset() + from, self.bloom_offset() + to)
                == self.bloom.subrange(from, to),
    {
        reveal(FileParts::bytes);
        assert(self.bytes() =~= (self.header + self.table_header) + self.bloom + (self.buckets
            + self.items + self.keys + self.values));
        lemma_part(
            self.bytes(),
            self.header + self.table_header,
            self.bloom,
            self.buckets + self.items + self.keys + self.values,
            from,
            to,
        );
    }

    proof fn lemma_buckets(self, from: int, to: int)
        requires
            0 <= from <= to <= self.buckets.len(),
        ensures
            self.bytes().subrange(self.buckets_offset() + from, self.buckets_offset() + to)
                == self.buckets.subrange(from, to),
    {
        reveal(FileParts::bytes);
        assert(self.bytes() =~= (self.header + self.table_header + self.bloom) + self.buckets + (
        self.items + self.keys + self.values));
        lemma_part(
            self.bytes(),
            self.header + self.table_header + self.bloom,
            self.buckets,
            self.items + self.keys + self.values,
            from,
            to,
        );
    }

    proof fn lemma_items(self, from: int, to: int)
        requires
            0 <= from <= to <= self.items.len(),
        ensures
            self.bytes().subrange(self.items_offset() + from, self.items_offset() + to)
                == self.items.subrange(from, to),
    {
        reveal(FileParts::bytes);
        assert(self.bytes() =~= (self.header + self.table_header + self.bloom + self.buckets)
            + self.items + (self.keys + self.values));
        lemma_part(
            self.bytes(),
            self.header + self.table_header + self.bloom + self.buckets,
            self.items,
            self.keys + self.values,
            from,
            to,
        );
    }

    proof fn lemma_keys(self, from: int, to: int)
        requires
            0 <= from <= to <= self.keys.len(),
        ensures
            self.bytes().subrange(self.keys_offset() + from, self.keys_offset() + to)
                == self.keys.subrange(from, to),
    {
        reveal(FileParts::bytes);
        lemma_part(
            self.bytes(),
            self.header + self.table_header + self.bloom + self.buckets + self.items,
            self.keys,
            self.values,
            from,
            to,
        );
    }

    proof fn lemma_values(self, from: int, to: int)
        requires
            0 <= from <= to <= self.values.len(),
        ensures
            self.bytes().subrange(self.values_offset() + from, self.values_offset() + to)
                == self.values.subrange(from, to),
    {
        reveal(FileParts::bytes);
        assert(self.bytes() =~= (self.header + self.table_header + self.bloom + self.buckets
            + self.items + self.keys) + self.values + Seq::<u8>::empty());
        lemma_part(
            self.bytes(),
            self.header + self.table_header + self.bloom + self.buckets + self.items + self.keys,
            self.values,
            Seq::<u8>::empty(),
            from,
            to,
        );
    }
}

/// The parts of the file that stores `entries`.
spec fn spec_file_parts(
    options: u32,
    n_bloom_words: u32,
    buckets: Seq<u32>,
    entries: Seq<GvdbFileEntry>,
) -> FileParts {
    FileParts {
        header: GvdbHeader::spec_new(
            options,
            spec_layout_root(n_bloom_words, buckets.len(), entries),
        ).spec_to_bytes(),
        table_header: (GvdbHashHeader {
            n_bloom_words,
            n_buckets: buckets.len() as u32,
        }).spec_to_bytes(),
        bloom: spec_words_bytes(spec_bloom_words(entries, n_bloom_words), n_bloom_words as int),
        buckets: spec_words_bytes(buckets, buckets.len() as int),
        items: spec_items_bytes(
            spec_layout_items(n_bloom_words, buckets.len(), entries),
            entries.len() as int,
        ),
        keys: spec_keys_bytes(entries, entries.len() as int),
        values: spec_values_bytes(
            entries,
            spec_layout_values_offset(n_bloom_words, buckets.len(), entries),
            entries.len() as int,
        ),
    }
}

/// Where the parts of a written file start, and how long the file is.
proof fn lemma_file_parts(
    options: u32,
    n_bloom_words: u32,
    buckets: Seq<u32>,
    entries: Seq<GvdbFileEntry>,
)
    ensures
        ({
            let parts = spec_file_parts(options, n_bloom_words, buckets, entries);
            let n_buckets = buckets.len();
            &&& parts.bytes() == spec_file_bytes(options, n_bloom_words, buckets, entries)
            &&& parts.header.len() == 32
            &&& parts.bloom_offset() == 40
            &&& parts.bloom.len() == 4 * n_bloom_words
            &&& parts.buckets_offset() == 40 + 4 * n_bloom_words
            &&& parts.buckets.len() == 4 * n_buckets
            &&& parts.items_offset() == spec_layout_items_offset(n_bloom_words, n_buckets)
            &&& parts.items.len() == 24 * entries.len()
            &&& parts.keys_offset() == spec_layout_keys_offset(n_bloom_words, n_buckets, entries)
            &&& parts.keys.len() == spec_keys_len(entries, entries.len() as int)
            &&& parts.values_offset() == spec_layout_values_offset(
                n_bloom_words,
                n_buckets,
                entries,
            )
            &&& parts.bytes().len() == spec_layout_len(n_bloom_words, n_buckets, entries)
            &&& 32 <= parts.keys_offset() <= parts.values_offset() <= parts.bytes().len()
        }),
{
    let parts = spec_file_parts(options, n_bloom_words, buckets, entries);
    let n_buckets = buckets.len();
    reveal(spec_file_bytes);
    reveal(FileParts::bytes);
    lemma_header_roundtrip(
        GvdbHeader::spec_new(options, spec_layout_root(n_bloom_words, n_buckets, entries)),
    );
    lemma_hash_header_roundtrip(GvdbHashHeader { n_bloom_words, n_buckets: n_buckets as u32 });
    lemma_words_bytes_len(spec_bloom_words(entries, n_bloom_words), n_bloom_words as int);
    lemma_words_bytes_len(buckets, n_buckets as int);
    lemma_items_bytes_len(
        spec_layout_items(n_bloom_words, n_buckets, entries),
        entries.len() as int,
    );
    lemma_keys_bytes_len(entries, entries.len() as int);
    lemma_keys_len_monotonic(entries, 0, entries.len() as int);
    lemma_values_bytes_len(
        entries,
        spec_layout_values_offset(n_bloom_words, n_buckets, entries),
        entries.len() as int,
    );
    lemma_values_end_monotonic(
        entries,
        spec_layout_values_offset(n_bloom_words, n_buckets, entries),
        0,
        entries.len() as int,
    );
    parts.lemma_header();
}

/// What holds of a table that can be stored.
proof fn lemma_layout_fits(n_bloom_words: u32, n_buckets: nat, entries: Seq<GvdbFileEntry>)
    requires
        spec_layout_error(n_bloom_words, n_buckets, entries) is None,
    ensures
        n_bloom_words < 0x800_0000,
        n_buckets <= u32::MAX,
        forall|i: int| 0 <= i < entries.len() ==> (#[trigger] entries[i]).key.len() <= 0xffff,
        spec_layout_len(n_bloom_words, n_buckets, entries) <= u32::MAX,
{
}

/// The header and the table header of a written file read as they were
/// written.
proof fn lemma_written_headers(
    options: u32,
    n_bloom_words: u32,
    buckets: Seq<u32>,
    entries: Seq<GvdbFileEntry>,
)
    ensures
        ({
            let data = spec_file_bytes(options, n_bloom_words, buckets, entries);
            let root = spec_layout_root(n_bloom_words, buckets.len(), entries);
            &&& data.len() == spec_layout_len(n_bloom_words, buckets.len(), entries)
            &&& spec_layout_keys_offset(n_bloom_words, buckets.len(), entries) <= data.len()
            &&& spec_file_header(data) == GvdbHeader::spec_new(options, root)
            &&& GvdbHashHeader::spec_from_bytes(data.subrange(32, 40)) == (GvdbHashHeader {
                n_bloom_words,
                n_buckets: buckets.len() as u32,
            })
        }),
{
    let data = spec_file_bytes(options, n_bloom_words, buckets, entries);
    let root = spec_layout_root(n_bloom_words, buckets.len(), entries);
    let parts = spec_file_parts(options, n_bloom_words, buckets, entries);
    let table_header = GvdbHashHeader { n_bloom_words, n_buckets: buckets.len() as u32 };
    lemma_file_parts(options, n_bloom_words, buckets, entries);
    parts.lemma_header();
    lemma_header_roundtrip(GvdbHeader::spec_new(options, root));
    lemma_hash_header_roundtrip(table_header);
}

/// A pointer from 32 to the end of the items of a table delimits the table.
proof fn lemma_table_valid(data: Seq<u8>, root: GvdbPointer, header: GvdbHashHeader, n: nat)
    requires
        root.start == 32,
        header.n_bloom_words < 0x800_0000,
        spec_hash_header(data, root) == header,
        root.end == 40 + 4 * header.n_bloom_words + 4 * header.n_buckets + 24 * n,
        root.end <= data.len(),
    ensures
        spec_hash_buckets_offset(data, root) == 40 + 4 * header.n_bloom_words,
        spec_hash_items_offset(data, root) == 40 + 4 * header.n_bloom_words + 4
            * header.n_buckets,
        spec_n_hash_items(data, root) == n,
        spec_table_error(data, root) is None,
{
    assert(header.spec_n_bloom_words() == header.n_bloom_words);
    assert(32u32 & 3 == 0) by (bit_vector);
    let items_offset = spec_hash_items_offset(data, root);
    assert(items_offset == 40 + 4 * header.n_bloom_words + 4 * header.n_buckets);
    assert(root.end - items_offset == 24 * n);
}

/// The header and the root table of a written file read as they were
/// written, and the root pointer delimits a table.
proof fn lemma_written_table(
    options: u32,
    n_bloom_words: u32,
    buckets: Seq<u32>,
    entries: Seq<GvdbFileEntry>,
)
    requires
        spec_layout_error(n_bloom_words, buckets.len(), entries) is None,
    ensures
        ({
            let data = spec_file_bytes(options, n_bloom_words, buckets, entries);
            let root = spec_layout_root(n_bloom_words, buckets.len(), entries);
            &&& data.len() == spec_layout_len(n_bloom_words, buckets.len(), entries)
            &&& spec_file_header(data) == GvdbHeader::spec_new(options, root)
            &&& spec_hash_header(data, root) == (GvdbHashHeader {
                n_bloom_words,
                n_buckets: buckets.len() as u32,
            })
            &&& spec_hash_buckets_offset(data, root) == 40 + 4 * n_bloom_words
            &&& spec_hash_items_offset(data, root) == spec_layout_items_offset(
                n_bloom_words,
                buckets.len(),
            )
            &&& spec_n_hash_items(data, root) == entries.len()
            &&& spec_table_error(data, root) is None
            &&& spec_file_error(data) is None
        }),
{
    let data = spec_file_bytes(options, n_bloom_words, buckets, entries);
    let root = spec_layout_root(n_bloom_words, buckets.len(), entries);
    let table_header = GvdbHashHeader { n_bloom_words, n_buckets: buckets.len() as u32 };
    lemma_layout_fits(n_bloom_words, buckets.len(), entries);
    lemma_written_headers(options, n_bloom_words, buckets, entries);
    lemma_table_valid(data, root, table_header, entries.len());
}

/// A bloom filter word of a written file reads as it was written.
proof fn lemma_written_bloom_word(
    options: u32,
    n_bloom_words: u32,
    buckets: Seq<u32>,
    entries: Seq<GvdbFileEntry>,
    word: int,
)
    requires
        spec_layout_error(n_bloom_words, buckets.len(), entries) is None,
        0 <= word < n_bloom_words,
    ensures
        spec_bloom_word(
            spec_file_bytes(options, n_bloom_words, buckets, entries),
            spec_layout_root(n_bloom_words, buckets.len(), entries),
            word,
        ) == spec_bloom_word_of(entries, n_bloom_words, word, entries.len() as int),
{
    let parts = spec_file_parts(options, n_bloom_words, buckets, entries);
    let words = spec_bloom_words(entries, n_bloom_words);
    lemma_file_parts(options, n_bloom_words, buckets, entries);
    lemma_words_at(words, n_bloom_words as int, word);
    parts.lemma_bloom(4 * word, 4 * word + 4);
    lemma_u32_le_roundtrip(words[word]);
}

/// A bucket of a written file reads as it was written.
proof fn lemma_written_bucket(
    options: u32,
    n_bloom_words: u32,
    buckets: Seq<u32>,
    entries: Seq<GvdbFileEntry>,
    bucket: int,
)
    requires
        spec_layout_error(n_bloom_words, buckets.len(), entries) is None,
        0 <= bucket < buckets.len(),
    ensures
        spec_hash_bucket(
            spec_file_bytes(options, n_bloom_words, buckets, entries),
            spec_layout_root(n_bloom_words, buckets.len(), entries),
            bucket,
        ) == buckets[bucket],
{
    let parts = spec_file_parts(options, n_bloom_words, buckets, entries);
    lemma_file_parts(options, n_bloom_words, buckets, entries);
    lemma_written_table(options, n_bloom_words, buckets, entries);
    lemma_words_at(buckets, buckets.len() as int, bucket);
    parts.lemma_buckets(4 * bucket, 4 * bucket + 4);
    lemma_u32_le_roundtrip(buckets[bucket]);
}

/// An item whose key lies at `start` reads its key from there.
proof fn lemma_key_at(data: Seq<u8>, item: GvdbHashItem, key: Seq<u8>, start: int)
    requires
        item.key_start == start,
        item.key_size == key.len(),
        0 <= start,
        start + key.len() <= data.len(),
        data.subrange(start, start + key.len()) == key,
    ensures
        spec_key_bytes(data, item) == Some(key),
{
}

/// A pointer to a value at a multiple of 8 reaches the value.
proof fn lemma_value_at(data: Seq<u8>, pointer: GvdbPointer, value: Seq<u8>, start: int, end: int)
    requires
        pointer.start == start,
        pointer.end == end,
        start % 8 == 0,
        0 <= start <= end <= data.len(),
        data.subrange(start, end) == value,
    ensures
        spec_deref_pointer(data, pointer, 8) == Ok::<Seq<u8>, GvdbReaderErrorView>(value),
{
    let start32 = pointer.start;
    assert(start32 & 7 == 0) by (bit_vector)
        requires
            start32 % 8 == 0,
    ;
}

/// An item of a written file reads as it was written.
proof fn lemma_written_item_record(
    options: u32,
    n_bloom_words: u32,
    buckets: Seq<u32>,
    entries: Seq<GvdbFileEntry>,
    index: int,
)
    requires
        spec_layout_error(n_bloom_words, buckets.len(), entries) is None,
        0 <= index < entries.len(),
    ensures
        spec_hash_item(
            spec_file_bytes(options, n_bloom_words, buckets, entries),
            spec_layout_root(n_bloom_words, buckets.len(), entries),
            index,
        ) == spec_layout_item(n_bloom_words, buckets.len(), entries, index),
{
    let parts = spec_file_parts(options, n_bloom_words, buckets, entries);
    let items = spec_layout_items(n_bloom_words, buckets.len(), entries);
    lemma_file_parts(options, n_bloom_words, buckets, entries);
    lemma_written_table(options, n_bloom_words, buckets, entries);
    lemma_items_at(items, entries.len() as int, index);
    parts.lemma_items(24 * index, 24 * index + 24);
    lemma_hash_item_roundtrip(items[index]);
}

/// The key of an item of a written file is that of its entry.
proof fn lemma_written_item_key(
    options: u32,
    n_bloom_words: u32,
    buckets: Seq<u32>,
    entries: Seq<GvdbFileEntry>,
    index: int,
)
    requires
        spec_layout_error(n_bloom_words, buckets.len(), entries) is None,
        0 <= index < entries.len(),
    ensures
        spec_key_bytes(
            spec_file_bytes(options, n_bloom_words, buckets, entries),
            spec_layout_item(n_bloom_words, buckets.len(), entries, index),
        ) == Some(entries[index].key),
{
    let data = spec_file_bytes(options, n_bloom_words, buckets, entries);
    let parts = spec_file_parts(options, n_bloom_words, buckets, entries);
    let item = spec_layout_item(n_bloom_words, buckets.len(), entries, index);
    let keys_offset = spec_layout_keys_offset(n_bloom_words, buckets.len(), entries);
    let start = keys_offset + spec_keys_len(entries, index);
    lemma_file_parts(options, n_bloom_words, buckets, entries);
    lemma_layout_fits(n_bloom_words, buckets.len(), entries);
    lemma_keys_at(entries, entries.len() as int, index);
    assert(entries[index].key.len() <= 0xffff);
    parts.lemma_keys(spec_keys_len(entries, index), spec_keys_len(entries, index + 1));
    assert(spec_keys_len(entries, index + 1) == spec_keys_len(entries, index)
        + entries[index].key.len());
    lemma_key_at(data, item, entries[index].key, start);
}

/// The value of an item of a written file is that of its entry.
proof fn lemma_written_item_value(
    options: u32,
    n_bloom_words: u32,
    buckets: Seq<u32>,
    entries: Seq<GvdbFileEntry>,
    index: int,
)
    requires
        spec_layout_error(n_bloom_words, buckets.len(), entries) is None,
        0 <= index < entries.len(),
    ensures
        spec_deref_pointer(
            spec_file_bytes(options, n_bloom_words, buckets, entries),
            spec_layout_item(n_bloom_words, buckets.len(), entries, index).value,
            8,
        ) == Ok::<Seq<u8>, GvdbReaderErrorView>(entries[index].value),
{
    let data = spec_file_bytes(options, n_bloom_words, buckets, entries);
    let parts = spec_file_parts(options, n_bloom_words, buckets, entries);
    let item = spec_layout_item(n_bloom_words, buckets.len(), entries, index);
    let values_offset = spec_layout_values_offset(n_bloom_words, buckets.len(), entries);
    let start = spec_align8(spec_values_end(entries, values_offset, index));
    let end = spec_values_end(entries, values_offset, index + 1);
    lemma_file_parts(options, n_bloom_words, buckets, entries);
    lemma_layout_fits(n_bloom_words, buckets.len(), entries);
    lemma_values_at(entries, values_offset, entries.len() as int, index);
    parts.lemma_values(start - values_offset, end - values_offset);
    lemma_value_at(data, item.value, entries[index].value, start, end);
}

/// An item of a written file reads as it was written, and its key and its
/// value are those of its entry.
proof fn lemma_written_item(
    options: u32,
    n_bloom_words: u32,
    buckets: Seq<u32>,
    entries: Seq<GvdbFileEntry>,
    index: int,
)
    requires
        spec_layout_error(n_bloom_words, buckets.len(), entries) is None,
        0 <= index < entries.len(),
    ensures
        ({
            let data = spec_file_bytes(options, n_bloom_words, buckets, entries);
            let root = spec_layout_root(n_bloom_words, buckets.len(), entries);
            &&& spec_hash_item(data, root, index) == spec_layout_item(
                n_bloom_words,
                buckets.len(),
                entries,
                index,
            )
            &&& spec_stores_item(data, spec_hash_item(data, root, index), entries[index])
        }),
{
    lemma_written_item_record(options, n_bloom_words, buckets, entries, index);
    lemma_written_item_key(options, n_bloom_words, buckets, entries, index);
    lemma_written_item_value(options, n_bloom_words, buckets, entries, index);
}

/// A written file stores its entries.
pub proof fn lemma_written_file_stores(
    options: u32,
    n_bloom_words: u32,
    buckets: Seq<u32>,
    entries: Seq<GvdbFileEntry>,
)
    requires
        spec_layout_error(n_bloom_words, buckets.len(), entries) is None,
    ensures
        spec_stores(
            spec_file_bytes(options, n_bloom_words, buckets, entries),
            options,
            n_bloom_words,
            buckets,
            entries,
        ),
        spec_file_header(spec_file_bytes(options, n_bloom_words, buckets, entries)).root
            == spec_layout_root(n_bloom_words, buckets.len(), entries),
{
    let data = spec_file_bytes(options, n_bloom_words, buckets, entries);
    let root = spec_layout_root(n_bloom_words, buckets.len(), entries);
    reveal(spec_stores);
    lemma_layout_fits(n_bloom_words, buckets.len(), entries);
    lemma_written_table(options, n_bloom_words, buckets, entries);
    assert forall|w: int| 0 <= w < n_bloom_words implies #[trigger] spec_bloom_word(data, root, w)
        == spec_bloom_word_of(entries, n_bloom_words, w, entries.len() as int) by {
        lemma_written_bloom_word(options, n_bloom_words, buckets, entries, w);
    }
    assert forall|b: int| 0 <= b < buckets.len() implies #[trigger] spec_hash_bucket(
        data,
        root,
        b,
    ) == buckets[b] by {
        lemma_written_bucket(options, n_bloom_words, buckets, entries, b);
    }
    assert forall|i: int| 0 <= i < entries.len() implies spec_stores_item(
        data,
        #[trigger] spec_hash_item(data, root, i),
        entries[i],
    ) by {
        lemma_written_item(options, n_bloom_words, buckets, entries, i);
    }
}

/// One past the last item index of a bucket, as a reader takes it from the
/// bucket array.
pub open spec fn spec_buckets_end(buckets: Seq<u32>, n_items: int, bucket: int) -> int {
    if bucket == buckets.len() - 1 {
        n_items
    } else if buckets[bucket + 1] < n_items {
        buckets[bucket + 1] as int
    } else {
        n_items
    }
}

/// Whether a bucket array and entries fit together: every entry carries the
/// hash of its key, which is readable text, and lies in the item range of
/// the bucket of its hash; and no two entries have the same key.
pub open spec fn spec_bucketed(buckets: Seq<u32>, entries: Seq<GvdbFileEntry>) -> bool {
    &&& buckets.len() == 0 ==> entries.len() == 0
    &&& entries.len() < 0xffff_ffff
    &&& forall|i: int|
        0 <= i < entries.len() ==> (#[trigger] entries[i]).hash_value == spec_djb_hash(
            entries[i].key,
        ) && valid_utf8(entries[i].key)
    &&& forall|i: int|
        0 <= i < entries.len() ==> {
            let bucket = (#[trigger] entries[i]).hash_value as int % buckets.len() as int;
            buckets[bucket] <= i < spec_buckets_end(buckets, entries.len() as int, bucket)
        }
    &&& forall|i: int, j: int|
        0 <= i < j < entries.len() ==> (#[trigger] entries[i]).key != (#[trigger] entries[j]).key
}

/// Whether an entry has this key.
pub open spec fn spec_has_key(entries: Seq<GvdbFileEntry>, key: Seq<u8>) -> bool {
    exists|i: int| 0 <= i < entries.len() && (#[trigger] entries[i]).key == key
}

/// The index of the entry with this key.
pub open spec fn spec_key_index(entries: Seq<GvdbFileEntry>, key: Seq<u8>) -> int {
    choose|i: int| 0 <= i < entries.len() && (#[trigger] entries[i]).key == key
}

/// An item without parent spells exactly its own key.
proof fn lemma_check_name_of_root(
    data: Seq<u8>,
    root: GvdbPointer,
    item: GvdbHashItem,
    entry: GvdbFileEntry,
    key: Seq<u8>,
    fuel: nat,
)
    requires
        spec_stores_item(data, item, entry),
        valid_utf8(entry.key),
        spec_n_hash_items(data, root) < 0xffff_ffff,
    ensures
        spec_check_name(data, root, item, key, fuel) == (entry.key == key),
{
    if spec_ends_with(key, entry.key) && key.len() == entry.key.len() {
        assert(key.subrange(0, key.len() as int) =~= key);
    }
    if entry.key == key {
        assert(key.subrange(0, key.len() as int) =~= key);
    }
}

/// An item of a stored entry matches a key exactly when the key is the
/// entry's.
proof fn lemma_item_matches(
    data: Seq<u8>,
    root: GvdbPointer,
    item: GvdbHashItem,
    entry: GvdbFileEntry,
    key: Seq<u8>,
)
    requires
        spec_stores_item(data, item, entry),
        valid_utf8(entry.key),
        entry.hash_value == spec_djb_hash(entry.key),
        spec_n_hash_items(data, root) < 0xffff_ffff,
    ensures
        spec_item_matches(data, root, item, key, 'v') == (entry.key == key),
{
    lemma_check_name_of_root(
        data,
        root,
        item,
        entry,
        key,
        spec_n_hash_items(data, root) as nat,
    );
    assert(118u8 as char == 'v');
}

/// A search through a range of items finds the item of the entry with the
/// key where the range holds it, and nothing where it does not.
proof fn lemma_find_item(
    data: Seq<u8>,
    options: u32,
    n_bloom_words: u32,
    buckets: Seq<u32>,
    entries: Seq<GvdbFileEntry>,
    key: Seq<u8>,
    first: int,
    last: int,
)
    requires
        spec_stores(data, options, n_bloom_words, buckets, entries),
        spec_bucketed(buckets, entries),
        0 <= first,
        last <= entries.len(),
    ensures
        ({
            let root = spec_file_header(data).root;
            let index = spec_key_index(entries, key);
            spec_find_item(data, root, key, 'v', first, last) == if spec_has_key(entries, key)
                && first <= index < last {
                Some(spec_hash_item(data, root, index))
            } else {
                None
            }
        }),
    decreases last - first,
{
    let root = spec_file_header(data).root;
    if first < last {
        let item = spec_hash_item(data, root, first);
        lemma_stored_table(data, options, n_bloom_words, buckets, entries);
        lemma_stored_item(data, options, n_bloom_words, buckets, entries, first);
        lemma_item_matches(data, root, item, entries[first], key);
        lemma_find_item(data, options, n_bloom_words, buckets, entries, key, first + 1, last);
        if entries[first].key == key {
            let index = spec_key_index(entries, key);
            assert(entries[index].key == entries[first].key);
        }
    }
}

/// The bits that an entry has set stay set.
proof fn lemma_bloom_bits_stay(
    entries: Seq<GvdbFileEntry>,
    n_bloom_words: u32,
    index: int,
    upto: int,
)
    requires
        0 <= index < upto,
        n_bloom_words > 0,
    ensures
        spec_bloom_word_of(
            entries,
            n_bloom_words,
            spec_bloom_word_index(entries[index].hash_value, n_bloom_words),
            upto,
        ) & spec_bloom_mask(entries[index].hash_value) == spec_bloom_mask(
            entries[index].hash_value,
        ),
    decreases upto,
{
    let word = spec_bloom_word_index(entries[index].hash_value, n_bloom_words);
    let mask = spec_bloom_mask(entries[index].hash_value);
    let before = spec_bloom_word_of(entries, n_bloom_words, word, upto - 1);
    let other = spec_bloom_mask(entries[upto - 1].hash_value);
    if index == upto - 1 {
        assert((before | mask) & mask == mask) by (bit_vector);
    } else {
        lemma_bloom_bits_stay(entries, n_bloom_words, index, upto - 1);
        assert((before | other) & mask == mask) by (bit_vector)
            requires
                before & mask == mask,
        ;
    }
}

/// The word of a hash is one of the words.
proof fn lemma_bloom_word_index(hash_value: u32, n_bloom_words: u32)
    requires
        n_bloom_words > 0,
    ensures
        0 <= spec_bloom_word_index(hash_value, n_bloom_words) < n_bloom_words,
{
    let word = spec_bloom_word_index(hash_value, n_bloom_words);
    assert(0 <= word < n_bloom_words) by (nonlinear_arith)
        requires
            word == (hash_value / 32) as int % (n_bloom_words as int),
            n_bloom_words > 0,
    ;
}

/// The bucket of a hash is one of the buckets.
proof fn lemma_bucket_index(hash_value: u32, n_buckets: nat)
    requires
        n_buckets > 0,
    ensures
        0 <= (hash_value as int) % (n_buckets as int) < n_buckets,
{
    let bucket = hash_value as int % n_buckets as int;
    assert(0 <= bucket < n_buckets) by (nonlinear_arith)
        requires
            bucket == hash_value as int % n_buckets as int,
            n_buckets > 0,
    ;
}

/// The bloom filter of a file lets the hash of every stored entry through.
pub proof fn lemma_bloom_filter_passes(
    data: Seq<u8>,
    options: u32,
    n_bloom_words: u32,
    buckets: Seq<u32>,
    entries: Seq<GvdbFileEntry>,
    index: int,
)
    requires
        spec_stores(data, options, n_bloom_words, buckets, entries),
        0 <= index < entries.len(),
    ensures
        spec_bloom_filter(data, spec_file_header(data).root, entries[index].hash_value),
{
    let root = spec_file_header(data).root;
    lemma_stored_table(data, options, n_bloom_words, buckets, entries);
    if n_bloom_words > 0 {
        let hash_value = entries[index].hash_value;
        let word = spec_bloom_word_index(hash_value, n_bloom_words);
        lemma_bloom_word_index(hash_value, n_bloom_words);
        lemma_bloom_bits_stay(entries, n_bloom_words, index, entries.len() as int);
        lemma_stored_bloom_word(data, options, n_bloom_words, buckets, entries, word);
    }
}

/// A lookup in a file that stores entries finds the item of the entry with
/// the key, and nothing where no entry has the key.
pub proof fn lemma_lookup_in_stored(
    data: Seq<u8>,
    options: u32,
    n_bloom_words: u32,
    buckets: Seq<u32>,
    entries: Seq<GvdbFileEntry>,
    key: Seq<u8>,
)
    requires
        spec_stores(data, options, n_bloom_words, buckets, entries),
        spec_bucketed(buckets, entries),
    ensures
        spec_table_lookup(data, spec_file_header(data).root, key, 'v') == if spec_has_key(
            entries,
            key,
        ) {
            Some(spec_hash_item(data, spec_file_header(data).root, spec_key_index(entries, key)))
        } else {
            None
        },
{
    let root = spec_file_header(data).root;
    let n = entries.len() as int;
    let n_buckets = buckets.len();
    let hash_value = spec_djb_hash(key);
    lemma_stored_table(data, options, n_bloom_words, buckets, entries);
    if n_buckets == 0 || n == 0 {
    } else {
        let bucket = hash_value as int % n_buckets as int;
        lemma_bucket_index(hash_value, n_buckets);
        let first = spec_hash_bucket(data, root, bucket) as int;
        let last = spec_bucket_end(data, root, bucket);
        lemma_stored_bucket(data, options, n_bloom_words, buckets, entries, bucket);
        if bucket != n_buckets - 1 {
            lemma_stored_bucket(data, options, n_bloom_words, buckets, entries, bucket + 1);
        }
        assert(last == spec_buckets_end(buckets, n, bucket));
        lemma_find_item(data, options, n_bloom_words, buckets, entries, key, first, last);
        if spec_has_key(entries, key) {
            let index = spec_key_index(entries, key);
            assert(entries[index].hash_value == hash_value);
            lemma_bloom_filter_passes(data, options, n_bloom_words, buckets, entries, index);
            assert(first <= index < last);
        }
    }
}

/// The entries from a later bucket on are the end of the entries from an
/// earlier bucket on.
proof fn lemma_entries_from_suffix(chains: Seq<Seq<GvdbBuilderEntry>>, from: int, bucket: int)
    requires
        0 <= from <= bucket <= chains.len(),
    ensures
        spec_entries_from(chains, bucket).len() <= spec_entries_from(chains, from).len(),
        spec_entries_from(chains, from).skip(
            spec_entries_from(chains, from).len() - spec_entries_from(chains, bucket).len(),
        ) == spec_entries_from(chains, bucket),
    decreases bucket - from,
{
    let all = spec_entries_from(chains, from);
    if from == bucket {
        assert(all.skip(0) =~= all);
    } else {
        lemma_entries_from_suffix(chains, from + 1, bucket);
        let rest = spec_entries_from(chains, from + 1);
        let tail = spec_entries_from(chains, bucket);
        assert(all.skip(all.len() - tail.len()) =~= rest.skip(rest.len() - tail.len()));
    }
}

/// Where the items of a bucket stand among all entries.
proof fn lemma_bucket_range(chains: Seq<Seq<GvdbBuilderEntry>>, bucket: int)
    requires
        0 <= bucket < chains.len(),
    ensures
        0 <= spec_bucket_start(chains, bucket),
        spec_bucket_start(chains, bucket) + chains[bucket].len() == spec_bucket_start(
            chains,
            bucket + 1,
        ),
        spec_bucket_start(chains, bucket + 1) <= spec_entries_from(chains, 0).len(),
        forall|j: int|
            0 <= j < chains[bucket].len() ==> #[trigger] spec_entries_from(
                chains,
                0,
            )[spec_bucket_start(chains, bucket) + j] == (bucket, chains[bucket][j]),
{
    let all = spec_entries_from(chains, 0);
    let here = spec_entries_from(chains, bucket);
    lemma_entries_from_suffix(chains, 0, bucket);
    lemma_entries_from_suffix(chains, 0, bucket + 1);
    assert forall|j: int| 0 <= j < chains[bucket].len() implies #[trigger] all[spec_bucket_start(
        chains,
        bucket,
    ) + j] == (bucket, chains[bucket][j]) by {
        assert(all.skip(all.len() - here.len())[j] == here[j]);
    }
}

/// The bucket and the place in its chain of the `index`-th entry.
proof fn lemma_locate(chains: Seq<Seq<GvdbBuilderEntry>>, from: int, index: int) -> (r: (int, int))
    requires
        0 <= from,
        0 <= index < spec_entries_from(chains, from).len(),
    ensures
        from <= r.0 < chains.len(),
        0 <= r.1 < chains[r.0].len(),
        spec_entries_from(chains, from)[index] == (r.0, chains[r.0][r.1]),
        index == spec_entries_from(chains, from).len() - spec_entries_from(chains, r.0).len()
            + r.1,
    decreases chains.len() - from,
{
    if index < chains[from].len() {
        (from, index)
    } else {
        lemma_locate(chains, from + 1, index - chains[from].len())
    }
}

/// The entries of a well-formed table fit together with its bucket array.
proof fn lemma_table_bucketed(chains: Seq<Seq<GvdbBuilderEntry>>)
    requires
        spec_chains_wf(chains),
        spec_entries_from(chains, 0).len() < 0xffff_ffff,
    ensures
        spec_bucketed(spec_bucket_starts(chains), spec_file_entries(spec_entries_from(chains, 0))),
{
    let all = spec_entries_from(chains, 0);
    let entries = spec_file_entries(all);
    let buckets = spec_bucket_starts(chains);
    let n_buckets = chains.len();
    let n = all.len() as int;
    assert forall|i: int| 0 <= i < entries.len() implies (#[trigger] entries[i]).hash_value
        == spec_djb_hash(entries[i].key) && valid_utf8(entries[i].key) && ({
        let bucket = entries[i].hash_value as int % buckets.len() as int;
        buckets[bucket] <= i < spec_buckets_end(buckets, entries.len() as int, bucket)
    }) by {
        let (b, j) = lemma_locate(chains, 0, i);
        assert(spec_bucket_wf(chains[b], b, n_buckets));
        assert(chains[b][j].hash_value == spec_djb_hash(encode_utf8(chains[b][j].key)));
        encode_utf8_valid_utf8(all[i].1.key);
        lemma_bucket_range(chains, b);
        if b + 1 < n_buckets {
            lemma_bucket_range(chains, b + 1);
        }
    }
    assert forall|i: int, j: int| 0 <= i < j < entries.len() implies (#[trigger] entries[i]).key
        != (#[trigger] entries[j]).key by {
        let (b1, j1) = lemma_locate(chains, 0, i);
        let (b2, j2) = lemma_locate(chains, 0, j);
        assert(spec_bucket_wf(chains[b1], b1, n_buckets));
        assert(spec_bucket_wf(chains[b2], b2, n_buckets));
        if entries[i].key == entries[j].key {
            encode_utf8_decode_utf8(all[i].1.key);
            encode_utf8_decode_utf8(all[j].1.key);
            assert(all[i].1.key == all[j].1.key);
            assert(chains[b1][j1].key == chains[b2][j2].key);
            assert(b1 == b2);
            if j1 < j2 {
                assert(chains[b1][j1].key != chains[b1][j2].key);
            } else {
                assert(chains[b1][j2].key != chains[b1][j1].key);
            }
        }
    }
    if n_buckets == 0 {
        assert(all.len() == 0);
    }
}

/// An entry is found among the chains exactly when the file entries hold
/// its key, and then at the index that the key is found at.
proof fn lemma_table_keys(chains: Seq<Seq<GvdbBuilderEntry>>, key: Seq<char>)
    requires
        spec_chains_wf(chains),
    ensures
        ({
            let all = spec_entries_from(chains, 0);
            let entries = spec_file_entries(all);
            match spec_chains_get(chains, key) {
                Some(entry) => spec_has_key(entries, encode_utf8(key)) && all[spec_key_index(
                    entries,
                    encode_utf8(key),
                )].1 == entry,
                None => !spec_has_key(entries, encode_utf8(key)),
            }
        }),
{
    let all = spec_entries_from(chains, 0);
    let entries = spec_file_entries(all);
    let n_buckets = chains.len();
    let key_bytes = encode_utf8(key);
    encode_utf8_decode_utf8(key);
    if spec_has_key(entries, key_bytes) {
        let i = spec_key_index(entries, key_bytes);
        let (b, j) = lemma_locate(chains, 0, i);
        encode_utf8_decode_utf8(all[i].1.key);
        assert(all[i].1.key == key);
        assert(spec_bucket_wf(chains[b], b, n_buckets));
        assert(chains[b][j].key == key);
        assert(spec_key_bucket(key, n_buckets) == b);
        lemma_chain_index_unique(chains[b], j);
    }
    if n_buckets > 0 {
        let b = spec_key_bucket(key, n_buckets);
        assert(0 <= b < n_buckets) by (nonlinear_arith)
            requires
                b == spec_djb_hash(encode_utf8(key)) as int % n_buckets as int,
                n_buckets > 0,
        ;
        if spec_chain_contains(chains[b], key) {
            let j = spec_chain_index(chains[b], key);
            lemma_bucket_range(chains, b);
            let i = spec_bucket_start(chains, b) + j;
            assert(all[i] == (b, chains[b][j]));
            assert(entries[i].key == key_bytes);
        }
    }
}

/// The file that stores the entries of `table`.
pub open spec fn spec_table_file(
    table: SimpleHashTable,
    options: u32,
    n_bloom_words: u32,
) -> Seq<u8> {
    spec_file_bytes(
        options,
        n_bloom_words,
        spec_bucket_starts(table.spec_chains()),
        spec_file_entries(table.spec_entries()),
    )
}

/// Whether the entries of `table` can be stored in a file.
pub open spec fn spec_table_fits(
    table: SimpleHashTable,
    n_bloom_words: u32,
) -> bool {
    spec_layout_error(
        n_bloom_words,
        table.spec_n_buckets(),
        spec_file_entries(table.spec_entries()),
    ) is None
}

/// The file of a table stores the entries of the table, and these fit
/// together with its bucket array.
proof fn lemma_table_file(
    table: SimpleHashTable,
    options: u32,
    n_bloom_words: u32,
)
    requires
        table.wf(),
        spec_table_fits(table, n_bloom_words),
    ensures
        spec_stores(
            spec_table_file(table, options, n_bloom_words),
            options,
            n_bloom_words,
            spec_bucket_starts(table.spec_chains()),
            spec_file_entries(table.spec_entries()),
        ),
        spec_bucketed(
            spec_bucket_starts(table.spec_chains()),
            spec_file_entries(table.spec_entries()),
        ),
{
    let chains = table.spec_chains();
    let entries = spec_file_entries(table.spec_entries());
    let buckets = spec_bucket_starts(chains);
    lemma_written_file_stores(options, n_bloom_words, buckets, entries);
    lemma_layout_fits(n_bloom_words, buckets.len(), entries);
    lemma_keys_len_monotonic(entries, 0, entries.len() as int);
    lemma_values_end_monotonic(
        entries,
        spec_layout_values_offset(n_bloom_words, buckets.len(), entries),
        0,
        entries.len() as int,
    );
    lemma_table_bucketed(chains);
}

/// A file that was written from a table can be opened, and reading a key
/// from it gives the bytes that the table holds for the key, for every key
/// of the table and for no other key.
pub proof fn law_written_file_reads_back(
    table: SimpleHashTable,
    options: u32,
    n_bloom_words: u32,
    key: Seq<char>,
)
    requires
        table.wf(),
        spec_table_fits(table, n_bloom_words),
    ensures
        spec_file_error(spec_table_file(table, options, n_bloom_words)) is None,
        spec_file_get(spec_table_file(table, options, n_bloom_words), key) == if table@.contains_key(
            key,
        ) {
            Some(table@[key].spec_bytes())
        } else {
            None
        },
        spec_file_require(spec_table_file(table, options, n_bloom_words), key)
            == if table@.contains_key(key) {
            Ok::<Seq<u8>, GvdbReaderErrorView>(table@[key].spec_bytes())
        } else {
            Err::<Seq<u8>, GvdbReaderErrorView>(GvdbReaderErrorView::KeyError(key))
        },
{
    let data = spec_table_file(table, options, n_bloom_words);
    let chains = table.spec_chains();
    let all = table.spec_entries();
    let entries = spec_file_entries(all);
    let buckets = spec_bucket_starts(chains);
    let root = spec_file_header(data).root;
    lemma_table_file(table, options, n_bloom_words);
    lemma_table_keys(chains, key);
    lemma_lookup_in_stored(data, options, n_bloom_words, buckets, entries, encode_utf8(key));
    if spec_has_key(entries, encode_utf8(key)) {
        let index = spec_key_index(entries, encode_utf8(key));
        lemma_stored_item(data, options, n_bloom_words, buckets, entries, index);
    }
    lemma_stored_table(data, options, n_bloom_words, buckets, entries);
}

/// No item of a file that stores entries is defective.
proof fn lemma_no_defect(
    data: Seq<u8>,
    options: u32,
    n_bloom_words: u32,
    buckets: Seq<u32>,
    entries: Seq<GvdbFileEntry>,
    upto: int,
)
    requires
        spec_stores(data, options, n_bloom_words, buckets, entries),
        spec_bucketed(buckets, entries),
        upto <= entries.len(),
    ensures
        spec_first_defect(data, spec_file_header(data).root, upto) is None,
    decreases upto,
{
    if upto > 0 {
        let root = spec_file_header(data).root;
        lemma_no_defect(data, options, n_bloom_words, buckets, entries, upto - 1);
        lemma_stored_table(data, options, n_bloom_words, buckets, entries);
        lemma_stored_item(data, options, n_bloom_words, buckets, entries, upto - 1);
    }
}

/// A file that was written from a table lists the keys of the table in the
/// order in which the table walks them; every listed key is a key of the
/// table and is found when it is read, and every key of the table is
/// listed.
pub proof fn law_written_file_lists_keys(
    table: SimpleHashTable,
    options: u32,
    n_bloom_words: u32,
)
    requires
        table.wf(),
        spec_table_fits(table, n_bloom_words),
    ensures
        ({
            let data = spec_table_file(table, options, n_bloom_words);
            let root = spec_file_header(data).root;
            let all = table.spec_entries();
            &&& spec_names_error(data, root) is None
            &&& spec_n_hash_items(data, root) == all.len()
            &&& forall|i: int|
                0 <= i < all.len() ==> #[trigger] spec_full_name(data, root, i, all.len())
                    == Some(all[i].1.key)
            &&& forall|i: int|
                0 <= i < all.len() ==> table@.contains_key((#[trigger] all[i]).1.key)
                    && spec_file_get(data, all[i].1.key) == Some(
                    table@[all[i].1.key].spec_bytes(),
                )
            &&& forall|key: Seq<char>| #[trigger]
                table@.contains_key(key) ==> exists|i: int|
                    0 <= i < all.len() && (#[trigger] all[i]).1.key == key
        }),
{
    let data = spec_table_file(table, options, n_bloom_words);
    let chains = table.spec_chains();
    let all = table.spec_entries();
    let entries = spec_file_entries(all);
    let buckets = spec_bucket_starts(chains);
    let root = spec_file_header(data).root;
    let n = all.len();
    lemma_table_file(table, options, n_bloom_words);
    lemma_no_defect(data, options, n_bloom_words, buckets, entries, n as int);
    lemma_stored_table(data, options, n_bloom_words, buckets, entries);
    assert forall|i: int| 0 <= i < n implies #[trigger] spec_full_name(data, root, i, n) == Some(
        all[i].1.key,
    ) by {
        lemma_stored_item(data, options, n_bloom_words, buckets, entries, i);
        encode_utf8_decode_utf8(all[i].1.key);
    }
    assert forall|i: int| 0 <= i < n implies table@.contains_key((#[trigger] all[i]).1.key)
        && spec_file_get(data, all[i].1.key) == Some(table@[all[i].1.key].spec_bytes()) by {
        lemma_table_keys(chains, all[i].1.key);
        assert(entries[i].key == encode_utf8(all[i].1.key));
        law_written_file_reads_back(table, options, n_bloom_words, all[i].1.key);
    }
    assert forall|key: Seq<char>| #[trigger] table@.contains_key(key) implies exists|i: int|
        0 <= i < n && (#[trigger] all[i]).1.key == key by {
        lemma_table_keys(chains, key);
        let i = spec_key_index(entries, encode_utf8(key));
        encode_utf8_decode_utf8(key);
        encode_utf8_decode_utf8(all[i].1.key);
        assert(all[i].1.key == key);
    }
}

/// Where the bloom filter of a table rejects a hash, a lookup of a key with
/// this hash finds nothing, whatever the table holds.
pub proof fn law_bloom_rejection_finds_nothing(
    data: Seq<u8>,
    ptr: GvdbPointer,
    key: Seq<u8>,
    typ: char,
)
    requires
        !spec_bloom_filter(data, ptr, spec_djb_hash(key)),
    ensures
        spec_table_lookup(data, ptr, key, typ) is None,
{
}

/// The bloom filter of a written file is conservative: where it rejects a
/// hash, no item of the file carries this hash, and the table that the file
/// was written from holds no key with this hash.
pub proof fn law_bloom_filter_is_conservative(
    table: SimpleHashTable,
    options: u32,
    n_bloom_words: u32,
    hash_value: u32,
)
    requires
        table.wf(),
        spec_table_fits(table, n_bloom_words),
        !spec_bloom_filter(
            spec_table_file(table, options, n_bloom_words),
            spec_file_header(spec_table_file(table, options, n_bloom_words)).root,
            hash_value,
        ),
    ensures
        ({
            let data = spec_table_file(table, options, n_bloom_words);
            let root = spec_file_header(data).root;
            &&& forall|i: int|
                0 <= i < spec_n_hash_items(data, root) ==> (#[trigger] spec_hash_item(
                    data,
                    root,
                    i,
                )).hash_value != hash_value
            &&& forall|key: Seq<char>| #[trigger]
                table@.contains_key(key) ==> spec_djb_hash(encode_utf8(key)) != hash_value
        }),
{
    let data = spec_table_file(table, options, n_bloom_words);
    let chains = table.spec_chains();
    let all = table.spec_entries();
    let entries = spec_file_entries(all);
    let buckets = spec_bucket_starts(chains);
    let root = spec_file_header(data).root;
    lemma_table_file(table, options, n_bloom_words);
    lemma_stored_table(data, options, n_bloom_words, buckets, entries);
    assert forall|i: int| 0 <= i < spec_n_hash_items(data, root) implies (#[trigger] spec_hash_item(
        data,
        root,
        i,
    )).hash_value != hash_value by {
        lemma_stored_item(data, options, n_bloom_words, buckets, entries, i);
        lemma_bloom_filter_passes(data, options, n_bloom_words, buckets, entries, i);
    }
    assert forall|key: Seq<char>| #[trigger] table@.contains_key(key) implies spec_djb_hash(
        encode_utf8(key),
    ) != hash_value by {
        lemma_table_keys(chains, key);
        let i = spec_key_index(entries, encode_utf8(key));
        assert(entries[i].hash_value == spec_djb_hash(entries[i].key));
        lemma_bloom_filter_passes(data, options, n_bloom_words, buckets, entries, i);
    }
}

} // verus!
