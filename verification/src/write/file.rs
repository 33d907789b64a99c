//! Laying a table out as a GVDB file.
//!
//! A file is the header, the root hash table (its header, the bloom filter
//! words, the bucket array and the items), the keys of the items one after
//! the other, and the values, each at a multiple of 8 after zero bytes of
//! padding. Every item holds its whole key and has no parent.

use crate::read::hash::{spec_bloom_mask, spec_bloom_word_index};
use crate::read::hash_item::{GvdbHashHeader, GvdbHashItem, NO_PARENT};
use crate::read::header::{spec_zeros, GvdbHeader, GVDB_OPTION_BUNDLE};
use crate::read::pointer::GvdbPointer;
use crate::util::{spec_u32_le_bytes, write_u32_le};
use crate::write::error::{GvdbWriterError, GvdbWriterErrorView};
use crate::write::hash::{spec_entries_from, spec_tagged, SimpleHashTable};
use crate::write::item::{GvdbBuilderEntry, GvdbBuilderItem};
use vstd::prelude::*;
use vstd::string::StringExecFns;
use vstd::utf8::encode_utf8;

verus! {

/// What a file stores for one key.
pub struct GvdbFileEntry {
    pub hash_value: u32,
    pub key: Seq<u8>,
    pub value: Seq<u8>,
}

/// What a file stores for an entry of a table.
pub open spec fn spec_file_entry(entry: GvdbBuilderEntry) -> GvdbFileEntry {
    GvdbFileEntry {
        hash_value: entry.hash_value,
        key: encode_utf8(entry.key),
        value: entry.value.spec_bytes(),
    }
}

/// What a file stores for the entries of a table, in their order.
pub open spec fn spec_file_entries(entries: Seq<(int, GvdbBuilderEntry)>) -> Seq<GvdbFileEntry> {
    Seq::new(entries.len(), |i: int| spec_file_entry(entries[i].1))
}

/// The number of entries in the buckets before `bucket`, which is the index
/// of the first item of `bucket`.
pub open spec fn spec_bucket_start(chains: Seq<Seq<GvdbBuilderEntry>>, bucket: int) -> int {
    spec_entries_from(chains, 0).len() - spec_entries_from(chains, bucket).len()
}

/// The bucket array of a table.
pub open spec fn spec_bucket_starts(chains: Seq<Seq<GvdbBuilderEntry>>) -> Seq<u32> {
    Seq::new(chains.len(), |b: int| spec_bucket_start(chains, b) as u32)
}

/// The first multiple of 8 that is not below `offset`.
pub open spec fn spec_align8(offset: int) -> int {
    offset + (8 - offset % 8) % 8
}

/// The number of key bytes of the first `upto` entries.
pub open spec fn spec_keys_len(entries: Seq<GvdbFileEntry>, upto: int) -> int
    decreases upto,
{
    if upto <= 0 {
        0
    } else {
        spec_keys_len(entries, upto - 1) + entries[upto - 1].key.len()
    }
}

/// Where the values of the first `upto` entries end, when they are laid out
/// from `base` on, each at a multiple of 8.
pub open spec fn spec_values_end(entries: Seq<GvdbFileEntry>, base: int, upto: int) -> int
    decreases upto,
{
    if upto <= 0 {
        base
    } else {
        spec_align8(spec_values_end(entries, base, upto - 1)) + entries[upto - 1].value.len()
    }
}

/// Where the items start: after the file header, the table header, the bloom
/// filter words and the bucket array.
pub open spec fn spec_layout_items_offset(n_bloom_words: u32, n_buckets: nat) -> int {
    32 + 8 + 4 * n_bloom_words + 4 * n_buckets
}

/// Where the keys start, which is where the items and the root table end.
pub open spec fn spec_layout_keys_offset(
    n_bloom_words: u32,
    n_buckets: nat,
    entries: Seq<GvdbFileEntry>,
) -> int {
    spec_layout_items_offset(n_bloom_words, n_buckets) + 24 * entries.len()
}

/// Where the values start, which is where the keys end.
pub open spec fn spec_layout_values_offset(
    n_bloom_words: u32,
    n_buckets: nat,
    entries: Seq<GvdbFileEntry>,
) -> int {
    spec_layout_keys_offset(n_bloom_words, n_buckets, entries) + spec_keys_len(
        entries,
        entries.len() as int,
    )
}

/// The length of the file.
pub open spec fn spec_layout_len(
    n_bloom_words: u32,
    n_buckets: nat,
    entries: Seq<GvdbFileEntry>,
) -> int {
    spec_values_end(
        entries,
        spec_layout_values_offset(n_bloom_words, n_buckets, entries),
        entries.len() as int,
    )
}

/// The pointer to the root table: from behind the file header to the end of
/// the items.
pub open spec fn spec_layout_root(
    n_bloom_words: u32,
    n_buckets: nat,
    entries: Seq<GvdbFileEntry>,
) -> GvdbPointer {
    GvdbPointer {
        start: 32,
        end: spec_layout_keys_offset(n_bloom_words, n_buckets, entries) as u32,
    }
}

/// The item written for the `index`-th entry.
pub open spec fn spec_layout_item(
    n_bloom_words: u32,
    n_buckets: nat,
    entries: Seq<GvdbFileEntry>,
    index: int,
) -> GvdbHashItem {
    let values_offset = spec_layout_values_offset(n_bloom_words, n_buckets, entries);
    GvdbHashItem {
        hash_value: entries[index].hash_value,
        parent: NO_PARENT,
        key_start: (spec_layout_keys_offset(n_bloom_words, n_buckets, entries) + spec_keys_len(
            entries,
            index,
        )) as u32,
        key_size: entries[index].key.len() as u16,
        typ: 118,
        unused: 0,
        value: GvdbPointer {
            start: spec_align8(spec_values_end(entries, values_offset, index)) as u32,
            end: spec_values_end(entries, values_offset, index + 1) as u32,
        },
    }
}

/// The `word`-th bloom filter word after the hashes of the first `upto`
/// entries have set their bits.
pub open spec fn spec_bloom_word_of(
    entries: Seq<GvdbFileEntry>,
    n_bloom_words: u32,
    word: int,
    upto: int,
) -> u32
    decreases upto,
{
    if upto <= 0 {
        0
    } else {
        let before = spec_bloom_word_of(entries, n_bloom_words, word, upto - 1);
        let hash_value = entries[upto - 1].hash_value;
        if spec_bloom_word_index(hash_value, n_bloom_words) == word {
            before | spec_bloom_mask(hash_value)
        } else {
            before
        }
    }
}

/// The bloom filter words for a table.
pub open spec fn spec_bloom_words(entries: Seq<GvdbFileEntry>, n_bloom_words: u32) -> Seq<u32> {
    Seq::new(
        n_bloom_words as nat,
        |w: int| spec_bloom_word_of(entries, n_bloom_words, w, entries.len() as int),
    )
}

/// The bytes of the first `upto` words.
pub open spec fn spec_words_bytes(words: Seq<u32>, upto: int) -> Seq<u8>
    decreases upto,
{
    if upto <= 0 {
        Seq::empty()
    } else {
        spec_words_bytes(words, upto - 1) + spec_u32_le_bytes(words[upto - 1])
    }
}

/// The bytes of the first `upto` items.
pub open spec fn spec_items_bytes(items: Seq<GvdbHashItem>, upto: int) -> Seq<u8>
    decreases upto,
{
    if upto <= 0 {
        Seq::empty()
    } else {
        spec_items_bytes(items, upto - 1) + items[upto - 1].spec_to_bytes()
    }
}

/// The keys of the first `upto` entries, one after the other.
pub open spec fn spec_keys_bytes(entries: Seq<GvdbFileEntry>, upto: int) -> Seq<u8>
    decreases upto,
{
    if upto <= 0 {
        Seq::empty()
    } else {
        spec_keys_bytes(entries, upto - 1) + entries[upto - 1].key
    }
}

/// The values of the first `upto` entries, laid out from `base` on, each
/// after the zero bytes that bring it to a multiple of 8.
pub open spec fn spec_values_bytes(entries: Seq<GvdbFileEntry>, base: int, upto: int) -> Seq<u8>
    decreases upto,
{
    if upto <= 0 {
        Seq::empty()
    } else {
        let end = spec_values_end(entries, base, upto - 1);
        spec_values_bytes(entries, base, upto - 1) + spec_zeros((spec_align8(end) - end) as nat)
            + entries[upto - 1].value
    }
}

/// The items written for `entries`.
pub open spec fn spec_layout_items(
    n_bloom_words: u32,
    n_buckets: nat,
    entries: Seq<GvdbFileEntry>,
) -> Seq<GvdbHashItem> {
    Seq::new(entries.len(), |i: int| spec_layout_item(n_bloom_words, n_buckets, entries, i))
}

/// The bytes of the file that stores `entries` with this bucket array.
#[verifier::opaque]
pub open spec fn spec_file_bytes(
    options: u32,
    n_bloom_words: u32,
    buckets: Seq<u32>,
    entries: Seq<GvdbFileEntry>,
) -> Seq<u8> {
    GvdbHeader::spec_new(
        options,
        spec_layout_root(n_bloom_words, buckets.len(), entries),
    ).spec_to_bytes() + (GvdbHashHeader {
        n_bloom_words,
        n_buckets: buckets.len() as u32,
    }).spec_to_bytes() + spec_words_bytes(
        spec_bloom_words(entries, n_bloom_words),
        n_bloom_words as int,
    ) + spec_words_bytes(buckets, buckets.len() as int) + spec_items_bytes(
        spec_layout_items(n_bloom_words, buckets.len(), entries),
        entries.len() as int,
    ) + spec_keys_bytes(entries, entries.len() as int) + spec_values_bytes(
        entries,
        spec_layout_values_offset(n_bloom_words, buckets.len(), entries),
        entries.len() as int,
    )
}

/// Why a table cannot be stored in a file, or `None` where it can: the
/// number of bloom filter words must fit in 27 bits and the number of
/// buckets in 32, no key may take more than 65535 bytes, and the length of
/// the file must fit in 32 bits.
pub open spec fn spec_layout_error(
    n_bloom_words: u32,
    n_buckets: nat,
    entries: Seq<GvdbFileEntry>,
) -> Option<Seq<char>> {
    if n_bloom_words >= 0x800_0000 {
        Some("Too many bloom filter words"@)
    } else if n_buckets > u32::MAX {
        Some("Too many buckets"@)
    } else if exists|i: int| 0 <= i < entries.len() && (#[trigger] entries[i]).key.len() > 0xffff {
        Some("Key is too long"@)
    } else if spec_layout_len(n_bloom_words, n_buckets, entries) > u32::MAX {
        Some("File is too large"@)
    } else {
        None
    }
}

/// The end of the values grows with the number of entries, and lies at or
/// behind the base.
pub proof fn lemma_values_end_monotonic(
    entries: Seq<GvdbFileEntry>,
    base: int,
    upto: int,
    more: int,
)
    requires
        0 <= base,
        upto <= more,
    ensures
        base <= spec_values_end(entries, base, upto) <= spec_values_end(entries, base, more),
    decreases more,
{
    if more > 0 {
        if upto < more {
            lemma_values_end_monotonic(entries, base, upto, more - 1);
        } else {
            lemma_values_end_monotonic(entries, base, upto - 1, more - 1);
        }
    }
}

/// The number of key bytes grows with the number of entries.
pub proof fn lemma_keys_len_monotonic(entries: Seq<GvdbFileEntry>, upto: int, more: int)
    requires
        upto <= more,
    ensures
        0 <= spec_keys_len(entries, upto) <= spec_keys_len(entries, more),
    decreases more,
{
    if more > 0 {
        if upto < more {
            lemma_keys_len_monotonic(entries, upto, more - 1);
        } else {
            lemma_keys_len_monotonic(entries, upto - 1, more - 1);
        }
    }
}

} // verus!

verus! {

/// Every word takes four bytes.
pub proof fn lemma_words_bytes_len(words: Seq<u32>, upto: int)
    requires
        0 <= upto,
    ensures
        spec_words_bytes(words, upto).len() == 4 * upto,
    decreases upto,
{
    if upto > 0 {
        lemma_words_bytes_len(words, upto - 1);
    }
}

/// Every item takes 24 bytes.
pub proof fn lemma_items_bytes_len(items: Seq<GvdbHashItem>, upto: int)
    requires
        0 <= upto,
    ensures
        spec_items_bytes(items, upto).len() == 24 * upto,
    decreases upto,
{
    if upto > 0 {
        lemma_items_bytes_len(items, upto - 1);
    }
}

/// The keys take as many bytes as they have.
pub proof fn lemma_keys_bytes_len(entries: Seq<GvdbFileEntry>, upto: int)
    requires
        0 <= upto,
    ensures
        spec_keys_bytes(entries, upto).len() == spec_keys_len(entries, upto),
    decreases upto,
{
    if upto > 0 {
        lemma_keys_bytes_len(entries, upto - 1);
    }
}

/// The values with their padding reach from the base to their end.
pub proof fn lemma_values_bytes_len(entries: Seq<GvdbFileEntry>, base: int, upto: int)
    requires
        0 <= base,
        0 <= upto,
    ensures
        spec_values_bytes(entries, base, upto).len() == spec_values_end(entries, base, upto)
            - base,
    decreases upto,
{
    if upto > 0 {
        lemma_values_bytes_len(entries, base, upto - 1);
        lemma_values_end_monotonic(entries, base, 0, upto - 1);
    }
}

/// What the items collected from a table stand for in the file.
pub open spec fn spec_items_match(
    items: Seq<&GvdbBuilderItem>,
    entries: Seq<GvdbFileEntry>,
) -> bool {
    &&& items.len() == entries.len()
    &&& forall|i: int|
        0 <= i < items.len() ==> spec_file_entry((#[trigger] items[i]).spec_entry()) == entries[i]
}

/// Collects the items of a table bucket by bucket, each chain from its head
/// on, and the index of the first item of every bucket.
fn collect_items<'a>(table: &'a SimpleHashTable) -> (r: (Vec<usize>, Vec<&'a GvdbBuilderItem>))
    ensures
        r.0@.len() == table.spec_n_buckets(),
        forall|b: int|
            0 <= b < r.0@.len() ==> (#[trigger] r.0@[b]) == spec_bucket_start(
                table.spec_chains(),
                b,
            ),
        spec_items_match(r.1@, spec_file_entries(table.spec_entries())),
{
    let n_buckets = table.n_buckets();
    let ghost chains = table.spec_chains();
    let ghost all = spec_entries_from(chains, 0);
    let mut starts: Vec<usize> = Vec::new();
    let mut items: Vec<&'a GvdbBuilderItem> = Vec::new();
    let ghost mut done: Seq<(int, GvdbBuilderEntry)> = Seq::empty();
    let mut bucket: usize = 0;
    proof {
        assert(done + spec_entries_from(chains, 0) =~= all);
    }
    while bucket < n_buckets
        invariant
            bucket <= n_buckets,
            n_buckets == chains.len(),
            chains == table.spec_chains(),
            all == spec_entries_from(chains, 0),
            starts@.len() == bucket,
            forall|b: int|
                0 <= b < bucket ==> (#[trigger] starts@[b]) == spec_bucket_start(chains, b),
            done.len() == items@.len(),
            forall|i: int| 0 <= i < items@.len() ==> (#[trigger] items@[i]).spec_entry() == done[i].1,
            done + spec_entries_from(chains, bucket as int) == all,
        decreases n_buckets - bucket,
    {
        starts.push(items.len());
        let ghost chain = chains[bucket as int];
        let ghost before = done;
        let ghost mut taken: int = 0;
        let mut iter = table.iter_bucket(bucket);
        let mut next = iter.next();
        proof {
            assert(chain.skip(0) =~= chain);
            assert(before + spec_tagged(chain.take(0), bucket as int) =~= done);
            if next is Some {
                assert(chain.skip(0).skip(1) =~= chain.skip(1));
            }
        }
        while next.is_some()
            invariant
                0 <= taken <= chain.len(),
                chain == chains[bucket as int],
                done.len() == items@.len(),
                forall|i: int|
                    0 <= i < items@.len() ==> (#[trigger] items@[i]).spec_entry() == done[i].1,
                done == before + spec_tagged(chain.take(taken), bucket as int),
                match next {
                    Some(item) => taken < chain.len() && item.spec_entry() == chain[taken]
                        && iter.spec_remaining() == chain.skip(taken + 1),
                    None => taken == chain.len(),
                },
            decreases chain.len() - taken,
        {
            let item = next.unwrap();
            proof {
                assert(before + spec_tagged(chain.take(taken + 1), bucket as int) =~= done.push(
                    (bucket as int, item.spec_entry()),
                ));
                done = done.push((bucket as int, item.spec_entry()));
                taken = taken + 1;
            }
            items.push(item);
            next = iter.next();
            proof {
                if next is Some {
                    assert(chain.skip(taken)[0] == chain[taken]);
                    assert(chain.skip(taken).skip(1) =~= chain.skip(taken + 1));
                }
            }
        }
        proof {
            assert(chain.take(taken) =~= chain);
            assert(done + spec_entries_from(chains, bucket + 1) =~= before + spec_entries_from(
                chains,
                bucket as int,
            ));
        }
        bucket += 1;
    }
    proof {
        assert(done =~= all);
    }
    (starts, items)
}

/// Computes the bloom filter words: every item sets the bits of its hash in
/// the word of its hash.
fn bloom_words(
    items: &Vec<&GvdbBuilderItem>,
    n_bloom_words: u32,
    Ghost(entries): Ghost<Seq<GvdbFileEntry>>,
) -> (words: Vec<u32>)
    requires
        spec_items_match(items@, entries),
    ensures
        words@ == spec_bloom_words(entries, n_bloom_words),
{
    let mut words: Vec<u32> = Vec::new();
    let mut w: u32 = 0;
    while w < n_bloom_words
        invariant
            w <= n_bloom_words,
            words@.len() == w,
            forall|j: int| 0 <= j < w ==> (#[trigger] words@[j]) == 0,
        decreases n_bloom_words - w,
    {
        words.push(0);
        w += 1;
    }
    if n_bloom_words == 0 {
        proof {
            assert(words@ =~= spec_bloom_words(entries, n_bloom_words));
        }
        return words;
    }
    let mut i: usize = 0;
    while i < items.len()
        invariant
            i <= items@.len(),
            n_bloom_words > 0,
            spec_items_match(items@, entries),
            words@.len() == n_bloom_words,
            forall|j: int|
                0 <= j < n_bloom_words ==> (#[trigger] words@[j]) == spec_bloom_word_of(
                    entries,
                    n_bloom_words,
                    j,
                    i as int,
                ),
        decreases items@.len() - i,
    {
        let hash_value = items[i].hash_value();
        let index = ((hash_value / 32) % n_bloom_words) as usize;
        proof {
            assert(hash_value & 31 < 32) by (bit_vector);
            assert((hash_value >> 0u32) & 31 < 32) by (bit_vector);
            assert(spec_file_entry(items@[i as int].spec_entry()) == entries[i as int]);
        }
        let mask: u32 = (1u32 << (hash_value & 31)) | (1u32 << ((hash_value >> 0u32) & 31));
        let word = words[index];
        words.set(index, word | mask);
        i += 1;
    }
    proof {
        assert(words@ =~= spec_bloom_words(entries, n_bloom_words));
    }
    words
}

/// The message of the error for a table that cannot be stored, where the
/// cause lies in the keys or in the sizes.
pub open spec fn spec_plan_error(
    n_bloom_words: u32,
    n_buckets: nat,
    entries: Seq<GvdbFileEntry>,
) -> Option<Seq<char>> {
    if exists|i: int| 0 <= i < entries.len() && (#[trigger] entries[i]).key.len() > 0xffff {
        Some("Key is too long"@)
    } else if spec_layout_len(n_bloom_words, n_buckets, entries) > u32::MAX {
        Some("File is too large"@)
    } else {
        None
    }
}

/// The file is at least as long as its items, and ends behind its keys.
proof fn lemma_layout_len_bounds(n_bloom_words: u32, n_buckets: nat, entries: Seq<GvdbFileEntry>)
    ensures
        24 * entries.len() <= spec_layout_keys_offset(n_bloom_words, n_buckets, entries)
            <= spec_layout_values_offset(n_bloom_words, n_buckets, entries) <= spec_layout_len(
            n_bloom_words,
            n_buckets,
            entries,
        ),
{
    lemma_keys_len_monotonic(entries, 0, entries.len() as int);
    lemma_values_end_monotonic(
        entries,
        spec_layout_values_offset(n_bloom_words, n_buckets, entries),
        0,
        entries.len() as int,
    );
}

fn too_large() -> (e: GvdbWriterError)
    ensures
        e@ == GvdbWriterErrorView::Consistency("File is too large"@),
{
    GvdbWriterError::Consistency(String::from_str("File is too large"))
}

/// Assigns every item its place: where its key and its value go.
fn plan_items(
    items: &Vec<&GvdbBuilderItem>,
    n_bloom_words: u32,
    n_buckets: usize,
    Ghost(entries): Ghost<Seq<GvdbFileEntry>>,
) -> (r: Result<Vec<GvdbHashItem>, GvdbWriterError>)
    requires
        spec_items_match(items@, entries),
        n_bloom_words < 0x800_0000,
        n_buckets <= u32::MAX,
    ensures
        match spec_plan_error(n_bloom_words, n_buckets as nat, entries) {
            Some(text) => r matches Err(e) && e@ == GvdbWriterErrorView::Consistency(text),
            None => r matches Ok(records) && records@ == spec_layout_items(
                n_bloom_words,
                n_buckets as nat,
                entries,
            ),
        },
{
    let count = items.len();
    let ghost nb = n_buckets as nat;
    let mut i: usize = 0;
    while i < count
        invariant
            i <= count,
            count == items@.len(),
            spec_items_match(items@, entries),
            forall|j: int| 0 <= j < i ==> (#[trigger] entries[j]).key.len() <= 0xffff,
        decreases count - i,
    {
        proof {
            assert(spec_file_entry(items@[i as int].spec_entry()) == entries[i as int]);
        }
        if items[i].key().as_bytes().len() > 0xffff {
            proof {
                assert(entries[i as int].key.len() > 0xffff);
            }
            return Err(GvdbWriterError::Consistency(String::from_str("Key is too long")));
        }
        i += 1;
    }
    proof {
        lemma_layout_len_bounds(n_bloom_words, nb, entries);
    }
    if count > 0xffff_ffff {
        return Err(too_large());
    }
    let keys_offset: u64 = 40 + 4 * (n_bloom_words as u64) + 4 * (n_buckets as u64) + 24 * (
    count as u64);
    let mut key_starts: Vec<u32> = Vec::new();
    let mut pos: u64 = keys_offset;
    let mut i: usize = 0;
    while i < count
        invariant
            i <= count,
            count == items@.len(),
            count <= 0xffff_ffff,
            spec_items_match(items@, entries),
            forall|j: int| 0 <= j < count ==> (#[trigger] entries[j]).key.len() <= 0xffff,
            keys_offset == spec_layout_keys_offset(n_bloom_words, nb, entries),
            pos == keys_offset + spec_keys_len(entries, i as int),
            pos <= 0x20_0000_0000,
            nb == n_buckets as nat,
            key_starts@.len() == i,
            forall|j: int|
                0 <= j < i ==> (#[trigger] key_starts@[j]) == keys_offset + spec_keys_len(
                    entries,
                    j,
                ),
            spec_layout_keys_offset(n_bloom_words, nb, entries) <= spec_layout_values_offset(
                n_bloom_words,
                nb,
                entries,
            ) <= spec_layout_len(n_bloom_words, nb, entries),
        decreases count - i,
    {
        proof {
            assert(spec_file_entry(items@[i as int].spec_entry()) == entries[i as int]);
            assert(entries[i as int].key.len() <= 0xffff);
            lemma_keys_len_monotonic(entries, i as int, count as int);
        }
        if pos > 0xffff_ffff {
            return Err(too_large());
        }
        key_starts.push(pos as u32);
        pos = pos + items[i].key().as_bytes().len() as u64;
        i += 1;
    }
    if pos > 0xffff_ffff {
        return Err(too_large());
    }
    let values_offset = pos;
    let mut records: Vec<GvdbHashItem> = Vec::new();
    let mut i: usize = 0;
    while i < count
        invariant
            i <= count,
            count == items@.len(),
            spec_items_match(items@, entries),
            forall|j: int| 0 <= j < count ==> (#[trigger] entries[j]).key.len() <= 0xffff,
            keys_offset == spec_layout_keys_offset(n_bloom_words, nb, entries),
            values_offset == spec_layout_values_offset(n_bloom_words, nb, entries),
            pos == spec_values_end(entries, values_offset as int, i as int),
            pos <= 0xffff_ffff,
            nb == n_buckets as nat,
            key_starts@.len() == count,
            forall|j: int|
                0 <= j < count ==> (#[trigger] key_starts@[j]) == keys_offset + spec_keys_len(
                    entries,
                    j,
                ),
            records@.len() == i,
            forall|j: int|
                0 <= j < i ==> (#[trigger] records@[j]) == spec_layout_item(
                    n_bloom_words,
                    nb,
                    entries,
                    j,
                ),
        decreases count - i,
    {
        let item = items[i];
        proof {
            assert(spec_file_entry(items@[i as int].spec_entry()) == entries[i as int]);
            assert(entries[i as int].key.len() <= 0xffff);
            lemma_values_end_monotonic(entries, values_offset as int, i + 1, count as int);
        }
        let value = item.value_ref().value().unwrap();
        let start = pos + (8 - pos % 8) % 8;
        if value.len() > 0xffff_ffff {
            return Err(too_large());
        }
        let end = start + value.len() as u64;
        if end > 0xffff_ffff {
            return Err(too_large());
        }
        records.push(
            GvdbHashItem {
                hash_value: item.hash_value(),
                parent: NO_PARENT,
                key_start: key_starts[i],
                key_size: item.key().as_bytes().len() as u16,
                typ: 118,
                unused: 0,
                value: GvdbPointer { start: start as u32, end: end as u32 },
            },
        );
        pos = end;
        i += 1;
    }
    proof {
        assert(records@ =~= spec_layout_items(n_bloom_words, nb, entries));
    }
    Ok(records)
}

/// Appends the little-endian bytes of every word.
fn write_words(out: &mut Vec<u8>, words: &Vec<u32>)
    ensures
        final(out)@ == old(out)@ + spec_words_bytes(words@, words@.len() as int),
{
    let mut i: usize = 0;
    proof {
        assert(out@ =~= old(out)@ + spec_words_bytes(words@, 0));
    }
    while i < words.len()
        invariant
            i <= words@.len(),
            out@ == old(out)@ + spec_words_bytes(words@, i as int),
        decreases words@.len() - i,
    {
        write_u32_le(out, words[i]);
        proof {
            assert(out@ =~= old(out)@ + spec_words_bytes(words@, i + 1));
        }
        i += 1;
    }
}

/// Appends the bytes of every item.
fn write_items(out: &mut Vec<u8>, records: &Vec<GvdbHashItem>)
    ensures
        final(out)@ == old(out)@ + spec_items_bytes(records@, records@.len() as int),
{
    let mut i: usize = 0;
    proof {
        assert(out@ =~= old(out)@ + spec_items_bytes(records@, 0));
    }
    while i < records.len()
        invariant
            i <= records@.len(),
            out@ == old(out)@ + spec_items_bytes(records@, i as int),
        decreases records@.len() - i,
    {
        records[i].write(out);
        proof {
            assert(out@ =~= old(out)@ + spec_items_bytes(records@, i + 1));
        }
        i += 1;
    }
}

/// Appends the key of every item.
fn write_keys(out: &mut Vec<u8>, items: &Vec<&GvdbBuilderItem>, Ghost(entries): Ghost<Seq<GvdbFileEntry>>)
    requires
        spec_items_match(items@, entries),
    ensures
        final(out)@ == old(out)@ + spec_keys_bytes(entries, entries.len() as int),
{
    let mut i: usize = 0;
    proof {
        assert(out@ =~= old(out)@ + spec_keys_bytes(entries, 0));
    }
    while i < items.len()
        invariant
            i <= items@.len(),
            spec_items_match(items@, entries),
            out@ == old(out)@ + spec_keys_bytes(entries, i as int),
        decreases items@.len() - i,
    {
        proof {
            assert(spec_file_entry(items@[i as int].spec_entry()) == entries[i as int]);
        }
        out.extend_from_slice(items[i].key().as_bytes());
        proof {
            assert(out@ =~= old(out)@ + spec_keys_bytes(entries, i + 1));
        }
        i += 1;
    }
}

/// Appends the value of every item, each after the zero bytes that bring it
/// to a multiple of 8.
fn write_values(out: &mut Vec<u8>, items: &Vec<&GvdbBuilderItem>, Ghost(entries): Ghost<Seq<GvdbFileEntry>>)
    requires
        spec_items_match(items@, entries),
    ensures
        final(out)@ == old(out)@ + spec_values_bytes(
            entries,
            old(out)@.len() as int,
            entries.len() as int,
        ),
{
    let ghost base = out@.len() as int;
    let mut i: usize = 0;
    proof {
        assert(out@ =~= old(out)@ + spec_values_bytes(entries, base, 0));
    }
    while i < items.len()
        invariant
            i <= items@.len(),
            base == old(out)@.len(),
            spec_items_match(items@, entries),
            out@ == old(out)@ + spec_values_bytes(entries, base, i as int),
            out@.len() == spec_values_end(entries, base, i as int),
        decreases items@.len() - i,
    {
        let ghost at_item = out@;
        let ghost end = spec_values_end(entries, base, i as int);
        proof {
            assert(spec_file_entry(items@[i as int].spec_entry()) == entries[i as int]);
        }
        while out.len() % 8 != 0
            invariant
                end == at_item.len(),
                end <= out@.len() <= spec_align8(end),
                out@ == at_item + spec_zeros((out@.len() - end) as nat),
            decreases spec_align8(end) - out@.len(),
        {
            out.push(0);
            proof {
                assert(out@ =~= at_item + spec_zeros((out@.len() - end) as nat));
            }
        }
        proof {
            assert(out@.len() == spec_align8(end));
        }
        out.extend_from_slice(items[i].value_ref().value().unwrap().as_slice());
        proof {
            assert(out@ =~= old(out)@ + spec_values_bytes(entries, base, i + 1));
        }
        i += 1;
    }
}

/// Writes the parts of a file one after the other.
fn write_parts(
    header: &GvdbHeader,
    table_header: &GvdbHashHeader,
    words: &Vec<u32>,
    buckets: &Vec<u32>,
    records: &Vec<GvdbHashItem>,
    items: &Vec<&GvdbBuilderItem>,
    Ghost(entries): Ghost<Seq<GvdbFileEntry>>,
) -> (out: Vec<u8>)
    requires
        spec_items_match(items@, entries),
        records@.len() == entries.len(),
    ensures
        out@ == header.spec_to_bytes() + table_header.spec_to_bytes() + spec_words_bytes(
            words@,
            words@.len() as int,
        ) + spec_words_bytes(buckets@, buckets@.len() as int) + spec_items_bytes(
            records@,
            records@.len() as int,
        ) + spec_keys_bytes(entries, entries.len() as int) + spec_values_bytes(
            entries,
            32 + 8 + 4 * words@.len() + 4 * buckets@.len() + 24 * entries.len() + spec_keys_len(
                entries,
                entries.len() as int,
            ),
            entries.len() as int,
        ),
{
    let mut out: Vec<u8> = Vec::new();
    header.write(&mut out);
    table_header.write(&mut out);
    write_words(&mut out, words);
    write_words(&mut out, buckets);
    write_items(&mut out, records);
    write_keys(&mut out, items, Ghost(entries));
    proof {
        crate::read::header::lemma_header_roundtrip(*header);
        crate::read::hash_item::lemma_hash_header_roundtrip(*table_header);
        lemma_words_bytes_len(words@, words@.len() as int);
        lemma_words_bytes_len(buckets@, buckets@.len() as int);
        lemma_items_bytes_len(records@, records@.len() as int);
        lemma_keys_bytes_len(entries, entries.len() as int);
    }
    write_values(&mut out, items, Ghost(entries));
    out
}

/// Writes tables out as GVDB files.
#[derive(Debug, Clone, Copy)]
pub struct GvdbFileWriter {
    n_bloom_words: u32,
    bundle: bool,
}

impl GvdbFileWriter {
    /// The number of bloom filter words that a file gets.
    pub closed spec fn spec_n_bloom_words(&self) -> u32 {
        self.n_bloom_words
    }

    /// The options that a file gets: the bundle bit or nothing.
    pub closed spec fn spec_options(&self) -> u32 {
        if self.bundle {
            GVDB_OPTION_BUNDLE
        } else {
            0
        }
    }

    /// A writer of files without bloom filter that are not marked as bundles.
    pub fn new() -> (writer: GvdbFileWriter)
        ensures
            writer.spec_n_bloom_words() == 0,
            writer.spec_options() == 0,
    {
        GvdbFileWriter { n_bloom_words: 0, bundle: false }
    }

    /// A writer of files with this number of bloom filter words, marked as
    /// bundles or not.
    pub fn with_bloom_words(n_bloom_words: u32, bundle: bool) -> (writer: GvdbFileWriter)
        ensures
            writer.spec_n_bloom_words() == n_bloom_words,
            writer.spec_options() == if bundle {
                GVDB_OPTION_BUNDLE
            } else {
                0
            },
    {
        GvdbFileWriter { n_bloom_words, bundle }
    }

    /// The bytes of the file that stores the entries of `table`.
    pub fn write_to_vec(&self, table: &SimpleHashTable) -> (r: Result<Vec<u8>, GvdbWriterError>)
        ensures
            match spec_layout_error(
                self.spec_n_bloom_words(),
                table.spec_n_buckets(),
                spec_file_entries(table.spec_entries()),
            ) {
                Some(text) => r matches Err(e) && e@ == GvdbWriterErrorView::Consistency(text),
                None => r matches Ok(out) && out@ == spec_file_bytes(
                    self.spec_options(),
                    self.spec_n_bloom_words(),
                    spec_bucket_starts(table.spec_chains()),
                    spec_file_entries(table.spec_entries()),
                ),
            },
    {
        let n_bloom_words = self.n_bloom_words;
        let n_buckets = table.n_buckets();
        let ghost entries = spec_file_entries(table.spec_entries());
        let ghost chains = table.spec_chains();
        if n_bloom_words >= 0x800_0000 {
            return Err(
                GvdbWriterError::Consistency(String::from_str("Too many bloom filter words")),
            );
        }
        if n_buckets > 0xffff_ffff {
            return Err(GvdbWriterError::Consistency(String::from_str("Too many buckets")));
        }
        let (starts, items) = collect_items(table);
        let records = match plan_items(&items, n_bloom_words, n_buckets, Ghost(entries)) {
            Ok(records) => records,
            Err(e) => {
                return Err(e);
            },
        };
        proof {
            lemma_layout_len_bounds(n_bloom_words, n_buckets as nat, entries);
        }
        let words = bloom_words(&items, n_bloom_words, Ghost(entries));
        let mut buckets: Vec<u32> = Vec::new();
        let mut b: usize = 0;
        while b < n_buckets
            invariant
                b <= n_buckets,
                n_buckets == starts@.len(),
                n_buckets == chains.len(),
                entries.len() <= u32::MAX,
                entries.len() == spec_entries_from(chains, 0).len(),
                forall|c: int|
                    0 <= c < n_buckets ==> (#[trigger] starts@[c]) == spec_bucket_start(chains, c),
                buckets@.len() == b,
                forall|c: int|
                    0 <= c < b ==> (#[trigger] buckets@[c]) == spec_bucket_start(chains, c) as u32,
            decreases n_buckets - b,
        {
            proof {
                assert(starts@[b as int] == spec_bucket_start(chains, b as int));
            }
            buckets.push(starts[b] as u32);
            b += 1;
        }
        proof {
            assert(buckets@ =~= spec_bucket_starts(chains));
        }
        let keys_offset = 40 + 4 * (n_bloom_words as u64) + 4 * (n_buckets as u64) + 24 * (
        items.len() as u64);
        let options = if self.bundle {
            GVDB_OPTION_BUNDLE
        } else {
            0
        };
        let header = GvdbHeader::new(options, GvdbPointer { start: 32, end: keys_offset as u32 });
        let table_header = GvdbHashHeader::new(n_bloom_words, n_buckets as u32);
        let out = write_parts(&header, &table_header, &words, &buckets, &records, &items, Ghost(entries));
        proof {
            reveal(spec_file_bytes);
        }
        Ok(out)
    }
}

} // verus!
