//! The hash table in which keys and values are collected before a file is
//! written: a fixed number of buckets, each the head of a chain of items.

use crate::util::{djb_hash, spec_djb_hash};
use crate::write::item::{
    chain_get, chain_head, chain_prepend, chain_remove, chain_replace, lemma_chain_from, lemma_chain_none, spec_chain,
    spec_chain_contains, spec_chain_distinct, spec_chain_index, GvdbBuilderEntry, GvdbBuilderItem,
    GvdbBuilderItemValue,
};
use vstd::prelude::*;
use vstd::utf8::encode_utf8;

verus! {

/// The bucket of a key in a table of `n_buckets` buckets: the hash of the
/// key modulo the number of buckets.
pub open spec fn spec_key_bucket(key: Seq<char>, n_buckets: nat) -> int {
    spec_djb_hash(encode_utf8(key)) as int % n_buckets as int
}

/// What holds of the chain of bucket `bucket`: no key occurs twice, and each
/// entry carries the hash of its key and lies in the bucket of that hash.
pub open spec fn spec_bucket_wf(chain: Seq<GvdbBuilderEntry>, bucket: int, n_buckets: nat) -> bool {
    &&& spec_chain_distinct(chain)
    &&& forall|i: int|
        0 <= i < chain.len() ==> (#[trigger] chain[i]).hash_value == spec_djb_hash(
            encode_utf8(chain[i].key),
        ) && spec_key_bucket(chain[i].key, n_buckets) == bucket
}

/// The entries of a chain, each with the index of its bucket.
pub open spec fn spec_tagged(chain: Seq<GvdbBuilderEntry>, bucket: int) -> Seq<
    (int, GvdbBuilderEntry),
> {
    Seq::new(chain.len(), |i: int| (bucket, chain[i]))
}

/// The entries of the chains from bucket `from` on, bucket after bucket.
pub open spec fn spec_entries_from(chains: Seq<Seq<GvdbBuilderEntry>>, from: int) -> Seq<
    (int, GvdbBuilderEntry),
>
    decreases chains.len() - from,
{
    if from < 0 || from >= chains.len() {
        Seq::empty()
    } else {
        spec_tagged(chains[from], from) + spec_entries_from(chains, from + 1)
    }
}

/// The entry for `key` among the chains: the one with this key in the chain
/// of the key's bucket.
pub open spec fn spec_chains_get(chains: Seq<Seq<GvdbBuilderEntry>>, key: Seq<char>) -> Option<
    GvdbBuilderEntry,
> {
    if chains.len() == 0 {
        None
    } else {
        let chain = chains[spec_key_bucket(key, chains.len())];
        if spec_chain_contains(chain, key) {
            Some(chain[spec_chain_index(chain, key)])
        } else {
            None
        }
    }
}

/// Every chain is as [`spec_bucket_wf`] says.
pub open spec fn spec_chains_wf(chains: Seq<Seq<GvdbBuilderEntry>>) -> bool {
    forall|b: int| 0 <= b < chains.len() ==> spec_bucket_wf(#[trigger] chains[b], b, chains.len())
}

/// The value of each key that the chains hold.
pub open spec fn spec_chains_map(chains: Seq<Seq<GvdbBuilderEntry>>) -> Map<
    Seq<char>,
    GvdbBuilderItemValue,
> {
    Map::new(
        |key: Seq<char>| spec_chains_get(chains, key) is Some,
        |key: Seq<char>| spec_chains_get(chains, key).unwrap().value,
    )
}

/// In a chain without repeated keys, an entry is the one found for its key.
pub proof fn lemma_chain_index_unique(chain: Seq<GvdbBuilderEntry>, i: int)
    requires
        spec_chain_distinct(chain),
        0 <= i < chain.len(),
    ensures
        spec_chain_contains(chain, chain[i].key),
        spec_chain_index(chain, chain[i].key) == i,
{
    let j = spec_chain_index(chain, chain[i].key);
    assert(chain[j].key == chain[i].key);
}

/// What is found after the entry for `key` got a new value in place.
proof fn lemma_get_after_replace(
    chains: Seq<Seq<GvdbBuilderEntry>>,
    key: Seq<char>,
    i: int,
    entry: GvdbBuilderEntry,
)
    requires
        chains.len() > 0,
        spec_chains_wf(chains),
        0 <= i < chains[spec_key_bucket(key, chains.len())].len(),
        chains[spec_key_bucket(key, chains.len())][i].key == key,
        entry.key == key,
        entry.hash_value == chains[spec_key_bucket(key, chains.len())][i].hash_value,
    ensures
        ({
            let b = spec_key_bucket(key, chains.len());
            let after = chains.update(b, chains[b].update(i, entry));
            &&& spec_chains_wf(after)
            &&& spec_chains_get(chains, key) is Some
            &&& forall|k: Seq<char>| #[trigger]
                spec_chains_get(after, k) == if k == key {
                    Some(entry)
                } else {
                    spec_chains_get(chains, k)
                }
            &&& spec_chains_map(after) == spec_chains_map(chains).insert(key, entry.value)
            &&& spec_chains_map(after).dom() == spec_chains_map(chains).dom()
        }),
{
    let n = chains.len();
    let b = spec_key_bucket(key, n);
    let chain = chains[b];
    let new_chain = chain.update(i, entry);
    let after = chains.update(b, new_chain);
    assert(spec_bucket_wf(chain, b, n));
    assert(spec_chain_distinct(new_chain)) by {
        assert forall|x: int, y: int| 0 <= x < y < new_chain.len() implies (
        #[trigger] new_chain[x]).key != (#[trigger] new_chain[y]).key by {
            assert(chain[x].key != chain[y].key);
        }
    }
    assert(spec_chains_wf(after)) by {
        assert forall|c: int| 0 <= c < after.len() implies spec_bucket_wf(
            #[trigger] after[c],
            c,
            after.len(),
        ) by {
            assert(spec_bucket_wf(chains[c], c, n));
            if c == b {
                assert forall|x: int| 0 <= x < new_chain.len() implies (#[trigger] new_chain[x]).hash_value
                    == spec_djb_hash(encode_utf8(new_chain[x].key)) && spec_key_bucket(
                    new_chain[x].key,
                    n,
                ) == b by {
                    assert(chain[x].hash_value == spec_djb_hash(encode_utf8(chain[x].key)));
                }
            }
        }
    }
    lemma_chain_index_unique(chain, i);
    assert forall|k: Seq<char>| #[trigger]
        spec_chains_get(after, k) == if k == key {
            Some(entry)
        } else {
            spec_chains_get(chains, k)
        } by {
        let c = spec_key_bucket(k, n);
        assert(0 <= c < n) by (nonlinear_arith)
            requires
                c == spec_djb_hash(encode_utf8(k)) as int % n as int,
                n > 0,
        ;
        if k == key {
            lemma_chain_index_unique(new_chain, i);
        } else if c == b {
            if spec_chain_contains(chain, k) {
                let j = spec_chain_index(chain, k);
                assert(new_chain[j] == chain[j]);
                lemma_chain_index_unique(new_chain, j);
            }
            if spec_chain_contains(new_chain, k) {
                let j = spec_chain_index(new_chain, k);
                assert(chain[j] == new_chain[j]);
                lemma_chain_index_unique(chain, j);
            }
        }
    }
    assert(spec_chains_map(after) =~= spec_chains_map(chains).insert(key, entry.value));
    assert(spec_chains_map(after).dom() =~= spec_chains_map(chains).dom());
}

/// What is found after a new entry was put at the head of its bucket.
proof fn lemma_get_after_prepend(
    chains: Seq<Seq<GvdbBuilderEntry>>,
    key: Seq<char>,
    entry: GvdbBuilderEntry,
)
    requires
        chains.len() > 0,
        spec_chains_wf(chains),
        !spec_chain_contains(chains[spec_key_bucket(key, chains.len())], key),
        entry.key == key,
        entry.hash_value == spec_djb_hash(encode_utf8(key)),
    ensures
        ({
            let b = spec_key_bucket(key, chains.len());
            let after = chains.update(b, seq![entry] + chains[b]);
            &&& spec_chains_wf(after)
            &&& spec_chains_get(chains, key) is None
            &&& forall|k: Seq<char>| #[trigger]
                spec_chains_get(after, k) == if k == key {
                    Some(entry)
                } else {
                    spec_chains_get(chains, k)
                }
            &&& spec_chains_map(after) == spec_chains_map(chains).insert(key, entry.value)
            &&& spec_chains_map(after).dom() == spec_chains_map(chains).dom().insert(key)
            &&& !spec_chains_map(chains).dom().contains(key)
        }),
{
    let n = chains.len();
    let b = spec_key_bucket(key, n);
    assert(0 <= b < n) by (nonlinear_arith)
        requires
            b == spec_djb_hash(encode_utf8(key)) as int % n as int,
            n > 0,
    ;
    let chain = chains[b];
    let new_chain = seq![entry] + chain;
    let after = chains.update(b, new_chain);
    assert(spec_bucket_wf(chain, b, n));
    assert forall|x: int| 0 < x < new_chain.len() implies #[trigger] new_chain[x] == chain[x - 1] by {}
    assert(spec_chain_distinct(new_chain)) by {
        assert forall|x: int, y: int| 0 <= x < y < new_chain.len() implies (
        #[trigger] new_chain[x]).key != (#[trigger] new_chain[y]).key by {
            if x == 0 {
                assert(chain[y - 1].key != key);
            } else {
                assert(chain[x - 1].key != chain[y - 1].key);
            }
        }
    }
    assert(spec_chains_wf(after)) by {
        assert forall|c: int| 0 <= c < after.len() implies spec_bucket_wf(
            #[trigger] after[c],
            c,
            after.len(),
        ) by {
            assert(spec_bucket_wf(chains[c], c, n));
            if c == b {
                assert forall|x: int| 0 <= x < new_chain.len() implies (#[trigger] new_chain[x]).hash_value
                    == spec_djb_hash(encode_utf8(new_chain[x].key)) && spec_key_bucket(
                    new_chain[x].key,
                    n,
                ) == b by {
                    if x > 0 {
                        assert(chain[x - 1].hash_value == spec_djb_hash(
                            encode_utf8(chain[x - 1].key),
                        ));
                    }
                }
            }
        }
    }
    assert forall|k: Seq<char>| #[trigger]
        spec_chains_get(after, k) == if k == key {
            Some(entry)
        } else {
            spec_chains_get(chains, k)
        } by {
        let c = spec_key_bucket(k, n);
        assert(0 <= c < n) by (nonlinear_arith)
            requires
                c == spec_djb_hash(encode_utf8(k)) as int % n as int,
                n > 0,
        ;
        if k == key {
            lemma_chain_index_unique(new_chain, 0);
        } else if c == b {
            if spec_chain_contains(chain, k) {
                let j = spec_chain_index(chain, k);
                assert(new_chain[j + 1] == chain[j]);
                lemma_chain_index_unique(new_chain, j + 1);
            }
            if spec_chain_contains(new_chain, k) {
                let j = spec_chain_index(new_chain, k);
                assert(chain[j - 1] == new_chain[j]);
                lemma_chain_index_unique(chain, j - 1);
            }
        }
    }
    assert(spec_chains_map(after) =~= spec_chains_map(chains).insert(key, entry.value));
    assert(spec_chains_map(after).dom() =~= spec_chains_map(chains).dom().insert(key));
}

/// What is found after the entry for `key` was taken out.
proof fn lemma_get_after_remove(chains: Seq<Seq<GvdbBuilderEntry>>, key: Seq<char>, i: int)
    requires
        chains.len() > 0,
        spec_chains_wf(chains),
        0 <= i < chains[spec_key_bucket(key, chains.len())].len(),
        chains[spec_key_bucket(key, chains.len())][i].key == key,
    ensures
        ({
            let b = spec_key_bucket(key, chains.len());
            let after = chains.update(b, chains[b].remove(i));
            &&& spec_chains_wf(after)
            &&& spec_chains_get(chains, key) is Some
            &&& forall|k: Seq<char>| #[trigger]
                spec_chains_get(after, k) == if k == key {
                    None
                } else {
                    spec_chains_get(chains, k)
                }
            &&& spec_chains_map(after) == spec_chains_map(chains).remove(key)
            &&& spec_chains_map(after).dom() == spec_chains_map(chains).dom().remove(key)
            &&& spec_chains_map(chains).dom().contains(key)
        }),
{
    let n = chains.len();
    let b = spec_key_bucket(key, n);
    let chain = chains[b];
    let new_chain = chain.remove(i);
    let after = chains.update(b, new_chain);
    assert(spec_bucket_wf(chain, b, n));
    assert forall|x: int| 0 <= x < new_chain.len() implies #[trigger] new_chain[x] == chain[if x
        < i {
        x
    } else {
        x + 1
    }] by {}
    assert(spec_chain_distinct(new_chain)) by {
        assert forall|x: int, y: int| 0 <= x < y < new_chain.len() implies (
        #[trigger] new_chain[x]).key != (#[trigger] new_chain[y]).key by {
            let x0 = if x < i {
                x
            } else {
                x + 1
            };
            let y0 = if y < i {
                y
            } else {
                y + 1
            };
            assert(chain[x0].key != chain[y0].key);
        }
    }
    assert(spec_chains_wf(after)) by {
        assert forall|c: int| 0 <= c < after.len() implies spec_bucket_wf(
            #[trigger] after[c],
            c,
            after.len(),
        ) by {
            assert(spec_bucket_wf(chains[c], c, n));
            if c == b {
                assert forall|x: int| 0 <= x < new_chain.len() implies (#[trigger] new_chain[x]).hash_value
                    == spec_djb_hash(encode_utf8(new_chain[x].key)) && spec_key_bucket(
                    new_chain[x].key,
                    n,
                ) == b by {
                    let x0 = if x < i {
                        x
                    } else {
                        x + 1
                    };
                    assert(chain[x0].hash_value == spec_djb_hash(encode_utf8(chain[x0].key)));
                }
            }
        }
    }
    lemma_chain_index_unique(chain, i);
    assert forall|k: Seq<char>| #[trigger]
        spec_chains_get(after, k) == if k == key {
            None
        } else {
            spec_chains_get(chains, k)
        } by {
        let c = spec_key_bucket(k, n);
        assert(0 <= c < n) by (nonlinear_arith)
            requires
                c == spec_djb_hash(encode_utf8(k)) as int % n as int,
                n > 0,
        ;
        if k == key {
            if spec_chain_contains(new_chain, k) {
                let j = spec_chain_index(new_chain, k);
                let j0 = if j < i {
                    j
                } else {
                    j + 1
                };
                assert(chain[j0].key == chain[i].key);
            }
        } else if c == b {
            if spec_chain_contains(chain, k) {
                let j = spec_chain_index(chain, k);
                let j1 = if j < i {
                    j
                } else {
                    j - 1
                };
                assert(new_chain[j1] == chain[j]);
                lemma_chain_index_unique(new_chain, j1);
            }
            if spec_chain_contains(new_chain, k) {
                let j = spec_chain_index(new_chain, k);
                let j0 = if j < i {
                    j
                } else {
                    j + 1
                };
                assert(chain[j0] == new_chain[j]);
                lemma_chain_index_unique(chain, j0);
            }
        }
    }
    assert(spec_chains_map(after) =~= spec_chains_map(chains).remove(key));
    assert(spec_chains_map(after).dom() =~= spec_chains_map(chains).dom().remove(key));
}

/// A hash table with chained buckets.
#[derive(Debug)]
pub struct SimpleHashTable {
    buckets: Vec<Option<Box<GvdbBuilderItem>>>,
    n_items: usize,
}

impl View for SimpleHashTable {
    type V = Map<Seq<char>, GvdbBuilderItemValue>;

    /// The value of each key that the table holds.
    open spec fn view(&self) -> Map<Seq<char>, GvdbBuilderItemValue> {
        spec_chains_map(self.spec_chains())
    }
}

impl SimpleHashTable {
    /// The chain of each bucket.
    pub closed spec fn spec_chains(&self) -> Seq<Seq<GvdbBuilderEntry>> {
        Seq::new(self.buckets@.len(), |b: int| spec_chain(self.buckets@[b]))
    }

    /// The number of entries, as the table counts them.
    pub closed spec fn spec_n_items(&self) -> nat {
        self.n_items as nat
    }

    /// The number of buckets.
    pub open spec fn spec_n_buckets(&self) -> nat {
        self.spec_chains().len()
    }

    /// The entry for `key`: the one with this key in the chain of the key's
    /// bucket.
    pub open spec fn spec_get(&self, key: Seq<char>) -> Option<GvdbBuilderEntry> {
        spec_chains_get(self.spec_chains(), key)
    }

    /// All entries with the index of their bucket, bucket after bucket and
    /// each chain from its head on.
    pub open spec fn spec_entries(&self) -> Seq<(int, GvdbBuilderEntry)> {
        spec_entries_from(self.spec_chains(), 0)
    }

    /// Every chain is as [`spec_bucket_wf`] says, and the table counts as
    /// many entries as it holds keys.
    pub open spec fn wf(&self) -> bool {
        &&& spec_chains_wf(self.spec_chains())
        &&& self@.dom().finite()
        &&& self@.dom().len() == self.spec_n_items()
    }

    /// What an insert of `value` under `key` makes of a table: the key has
    /// the value and every other key what it had; the table counts one entry
    /// more where the key is new; and the key's entry has kept its place in
    /// its chain, or stands at the head of its bucket where it is new.
    pub open spec fn spec_inserted(
        before: SimpleHashTable,
        after: SimpleHashTable,
        key: Seq<char>,
        value: GvdbBuilderItemValue,
    ) -> bool {
        &&& after.wf()
        &&& after.spec_n_buckets() == before.spec_n_buckets()
        &&& after@ == before@.insert(key, value)
        &&& after.spec_n_items() == if before@.contains_key(key) {
            before.spec_n_items()
        } else {
            before.spec_n_items() + 1
        }
        &&& ({
            let bucket = spec_key_bucket(key, before.spec_n_buckets());
            let chain = before.spec_chains()[bucket];
            let entry = GvdbBuilderEntry {
                key,
                hash_value: spec_djb_hash(encode_utf8(key)),
                value,
            };
            after.spec_chains() == before.spec_chains().update(
                bucket,
                if spec_chain_contains(chain, key) {
                    chain.update(spec_chain_index(chain, key), entry)
                } else {
                    seq![entry] + chain
                },
            )
        })
    }

    /// What taking `key` out makes of a table: the key is gone and every
    /// other key has what it had; the table counts one entry less where the
    /// key was there; and the other entries have kept their order.
    pub open spec fn spec_removed(
        before: SimpleHashTable,
        after: SimpleHashTable,
        key: Seq<char>,
    ) -> bool {
        &&& after.wf()
        &&& after.spec_n_buckets() == before.spec_n_buckets()
        &&& after@ == before@.remove(key)
        &&& after.spec_n_items() == if before@.contains_key(key) {
            before.spec_n_items() - 1
        } else {
            before.spec_n_items() as int
        }
        &&& ({
            let bucket = spec_key_bucket(key, before.spec_n_buckets());
            let chain = before.spec_chains()[bucket];
            after.spec_chains() == if before@.contains_key(key) {
                before.spec_chains().update(bucket, chain.remove(spec_chain_index(chain, key)))
            } else {
                before.spec_chains()
            }
        })
    }

    /// An empty table with `n_buckets` buckets.
    pub fn with_n_buckets(n_buckets: usize) -> (table: SimpleHashTable)
        ensures
            table.wf(),
            table.spec_n_buckets() == n_buckets,
            table@ == Map::<Seq<char>, GvdbBuilderItemValue>::empty(),
            table.spec_n_items() == 0,
            forall|b: int| 0 <= b < n_buckets ==> (#[trigger] table.spec_chains()[b]).len() == 0,
    {
        let mut buckets: Vec<Option<Box<GvdbBuilderItem>>> = Vec::with_capacity(n_buckets);
        let mut i: usize = 0;
        while i < n_buckets
            invariant
                i <= n_buckets,
                buckets@.len() == i,
                forall|b: int| 0 <= b < i ==> (#[trigger] buckets@[b]) is None,
            decreases n_buckets - i,
        {
            buckets.push(None);
            i += 1;
        }
        let table = SimpleHashTable { buckets, n_items: 0 };
        proof {
            assert forall|b: int| 0 <= b < n_buckets implies (#[trigger] table.spec_chains()[b]).len()
                == 0 by {
                assert(table.buckets@[b] is None);
                lemma_chain_none();
            }
            assert(table@ =~= Map::<Seq<char>, GvdbBuilderItemValue>::empty());
        }
        table
    }

    pub fn n_buckets(&self) -> (n: usize)
        ensures
            n == self.spec_n_buckets(),
    {
        self.buckets.len()
    }

    /// The number of entries, which is the number of keys.
    pub fn n_items(&self) -> (n: usize)
        requires
            self.wf(),
        ensures
            n == self.spec_n_items(),
            n == self@.dom().len(),
    {
        self.n_items
    }

    /// The bucket for a hash.
    pub fn hash_bucket(&self, hash_value: u32) -> (bucket: usize)
        requires
            self.spec_n_buckets() > 0,
        ensures
            bucket == hash_value as int % self.spec_n_buckets() as int,
    {
        hash_value as usize % self.buckets.len()
    }

    /// The item for `key`.
    pub fn get(&self, key: &str) -> (found: Option<&GvdbBuilderItem>)
        requires
            self.wf(),
        ensures
            match found {
                Some(item) => self.spec_get(key@) == Some(item.spec_entry()) && self@.contains_key(
                    key@,
                ) && self@[key@] == item.spec_entry().value,
                None => !self@.contains_key(key@),
            },
    {
        if self.buckets.len() == 0 {
            return None;
        }
        let hash_value = djb_hash(key);
        let bucket = self.hash_bucket(hash_value);
        self.get_from_bucket(key, bucket)
    }

    /// The item for `key` in the chain of `bucket`.
    pub fn get_from_bucket(&self, key: &str, bucket: usize) -> (found: Option<&GvdbBuilderItem>)
        requires
            self.wf(),
        ensures
            match found {
                Some(item) => bucket < self.spec_n_buckets() && item.spec_entry().key == key@
                    && spec_chain_contains(self.spec_chains()[bucket as int], key@)
                    && self.spec_chains()[bucket as int][spec_chain_index(
                    self.spec_chains()[bucket as int],
                    key@,
                )] == item.spec_entry(),
                None => bucket >= self.spec_n_buckets() || !spec_chain_contains(
                    self.spec_chains()[bucket as int],
                    key@,
                ),
            },
    {
        if bucket >= self.buckets.len() {
            return None;
        }
        let found = chain_get(&self.buckets[bucket], key);
        proof {
            let chain = self.spec_chains()[bucket as int];
            assert(spec_bucket_wf(chain, bucket as int, self.spec_n_buckets()));
            match found {
                Some(item) => {
                    let i = choose|i: int| 0 <= i < chain.len() && #[trigger] chain[i] == item.spec_entry();
                    assert(chain[i].key == key@);
                    let j = spec_chain_index(chain, key@);
                    assert(chain[j].key == key@);
                    assert(i == j);
                },
                None => {},
            }
        }
        found
    }

    /// Stores `value` under `key`. Where the table holds the key already, its
    /// entry keeps its place in the chain and gets the new value; else a new
    /// entry is put at the head of the key's bucket.
    pub fn insert(&mut self, key: &str, value: GvdbBuilderItemValue)
        requires
            old(self).wf(),
            old(self).spec_n_buckets() > 0,
            old(self).spec_n_items() < usize::MAX,
        ensures
            Self::spec_inserted(*old(self), *final(self), key@, value),
    {
        let hash_value = djb_hash(key);
        let bucket = self.hash_bucket(hash_value);
        let ghost chains = self.spec_chains();
        let ghost chain = chains[bucket as int];
        let ghost entry = GvdbBuilderEntry { key: key@, hash_value, value };
        proof {
            assert(spec_bucket_wf(chain, bucket as int, chains.len()));
        }
        match chain_replace(&mut self.buckets[bucket], key, value) {
            None => {
                proof {
                    let i = choose|i: int|
                        0 <= i < chain.len() && (#[trigger] chain[i]).key == key@ && spec_chain(
                            self.buckets@[bucket as int],
                        ) == chain.update(
                            i,
                            GvdbBuilderEntry { key: key@, hash_value: chain[i].hash_value, value },
                        );
                    lemma_chain_index_unique(chain, i);
                    lemma_get_after_replace(chains, key@, i, entry);
                    assert(self.spec_chains() =~= chains.update(
                        bucket as int,
                        chain.update(i, entry),
                    ));
                }
            },
            Some(value) => {
                chain_prepend(&mut self.buckets[bucket], key, hash_value, value);
                self.n_items = self.n_items + 1;
                proof {
                    lemma_get_after_prepend(chains, key@, entry);
                    assert(self.spec_chains() =~= chains.update(
                        bucket as int,
                        seq![entry] + chain,
                    ));
                }
            },
        }
    }

    /// Takes the entry for `key` out of the table, and says whether there
    /// was one.
    pub fn remove(&mut self, key: &str) -> (removed: bool)
        requires
            old(self).wf(),
        ensures
            removed == old(self)@.contains_key(key@),
            Self::spec_removed(*old(self), *final(self), key@),
    {
        if self.buckets.len() == 0 {
            proof {
                assert(self@ =~= old(self)@.remove(key@));
            }
            return false;
        }
        let hash_value = djb_hash(key);
        let bucket = self.hash_bucket(hash_value);
        let ghost chains = self.spec_chains();
        let ghost chain = chains[bucket as int];
        proof {
            assert(spec_bucket_wf(chain, bucket as int, chains.len()));
        }
        let removed = chain_remove(&mut self.buckets[bucket], key);
        if removed {
            proof {
                let i = choose|i: int|
                    0 <= i < chain.len() && (#[trigger] chain[i]).key == key@ && spec_chain(
                        self.buckets@[bucket as int],
                    ) == chain.remove(i);
                lemma_chain_index_unique(chain, i);
                lemma_get_after_remove(chains, key@, i);
                assert(self.spec_chains() =~= chains.update(bucket as int, chain.remove(i)));
            }
            self.n_items = self.n_items - 1;
        } else {
            proof {
                assert(self.spec_chains() =~= chains);
                assert(spec_chains_get(chains, key@) is None);
                assert(old(self)@.remove(key@) =~= old(self)@);
            }
        }
        removed
    }

    /// Walks all entries, bucket after bucket and each chain from its head
    /// on.
    pub fn iter(&self) -> (iter: SimpleHashTableIter<'_>)
        ensures
            iter.wf(),
            iter.spec_remaining() == self.spec_entries(),
    {
        SimpleHashTableIter { hash_table: self, bucket: 0, last_item: None }
    }

    /// Walks the chain of one bucket from its head on. A bucket that the
    /// table does not have holds nothing.
    pub fn iter_bucket(&self, bucket: usize) -> (iter: SimpleHashTableBucketIter<'_>)
        ensures
            iter.spec_remaining() == if bucket < self.spec_n_buckets() {
                self.spec_chains()[bucket as int]
            } else {
                Seq::<GvdbBuilderEntry>::empty()
            },
    {
        SimpleHashTableBucketIter { hash_table: self, bucket, last_item: None }
    }
}

/// A walk along the chain of one bucket.
pub struct SimpleHashTableBucketIter<'it> {
    hash_table: &'it SimpleHashTable,
    bucket: usize,
    last_item: Option<&'it GvdbBuilderItem>,
}

impl<'it> SimpleHashTableBucketIter<'it> {
    /// The entries that the walk has yet to hand out.
    pub closed spec fn spec_remaining(&self) -> Seq<GvdbBuilderEntry> {
        match self.last_item {
            Some(item) => item.spec_chain_from().skip(1),
            None => if self.bucket < self.hash_table.spec_n_buckets() {
                self.hash_table.spec_chains()[self.bucket as int]
            } else {
                Seq::<GvdbBuilderEntry>::empty()
            },
        }
    }

    /// Hands out the next item of the chain.
    pub fn next(&mut self) -> (next: Option<&'it GvdbBuilderItem>)
        ensures
            match next {
                Some(item) => old(self).spec_remaining().len() > 0 && item.spec_entry() == old(
                    self,
                ).spec_remaining()[0] && final(self).spec_remaining() == old(
                    self,
                ).spec_remaining().skip(1),
                None => old(self).spec_remaining().len() == 0 && final(self).spec_remaining().len()
                    == 0,
            },
    {
        let next = match self.last_item {
            Some(last) => last.next(),
            None => if self.bucket < self.hash_table.buckets.len() {
                chain_head(&self.hash_table.buckets[self.bucket])
            } else {
                None
            },
        };
        match next {
            Some(item) => {
                proof {
                    lemma_chain_from(item);
                    match self.last_item {
                        Some(last) => {
                            assert(last.spec_chain_from().skip(1) =~= item.spec_chain_from());
                        },
                        None => {},
                    }
                }
                self.last_item = Some(item);
            },
            None => {
                proof {
                    match self.last_item {
                        Some(last) => {
                            assert(last.spec_chain_from().skip(1).len() == 0);
                        },
                        None => {},
                    }
                }
            },
        }
        next
    }
}

/// A walk along all entries of a table.
pub struct SimpleHashTableIter<'it> {
    hash_table: &'it SimpleHashTable,
    bucket: usize,
    last_item: Option<&'it GvdbBuilderItem>,
}

/// The entries after the head of a chain and those of the buckets behind it.
proof fn lemma_entries_from_head(
    chains: Seq<Seq<GvdbBuilderEntry>>,
    bucket: int,
    rest: Seq<GvdbBuilderEntry>,
)
    requires
        0 <= bucket < chains.len(),
        chains[bucket].len() > 0,
        rest == chains[bucket].skip(1),
    ensures
        spec_entries_from(chains, bucket).len() > 0,
        spec_entries_from(chains, bucket)[0] == (bucket, chains[bucket][0]),
        spec_entries_from(chains, bucket).skip(1) == spec_tagged(rest, bucket) + spec_entries_from(
            chains,
            bucket + 1,
        ),
{
    assert(spec_entries_from(chains, bucket).skip(1) =~= spec_tagged(rest, bucket)
        + spec_entries_from(chains, bucket + 1));
}

/// An empty chain adds nothing to the entries.
proof fn lemma_entries_from_empty(chains: Seq<Seq<GvdbBuilderEntry>>, bucket: int)
    requires
        0 <= bucket < chains.len(),
        chains[bucket].len() == 0,
    ensures
        spec_entries_from(chains, bucket) == spec_entries_from(chains, bucket + 1),
{
    assert(spec_entries_from(chains, bucket) =~= spec_entries_from(chains, bucket + 1));
}

impl<'it> SimpleHashTableIter<'it> {
    /// The entries that the walk has yet to hand out, each with the index of
    /// its bucket.
    pub closed spec fn spec_remaining(&self) -> Seq<(int, GvdbBuilderEntry)> {
        match self.last_item {
            Some(item) => spec_tagged(item.spec_chain_from().skip(1), self.bucket as int)
                + spec_entries_from(self.hash_table.spec_chains(), self.bucket + 1),
            None => spec_entries_from(self.hash_table.spec_chains(), self.bucket as int),
        }
    }

    /// The walk stands inside the table.
    pub closed spec fn wf(&self) -> bool {
        self.last_item is Some ==> self.bucket < self.hash_table.spec_n_buckets()
    }

    /// Hands out the next item with the index of its bucket.
    pub fn next(&mut self) -> (next: Option<(usize, &'it GvdbBuilderItem)>)
        requires
            old(self).wf(),
        ensures
            final(self).wf(),
            match next {
                Some((bucket, item)) => old(self).spec_remaining().len() > 0 && (
                    bucket as int,
                    item.spec_entry(),
                ) == old(self).spec_remaining()[0] && final(self).spec_remaining() == old(
                    self,
                ).spec_remaining().skip(1),
                None => old(self).spec_remaining().len() == 0 && final(self).spec_remaining().len()
                    == 0,
            },
    {
        let ghost chains = self.hash_table.spec_chains();
        let n_buckets = self.hash_table.buckets.len();
        match self.last_item {
            Some(last) => {
                match last.next() {
                    Some(item) => {
                        proof {
                            lemma_chain_from(item);
                            assert(last.spec_chain_from().skip(1) =~= item.spec_chain_from());
                            assert(old(self).spec_remaining().skip(1) =~= spec_tagged(
                                item.spec_chain_from().skip(1),
                                self.bucket as int,
                            ) + spec_entries_from(chains, self.bucket + 1));
                        }
                        self.last_item = Some(item);
                        return Some((self.bucket, item));
                    },
                    None => {
                        proof {
                            assert(last.spec_chain_from().skip(1).len() == 0);
                            assert(old(self).spec_remaining() =~= spec_entries_from(
                                chains,
                                self.bucket + 1,
                            ));
                            assert(self.bucket < n_buckets);
                        }
                        self.last_item = None;
                        self.bucket = self.bucket + 1;
                    },
                }
            },
            None => {},
        }
        while self.bucket < self.hash_table.buckets.len()
            invariant
                self.hash_table == old(self).hash_table,
                chains == self.hash_table.spec_chains(),
                self.last_item is None,
                old(self).spec_remaining() == spec_entries_from(chains, self.bucket as int),
            decreases self.hash_table.buckets@.len() - self.bucket,
        {
            match chain_head(&self.hash_table.buckets[self.bucket]) {
                Some(item) => {
                    proof {
                        lemma_chain_from(item);
                        lemma_entries_from_head(
                            chains,
                            self.bucket as int,
                            item.spec_chain_from().skip(1),
                        );
                    }
                    self.last_item = Some(item);
                    return Some((self.bucket, item));
                },
                None => {
                    proof {
                        lemma_entries_from_empty(chains, self.bucket as int);
                    }
                    self.bucket = self.bucket + 1;
                },
            }
        }
        None
    }
}

/// The value that the last of the inserts for `key` has given it.
pub open spec fn spec_last_value(
    inserts: Seq<(Seq<char>, GvdbBuilderItemValue)>,
    key: Seq<char>,
) -> Option<GvdbBuilderItemValue>
    decreases inserts.len(),
{
    if inserts.len() == 0 {
        None
    } else if inserts.last().0 == key {
        Some(inserts.last().1)
    } else {
        spec_last_value(inserts.drop_last(), key)
    }
}

/// The keys that occur among the inserts.
pub open spec fn spec_inserted_keys(inserts: Seq<(Seq<char>, GvdbBuilderItemValue)>) -> Set<
    Seq<char>,
> {
    Set::new(|key: Seq<char>| spec_last_value(inserts, key) is Some)
}

/// After any sequence of inserts into an empty table, the table holds for
/// every key the value of the last insert for that key, it holds no other
/// key, and it counts as many entries as there are distinct keys.
///
/// `tables[0]` is the empty table and `tables[i + 1]` the table after the
/// `i`-th insert.
pub proof fn law_inserts_keep_last_values(
    tables: Seq<SimpleHashTable>,
    inserts: Seq<(Seq<char>, GvdbBuilderItemValue)>,
)
    requires
        tables.len() == inserts.len() + 1,
        tables[0].wf(),
        tables[0]@ == Map::<Seq<char>, GvdbBuilderItemValue>::empty(),
        forall|i: int|
            0 <= i < inserts.len() ==> SimpleHashTable::spec_inserted(
                #[trigger] tables[i],
                tables[i + 1],
                inserts[i].0,
                inserts[i].1,
            ),
    ensures
        tables.last().wf(),
        forall|key: Seq<char>|
            match #[trigger] spec_last_value(inserts, key) {
                Some(value) => tables.last().spec_get(key) is Some && tables.last()@[key]
                    == value,
                None => tables.last().spec_get(key) is None,
            },
        spec_inserted_keys(inserts).finite(),
        tables.last().spec_n_items() == spec_inserted_keys(inserts).len(),
    decreases inserts.len(),
{
    let last = tables.last();
    if inserts.len() == 0 {
        assert(spec_inserted_keys(inserts) =~= Set::<Seq<char>>::empty());
        assert(last@.dom() =~= Set::<Seq<char>>::empty());
        assert forall|key: Seq<char>| last.spec_get(key) is None by {
            assert(!last@.contains_key(key));
        }
    } else {
        let n = inserts.len() as int;
        let before = tables.drop_last();
        let earlier = inserts.drop_last();
        assert forall|i: int| 0 <= i < earlier.len() implies SimpleHashTable::spec_inserted(
            #[trigger] before[i],
            before[i + 1],
            earlier[i].0,
            earlier[i].1,
        ) by {
            assert(SimpleHashTable::spec_inserted(
                tables[i],
                tables[i + 1],
                inserts[i].0,
                inserts[i].1,
            ));
        }
        law_inserts_keep_last_values(before, earlier);
        assert(SimpleHashTable::spec_inserted(
            tables[n - 1],
            tables[n],
            inserts[n - 1].0,
            inserts[n - 1].1,
        ));
        let previous = tables[n - 1];
        assert(previous == before.last());
        assert(last@ == previous@.insert(inserts[n - 1].0, inserts[n - 1].1));
        assert forall|key: Seq<char>|
            match #[trigger] spec_last_value(inserts, key) {
                Some(value) => last.spec_get(key) is Some && last@[key] == value,
                None => last.spec_get(key) is None,
            } by {
            assert(last@.contains_key(key) == (last.spec_get(key) is Some));
            assert(previous@.contains_key(key) == (previous.spec_get(key) is Some));
            if key != inserts[n - 1].0 {
                assert(spec_last_value(inserts, key) == spec_last_value(earlier, key));
            }
        }
        assert(spec_inserted_keys(inserts) =~= last@.dom()) by {
            assert forall|key: Seq<char>|
                spec_inserted_keys(inserts).contains(key) == last@.dom().contains(key) by {
                assert(last@.contains_key(key) == (last.spec_get(key) is Some));
                let _ = spec_last_value(inserts, key);
            }
        }
    }
}

/// A second insert under a key leaves the count as the first left it, and
/// the key has the second value.
pub proof fn law_insert_overwrites(
    before: SimpleHashTable,
    between: SimpleHashTable,
    after: SimpleHashTable,
    key: Seq<char>,
    first: GvdbBuilderItemValue,
    second: GvdbBuilderItemValue,
)
    requires
        SimpleHashTable::spec_inserted(before, between, key, first),
        SimpleHashTable::spec_inserted(between, after, key, second),
    ensures
        after.spec_n_items() == between.spec_n_items(),
        after@.dom() == between@.dom(),
        after@.contains_key(key),
        after@[key] == second,
        after@ == before@.insert(key, second),
{
    assert(after@ =~= before@.insert(key, second));
    assert(after@.dom() =~= between@.dom());
}

} // verus!
