//! The entries of a table under construction, chained bucket by bucket.

use crate::util::str_eq;
use vstd::prelude::*;

verus! {

/// The value of an entry before it is written.
#[derive(Debug)]
pub enum GvdbBuilderItemValue {
    /// A variant in its serialised form.
    Value(Vec<u8>),
}

impl GvdbBuilderItemValue {
    /// The bytes that are written for this value.
    pub open spec fn spec_bytes(&self) -> Seq<u8> {
        match self {
            GvdbBuilderItemValue::Value(bytes) => bytes@,
        }
    }

    /// The kind of value, as stored in the item that points to it.
    pub fn typ(&self) -> (typ: char)
        ensures
            typ == 'v',
    {
        match self {
            GvdbBuilderItemValue::Value(_) => 'v',
        }
    }

    /// The serialised variant, where the value is one.
    pub fn value(&self) -> (bytes: Option<&Vec<u8>>)
        ensures
            bytes matches Some(b) && b@ == self.spec_bytes(),
    {
        match self {
            GvdbBuilderItemValue::Value(bytes) => Some(bytes),
        }
    }
}

/// What a chain holds for one key.
pub struct GvdbBuilderEntry {
    pub key: Seq<char>,
    pub hash_value: u32,
    pub value: GvdbBuilderItemValue,
}

/// An entry of a table under construction, with the link to the entry that
/// follows it in its bucket.
#[derive(Debug)]
pub struct GvdbBuilderItem {
    key: String,
    hash_value: u32,
    value: GvdbBuilderItemValue,
    next: Option<Box<GvdbBuilderItem>>,
}

/// The entries of a chain, from its head on.
pub closed spec fn spec_chain(chain: Option<Box<GvdbBuilderItem>>) -> Seq<GvdbBuilderEntry>
    decreases chain,
{
    match chain {
        None => Seq::empty(),
        Some(item) => seq![item.spec_entry()] + spec_chain(item.next),
    }
}

/// A chain without a head holds nothing.
pub proof fn lemma_chain_none()
    ensures
        spec_chain(None) == Seq::<GvdbBuilderEntry>::empty(),
{
}

/// A chain that starts at an item starts with what the item holds.
pub proof fn lemma_chain_from(item: &GvdbBuilderItem)
    ensures
        item.spec_chain_from().len() >= 1,
        item.spec_chain_from()[0] == item.spec_entry(),
{
}

/// Whether a chain holds an entry for `key`.
pub open spec fn spec_chain_contains(entries: Seq<GvdbBuilderEntry>, key: Seq<char>) -> bool {
    exists|i: int| 0 <= i < entries.len() && (#[trigger] entries[i]).key == key
}

/// The place of the entry for `key` in a chain that holds one.
pub open spec fn spec_chain_index(entries: Seq<GvdbBuilderEntry>, key: Seq<char>) -> int {
    choose|i: int| 0 <= i < entries.len() && (#[trigger] entries[i]).key == key
}

/// No two entries of a chain have the same key.
pub open spec fn spec_chain_distinct(entries: Seq<GvdbBuilderEntry>) -> bool {
    forall|i: int, j: int|
        0 <= i < j < entries.len() ==> (#[trigger] entries[i]).key != (#[trigger] entries[j]).key
}

impl GvdbBuilderItem {
    /// What this item holds, without its link.
    pub closed spec fn spec_entry(&self) -> GvdbBuilderEntry {
        GvdbBuilderEntry { key: self.key@, hash_value: self.hash_value, value: self.value }
    }

    /// The entries from this item to the end of its chain.
    pub closed spec fn spec_chain_from(&self) -> Seq<GvdbBuilderEntry> {
        seq![self.spec_entry()] + spec_chain(self.next)
    }

    /// An item that is the last of its chain.
    pub fn new(key: &str, hash_value: u32, value: GvdbBuilderItemValue) -> (item: GvdbBuilderItem)
        ensures
            item.spec_entry() == (GvdbBuilderEntry { key: key@, hash_value, value }),
            item.spec_chain_from() == seq![item.spec_entry()],
    {
        GvdbBuilderItem { key: key.to_owned(), hash_value, value, next: None }
    }

    pub fn key(&self) -> (key: &str)
        ensures
            key@ == self.spec_entry().key,
    {
        self.key.as_str()
    }

    pub fn hash_value(&self) -> (hash_value: u32)
        ensures
            hash_value == self.spec_entry().hash_value,
    {
        self.hash_value
    }

    pub fn value_ref(&self) -> (value: &GvdbBuilderItemValue)
        ensures
            *value == self.spec_entry().value,
    {
        &self.value
    }

    /// The item that follows this one in its chain.
    pub fn next(&self) -> (next: Option<&GvdbBuilderItem>)
        ensures
            match next {
                Some(item) => self.spec_chain_from() == seq![self.spec_entry()]
                    + item.spec_chain_from(),
                None => self.spec_chain_from() == seq![self.spec_entry()],
            },
    {
        match &self.next {
            Some(item) => Some(&**item),
            None => None,
        }
    }
}

/// The first item of a chain.
pub fn chain_head(chain: &Option<Box<GvdbBuilderItem>>) -> (head: Option<&GvdbBuilderItem>)
    ensures
        match head {
            Some(item) => spec_chain(*chain) == item.spec_chain_from(),
            None => spec_chain(*chain) == Seq::<GvdbBuilderEntry>::empty(),
        },
{
    match chain {
        Some(item) => Some(&**item),
        None => None,
    }
}

/// The item for `key` in a chain.
pub fn chain_get<'a>(chain: &'a Option<Box<GvdbBuilderItem>>, key: &str) -> (found: Option<
    &'a GvdbBuilderItem,
>)
    ensures
        match found {
            Some(item) => item.spec_entry().key == key@ && exists|i: int|
                0 <= i < spec_chain(*chain).len() && #[trigger] spec_chain(*chain)[i]
                    == item.spec_entry(),
            None => !spec_chain_contains(spec_chain(*chain), key@),
        },
    decreases chain,
{
    match chain {
        None => None,
        Some(item) => {
            if str_eq(item.key.as_str(), key) {
                assert(spec_chain(*chain)[0] == item.spec_entry());
                Some(&**item)
            } else {
                let found = chain_get(&item.next, key);
                proof {
                    let rest = spec_chain(item.next);
                    let all = spec_chain(*chain);
                    assert forall|i: int| 0 <= i < rest.len() implies rest[i] == all[i + 1] by {}
                    match found {
                        Some(other) => {
                            let i = choose|i: int|
                                0 <= i < rest.len() && #[trigger] rest[i] == other.spec_entry();
                            assert(all[i + 1] == other.spec_entry());
                        },
                        None => {
                            if spec_chain_contains(all, key@) {
                                let i = spec_chain_index(all, key@);
                                assert(rest[i - 1].key == key@);
                            }
                        },
                    }
                }
                found
            }
        },
    }
}

/// Gives the entry for `key` a new value, in place. Where the chain holds no
/// entry for `key`, the chain stays as it is and the value comes back.
pub fn chain_replace(chain: &mut Option<Box<GvdbBuilderItem>>, key: &str, value: GvdbBuilderItemValue) -> (back: Option<GvdbBuilderItemValue>)
    ensures
        match back {
            Some(unused) => unused == value && *final(chain) == *old(chain) && !spec_chain_contains(
                spec_chain(*old(chain)),
                key@,
            ),
            None => exists|i: int|
                0 <= i < spec_chain(*old(chain)).len() && (#[trigger] spec_chain(
                    *old(chain),
                )[i]).key == key@ && spec_chain(*final(chain)) == spec_chain(*old(chain)).update(
                    i,
                    GvdbBuilderEntry {
                        key: key@,
                        hash_value: spec_chain(*old(chain))[i].hash_value,
                        value,
                    },
                ),
        },
    decreases *old(chain),
{
    match chain.take() {
        None => {
            *chain = None;
            Some(value)
        },
        Some(mut item) => {
            let ghost before = spec_chain(Some(item));
            let ghost rest = spec_chain(item.next);
            if str_eq(item.key.as_str(), key) {
                item.value = value;
                proof {
                    assert(before[0].key == key@);
                    assert(spec_chain(Some(item)) =~= before.update(
                        0,
                        GvdbBuilderEntry { key: key@, hash_value: before[0].hash_value, value },
                    ));
                }
                *chain = Some(item);
                None
            } else {
                let back = chain_replace(&mut item.next, key, value);
                proof {
                    assert forall|i: int| 0 <= i < rest.len() implies rest[i] == before[i + 1] by {}
                    match back {
                        Some(_) => {
                            if spec_chain_contains(before, key@) {
                                let i = spec_chain_index(before, key@);
                                assert(rest[i - 1].key == key@);
                            }
                        },
                        None => {
                            let i = choose|i: int|
                                0 <= i < rest.len() && (#[trigger] rest[i]).key == key@
                                    && spec_chain(item.next) == rest.update(
                                    i,
                                    GvdbBuilderEntry {
                                        key: key@,
                                        hash_value: rest[i].hash_value,
                                        value,
                                    },
                                );
                            assert(before[i + 1].key == key@);
                            assert(spec_chain(Some(item)) =~= before.update(
                                i + 1,
                                GvdbBuilderEntry {
                                    key: key@,
                                    hash_value: before[i + 1].hash_value,
                                    value,
                                },
                            ));
                        },
                    }
                }
                *chain = Some(item);
                back
            }
        },
    }
}

/// Puts a new item at the head of a chain.
pub fn chain_prepend(
    chain: &mut Option<Box<GvdbBuilderItem>>,
    key: &str,
    hash_value: u32,
    value: GvdbBuilderItemValue,
)
    ensures
        spec_chain(*final(chain)) == seq![GvdbBuilderEntry { key: key@, hash_value, value }]
            + spec_chain(*old(chain)),
{
    let next = chain.take();
    *chain = Some(Box::new(GvdbBuilderItem { key: key.to_owned(), hash_value, value, next }));
}

/// Takes the entry for `key` out of a chain, and says whether there was one.
pub fn chain_remove(chain: &mut Option<Box<GvdbBuilderItem>>, key: &str) -> (removed: bool)
    ensures
        removed == spec_chain_contains(spec_chain(*old(chain)), key@),
        !removed ==> *final(chain) == *old(chain),
        removed ==> exists|i: int|
            0 <= i < spec_chain(*old(chain)).len() && (#[trigger] spec_chain(*old(chain))[i]).key
                == key@ && spec_chain(*final(chain)) == spec_chain(*old(chain)).remove(i),
    decreases *old(chain),
{
    match chain.take() {
        None => {
            *chain = None;
            false
        },
        Some(mut item) => {
            let ghost before = spec_chain(Some(item));
            let ghost rest = spec_chain(item.next);
            if str_eq(item.key.as_str(), key) {
                proof {
                    assert(before[0].key == key@);
                    assert(rest =~= before.remove(0));
                }
                *chain = item.next;
                true
            } else {
                let removed = chain_remove(&mut item.next, key);
                proof {
                    assert forall|i: int| 0 <= i < rest.len() implies rest[i] == before[i + 1] by {}
                    if removed {
                        let i = choose|i: int|
                            0 <= i < rest.len() && (#[trigger] rest[i]).key == key@ && spec_chain(
                                item.next,
                            ) == rest.remove(i);
                        assert(before[i + 1].key == key@);
                        assert(spec_chain(Some(item)) =~= before.remove(i + 1));
                    } else {
                        if spec_chain_contains(before, key@) {
                            let i = spec_chain_index(before, key@);
                            assert(rest[i - 1].key == key@);
                        }
                    }
                }
                *chain = Some(item);
                removed
            }
        },
    }
}

} // verus!
