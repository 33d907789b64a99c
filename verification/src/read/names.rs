//! Putting full keys together from items that name their parents.

use crate::read::hash_item::NO_PARENT;
use vstd::prelude::*;
use vstd::string::StringExecFns;

verus! {

/// The parent and the text of each entry.
pub open spec fn spec_entry_views(entries: Seq<(u32, String)>) -> Seq<(u32, Seq<char>)> {
    Seq::new(entries.len(), |i: int| (entries[i].0, entries[i].1@))
}

/// The full key of the `index`-th entry: its own text, after the full key of
/// its parent where it has one. `None` where a parent is no entry or where
/// the chain of parents is longer than `fuel`.
pub open spec fn spec_chain_name(entries: Seq<(u32, Seq<char>)>, index: int, fuel: nat) -> Option<
    Seq<char>,
>
    decreases fuel,
{
    if fuel == 0 || index < 0 || index >= entries.len() {
        None
    } else if entries[index].0 == NO_PARENT {
        Some(entries[index].1)
    } else {
        match spec_chain_name(entries, entries[index].0 as int, (fuel - 1) as nat) {
            Some(prefix) => Some(prefix + entries[index].1),
            None => None,
        }
    }
}

/// Every entry has a full key.
pub open spec fn spec_all_resolve(entries: Seq<(u32, Seq<char>)>) -> bool {
    forall|i: int|
        0 <= i < entries.len() ==> (#[trigger] spec_chain_name(entries, i, entries.len())) is Some
}

/// A full key found with some fuel is found with more.
pub proof fn lemma_chain_name_more_fuel(
    entries: Seq<(u32, Seq<char>)>,
    index: int,
    fuel: nat,
    more: nat,
)
    requires
        fuel <= more,
        spec_chain_name(entries, index, fuel) is Some,
    ensures
        spec_chain_name(entries, index, more) == spec_chain_name(entries, index, fuel),
    decreases fuel,
{
    if entries[index].0 != NO_PARENT {
        lemma_chain_name_more_fuel(
            entries,
            entries[index].0 as int,
            (fuel - 1) as nat,
            (more - 1) as nat,
        );
    }
}

/// The number of names that are known.
spec fn spec_count_named(names: Seq<Option<String>>) -> nat
    decreases names.len(),
{
    if names.len() == 0 {
        0
    } else {
        spec_count_named(names.drop_last()) + if names.last() is Some {
            1nat
        } else {
            0nat
        }
    }
}

proof fn lemma_count_named_bound(names: Seq<Option<String>>)
    ensures
        spec_count_named(names) <= names.len(),
        spec_count_named(names) == names.len() ==> forall|i: int|
            0 <= i < names.len() ==> (#[trigger] names[i]) is Some,
        (exists|i: int| 0 <= i < names.len() && (#[trigger] names[i]) is None) ==> spec_count_named(
            names,
        ) < names.len(),
    decreases names.len(),
{
    if names.len() > 0 {
        let init = names.drop_last();
        lemma_count_named_bound(init);
        if spec_count_named(names) == names.len() {
            assert forall|i: int| 0 <= i < names.len() implies (#[trigger] names[i]) is Some by {
                if i < init.len() {
                    assert(init[i] is Some);
                }
            }
        }
        if exists|i: int| 0 <= i < names.len() && (#[trigger] names[i]) is None {
            let i = choose|i: int| 0 <= i < names.len() && (#[trigger] names[i]) is None;
            if i < init.len() {
                assert(init[i] is None);
            }
        }
    }
}

proof fn lemma_count_named_less(names: Seq<Option<String>>)
    requires
        spec_count_named(names) < names.len(),
    ensures
        exists|i: int| 0 <= i < names.len() && (#[trigger] names[i]) is None,
    decreases names.len(),
{
    if names.last() is Some {
        let init = names.drop_last();
        lemma_count_named_less(init);
        let i = choose|i: int| 0 <= i < init.len() && (#[trigger] init[i]) is None;
        assert(names[i] is None);
    } else {
        assert(names[names.len() - 1] is None);
    }
}

proof fn lemma_count_named_update(names: Seq<Option<String>>, index: int, name: Option<String>)
    requires
        0 <= index < names.len(),
        names[index] is None,
        name is Some,
    ensures
        spec_count_named(names.update(index, name)) == spec_count_named(names) + 1,
    decreases names.len(),
{
    let updated = names.update(index, name);
    if index == names.len() - 1 {
        assert(updated.drop_last() =~= names.drop_last());
    } else {
        lemma_count_named_update(names.drop_last(), index, name);
        assert(updated.drop_last() =~= names.drop_last().update(index, name));
    }
}

proof fn lemma_count_named_none(n: nat)
    ensures
        spec_count_named(Seq::new(n, |i: int| None::<String>)) == 0,
    decreases n,
{
    if n > 0 {
        lemma_count_named_none((n - 1) as nat);
        assert(Seq::new(n, |i: int| None::<String>).drop_last() =~= Seq::new(
            (n - 1) as nat,
            |i: int| None::<String>,
        ));
    }
}

/// Every name that is known is the entry's full key, found with the fuel in
/// `depths`, which is at most the number of names that are known.
#[verifier::opaque]
spec fn spec_names_sound(
    entries: Seq<(u32, Seq<char>)>,
    names: Seq<Option<String>>,
    depths: Seq<nat>,
) -> bool {
    &&& names.len() == entries.len()
    &&& depths.len() == names.len()
    &&& forall|i: int|
        0 <= i < names.len() ==> ((#[trigger] names[i]) matches Some(name) ==> depths[i]
            <= spec_count_named(names) && spec_chain_name(entries, i, depths[i]) == Some(name@))
}

/// Each of the first `upto` entries without a name has a parent that is no
/// entry or has no name.
#[verifier::opaque]
spec fn spec_stuck(entries: Seq<(u32, Seq<char>)>, names: Seq<Option<String>>, upto: int) -> bool {
    forall|j: int|
        0 <= j < upto && (#[trigger] names[j]) is None ==> entries[j].0 != NO_PARENT && (
        entries[j].0 >= names.len() || names[entries[j].0 as int] is None)
}

proof fn lemma_sound_start(entries: Seq<(u32, Seq<char>)>)
    ensures
        spec_names_sound(
            entries,
            Seq::new(entries.len(), |i: int| None::<String>),
            Seq::new(entries.len(), |i: int| 0nat),
        ),
{
    reveal(spec_names_sound);
}

proof fn lemma_sound_step(
    entries: Seq<(u32, Seq<char>)>,
    names: Seq<Option<String>>,
    depths: Seq<nat>,
    index: int,
    name: String,
)
    requires
        spec_names_sound(entries, names, depths),
        0 <= index < names.len(),
        names[index] is None,
        entries[index].0 == NO_PARENT ==> name@ == entries[index].1,
        entries[index].0 != NO_PARENT ==> (entries[index].0 < names.len()
            && names[entries[index].0 as int] is Some && name@ == names[entries[index].0
            as int]->0@ + entries[index].1),
    ensures
        spec_names_sound(
            entries,
            names.update(index, Some(name)),
            depths.update(
                index,
                if entries[index].0 == NO_PARENT {
                    1nat
                } else {
                    depths[entries[index].0 as int] + 1
                },
            ),
        ),
        spec_count_named(names.update(index, Some(name))) == spec_count_named(names) + 1,
{
    reveal(spec_names_sound);
    lemma_count_named_update(names, index, Some(name));
    let new_names = names.update(index, Some(name));
    let depth = if entries[index].0 == NO_PARENT {
        1nat
    } else {
        depths[entries[index].0 as int] + 1
    };
    let new_depths = depths.update(index, depth);
    assert forall|i: int| 0 <= i < new_names.len() implies ((#[trigger] new_names[i]) matches Some(
        known,
    ) ==> new_depths[i] <= spec_count_named(new_names) && spec_chain_name(
        entries,
        i,
        new_depths[i],
    ) == Some(known@)) by {
        if i != index {
            assert(new_names[i] == names[i]);
        } else if entries[index].0 != NO_PARENT {
            assert(names[entries[index].0 as int] is Some);
        }
    }
}

proof fn lemma_stuck_step(
    entries: Seq<(u32, Seq<char>)>,
    names: Seq<Option<String>>,
    upto: int,
)
    requires
        spec_stuck(entries, names, upto),
        0 <= upto < names.len(),
        names[upto] is Some || (entries[upto].0 != NO_PARENT && (entries[upto].0 >= names.len()
            || names[entries[upto].0 as int] is None)),
    ensures
        spec_stuck(entries, names, upto + 1),
{
    reveal(spec_stuck);
}

proof fn lemma_stuck_start(entries: Seq<(u32, Seq<char>)>, names: Seq<Option<String>>)
    ensures
        spec_stuck(entries, names, 0),
{
    reveal(spec_stuck);
}

/// Where every entry without a name has a parent without a name, no fuel
/// gives any of them a full key.
proof fn lemma_stuck_unreachable(
    entries: Seq<(u32, Seq<char>)>,
    names: Seq<Option<String>>,
    index: int,
    fuel: nat,
)
    requires
        names.len() == entries.len(),
        spec_stuck(entries, names, names.len() as int),
        0 <= index < names.len(),
        names[index] is None,
    ensures
        spec_chain_name(entries, index, fuel) is None,
    decreases fuel,
{
    reveal(spec_stuck);
    if fuel > 0 {
        let parent = entries[index].0;
        if parent < names.len() {
            lemma_stuck_unreachable(entries, names, parent as int, (fuel - 1) as nat);
        }
    }
}

/// Where a round named nothing and an entry is left without a name, not
/// every entry has a full key.
proof fn lemma_stuck_is_unresolved(entries: Seq<(u32, Seq<char>)>, names: Seq<Option<String>>)
    requires
        names.len() == entries.len(),
        spec_stuck(entries, names, names.len() as int),
        spec_count_named(names) < names.len(),
    ensures
        !spec_all_resolve(entries),
{
    lemma_count_named_less(names);
    let j = choose|j: int| 0 <= j < names.len() && (#[trigger] names[j]) is None;
    lemma_stuck_unreachable(entries, names, j, entries.len());
}

/// Where every entry has a name, the names are the full keys.
proof fn lemma_all_named(
    entries: Seq<(u32, Seq<char>)>,
    names: Seq<Option<String>>,
    depths: Seq<nat>,
    list: Seq<String>,
)
    requires
        spec_names_sound(entries, names, depths),
        spec_count_named(names) == names.len(),
        list.len() == names.len(),
        forall|i: int| 0 <= i < names.len() ==> names[i] == Some(#[trigger] list[i]),
    ensures
        spec_all_resolve(entries),
        forall|i: int|
            0 <= i < list.len() ==> spec_chain_name(entries, i, list.len()) == Some(
                (#[trigger] list[i])@,
            ),
{
    reveal(spec_names_sound);
    let n = names.len();
    assert forall|i: int| 0 <= i < n implies (#[trigger] spec_chain_name(entries, i, n)) == Some(
        list[i]@,
    ) by {
        assert(names[i] == Some(list[i]));
        lemma_chain_name_more_fuel(entries, i, depths[i], n);
    }
}

/// One round of naming: every entry without a name gets one where it has no
/// parent or where its parent has a name. Returns the number of names known
/// after the round.
fn name_round(
    entries: &Vec<(u32, String)>,
    names: &mut Vec<Option<String>>,
    last_inserted: usize,
    Ghost(old_depths): Ghost<Seq<nat>>,
) -> (r: (usize, Ghost<Seq<nat>>))
    requires
        spec_names_sound(spec_entry_views(entries@), old(names)@, old_depths),
        last_inserted == spec_count_named(old(names)@),
    ensures
        spec_names_sound(spec_entry_views(entries@), final(names)@, r.1@),
        final(names)@.len() == entries@.len(),
        r.0 == spec_count_named(final(names)@),
        last_inserted <= r.0,
        r.0 == last_inserted ==> spec_stuck(
            spec_entry_views(entries@),
            final(names)@,
            entries@.len() as int,
        ),
{
    let count = entries.len();
    let ghost views = spec_entry_views(entries@);
    let ghost mut depths = old_depths;
    let mut inserted = last_inserted;
    let mut index: usize = 0;
    proof {
        reveal(spec_names_sound);
        lemma_stuck_start(views, names@);
    }
    while index < count
        invariant
            index <= count,
            count == entries@.len(),
            count == names@.len(),
            views == spec_entry_views(entries@),
            spec_names_sound(views, names@, depths),
            inserted == spec_count_named(names@),
            last_inserted <= inserted,
            inserted == last_inserted ==> spec_stuck(views, names@, index as int),
        decreases count - index,
    {
        let ghost before = names@;
        let mut named: Option<String> = None;
        if names[index].is_none() {
            let parent = entries[index].0;
            if parent == NO_PARENT {
                named = Some(entries[index].1.clone());
            } else if (parent as usize) < count {
                match &names[parent as usize] {
                    Some(parent_name) => {
                        let mut full = parent_name.clone();
                        full.append(entries[index].1.as_str());
                        named = Some(full);
                    },
                    None => {},
                }
            }
        }
        match named {
            Some(name) => {
                proof {
                    lemma_count_named_bound(before);
                    lemma_sound_step(views, before, depths, index as int, name);
                    depths =
                    depths.update(
                        index as int,
                        if views[index as int].0 == NO_PARENT {
                            1nat
                        } else {
                            depths[views[index as int].0 as int] + 1
                        },
                    );
                }
                names.set(index, Some(name));
                inserted += 1;
            },
            None => {
                proof {
                    if inserted == last_inserted {
                        lemma_stuck_step(views, before, index as int);
                    }
                }
            },
        }
        index += 1;
    }
    (inserted, Ghost(depths))
}

/// The full key of every entry, in the order of the entries, where every
/// entry has one. An entry is the index of its parent, or [`NO_PARENT`], and
/// its own text.
///
/// The keys are put together in rounds. A round gives a name to each entry
/// without parent and to each entry whose parent has a name. A round that
/// names nothing while entries are left ends the work: the parents of those
/// entries never reach an entry without parent.
pub fn resolve_names(entries: &Vec<(u32, String)>) -> (names: Option<Vec<String>>)
    ensures
        names is Some <==> spec_all_resolve(spec_entry_views(entries@)),
        names matches Some(list) ==> list@.len() == entries@.len() && forall|i: int|
            0 <= i < list@.len() ==> spec_chain_name(
                spec_entry_views(entries@),
                i,
                list@.len(),
            ) == Some((#[trigger] list@[i])@),
{
    let count = entries.len();
    let ghost views = spec_entry_views(entries@);
    let mut names: Vec<Option<String>> = Vec::new();
    let mut filled: usize = 0;
    while filled < count
        invariant
            filled <= count,
            names@ =~= Seq::new(filled as nat, |i: int| None::<String>),
        decreases count - filled,
    {
        names.push(None);
        filled += 1;
    }
    let ghost mut depths: Seq<nat> = Seq::new(count as nat, |i: int| 0nat);
    let mut inserted: usize = 0;
    proof {
        lemma_count_named_none(count as nat);
        lemma_sound_start(views);
    }
    while inserted < count
        invariant
            count == entries@.len(),
            names@.len() == count,
            views == spec_entry_views(entries@),
            spec_names_sound(views, names@, depths),
            inserted == spec_count_named(names@),
            inserted <= count,
        decreases count - inserted,
    {
        let round = name_round(entries, &mut names, inserted, Ghost(depths));
        proof {
            depths = round.1@;
            lemma_count_named_bound(names@);
        }
        if round.0 == inserted {
            proof {
                lemma_stuck_is_unresolved(views, names@);
            }
            return None;
        }
        inserted = round.0;
    }
    proof {
        lemma_count_named_bound(names@);
    }
    let mut list: Vec<String> = Vec::new();
    let mut index: usize = 0;
    while index < count
        invariant
            index <= count,
            names@.len() == count,
            list@.len() == index,
            forall|i: int| 0 <= i < count ==> (#[trigger] names@[i]) is Some,
            forall|i: int| 0 <= i < index ==> names@[i] == Some(#[trigger] list@[i]),
        decreases count - index,
    {
        match &names[index] {
            Some(name) => {
                list.push(name.clone());
            },
            None => {
                assert(names@[index as int] is Some);
            },
        }
        index += 1;
    }
    proof {
        lemma_all_named(views, names@, depths, list@);
    }
    Some(list)
}

} // verus!
