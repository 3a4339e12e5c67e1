//! Grouping key/value pairs by key.
//!
//! [`group_by_key_pairs`] collects a list of `(key, value)` pairs into a
//! [`GroupMap`]: one entry per distinct key, holding every value that came
//! with that key, in the order in which the values appeared.

use std::collections::HashMap;
use vstd::prelude::*;
use vstd::utf8::encode_utf8;

verus! {

/// A pair as the contracts see it: the characters of the key, and the value.
pub type PairView = (Seq<char>, i32);

/// The predicate "this pair has key `key`".
pub open spec fn has_key(key: Seq<char>) -> spec_fn(PairView) -> bool {
    |pair: PairView| pair.0 == key
}

/// The values that `pairs` gives for `key`, in the order of `pairs`.
pub open spec fn values_for(pairs: Seq<PairView>, key: Seq<char>) -> Seq<i32> {
    pairs.filter(has_key(key)).map_values(|pair: PairView| pair.1)
}

/// Whether some pair of `pairs` has key `key`.
pub open spec fn key_occurs(pairs: Seq<PairView>, key: Seq<char>) -> bool {
    exists|i: int| 0 <= i < pairs.len() && (#[trigger] pairs[i]).0 == key
}

/// The grouping of `pairs`: its keys are exactly the keys that occur in
/// `pairs`, and each key maps to all the values given for it, in input order.
pub open spec fn grouped(pairs: Seq<PairView>) -> Map<Seq<char>, Seq<i32>> {
    Map::new(|key: Seq<char>| key_occurs(pairs, key), |key: Seq<char>| values_for(pairs, key))
}

/// Appending a pair appends its value to the group of its key and leaves
/// every other group as it was.
pub proof fn lemma_values_for_push(pairs: Seq<PairView>, pair: PairView, key: Seq<char>)
    ensures
        values_for(pairs.push(pair), key) == if pair.0 == key {
            values_for(pairs, key).push(pair.1)
        } else {
            values_for(pairs, key)
        },
{
    pairs.lemma_filter_push(pair, has_key(key));
    if pair.0 == key {
        assert(values_for(pairs.push(pair), key) =~= values_for(pairs, key).push(pair.1));
    }
}

/// A key that does not occur has no values.
pub proof fn lemma_values_for_absent(pairs: Seq<PairView>, key: Seq<char>)
    requires
        !key_occurs(pairs, key),
    ensures
        values_for(pairs, key) == Seq::<i32>::empty(),
    decreases pairs.len(),
{
    if pairs.len() == 0 {
        reveal(Seq::filter);
        assert(values_for(pairs, key) =~= Seq::<i32>::empty());
    } else {
        let init = pairs.drop_last();
        assert(pairs =~= init.push(pairs.last()));
        assert(pairs[pairs.len() - 1].0 != key);
        assert forall|i: int| 0 <= i < init.len() implies (#[trigger] init[i]).0 != key by {
            assert(pairs[i].0 != key);
        }
        lemma_values_for_absent(init, key);
        lemma_values_for_push(init, pairs.last(), key);
    }
}

/// Appending the pair `(key, value)` to `pairs` changes the grouping in one
/// entry only: `key` now maps to its former values followed by `value`.
pub proof fn lemma_grouped_push(pairs: Seq<PairView>, key: Seq<char>, value: i32)
    ensures
        grouped(pairs.push((key, value))) == grouped(pairs).insert(
            key,
            values_for(pairs, key).push(value),
        ),
{
    let longer = pairs.push((key, value));
    let expected = grouped(pairs).insert(key, values_for(pairs, key).push(value));
    assert forall|k: Seq<char>| grouped(longer).contains_key(k) <==> expected.contains_key(
        k,
    ) by {
        if key_occurs(longer, k) {
            let i = choose|i: int| 0 <= i < longer.len() && (#[trigger] longer[i]).0 == k;
            if i < pairs.len() {
                assert(pairs[i].0 == k);
            }
        }
        if key_occurs(pairs, k) {
            let i = choose|i: int| 0 <= i < pairs.len() && (#[trigger] pairs[i]).0 == k;
            assert(longer[i].0 == k);
        }
        if k == key {
            assert(longer[pairs.len() as int].0 == k);
        }
    }
    assert forall|k: Seq<char>| grouped(longer).contains_key(k) implies grouped(longer)[k]
        == expected[k] by {
        lemma_values_for_push(pairs, (key, value), k);
    }
    assert(grouped(longer) =~= expected);
}

/// The grouping of no pairs is the empty mapping.
pub proof fn lemma_grouped_empty()
    ensures
        grouped(Seq::<PairView>::empty()) == Map::<Seq<char>, Seq<i32>>::empty(),
{
    assert(grouped(Seq::<PairView>::empty()) =~= Map::<Seq<char>, Seq<i32>>::empty());
}

/// The values for a key in a concatenation are the values in the first part
/// followed by the values in the second.
pub proof fn lemma_values_for_concat(first: Seq<PairView>, second: Seq<PairView>, key: Seq<char>)
    ensures
        values_for(first + second, key) == values_for(first, key) + values_for(second, key),
{
    Seq::filter_distributes_over_add(first, second, has_key(key));
    assert(values_for(first + second, key) =~= values_for(first, key) + values_for(second, key));
}

/// The position that the value of `pairs[i]` takes in the group of its key:
/// the number of earlier pairs with the same key.
pub open spec fn rank_in_group(pairs: Seq<PairView>, i: int) -> int {
    values_for(pairs.take(i), pairs[i].0).len() as int
}

/// Whether `groups` holds the value of `pairs[i]` under the key of
/// `pairs[i]`, at the position that its rank among the pairs of that key gives.
pub open spec fn pair_kept(groups: Map<Seq<char>, Seq<i32>>, pairs: Seq<PairView>, i: int) -> bool {
    &&& groups.contains_key(pairs[i].0)
    &&& 0 <= rank_in_group(pairs, i) < groups[pairs[i].0].len()
    &&& groups[pairs[i].0][rank_in_group(pairs, i)] == pairs[i].1
}

/// Every pair is found again in the grouping: its value stands in the group of
/// its key, after the values of all earlier pairs with that key.
pub proof fn lemma_grouped_keeps_pair(pairs: Seq<PairView>, i: int)
    requires
        0 <= i < pairs.len(),
    ensures
        pair_kept(grouped(pairs), pairs, i),
        grouped(pairs)[pairs[i].0].contains(pairs[i].1),
{
    let key = pairs[i].0;
    let before = pairs.take(i);
    let upto = pairs.take(i + 1);
    let after = pairs.skip(i + 1);
    assert(upto =~= before.push(pairs[i]));
    assert(pairs =~= upto + after);
    lemma_values_for_push(before, pairs[i], key);
    lemma_values_for_concat(upto, after, key);
    assert(key_occurs(pairs, key));
    let group = grouped(pairs)[key];
    assert(group == values_for(before, key).push(pairs[i].1) + values_for(after, key));
    assert(group[rank_in_group(pairs, i)] == pairs[i].1);
}

/// Values with the same key keep their relative order: the later pair has
/// the higher rank in the group.
pub proof fn lemma_rank_follows_input_order(pairs: Seq<PairView>, i: int, j: int)
    requires
        0 <= i < j < pairs.len(),
        pairs[i].0 == pairs[j].0,
    ensures
        rank_in_group(pairs, i) < rank_in_group(pairs, j),
{
    let key = pairs[i].0;
    let before = pairs.take(i);
    let between = pairs.subrange(i + 1, j);
    assert(pairs.take(i + 1) =~= before.push(pairs[i]));
    assert(pairs.take(j) =~= pairs.take(i + 1) + between);
    lemma_values_for_push(before, pairs[i], key);
    lemma_values_for_concat(pairs.take(i + 1), between, key);
}

/// The number of values in all groups together.
pub open spec fn total_values(groups: Map<Seq<char>, Seq<i32>>) -> nat
    decreases groups.dom().len(),
    when groups.dom().finite()
{
    if groups.dom().len() == 0 {
        0
    } else {
        let key = groups.dom().choose();
        groups[key].len() + total_values(groups.remove(key))
    }
}

/// The total can be counted starting from any key.
pub proof fn lemma_total_values_remove(groups: Map<Seq<char>, Seq<i32>>, key: Seq<char>)
    requires
        groups.dom().finite(),
        groups.contains_key(key),
    ensures
        total_values(groups) == groups[key].len() + total_values(groups.remove(key)),
    decreases groups.dom().len(),
{
    let chosen = groups.dom().choose();
    if chosen != key {
        lemma_total_values_remove(groups.remove(chosen), key);
        lemma_total_values_remove(groups.remove(key), chosen);
        assert(groups.remove(chosen).remove(key) =~= groups.remove(key).remove(chosen));
    }
}

/// Storing a group under a key changes the total by the difference between
/// the new group's length and the length of the group that the key had.
pub proof fn lemma_total_values_insert(
    groups: Map<Seq<char>, Seq<i32>>,
    key: Seq<char>,
    group: Seq<i32>,
)
    requires
        groups.dom().finite(),
    ensures
        total_values(groups.insert(key, group)) + (if groups.contains_key(key) {
            groups[key].len()
        } else {
            0
        }) == total_values(groups) + group.len(),
{
    let stored = groups.insert(key, group);
    lemma_total_values_remove(stored, key);
    assert(stored.remove(key) =~= groups.remove(key));
    if groups.contains_key(key) {
        lemma_total_values_remove(groups, key);
    } else {
        assert(groups.remove(key) =~= groups);
    }
}

/// Grouping neither drops nor invents a value: the groups hold as many values
/// as there are pairs, and the grouping has finitely many keys.
pub proof fn lemma_grouped_keeps_count(pairs: Seq<PairView>)
    ensures
        grouped(pairs).dom().finite(),
        total_values(grouped(pairs)) == pairs.len(),
    decreases pairs.len(),
{
    if pairs.len() == 0 {
        assert(pairs =~= Seq::<PairView>::empty());
        lemma_grouped_empty();
    } else {
        let init = pairs.drop_last();
        let (key, value) = pairs.last();
        assert(pairs =~= init.push((key, value)));
        lemma_grouped_keeps_count(init);
        lemma_grouped_push(init, key, value);
        lemma_total_values_insert(grouped(init), key, values_for(init, key).push(value));
        if !grouped(init).contains_key(key) {
            lemma_values_for_absent(init, key);
        }
    }
}

/// One stored entry: a key and the group of values kept for it.
pub type Entry = (String, Vec<i32>);

/// The characters of each entry's key, in storage order.
pub open spec fn entry_keys(entries: Seq<Entry>) -> Seq<Seq<char>> {
    entries.map_values(|entry: Entry| entry.0@)
}

/// The mapping that a list of entries with distinct keys stands for.
pub open spec fn entries_map(entries: Seq<Entry>) -> Map<Seq<char>, Seq<i32>> {
    Map::new(
        |key: Seq<char>| entry_keys(entries).contains(key),
        |key: Seq<char>| entries[entry_keys(entries).index_of(key)].1@,
    )
}

/// Among distinct keys, the entry found for a key is the one that holds it.
proof fn lemma_entry_position(entries: Seq<Entry>, at: int)
    requires
        entry_keys(entries).no_duplicates(),
        0 <= at < entries.len(),
    ensures
        entries_map(entries).contains_key(entries[at].0@),
        entries_map(entries)[entries[at].0@] == entries[at].1@,
{
    let keys = entry_keys(entries);
    assert(keys[at] == entries[at].0@);
    assert(keys[keys.index_of(entries[at].0@)] == entries[at].0@);
}

/// Replacing the group of one entry replaces the value of that entry's key.
proof fn lemma_entries_update(entries: Seq<Entry>, at: int, changed: Entry)
    requires
        entry_keys(entries).no_duplicates(),
        0 <= at < entries.len(),
        changed.0@ == entries[at].0@,
    ensures
        entry_keys(entries.update(at, changed)) == entry_keys(entries),
        entries_map(entries.update(at, changed)) == entries_map(entries).insert(
            changed.0@,
            changed.1@,
        ),
{
    let keys = entry_keys(entries);
    let updated = entries.update(at, changed);
    assert(entry_keys(updated) =~= keys);
    assert forall|key: Seq<char>| keys.contains(key) implies (keys.index_of(key) == at <==> key
        == changed.0@) by {
        assert(keys[keys.index_of(key)] == key);
        assert(keys[at] == changed.0@);
    }
    assert(keys.contains(keys[at]));
    assert(entries_map(updated) =~= entries_map(entries).insert(changed.0@, changed.1@));
}

/// Appending an entry with a new key adds that entry and keeps the others.
proof fn lemma_entries_push(entries: Seq<Entry>, added: Entry)
    requires
        entry_keys(entries).no_duplicates(),
        !entry_keys(entries).contains(added.0@),
    ensures
        entry_keys(entries.push(added)).no_duplicates(),
        entries_map(entries.push(added)) == entries_map(entries).insert(added.0@, added.1@),
{
    let keys = entry_keys(entries);
    let longer = entry_keys(entries.push(added));
    assert(longer =~= keys.push(added.0@));
    assert forall|i: int, j: int|
        0 <= i < longer.len() && 0 <= j < longer.len() && i != j implies longer[i]
        != longer[j] by {
        if i < keys.len() {
            assert(keys.contains(keys[i]));
        }
        if j < keys.len() {
            assert(keys.contains(keys[j]));
        }
    }
    assert(longer[keys.len() as int] == added.0@);
    assert forall|key: Seq<char>| longer.contains(key) <==> (keys.contains(key) || key
        == added.0@) by {
        if keys.contains(key) {
            assert(longer[keys.index_of(key)] == key);
        }
        if longer.contains(key) && key != added.0@ {
            assert(keys[longer.index_of(key)] == key);
        }
    }
    assert forall|key: Seq<char>| longer.contains(key) implies entries.push(
        added,
    )[longer.index_of(key)].1@ == (if key == added.0@ {
        added.1@
    } else {
        entries[keys.index_of(key)].1@
    }) by {
        let at = longer.index_of(key);
        assert(longer[at] == key);
        if key == added.0@ {
            assert(at == keys.len());
        } else {
            assert(keys[at] == key);
            assert(keys[keys.index_of(key)] == key);
        }
    }
    assert(entries_map(entries.push(added)) =~= entries_map(entries).insert(added.0@, added.1@));
}

/// A number made from the bytes of a key. Equal keys give equal numbers,
/// and that is all that is asked of it.
spec fn bytes_hash(bytes: Seq<u8>) -> u64
    decreases bytes.len(),
{
    if bytes.len() == 0 {
        0
    } else {
        ((bytes_hash(bytes.drop_last()) * 31 + bytes.last()) % 4294967291) as u64
    }
}

/// The number under which the key with characters `key` is indexed.
spec fn key_hash(key: Seq<char>) -> u64 {
    bytes_hash(encode_utf8(key))
}

/// Whether `index` leads to every entry: each list in it holds positions of
/// entries only, and the position of each entry stands in the list for the
/// hash of its key.
spec fn indexed(entries: Seq<Entry>, index: Map<u64, Vec<usize>>) -> bool {
    &&& forall|hash: u64, slot: int|
        index.contains_key(hash) && 0 <= slot < index[hash]@.len() ==> (
        #[trigger] index[hash]@[slot]) < entries.len()
    &&& forall|at: int|
        0 <= at < entries.len() ==> {
            &&& index.contains_key(key_hash(#[trigger] entry_keys(entries)[at]))
            &&& index[key_hash(entry_keys(entries)[at])]@.contains(at as usize)
        }
}

/// The number under which `key` is indexed.
fn hash_of(key: &str) -> (hash: u64)
    ensures
        hash == key_hash(key@),
{
    let bytes = key.as_bytes();
    let mut hash: u64 = 0;
    let mut at: usize = 0;
    while at < bytes.len()
        invariant
            at <= bytes.len(),
            hash == bytes_hash(bytes@.take(at as int)),
            hash < 4294967291,
        decreases bytes.len() - at,
    {
        proof {
            assert(bytes@.take(at + 1).drop_last() =~= bytes@.take(at as int));
        }
        hash = (hash * 31 + bytes[at] as u64) % 4294967291;
        at += 1;
    }
    proof {
        assert(bytes@.take(bytes.len() as int) =~= bytes@);
    }
    hash
}

/// A mapping from text keys to lists of integers.
///
/// Each key is stored once, in a list of entries. A hash table over the keys
/// leads from a key to the few entries that can hold it.
pub struct GroupMap {
    entries: Vec<Entry>,
    index: HashMap<u64, Vec<usize>>,
}

impl View for GroupMap {
    type V = Map<Seq<char>, Seq<i32>>;

    closed spec fn view(&self) -> Map<Seq<char>, Seq<i32>> {
        entries_map(self.entries@)
    }
}

impl GroupMap {
    #[verifier::type_invariant]
    spec fn well_formed(&self) -> bool {
        &&& entry_keys(self.entries@).no_duplicates()
        &&& indexed(self.entries@, self.index@)
    }

    /// The group stored for `key`, if there is one.
    pub fn get(&self, key: &str) -> (group: Option<&Vec<i32>>)
        ensures
            match group {
                Some(values) => self@.contains_key(key@) && values@ == self@[key@],
                None => !self@.contains_key(key@),
            },
    {
        proof {
            use_type_invariant(self);
        }
        let wanted = String::from_str(key);
        match position_of(&self.entries, &self.index, &wanted) {
            Some(at) => {
                proof {
                    lemma_entry_position(self.entries@, at as int);
                }
                Some(&self.entries[at].1)
            },
            None => None,
        }
    }

    /// The number of keys.
    pub fn len(&self) -> (count: usize)
        ensures
            self@.dom().finite(),
            count == self@.dom().len(),
    {
        proof {
            use_type_invariant(self);
            entry_keys(self.entries@).unique_seq_to_set();
            assert(self@.dom() =~= entry_keys(self.entries@).to_set());
        }
        self.entries.len()
    }

    /// All entries: each key once, with its group. The order of the entries
    /// carries no meaning.
    pub fn entries(&self) -> (entries: &Vec<Entry>)
        ensures
            entry_keys(entries@).no_duplicates(),
            entries_map(entries@) == self@,
    {
        proof {
            use_type_invariant(self);
        }
        &self.entries
    }
}

/// The position of the entry whose key has the characters of `key`.
fn position_of(entries: &Vec<Entry>, index: &HashMap<u64, Vec<usize>>, key: &String) -> (found:
    Option<usize>)
    requires
        indexed(entries@, index@),
    ensures
        match found {
            Some(at) => at < entries.len() && entries[at as int].0@ == key@,
            None => !entry_keys(entries@).contains(key@),
        },
{
    let ghost keys = entry_keys(entries@);
    let hash = hash_of(key.as_str());
    match index.get(&hash) {
        Some(candidates) => {
            let mut slot: usize = 0;
            while slot < candidates.len()
                invariant
                    slot <= candidates.len(),
                    indexed(entries@, index@),
                    index@.contains_key(hash),
                    index@[hash] == *candidates,
                    forall|earlier: int|
                        0 <= earlier < slot ==> entries[candidates[earlier] as int].0@ != key@,
                decreases candidates.len() - slot,
            {
                let at = candidates[slot];
                assert(index@[hash]@[slot as int] < entries.len());
                if entries[at].0 == *key {
                    return Some(at);
                }
                slot += 1;
            }
            proof {
                assert forall|at: int| 0 <= at < keys.len() implies keys[at] != key@ by {
                    if keys[at] == key@ {
                        assert(at < entries.len());
                        assert(index@[key_hash(entry_keys(entries@)[at])]@.contains(at as usize));
                        let slot = candidates@.index_of(at as usize);
                        assert(candidates[slot] == at);
                        assert(entries[candidates[slot] as int].0@ != key@);
                    }
                }
            }
            None
        },
        None => {
            proof {
                assert forall|at: int| 0 <= at < keys.len() implies keys[at] != key@ by {
                    if keys[at] == key@ {
                        assert(index@.contains_key(key_hash(entry_keys(entries@)[at])));
                    }
                }
            }
            None
        },
    }
}

/// Groups `pairs` by key.
///
/// The result has one entry for each distinct key of `pairs`. The entry holds
/// every value that `pairs` gives for that key, as often and in the same
/// order as they occur in `pairs`. An empty list gives an empty map.
pub fn group_by_key_pairs(pairs: Vec<(String, i32)>) -> (map: GroupMap)
    ensures
        map@ == grouped(pairs.deep_view()),
        map@.dom().finite(),
        total_values(map@) == pairs.len(),
        forall|i: int| 0 <= i < pairs.len() ==> pair_kept(map@, pairs.deep_view(), i),
{
    let ghost all = pairs.deep_view();
    let mut entries: Vec<Entry> = Vec::new();
    let mut index: HashMap<u64, Vec<usize>> = HashMap::new();
    proof {
        assert(all.take(0) =~= Seq::<PairView>::empty());
        assert(entries_map(entries@) =~= grouped(all.take(0)));
    }
    for pair in it: pairs
        invariant
            all == pairs.deep_view(),
            it.seq() == pairs@,
            entry_keys(entries@).no_duplicates(),
            indexed(entries@, index@),
            entries_map(entries@) == grouped(all.take(it.index() as int)),
    {
        let ghost done = all.take(it.index() as int);
        let ghost before = entries@;
        let (key, value) = pair;
        proof {
            assert(all[it.index() as int] == (key@, value));
            assert(all.take(it.index() + 1) =~= done.push((key@, value)));
            lemma_grouped_push(done, key@, value);
        }
        match position_of(&entries, &index, &key) {
            Some(at) => {
                proof {
                    lemma_entry_position(before, at as int);
                    assert(grouped(done)[key@] == values_for(done, key@));
                }
                entries[at].1.push(value);
                proof {
                    assert(entries@ =~= before.update(at as int, entries@[at as int]));
                    lemma_entries_update(before, at as int, entries@[at as int]);
                }
            },
            None => {
                let mut group: Vec<i32> = Vec::new();
                group.push(value);
                proof {
                    assert(!entries_map(before).contains_key(key@));
                    assert(!grouped(done).contains_key(key@));
                    lemma_values_for_absent(done, key@);
                    assert(group@ =~= Seq::<i32>::empty().push(value));
                    lemma_entries_push(before, (key, group));
                }
                let hash = hash_of(key.as_str());
                let at = entries.len();
                let ghost index_before = index@;
                let mut candidates = match index.remove(&hash) {
                    Some(candidates) => candidates,
                    None => Vec::new(),
                };
                let ghost candidates_before = candidates@;
                candidates.push(at);
                index.insert(hash, candidates);
                entries.push((key, group));
                proof {
                    let keys = entry_keys(entries@);
                    assert(keys =~= entry_keys(before).push(key@));
                    assert forall|other: u64, slot: int|
                        index@.contains_key(other) && 0 <= slot < index@[other]@.len() implies (
                    #[trigger] index@[other]@[slot]) < entries.len() by {
                        if other == hash {
                            if slot < candidates_before.len() {
                                assert(index_before[hash]@[slot] < before.len());
                            }
                        } else {
                            assert(index_before[other]@[slot] < before.len());
                        }
                    }
                    assert forall|place: int| 0 <= place < entries.len() implies index@.contains_key(
                        key_hash(#[trigger] keys[place]),
                    ) && index@[key_hash(keys[place])]@.contains(place as usize) by {
                        if place < before.len() {
                            let old_hash = key_hash(entry_keys(before)[place]);
                            assert(index_before[old_hash]@.contains(place as usize));
                            if old_hash == hash {
                                let slot = candidates_before.index_of(place as usize);
                                assert(candidates@[slot] == place as usize);
                            }
                        } else {
                            assert(candidates@[candidates_before.len() as int] == place as usize);
                        }
                    }
                }
            },
        }
    }
    proof {
        assert(all.take(all.len() as int) =~= all);
        lemma_grouped_keeps_count(all);
        assert forall|i: int| 0 <= i < all.len() implies pair_kept(grouped(all), all, i) by {
            lemma_grouped_keeps_pair(all, i);
        }
    }
    GroupMap { entries, index }
}

} // verus!
