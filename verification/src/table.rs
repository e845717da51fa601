//! Tables of entries under distinct text keys, in the order in which they came.

use vstd::prelude::*;

use crate::search;
use crate::text;

verus! {

/// An entry under this key.
pub open spec fn under<V>(key: Seq<char>) -> spec_fn((Seq<char>, V)) -> bool {
    |e: (Seq<char>, V)| e.0 == key
}

/// The position of the first entry under a key.
pub open spec fn entry_at<V>(entries: Seq<(Seq<char>, V)>, key: Seq<char>) -> Option<int> {
    search::first_at(entries, under(key))
}

/// What stands under a key.
pub open spec fn value_at<V>(entries: Seq<(Seq<char>, V)>, key: Seq<char>) -> Option<V> {
    match entry_at(entries, key) {
        Some(i) => Some(entries[i].1),
        None => None,
    }
}

/// The entries with one added: in place of the one under its key, or behind the
/// others.
pub open spec fn with_entry<V>(entries: Seq<(Seq<char>, V)>, key: Seq<char>, value: V) -> Seq<
    (Seq<char>, V),
> {
    match entry_at(entries, key) {
        Some(i) => entries.update(i, (key, value)),
        None => entries.push((key, value)),
    }
}

/// The entries without the one under a key.
pub open spec fn without_entry<V>(entries: Seq<(Seq<char>, V)>, key: Seq<char>) -> Seq<
    (Seq<char>, V),
> {
    match entry_at(entries, key) {
        Some(i) => entries.remove(i),
        None => entries,
    }
}

/// No key stands twice.
pub open spec fn distinct_keys<V>(entries: Seq<(Seq<char>, V)>) -> bool {
    forall|i: int, j: int|
        0 <= i < j < entries.len() ==> #[trigger] entries[i].0 != #[trigger] entries[j].0
}

/// `entry_at` finds an entry exactly where there is one, and then the first.
pub proof fn entry_at_finds<V>(entries: Seq<(Seq<char>, V)>, key: Seq<char>)
    ensures
        match entry_at(entries, key) {
            Some(i) => 0 <= i < entries.len() && entries[i].0 == key && forall|j: int|
                0 <= j < i ==> (#[trigger] entries[j]).0 != key,
            None => forall|j: int| 0 <= j < entries.len() ==> (#[trigger] entries[j]).0 != key,
        },
{
    search::first_at_finds(entries, under(key));
}

/// An entry that is added is found under its key, and what stands under any other
/// key stays. Keys stay distinct.
pub proof fn with_entry_finds<V>(
    entries: Seq<(Seq<char>, V)>,
    key: Seq<char>,
    value: V,
    other: Seq<char>,
)
    requires
        distinct_keys(entries),
    ensures
        distinct_keys(with_entry(entries, key, value)),
        value_at(with_entry(entries, key, value), key) == Some(value),
        other != key ==> value_at(with_entry(entries, key, value), other) == value_at(
            entries,
            other,
        ),
{
    let after = with_entry(entries, key, value);
    entry_at_finds(entries, key);
    entry_at_finds(after, key);
    entry_at_finds(entries, other);
    entry_at_finds(after, other);
    match entry_at(entries, key) {
        Some(i) => {
            assert(after[i].0 == key);
            if let Some(j) = entry_at(after, other) {
                assert(entries[j].0 == other || other == key);
            }
            if let Some(j) = entry_at(entries, other) {
                assert(after[j].0 == other);
            }
        },
        None => {
            assert(after[entries.len() as int].0 == key);
            if let Some(j) = entry_at(after, other) {
                assert(j < entries.len() ==> entries[j] == after[j]);
            }
            if let Some(j) = entry_at(entries, other) {
                assert(after[j] == entries[j]);
            }
        },
    }
}

/// Nothing stands any more under a key whose entry was taken out, and what stands
/// under any other key stays. Keys stay distinct.
pub proof fn without_entry_forgets<V>(
    entries: Seq<(Seq<char>, V)>,
    key: Seq<char>,
    other: Seq<char>,
)
    requires
        distinct_keys(entries),
    ensures
        distinct_keys(without_entry(entries, key)),
        value_at(without_entry(entries, key), key) is None,
        other != key ==> value_at(without_entry(entries, key), other) == value_at(entries, other),
{
    let after = without_entry(entries, key);
    entry_at_finds(entries, key);
    entry_at_finds(after, key);
    entry_at_finds(entries, other);
    entry_at_finds(after, other);
    if let Some(i) = entry_at(entries, key) {
        if let Some(j) = entry_at(after, key) {
            let k = if j < i {
                j
            } else {
                j + 1
            };
            assert(entries[k] == after[j]);
        }
        if other != key {
            if let Some(j) = entry_at(after, other) {
                let k = if j < i {
                    j
                } else {
                    j + 1
                };
                assert(entries[k] == after[j]);
            }
            if let Some(k) = entry_at(entries, other) {
                let j = if k < i {
                    k
                } else {
                    k - 1
                };
                assert(after[j] == entries[k]);
            }
        }
    }
}

/// Leaving entries out keeps keys distinct.
pub proof fn filter_keeps_keys_distinct<V>(
    entries: Seq<(Seq<char>, V)>,
    keep: spec_fn((Seq<char>, V)) -> bool,
)
    requires
        distinct_keys(entries),
    ensures
        distinct_keys(entries.filter(keep)),
    decreases entries.len(),
{
    reveal(Seq::filter);
    if entries.len() > 0 {
        let rest = entries.drop_last();
        filter_keeps_keys_distinct(rest, keep);
        let kept = rest.filter(keep);
        if keep(entries.last()) {
            assert forall|i: int| 0 <= i < kept.len() implies (#[trigger] kept[i]).0
                != entries.last().0 by {
                assert(kept.contains(kept[i]));
                rest.lemma_filter_contains_rev(keep, kept[i]);
                let k = rest.index_of(kept[i]);
                assert(entries[k].0 != entries[entries.len() - 1].0);
            }
        }
    }
}

/// The entries of a table, their keys as plain text.
pub open spec fn entries_of<V>(table: Seq<(String, V)>) -> Seq<(Seq<char>, V)> {
    table.map_values(|e: (String, V)| (e.0@, e.1))
}

/// The position of the first entry under a key.
pub fn index_of<V>(table: &Vec<(String, V)>, key: &str) -> (r: Option<usize>)
    ensures
        match r {
            Some(i) => entry_at(entries_of(table@), key@) == Some(i as int) && i < table@.len()
                && table@[i as int].0@ == key@,
            None => entry_at(entries_of(table@), key@) is None,
        },
{
    let ghost entries = entries_of(table@);
    let mut i: usize = 0;
    while i < table.len()
        invariant
            i <= table@.len(),
            entries == entries_of(table@),
            forall|j: int| 0 <= j < i ==> (#[trigger] entries[j]).0 != key@,
        decreases table.len() - i,
    {
        assert(entries[i as int] == (table@[i as int].0@, table@[i as int].1));
        if text::same_text(table[i].0.as_str(), key) {
            proof {
                entry_at_finds(entries, key@);
            }
            return Some(i);
        }
        i += 1;
    }
    proof {
        entry_at_finds(entries, key@);
    }
    None
}

/// Adds an entry, in place of the one under its key.
pub fn insert<V>(table: &mut Vec<(String, V)>, key: String, value: V)
    ensures
        entries_of(final(table)@) == with_entry(entries_of(old(table)@), key@, value),
{
    let ghost before = entries_of(table@);
    let ghost entry = (key@, value);
    match index_of(table, key.as_str()) {
        Some(i) => {
            table.set(i, (key, value));
            assert(entries_of(table@) == before.update(i as int, entry));
        },
        None => {
            table.push((key, value));
            assert(entries_of(table@) == before.push(entry));
        },
    }
}

/// Takes the entry under a key out.
pub fn remove<V>(table: &mut Vec<(String, V)>, key: &str) -> (r: Option<V>)
    ensures
        r == value_at(entries_of(old(table)@), key@),
        entries_of(final(table)@) == without_entry(entries_of(old(table)@), key@),
{
    let ghost before = entries_of(table@);
    match index_of(table, key) {
        Some(i) => {
            assert(before[i as int] == (table@[i as int].0@, table@[i as int].1));
            let (_, value) = table.remove(i);
            assert(entries_of(table@) == before.remove(i as int));
            Some(value)
        },
        None => None,
    }
}

} // verus!
