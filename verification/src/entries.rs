//! The mathematical model of a bookmark store: a list of key/path pairs in
//! which no key occurs twice, read as a map from key to path.

use vstd::prelude::*;

verus! {

/// Bookmarks in the order in which the store lists them.
pub type Entries = Seq<(char, Seq<char>)>;

/// What a vector of bookmarks holds.
pub open spec fn entries_view(mapping: Seq<(char, String)>) -> Entries {
    mapping.map_values(|entry: (char, String)| (entry.0, entry.1@))
}

/// No key is bound twice.
pub open spec fn distinct_keys(entries: Entries) -> bool {
    forall|i: int, j: int|
        0 <= i < j < entries.len() ==> (#[trigger] entries[i]).0 != (#[trigger] entries[j]).0
}

/// Some entry binds `key`.
pub open spec fn has_key(entries: Entries, key: char) -> bool {
    exists|i: int| 0 <= i < entries.len() && (#[trigger] entries[i]).0 == key
}

/// The place of the entry that binds `key`, where there is one.
pub open spec fn key_index(entries: Entries, key: char) -> int
    recommends
        has_key(entries, key),
{
    choose|i: int| 0 <= i < entries.len() && (#[trigger] entries[i]).0 == key
}

/// The path bound to `key`, if any.
pub open spec fn lookup(entries: Entries, key: char) -> Option<Seq<char>> {
    if has_key(entries, key) {
        Some(entries[key_index(entries, key)].1)
    } else {
        None
    }
}

/// Binds `key` to `path`: an existing binding is overwritten in place, a
/// new one goes to the end.
pub open spec fn put(entries: Entries, key: char, path: Seq<char>) -> Entries {
    if has_key(entries, key) {
        entries.update(key_index(entries, key), (key, path))
    } else {
        entries.push((key, path))
    }
}

/// Removes the binding of `key`, if there is one.
pub open spec fn delete(entries: Entries, key: char) -> Entries {
    if has_key(entries, key) {
        entries.remove(key_index(entries, key))
    } else {
        entries
    }
}

/// The entries as a map from key to path.
pub open spec fn to_map(entries: Entries) -> Map<char, Seq<char>> {
    Map::new(|key: char| has_key(entries, key), |key: char| entries[key_index(entries, key)].1)
}

/// With distinct keys, the entry at `i` is the one that `key_index` finds
/// for its key.
pub proof fn lemma_key_index(entries: Entries, i: int)
    requires
        distinct_keys(entries),
        0 <= i < entries.len(),
    ensures
        has_key(entries, entries[i].0),
        key_index(entries, entries[i].0) == i,
        lookup(entries, entries[i].0) == Some(entries[i].1),
{
    let key = entries[i].0;
    let j = key_index(entries, key);
    assert(0 <= j < entries.len() && entries[j].0 == key);
    if j < i {
        assert(entries[j].0 != entries[i].0);
    } else if i < j {
        assert(entries[i].0 != entries[j].0);
    }
}

/// With distinct keys, the map has one key for each entry.
pub proof fn lemma_map_size(entries: Entries)
    requires
        distinct_keys(entries),
    ensures
        to_map(entries).dom().finite(),
        to_map(entries).dom().len() == entries.len(),
    decreases entries.len(),
{
    if entries.len() == 0 {
        assert(to_map(entries).dom() =~= Set::empty());
    } else {
        let init = entries.drop_last();
        let last = entries.last();
        lemma_map_size(init);
        assert(!has_key(init, last.0)) by {
            if has_key(init, last.0) {
                let i = key_index(init, last.0);
                assert(entries[i].0 != entries[entries.len() - 1].0);
            }
        }
        assert(to_map(entries).dom() =~= to_map(init).dom().insert(last.0)) by {
            assert forall|key: char| has_key(entries, key) <==> has_key(init, key) || key
                == last.0 by {
                if has_key(entries, key) && key != last.0 {
                    let i = key_index(entries, key);
                    assert(init[i].0 == key);
                }
                if has_key(init, key) {
                    let i = key_index(init, key);
                    assert(entries[i].0 == key);
                }
                if key == last.0 {
                    assert(entries[entries.len() - 1].0 == key);
                }
            }
        }
    }
}

/// `put` keeps the keys distinct and acts on the map as an insertion.
pub proof fn lemma_put(entries: Entries, key: char, path: Seq<char>)
    requires
        distinct_keys(entries),
    ensures
        distinct_keys(put(entries, key, path)),
        to_map(put(entries, key, path)) == to_map(entries).insert(key, path),
        lookup(put(entries, key, path), key) == Some(path),
        forall|other: char|
            other != key ==> lookup(put(entries, key, path), other) == lookup(entries, other),
        put(entries, key, path).len() == if has_key(entries, key) {
            entries.len()
        } else {
            entries.len() + 1
        },
{
    let after = put(entries, key, path);
    let at = if has_key(entries, key) {
        key_index(entries, key)
    } else {
        entries.len() as int
    };
    assert(0 <= at < after.len() && after[at] == (key, path));
    assert forall|i: int| 0 <= i < after.len() && i != at implies after[i] == entries[i]
        && entries[i].0 != key by {
        if has_key(entries, key) {
            lemma_key_index(entries, i);
        } else {
            assert(entries[i].0 != key);
        }
    }
    assert(distinct_keys(after)) by {
        assert forall|i: int, j: int| 0 <= i < j < after.len() implies (#[trigger] after[i]).0 != (
        #[trigger] after[j]).0 by {
            if i != at && j != at {
                assert(entries[i].0 != entries[j].0);
            }
        }
    }
    lemma_key_index(after, at);
    assert forall|other: char| other != key implies has_key(after, other) == has_key(
        entries,
        other,
    ) && lookup(after, other) == lookup(entries, other) by {
        if has_key(entries, other) {
            let i = key_index(entries, other);
            assert(after[i] == entries[i]);
            lemma_key_index(entries, i);
            lemma_key_index(after, i);
        }
        if has_key(after, other) {
            let i = key_index(after, other);
            assert(after[i] == entries[i]);
            lemma_key_index(entries, i);
            lemma_key_index(after, i);
        }
    }
    assert(to_map(after) =~= to_map(entries).insert(key, path)) by {
        assert forall|k: char| to_map(after).dom().contains(k) <==> to_map(entries).insert(
            key,
            path,
        ).dom().contains(k) by {
            if k != key {
                assert(has_key(after, k) == has_key(entries, k));
            }
        }
        assert forall|k: char| #[trigger] to_map(after).dom().contains(k) implies to_map(after)[k]
            == to_map(entries).insert(key, path)[k] by {
            if k != key {
                assert(lookup(after, k) == lookup(entries, k));
            }
        }
    }
}

/// `delete` keeps the keys distinct and acts on the map as a removal.
pub proof fn lemma_delete(entries: Entries, key: char)
    requires
        distinct_keys(entries),
    ensures
        distinct_keys(delete(entries, key)),
        to_map(delete(entries, key)) == to_map(entries).remove(key),
        lookup(delete(entries, key), key) is None,
        forall|other: char|
            other != key ==> lookup(delete(entries, key), other) == lookup(entries, other),
        delete(entries, key).len() == if has_key(entries, key) {
            entries.len() - 1
        } else {
            entries.len() as int
        },
{
    let after = delete(entries, key);
    if has_key(entries, key) {
        let at = key_index(entries, key);
        assert forall|i: int| 0 <= i < after.len() implies #[trigger] after[i] == entries[if i
            < at {
            i
        } else {
            i + 1
        }] && after[i].0 != key by {
            let from = if i < at {
                i
            } else {
                i + 1
            };
            lemma_key_index(entries, from);
        }
        assert(distinct_keys(after)) by {
            assert forall|i: int, j: int| 0 <= i < j < after.len() implies (#[trigger] after[i]).0
                != (#[trigger] after[j]).0 by {
                let fi = if i < at {
                    i
                } else {
                    i + 1
                };
                let fj = if j < at {
                    j
                } else {
                    j + 1
                };
                assert(entries[fi].0 != entries[fj].0);
            }
        }
        assert(!has_key(after, key));
        assert forall|other: char| other != key implies has_key(after, other) == has_key(
            entries,
            other,
        ) && lookup(after, other) == lookup(entries, other) by {
            if has_key(entries, other) {
                let i = key_index(entries, other);
                let to = if i < at {
                    i
                } else {
                    i - 1
                };
                assert(after[to] == entries[i]);
                lemma_key_index(entries, i);
                lemma_key_index(after, to);
            }
            if has_key(after, other) {
                let i = key_index(after, other);
                let from = if i < at {
                    i
                } else {
                    i + 1
                };
                assert(after[i] == entries[from]);
                lemma_key_index(entries, from);
                lemma_key_index(after, i);
            }
        }
    }
    assert(to_map(after) =~= to_map(entries).remove(key)) by {
        assert forall|k: char| to_map(after).dom().contains(k) <==> to_map(entries).remove(
            key,
        ).dom().contains(k) by {
            if k != key {
                assert(has_key(after, k) == has_key(entries, k));
            }
        }
        assert forall|k: char| #[trigger] to_map(after).dom().contains(k) implies to_map(after)[k]
            == to_map(entries).remove(key)[k] by {
            if k != key {
                assert(lookup(after, k) == lookup(entries, k));
            }
        }
    }
}

} // verus!
