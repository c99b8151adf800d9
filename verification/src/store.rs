//! The bookmark store.

use vstd::prelude::*;
use vstd::std_specs::cmp::PartialEqSpecImpl;
use vstd::string::StrSliceExecFns;
use vstd::string::StringExecFns;
use crate::entries::{Entries, delete, distinct_keys, entries_view, has_key, key_index, lemma_delete,
    lemma_key_index, lemma_map_size, lemma_put, lookup, put, to_map};
use crate::fail::{HError, HResult};
use crate::persist::{entries_of_pairs, line_views, parse, serialize, split_lines, write_entries};

verus! {

/// Bookmarks: paths under single-character keys, each key bound at most
/// once. The store lists its bookmarks in the order in which their keys
/// were first bound.
#[derive(Debug)]
pub struct Bookmarks {
    mapping: Vec<(char, String)>,
}

impl View for Bookmarks {
    type V = Map<char, Seq<char>>;

    open spec fn view(&self) -> Map<char, Seq<char>> {
        to_map(self.entries())
    }
}

impl Clone for Bookmarks {
    fn clone(&self) -> (copy: Self)
        ensures
            copy.entries() == self.entries(),
    {
        proof {
            use_type_invariant(self);
        }
        let mut mapping: Vec<(char, String)> = Vec::new();
        let mut i: usize = 0;
        while i < self.mapping.len()
            invariant
                i <= self.mapping.len(),
                entries_view(mapping@) == entries_view(self.mapping@).take(i as int),
            decreases self.mapping.len() - i,
        {
            let ghost before = mapping@;
            mapping.push((self.mapping[i].0, self.mapping[i].1.clone()));
            proof {
                assert(entries_view(mapping@) =~= entries_view(before).push(
                    entries_view(self.mapping@)[i as int],
                ));
                assert(entries_view(self.mapping@).take(i + 1) =~= entries_view(
                    self.mapping@,
                ).take(i as int).push(entries_view(self.mapping@)[i as int]));
            }
            i += 1;
        }
        proof {
            assert(entries_view(self.mapping@).take(i as int) =~= entries_view(self.mapping@));
        }
        Bookmarks { mapping }
    }
}

impl PartialEq for Bookmarks {
    /// Two stores are equal where they bind the same keys to the same
    /// paths, in whatever order they list them.
    fn eq(&self, other: &Bookmarks) -> (equal: bool) {
        proof {
            use_type_invariant(self);
            use_type_invariant(other);
            lemma_map_size(self.entries());
            lemma_map_size(other.entries());
        }
        if self.mapping.len() != other.mapping.len() {
            return false;
        }
        let mut i: usize = 0;
        while i < self.mapping.len()
            invariant
                i <= self.mapping.len(),
                distinct_keys(self.entries()),
                forall|j: int|
                    0 <= j < i ==> lookup(other.entries(), (#[trigger] self.entries()[j]).0)
                        == Some(self.entries()[j].1),
            decreases self.mapping.len() - i,
        {
            proof {
                lemma_key_index(self.entries(), i as int);
            }
            match other.get(self.mapping[i].0) {
                Ok(path) => {
                    if !(*path == self.mapping[i].1) {
                        return false;
                    }
                },
                Err(_) => {
                    return false;
                },
            }
            i += 1;
        }
        proof {
            assert forall|key: char| self@.contains_key(key) implies other@.contains_key(key)
                && other@[key] == self@[key] by {
                let j = key_index(self.entries(), key);
                lemma_key_index(self.entries(), j);
                assert(lookup(other.entries(), self.entries()[j].0) == Some(self.entries()[j].1));
            }
            assert(self@.dom().subset_of(other@.dom()));
            vstd::set_lib::lemma_subset_equality(self@.dom(), other@.dom());
            assert(self@ =~= other@);
        }
        true
    }
}

impl Eq for Bookmarks {

}

impl PartialEqSpecImpl for Bookmarks {
    open spec fn obeys_eq_spec() -> bool {
        true
    }

    open spec fn eq_spec(&self, other: &Bookmarks) -> bool {
        self@ == other@
    }
}

impl Bookmarks {
    #[verifier::type_invariant]
    spec fn keys_are_distinct(self) -> bool {
        distinct_keys(entries_view(self.mapping@))
    }

    /// The bookmarks in the order in which the store lists them.
    pub closed spec fn entries(&self) -> Entries {
        entries_view(self.mapping@)
    }

    /// The store that a persistence file holds, where `file` is what
    /// reading that file gave. A file that could not be read leaves the
    /// store empty, and so does an empty one.
    pub fn new(file: HResult<String>) -> (store: Bookmarks)
        ensures
            store.entries() == match file {
                Ok(text) => parse(text@),
                Err(_) => Seq::empty(),
            },
            file matches Ok(text) && text@.len() == 0 ==> store.entries() == Entries::empty(),
            distinct_keys(store.entries()),
    {
        let mut store = Bookmarks { mapping: Vec::new() };
        assert(store.entries() =~= Seq::empty());
        let _ = store.load(file);
        store
    }

    /// Binds `key` to `path`, in place of any path that `key` was bound
    /// to, and returns the content that the persistence file has to be
    /// overwritten with.
    pub fn add(&mut self, key: char, path: &str) -> (content: String)
        ensures
            final(self).entries() == put(old(self).entries(), key, path@),
            final(self)@ == old(self)@.insert(key, path@),
            content@ == serialize(final(self).entries()),
            distinct_keys(final(self).entries()),
    {
        self.insert(key, String::from_str(path));
        self.save()
    }

    /// The path under `key`.
    pub fn get(&self, key: char) -> (path: HResult<&String>)
        ensures
            match path {
                Ok(path) => lookup(self.entries(), key) == Some(path@),
                Err(e) => e == HError::NotFound && lookup(self.entries(), key) is None,
            },
            match path {
                Ok(path) => self@.contains_key(key) && self@[key] == path@,
                Err(_) => !self@.contains_key(key),
            },
    {
        match self.position(key) {
            Some(i) => Ok(&self.mapping[i].1),
            None => Err(HError::NotFound),
        }
    }

    /// Replaces the bookmarks by those of the persistence file, where
    /// `file` is what reading that file gave. A file that could not be
    /// read leaves the store as it is.
    pub fn load(&mut self, file: HResult<String>) -> (loaded: HResult<()>)
        ensures
            match file {
                Ok(text) => loaded is Ok && final(self).entries() == parse(text@),
                Err(e) => loaded == Err::<(), HError>(e) && final(self).entries() == old(
                    self,
                ).entries(),
            },
            distinct_keys(final(self).entries()),
    {
        proof {
            use_type_invariant(&*self);
        }
        match file {
            Err(e) => Err(e),
            Ok(text) => {
                let lines = split_lines(text.as_str());
                let pairs: usize = lines.len() / 2;
                let mut store = Bookmarks { mapping: Vec::new() };
                assert(store.entries() =~= Seq::empty());
                let mut i: usize = 0;
                while i < pairs
                    invariant
                        i <= pairs,
                        pairs == lines.len() / 2,
                        store.entries() == entries_of_pairs(line_views(lines@), i as nat),
                        distinct_keys(store.entries()),
                    decreases pairs - i,
                {
                    let key_line = lines[2 * i].as_str();
                    if !key_line.is_empty() {
                        store.insert(key_line.get_char(0), lines[2 * i + 1].clone());
                    }
                    i += 1;
                }
                *self = store;
                Ok(())
            },
        }
    }

    /// The content of the persistence file for this store: for each
    /// bookmark its key on a line and its path on the next, in the order
    /// in which the store lists them.
    pub fn save(&self) -> (content: String)
        ensures
            content@ == serialize(self.entries()),
    {
        write_entries(&self.mapping)
    }

    /// The number of bookmarks, none of which shares its key with
    /// another.
    pub fn len(&self) -> (n: usize)
        ensures
            n == self.entries().len(),
            distinct_keys(self.entries()),
    {
        proof {
            use_type_invariant(self);
        }
        self.mapping.len()
    }

    /// The bookmark at place `i` of the listing.
    pub(crate) fn entry(&self, i: usize) -> (entry: &(char, String))
        requires
            i < self.entries().len(),
        ensures
            (entry.0, entry.1@) == self.entries()[i as int],
    {
        &self.mapping[i]
    }

    /// The place of the bookmark under `key`.
    fn position(&self, key: char) -> (at: Option<usize>)
        ensures
            match at {
                Some(i) => has_key(self.entries(), key) && i == key_index(self.entries(), key),
                None => !has_key(self.entries(), key),
            },
            distinct_keys(self.entries()),
    {
        proof {
            use_type_invariant(self);
        }
        let mut i: usize = 0;
        while i < self.mapping.len()
            invariant
                i <= self.mapping.len(),
                distinct_keys(self.entries()),
                forall|j: int| 0 <= j < i ==> (#[trigger] self.entries()[j]).0 != key,
            decreases self.mapping.len() - i,
        {
            if self.mapping[i].0 == key {
                proof {
                    lemma_key_index(self.entries(), i as int);
                }
                return Some(i);
            }
            i += 1;
        }
        None
    }

    /// Binds `key` to `path` in memory.
    pub(crate) fn insert(&mut self, key: char, path: String)
        ensures
            final(self).entries() == put(old(self).entries(), key, path@),
            final(self)@ == old(self)@.insert(key, path@),
            distinct_keys(final(self).entries()),
    {
        proof {
            use_type_invariant(&*self);
            lemma_put(self.entries(), key, path@);
        }
        let ghost before = self.entries();
        let at = self.position(key);
        let mut mapping = Vec::new();
        std::mem::swap(&mut mapping, &mut self.mapping);
        proof {
            let after = match at {
                Some(i) => mapping@.update(i as int, (key, path)),
                None => mapping@.push((key, path)),
            };
            assert(entries_view(after) =~= put(before, key, path@));
        }
        match at {
            Some(i) => {
                mapping[i] = (key, path);
            },
            None => {
                mapping.push((key, path));
            },
        }
        self.mapping = mapping;
    }

    /// Removes the bookmark under `key` in memory, if there is one.
    pub(crate) fn remove(&mut self, key: char)
        ensures
            final(self).entries() == delete(old(self).entries(), key),
            final(self)@ == old(self)@.remove(key),
            distinct_keys(final(self).entries()),
    {
        let ghost before = self.entries();
        proof {
            use_type_invariant(&*self);
            lemma_delete(before, key);
        }
        if let Some(i) = self.position(key) {
            let mut mapping = Vec::new();
            std::mem::swap(&mut mapping, &mut self.mapping);
            proof {
                assert(entries_view(mapping@.remove(i as int)) =~= delete(before, key));
            }
            let _ = mapping.remove(i);
            self.mapping = mapping;
        }
    }
}

} // verus!
