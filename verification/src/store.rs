//! The key-value store: an in-memory map from string keys to string values,
//! together with the path of the file that snapshots of it are kept in.

use vstd::prelude::*;
use vstd::string::StringExecFns;

use crate::model::{
    lemma_map_of_contains, lemma_map_of_finite, lemma_map_of_index, lemma_map_of_len,
    lemma_map_of_push, lemma_map_of_remove, map_of, render_entries, unique_keys,
};
use crate::snapshot::{decode_entries, encode_entries, json_of, parses_as_snapshot};

verus! {

/// Reading a malformed snapshot document fails with this error; the store is
/// left as it was.
#[derive(Clone, Copy, Debug, PartialEq, Eq, Structural)]
pub enum SnapshotError {
    Malformed,
}

/// The store: entries with pairwise distinct keys, and the backing file's
/// path. Its view is the map from key to value that the entries denote.
#[derive(Debug)]
pub struct HyperStore {
    entries: Vec<(String, String)>,
    file: String,
}

impl View for HyperStore {
    type V = Map<Seq<char>, Seq<char>>;

    closed spec fn view(&self) -> Map<Seq<char>, Seq<char>> {
        map_of(self.entries@)
    }
}

/// True when the two strings hold the same characters.
pub(crate) fn str_eq(a: &str, b: &str) -> (r: bool)
    ensures
        r == (a@ == b@),
{
    let x = a.to_owned();
    let y = b.to_owned();
    x == y
}

impl HyperStore {
    /// Well-formed: no key occurs in two entries.
    pub closed spec fn wf(&self) -> bool {
        unique_keys(self.entries@)
    }

    /// The path of the backing file.
    pub closed spec fn spec_file(&self) -> Seq<char> {
        self.file@
    }

    /// The view is a finite map, whatever the store holds.
    pub proof fn lemma_view_finite(&self)
        ensures
            self@.dom().finite(),
    {
        lemma_map_of_finite(self.entries@);
    }

    /// An empty store backed by the given path.
    pub fn new(file: &str) -> (s: HyperStore)
        ensures
            s.wf(),
            s@ =~= Map::<Seq<char>, Seq<char>>::empty(),
            s.spec_file() == file@,
    {
        HyperStore { entries: Vec::new(), file: file.to_owned() }
    }

    /// The index of the entry that holds `key`, if any.
    fn find(&self, key: &str) -> (r: Option<usize>)
        ensures
            match r {
                Some(i) => i < self.entries@.len() && self.entries@[i as int].0@ == key@,
                None => forall|i: int|
                    0 <= i < self.entries@.len() ==> (#[trigger] self.entries@[i]).0@ != key@,
            },
    {
        let n = self.entries.len();
        let mut i: usize = 0;
        while i < n
            invariant
                i <= n,
                n == self.entries@.len(),
                forall|j: int| 0 <= j < i ==> (#[trigger] self.entries@[j]).0@ != key@,
            decreases n - i,
        {
            if str_eq(self.entries[i].0.as_str(), key) {
                return Some(i);
            }
            i = i + 1;
        }
        None
    }

    /// True exactly when `key` is present.
    pub fn has(&self, key: &str) -> (r: bool)
        ensures
            r == self@.contains_key(key@),
    {
        proof {
            lemma_map_of_contains(self.entries@, key@);
        }
        self.find(key).is_some()
    }

    /// The value stored under `key`, or the empty string when the key is
    /// absent: a missing key and an empty value are not told apart here.
    pub fn get(&self, key: &str) -> (r: String)
        requires
            self.wf(),
        ensures
            self@.contains_key(key@) ==> r@ == self@[key@],
            !self@.contains_key(key@) ==> r@ == Seq::<char>::empty(),
    {
        proof {
            lemma_map_of_contains(self.entries@, key@);
        }
        match self.find(key) {
            Some(i) => {
                proof {
                    lemma_map_of_index(self.entries@, i as int);
                }
                self.entries[i].1.clone()
            },
            None => String::new(),
        }
    }

    /// Removes every entry that holds `key`.
    fn remove_key(&mut self, key: &str)
        requires
            old(self).wf(),
        ensures
            final(self).wf(),
            final(self)@ =~= old(self)@.remove(key@),
            final(self).spec_file() == old(self).spec_file(),
            forall|i: int|
                0 <= i < final(self).entries@.len() ==> (#[trigger] final(self).entries@[i]).0@
                    != key@,
    {
        proof {
            lemma_map_of_contains(self.entries@, key@);
        }
        match self.find(key) {
            Some(i) => {
                proof {
                    lemma_map_of_remove(self.entries@, i as int);
                }
                self.entries.remove(i);
                proof {
                    assert forall|j: int|
                        0 <= j < self.entries@.len() implies (#[trigger] self.entries@[j]).0@
                        != key@ by {
                        let j0: int = if j < i as int { j } else { j + 1 };
                        assert(self.entries@[j] == old(self).entries@.remove(i as int)[j]);
                        assert(old(self).entries@.remove(i as int)[j] == old(self).entries@[j0]);
                    }
                }
            },
            None => {
                proof {
                    assert(self@.remove(key@) =~= self@);
                }
            },
        }
    }

    /// Inserts `value` under `key`, overwriting any earlier value.
    pub fn set(&mut self, key: &str, value: &str)
        requires
            old(self).wf(),
        ensures
            final(self).wf(),
            final(self)@ =~= old(self)@.insert(key@, value@),
            final(self)@.contains_key(key@) && final(self)@[key@] == value@,
            final(self).spec_file() == old(self).spec_file(),
    {
        self.remove_key(key);
        let entry = (key.to_owned(), value.to_owned());
        proof {
            lemma_map_of_push(self.entries@, entry);
            assert(old(self)@.remove(key@).insert(key@, value@) =~= old(self)@.insert(
                key@,
                value@,
            ));
        }
        self.entries.push(entry);
    }

    /// Removes `key`; a no-op when it is absent. Afterwards the key is gone,
    /// whatever the store held before.
    pub fn delete(&mut self, key: &str)
        requires
            old(self).wf(),
        ensures
            final(self).wf(),
            final(self)@ =~= old(self)@.remove(key@),
            !final(self)@.contains_key(key@),
            final(self).spec_file() == old(self).spec_file(),
    {
        self.remove_key(key);
        proof {
            lemma_map_of_contains(self.entries@, key@);
        }
    }

    /// How many keys are stored.
    pub fn len(&self) -> (n: usize)
        requires
            self.wf(),
        ensures
            n == self@.len(),
    {
        proof {
            lemma_map_of_len(self.entries@);
        }
        self.entries.len()
    }

    /// True exactly when nothing is stored.
    pub fn is_empty(&self) -> (r: bool)
        requires
            self.wf(),
        ensures
            r == (self@.len() == 0),
            r == (self@ =~= Map::<Seq<char>, Seq<char>>::empty()),
    {
        proof {
            lemma_map_of_len(self.entries@);
            if self.entries@.len() == 0 {
                assert(self@ =~= Map::<Seq<char>, Seq<char>>::empty());
            } else {
                lemma_map_of_index(self.entries@, 0);
                assert(self@.contains_key(self.entries@[0].0@));
            }
        }
        self.entries.is_empty()
    }

    /// Removes every entry; the backing file is not touched.
    pub fn clear(&mut self)
        ensures
            final(self).wf(),
            final(self)@ =~= Map::<Seq<char>, Seq<char>>::empty(),
            final(self).spec_file() == old(self).spec_file(),
    {
        self.entries.clear();
    }

    /// Replaces the backing file's path; the entries stay as they are.
    pub fn set_file(&mut self, file: &str)
        ensures
            final(self).wf() == old(self).wf(),
            final(self)@ == old(self)@,
            final(self).spec_file() == file@,
    {
        self.file = file.to_owned();
    }

    /// The backing file's path.
    pub fn get_file(&self) -> (r: &String)
        ensures
            r@ == self.spec_file(),
    {
        &self.file
    }

    /// The entries as key/value pairs, in the store's own order.
    pub closed spec fn entries_view(&self) -> Seq<(Seq<char>, Seq<char>)> {
        Seq::new(self.entries@.len(), |i: int| (self.entries@[i].0@, self.entries@[i].1@))
    }

    /// The entry sequence enumerates the view: each pair is a binding of the
    /// map, the listed keys are pairwise distinct, and there are as many
    /// pairs as keys.
    pub proof fn lemma_entries_view(&self)
        requires
            self.wf(),
        ensures
            self.entries_view().len() == self@.len(),
            forall|i: int|
                0 <= i < self.entries_view().len() ==> self@.contains_key(
                    (#[trigger] self.entries_view()[i]).0,
                ) && self@[self.entries_view()[i].0] == self.entries_view()[i].1,
            forall|i: int, j: int|
                0 <= i < j < self.entries_view().len() ==> (#[trigger] self.entries_view()[i]).0
                    != (#[trigger] self.entries_view()[j]).0,
    {
        lemma_map_of_len(self.entries@);
        assert forall|i: int| 0 <= i < self.entries_view().len() implies self@.contains_key(
            (#[trigger] self.entries_view()[i]).0,
        ) && self@[self.entries_view()[i].0] == self.entries_view()[i].1 by {
            lemma_map_of_index(self.entries@, i);
        }
    }

    /// Every entry rendered on a line of its own, in the store's own order;
    /// callers must not rely on that order.
    pub fn all(&self) -> (r: String)
        ensures
            r@ == render_entries(self.entries_view()),
    {
        let mut out = String::new();
        let n = self.entries.len();
        let mut i: usize = 0;
        while i < n
            invariant
                i <= n,
                n == self.entries@.len(),
                out@ == render_entries(self.entries_view().take(i as int)),
            decreases n - i,
        {
            out.append(self.entries[i].0.as_str());
            out.append(": ");
            out.append(self.entries[i].1.as_str());
            out.append("\n");
            proof {
                let ev = self.entries_view();
                assert(ev.take(i + 1).drop_last() =~= ev.take(i as int));
                assert(ev.take(i + 1).last() == ev[i as int]);
            }
            i = i + 1;
        }
        proof {
            assert(self.entries_view().take(n as int) =~= self.entries_view());
        }
        out
    }

    /// The snapshot document holding every entry, ready to be written to the
    /// backing file.
    pub fn snapshot(&self) -> (r: String)
        requires
            self.wf(),
        ensures
            r@ == json_of(self@),
    {
        encode_entries(&self.entries)
    }

    /// A store hydrated from the backing file's contents: no file yet starts
    /// empty, a document that parses yields exactly its entries, and a
    /// malformed document is refused.
    pub fn from_snapshot(file: &str, contents: Option<&str>) -> (r: Result<
        HyperStore,
        SnapshotError,
    >)
        ensures
            contents is None ==> r is Ok,
            contents matches Some(c) ==> ((r is Err) <==> !parses_as_snapshot(c@)),
            contents matches Some(c) ==> (forall|m: Map<Seq<char>, Seq<char>>|
                m.dom().finite() && c@ == json_of(m) ==> r is Ok),
            r matches Ok(s) ==> s.wf() && s.spec_file() == file@,
            r matches Ok(s) ==> (contents is None ==> s@ =~= Map::<Seq<char>, Seq<char>>::empty()),
            r matches Ok(s) ==> (contents matches Some(c) ==> (forall|m: Map<Seq<char>, Seq<char>>|
                m.dom().finite() && c@ == json_of(m) ==> s@ == m)),
    {
        match contents {
            None => Ok(HyperStore::new(file)),
            Some(doc) => match decode_entries(doc) {
                Some(entries) => Ok(HyperStore { entries, file: file.to_owned() }),
                None => Err(SnapshotError::Malformed),
            },
        }
    }

    /// Replaces the entries with what the backing file's contents hold,
    /// dropping whatever was not saved since; the path stays. No file empties
    /// the store; a malformed document leaves it unchanged.
    pub fn reload(&mut self, contents: Option<&str>) -> (r: Result<(), SnapshotError>)
        requires
            old(self).wf(),
        ensures
            final(self).wf(),
            final(self).spec_file() == old(self).spec_file(),
            contents is None ==> r is Ok && final(self)@ =~= Map::<Seq<char>, Seq<char>>::empty(),
            contents matches Some(c) ==> ((r is Err) <==> !parses_as_snapshot(c@)),
            contents matches Some(c) ==> (forall|m: Map<Seq<char>, Seq<char>>|
                m.dom().finite() && c@ == json_of(m) ==> r is Ok),
            contents matches Some(c) ==> (r is Ok ==> (forall|m: Map<Seq<char>, Seq<char>>|
                m.dom().finite() && c@ == json_of(m) ==> final(self)@ == m)),
            r is Err ==> final(self)@ == old(self)@,
    {
        match contents {
            None => {
                self.entries.clear();
                Ok(())
            },
            Some(doc) => match decode_entries(doc) {
                Some(entries) => {
                    self.entries = entries;
                    Ok(())
                },
                None => Err(SnapshotError::Malformed),
            },
        }
    }

    /// Empties the store and hands back the snapshot document of the empty
    /// state, for the caller to persist: the wipe is meant to reach the file.
    pub fn reset(&mut self) -> (doc: String)
        requires
            old(self).wf(),
        ensures
            final(self).wf(),
            final(self)@ =~= Map::<Seq<char>, Seq<char>>::empty(),
            final(self).spec_file() == old(self).spec_file(),
            doc@ == json_of(Map::<Seq<char>, Seq<char>>::empty()),
    {
        self.clear();
        self.snapshot()
    }

    /// A wipe is durable: after `reset`, a fresh store hydrated from the
    /// document that `reset` handed back is itself empty.
    pub fn reset_rebuilt(&mut self) -> (r: HyperStore)
        requires
            old(self).wf(),
        ensures
            final(self).wf(),
            final(self)@ =~= Map::<Seq<char>, Seq<char>>::empty(),
            r.wf(),
            r@ =~= Map::<Seq<char>, Seq<char>>::empty(),
            r.spec_file() == old(self).spec_file(),
    {
        let doc = self.reset();
        proof {
            assert(Map::<Seq<char>, Seq<char>>::empty().dom() =~= Set::empty());
        }
        match HyperStore::from_snapshot(self.get_file().as_str(), Some(doc.as_str())) {
            Ok(s) => s,
            Err(_) => unreached(),
        }
    }

    /// Saving and loading lose nothing: a fresh store built from this
    /// store's own snapshot document holds exactly the same key/value pairs.
    pub fn rebuilt_from_snapshot(&self) -> (r: HyperStore)
        requires
            self.wf(),
        ensures
            r.wf(),
            r@ == self@,
            r.spec_file() == self.spec_file(),
    {
        let doc = self.snapshot();
        proof {
            self.lemma_view_finite();
        }
        match HyperStore::from_snapshot(self.get_file().as_str(), Some(doc.as_str())) {
            Ok(s) => s,
            Err(_) => unreached(),
        }
    }
}

} // verus!
