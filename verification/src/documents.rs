//! The text of every open document, keyed by URI.
use vstd::prelude::*;
use vstd::string::*;
use crate::json::str_eq;

verus! {

/// The full text of every open document, keyed by its `file://` URI.
///
/// The client sends the whole document on every change, so the store only
/// ever replaces texts.
pub struct DocumentStore {
    entries: Vec<(String, String)>,
}

/// No URI occurs twice among the entries.
pub open spec fn unique_keys(s: Seq<(String, String)>) -> bool {
    forall|i: int, j: int| 0 <= i < s.len() && 0 <= j < s.len() && i != j ==> s[i].0@ != s[j].0@
}

/// The map from URI to text that the entries hold.
pub open spec fn entries_map(s: Seq<(String, String)>) -> Map<Seq<char>, Seq<char>> {
    Map::new(
        |k: Seq<char>| exists|i: int| 0 <= i < s.len() && s[i].0@ == k,
        |k: Seq<char>| s[choose|i: int| 0 <= i < s.len() && s[i].0@ == k].1@,
    )
}

impl View for DocumentStore {
    type V = Map<Seq<char>, Seq<char>>;

    closed spec fn view(&self) -> Map<Seq<char>, Seq<char>> {
        entries_map(self.entries@)
    }
}

/// With unique keys, the entry at `i` is the one the map reads for its key.
proof fn lemma_entry_in_map(s: Seq<(String, String)>, i: int)
    requires
        unique_keys(s),
        0 <= i < s.len(),
    ensures
        entries_map(s).contains_key(s[i].0@),
        entries_map(s)[s[i].0@] == s[i].1@,
{
    let k = s[i].0@;
    assert(exists|j: int| 0 <= j < s.len() && s[j].0@ == k);
    let j = choose|j: int| 0 <= j < s.len() && s[j].0@ == k;
    assert(j == i);
}

impl DocumentStore {
    #[verifier::type_invariant]
    spec fn wf(self) -> bool {
        unique_keys(self.entries@)
    }

    /// An empty store.
    pub fn new() -> (r: DocumentStore)
        ensures
            r@ == Map::<Seq<char>, Seq<char>>::empty(),
    {
        let r = DocumentStore { entries: Vec::new() };
        assert(r@ =~= Map::<Seq<char>, Seq<char>>::empty());
        r
    }

    /// The index of the entry for `uri`, if there is one.
    fn find(&self, uri: &str) -> (r: Option<usize>)
        ensures
            match r {
                Some(i) => i < self.entries@.len() && self.entries@[i as int].0@ == uri@,
                None => forall|j: int|
                    0 <= j < self.entries@.len() ==> self.entries@[j].0@ != uri@,
            },
    {
        let mut i: usize = 0;
        while i < self.entries.len()
            invariant
                i <= self.entries@.len(),
                forall|j: int| 0 <= j < i ==> self.entries@[j].0@ != uri@,
            decreases self.entries@.len() - i,
        {
            if str_eq(self.entries[i].0.as_str(), uri) {
                return Some(i);
            }
            i = i + 1;
        }
        None
    }

    /// Whether a document is stored under `uri`.
    pub fn contains_key(&self, uri: &str) -> (r: bool)
        ensures
            r == self@.contains_key(uri@),
    {
        proof {
            use_type_invariant(self);
        }
        match self.find(uri) {
            Some(i) => {
                proof {
                    lemma_entry_in_map(self.entries@, i as int);
                }
                true
            },
            None => false,
        }
    }

    /// The text stored under `uri`.
    pub fn get(&self, uri: &str) -> (r: Option<&String>)
        ensures
            match r {
                Some(t) => self@.contains_key(uri@) && self@[uri@] == t@,
                None => !self@.contains_key(uri@),
            },
    {
        proof {
            use_type_invariant(self);
        }
        match self.find(uri) {
            Some(i) => {
                proof {
                    lemma_entry_in_map(self.entries@, i as int);
                }
                Some(&self.entries[i].1)
            },
            None => None,
        }
    }

    /// Stores `text` under `uri`, replacing any earlier text.
    pub fn insert(&mut self, uri: String, text: String)
        ensures
            final(self)@ == old(self)@.insert(uri@, text@),
    {
        proof {
            use_type_invariant(&*self);
        }
        let ghost old_entries = self.entries@;
        let found = self.find(uri.as_str());
        let ghost k = uri@;
        let ghost t = text@;
        match found {
            Some(i) => {
                let mut entries = Vec::new();
                std::mem::swap(&mut entries, &mut self.entries);
                entries.set(i, (uri, text));
                proof {
                    let s = entries@;
                    assert(s == old_entries.update(i as int, s[i as int]));
                    assert forall|a: int, b: int|
                        0 <= a < s.len() && 0 <= b < s.len() && a != b implies s[a].0@ != s[b].0@ by {
                        if a != i && b != i {
                            assert(s[a] == old_entries[a] && s[b] == old_entries[b]);
                        } else if a == i {
                            assert(s[b] == old_entries[b]);
                        } else {
                            assert(s[a] == old_entries[a]);
                        }
                    }
                    assert forall|key: Seq<char>| #[trigger] entries_map(s).contains_key(key)
                        <==> entries_map(old_entries).insert(k, t).contains_key(key) by {
                        if key != k {
                            if entries_map(s).contains_key(key) {
                                let j = choose|j: int| 0 <= j < s.len() && s[j].0@ == key;
                                assert(old_entries[j].0@ == key);
                            }
                            if entries_map(old_entries).contains_key(key) {
                                let j = choose|j: int| 0 <= j < old_entries.len() && old_entries[j].0@ == key;
                                assert(s[j].0@ == key);
                            }
                        } else {
                            assert(s[i as int].0@ == k);
                        }
                    }
                    assert forall|key: Seq<char>| #[trigger] entries_map(s).contains_key(key)
                        implies entries_map(s)[key] == entries_map(old_entries).insert(k, t)[key] by {
                        let j = choose|j: int| 0 <= j < s.len() && s[j].0@ == key;
                        lemma_entry_in_map(s, j);
                        if key != k {
                            assert(j != i);
                            assert(s[j] == old_entries[j]);
                            lemma_entry_in_map(old_entries, j);
                        } else {
                            assert(j == i);
                        }
                    }
                    assert(entries_map(s) =~= entries_map(old_entries).insert(k, t));
                }
                self.entries = entries;
            },
            None => {
                let mut entries = Vec::new();
                std::mem::swap(&mut entries, &mut self.entries);
                entries.push((uri, text));
                proof {
                    let s = entries@;
                    let n = old_entries.len() as int;
                    assert(s == old_entries.push(s[n]));
                    assert forall|a: int, b: int|
                        0 <= a < s.len() && 0 <= b < s.len() && a != b implies s[a].0@ != s[b].0@ by {
                        if a < n {
                            assert(s[a] == old_entries[a]);
                        }
                        if b < n {
                            assert(s[b] == old_entries[b]);
                        }
                    }
                    assert forall|key: Seq<char>| #[trigger] entries_map(s).contains_key(key)
                        <==> entries_map(old_entries).insert(k, t).contains_key(key) by {
                        if key != k {
                            if entries_map(s).contains_key(key) {
                                let j = choose|j: int| 0 <= j < s.len() && s[j].0@ == key;
                                assert(j < n);
                                assert(old_entries[j].0@ == key);
                            }
                            if entries_map(old_entries).contains_key(key) {
                                let j = choose|j: int| 0 <= j < old_entries.len() && old_entries[j].0@ == key;
                                assert(s[j].0@ == key);
                            }
                        } else {
                            assert(s[n].0@ == k);
                        }
                    }
                    assert forall|key: Seq<char>| #[trigger] entries_map(s).contains_key(key)
                        implies entries_map(s)[key] == entries_map(old_entries).insert(k, t)[key] by {
                        let j = choose|j: int| 0 <= j < s.len() && s[j].0@ == key;
                        lemma_entry_in_map(s, j);
                        if key != k {
                            assert(j < n);
                            assert(s[j] == old_entries[j]);
                            lemma_entry_in_map(old_entries, j);
                        } else {
                            assert(j == n);
                        }
                    }
                    assert(entries_map(s) =~= entries_map(old_entries).insert(k, t));
                }
                self.entries = entries;
            },
        }
    }

    /// Removes the document stored under `uri`, if any.
    pub fn remove(&mut self, uri: &str)
        ensures
            final(self)@ == old(self)@.remove(uri@),
    {
        proof {
            use_type_invariant(&*self);
        }
        let ghost old_entries = self.entries@;
        let ghost k = uri@;
        match self.find(uri) {
            Some(i) => {
                let mut entries = Vec::new();
                std::mem::swap(&mut entries, &mut self.entries);
                let _ = entries.remove(i);
                proof {
                    let s = entries@;
                    let ii = i as int;
                    assert(s == old_entries.remove(ii));
                    assert forall|a: int| 0 <= a < s.len() implies #[trigger] s[a] == old_entries[if a < ii {
                        a
                    } else {
                        a + 1
                    }] by {}
                    assert forall|a: int, b: int|
                        0 <= a < s.len() && 0 <= b < s.len() && a != b implies s[a].0@ != s[b].0@ by {
                        let oa = if a < ii { a } else { a + 1 };
                        let ob = if b < ii { b } else { b + 1 };
                        assert(s[a] == old_entries[oa]);
                        assert(s[b] == old_entries[ob]);
                    }
                    assert forall|key: Seq<char>| #[trigger] entries_map(s).contains_key(key)
                        <==> entries_map(old_entries).remove(k).contains_key(key) by {
                        if entries_map(s).contains_key(key) {
                            let j = choose|j: int| 0 <= j < s.len() && s[j].0@ == key;
                            let oj = if j < ii { j } else { j + 1 };
                            assert(s[j] == old_entries[oj]);
                            assert(oj != ii);
                            assert(old_entries[oj].0@ == key);
                        }
                        if entries_map(old_entries).contains_key(key) && key != k {
                            let j = choose|j: int| 0 <= j < old_entries.len() && old_entries[j].0@ == key;
                            assert(j != ii);
                            let sj = if j < ii { j } else { j - 1 };
                            assert(s[sj] == old_entries[j]);
                        }
                    }
                    assert forall|key: Seq<char>| #[trigger] entries_map(s).contains_key(key)
                        implies entries_map(s)[key] == entries_map(old_entries).remove(k)[key] by {
                        let j = choose|j: int| 0 <= j < s.len() && s[j].0@ == key;
                        lemma_entry_in_map(s, j);
                        let oj = if j < ii { j } else { j + 1 };
                        assert(s[j] == old_entries[oj]);
                        lemma_entry_in_map(old_entries, oj);
                    }
                    assert(entries_map(s) =~= entries_map(old_entries).remove(k));
                }
                self.entries = entries;
            },
            None => {
                proof {
                    assert(!entries_map(old_entries).contains_key(k));
                    assert(entries_map(old_entries) =~= entries_map(old_entries).remove(k));
                }
            },
        }
    }
}

} // verus!
