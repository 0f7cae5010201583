//! The word-frequency table and its serialized cache form.

use vstd::prelude::*;
use vstd::pervasive::VecAdditionalExecFns;
use vstd::string::*;

verus! {

/// The keys of `s` are pairwise distinct (as character sequences).
pub open spec fn unique_keys(s: Seq<(String, i32)>) -> bool {
    forall|i: int, j: int| 0 <= i < j < s.len() ==> s[i].0@ != s[j].0@
}

/// The mapping described by a sequence of (word, count) pairs; a later pair
/// overrides an earlier one with the same word.
pub open spec fn pairs_map(s: Seq<(String, i32)>) -> Map<Seq<char>, int>
    decreases s.len(),
{
    if s.len() == 0 {
        Map::empty()
    } else {
        pairs_map(s.drop_last()).insert(s.last().0@, s.last().1 as int)
    }
}

/// A word-frequency table: each word mapped to its occurrence count.
#[derive(Debug)]
pub struct FrequencyTable {
    entries: Vec<(String, i32)>,
}

impl View for FrequencyTable {
    type V = Map<Seq<char>, int>;

    closed spec fn view(&self) -> Map<Seq<char>, int> {
        pairs_map(self.entries@)
    }
}

/// Under unique keys, the mapping holds exactly the entries' words, each at
/// its entry's count.
proof fn lemma_pairs_map(s: Seq<(String, i32)>)
    requires
        unique_keys(s),
    ensures
        forall|k: Seq<char>| #[trigger] pairs_map(s).contains_key(k)
            ==> exists|i: int| 0 <= i < s.len() && s[i].0@ == k,
        forall|i: int| 0 <= i < s.len()
            ==> pairs_map(s).contains_key(#[trigger] s[i].0@)
                && pairs_map(s)[s[i].0@] == s[i].1 as int,
    decreases s.len(),
{
    if s.len() > 0 {
        lemma_pairs_map(s.drop_last());
        assert forall|i: int| 0 <= i < s.len() implies pairs_map(s).contains_key(#[trigger] s[i].0@)
            && pairs_map(s)[s[i].0@] == s[i].1 as int by {
            if i < s.len() - 1 {
                assert(s.drop_last()[i] == s[i]);
                assert(s[i].0@ != s.last().0@);
            }
        }
        assert forall|k: Seq<char>| #[trigger] pairs_map(s).contains_key(k)
            implies exists|i: int| 0 <= i < s.len() && s[i].0@ == k by {
            if k != s.last().0@ {
                let i = choose|i: int| 0 <= i < s.drop_last().len() && s.drop_last()[i].0@ == k;
                assert(s[i].0@ == k);
            } else {
                assert(s[s.len() - 1].0@ == k);
            }
        }
    }
}

/// Under unique keys, the mapping's domain is finite and has one element per entry.
proof fn lemma_pairs_map_dom(s: Seq<(String, i32)>)
    requires
        unique_keys(s),
    ensures
        pairs_map(s).dom().finite(),
        pairs_map(s).dom().len() == s.len(),
    decreases s.len(),
{
    if s.len() == 0 {
        assert(pairs_map(s).dom() =~= Set::<Seq<char>>::empty());
    } else {
        lemma_pairs_map_dom(s.drop_last());
        lemma_pairs_map(s.drop_last());
        let k = s.last().0@;
        assert(!pairs_map(s.drop_last()).contains_key(k)) by {
            if pairs_map(s.drop_last()).contains_key(k) {
                let i = choose|i: int|
                    0 <= i < s.drop_last().len() && s.drop_last()[i].0@ == k;
                assert(s[i].0@ == s[s.len() - 1].0@);
            }
        }
        assert(pairs_map(s).dom() =~= pairs_map(s.drop_last()).dom().insert(k));
    }
}

/// Replacing the entry at `i` by one with the same word updates the mapping
/// at that word alone.
proof fn lemma_pairs_map_update(s: Seq<(String, i32)>, i: int, p: (String, i32))
    requires
        unique_keys(s),
        0 <= i < s.len(),
        s[i].0@ == p.0@,
    ensures
        pairs_map(s.update(i, p)) == pairs_map(s).insert(p.0@, p.1 as int),
    decreases s.len(),
{
    if i == s.len() - 1 {
        assert(s.update(i, p).drop_last() =~= s.drop_last());
        assert(s.update(i, p).last() == p);
        assert(pairs_map(s.update(i, p)) =~= pairs_map(s).insert(p.0@, p.1 as int));
    } else {
        lemma_pairs_map_update(s.drop_last(), i, p);
        assert(s.update(i, p).drop_last() =~= s.drop_last().update(i, p));
        assert(s.update(i, p).last() == s.last());
        assert(s[i].0@ != s.last().0@);
        assert(pairs_map(s.update(i, p))
            =~= pairs_map(s).insert(p.0@, p.1 as int));
    }
}

impl FrequencyTable {
    /// Internal invariant: no word occurs twice among the entries.
    pub closed spec fn wf(&self) -> bool {
        unique_keys(self.entries@)
    }

    /// The empty table.
    pub fn new() -> (t: FrequencyTable)
        ensures
            t.wf(),
            t@ == Map::<Seq<char>, int>::empty(),
    {
        FrequencyTable { entries: Vec::new() }
    }

    /// The index of the entry for `word`, if there is one.
    fn find(&self, word: &str) -> (r: Option<usize>)
        ensures
            match r {
                Some(i) => i < self.entries@.len() && self.entries@[i as int].0@ == word@,
                None => forall|i: int|
                    0 <= i < self.entries@.len() ==> self.entries@[i].0@ != word@,
            },
    {
        let w = String::from_str(word);
        let mut i: usize = 0;
        while i < self.entries.len()
            invariant
                i <= self.entries@.len(),
                w@ == word@,
                forall|j: int| 0 <= j < i ==> self.entries@[j].0@ != word@,
            decreases self.entries@.len() - i,
        {
            if self.entries[i].0 == w {
                return Some(i);
            }
            i += 1;
        }
        None
    }

    /// The count recorded for `word`, if `word` is in the table.
    pub fn get(&self, word: &str) -> (r: Option<i32>)
        requires
            self.wf(),
        ensures
            match r {
                Some(c) => self@.contains_key(word@) && self@[word@] == c as int,
                None => !self@.contains_key(word@),
            },
    {
        proof {
            lemma_pairs_map(self.entries@);
        }
        match self.find(word) {
            Some(i) => Some(self.entries[i].1),
            None => None,
        }
    }

    /// Records `count` for `word`, replacing any earlier entry for it.
    pub fn insert(&mut self, word: &str, count: i32)
        requires
            old(self).wf(),
            count >= 0,
        ensures
            final(self).wf(),
            final(self)@ == old(self)@.insert(word@, count as int),
    {
        let w = String::from_str(word);
        match self.find(word) {
            Some(i) => {
                proof {
                    lemma_pairs_map_update(self.entries@, i as int, (w, count));
                }
                self.entries.set(i, (w, count));
                assert(unique_keys(self.entries@));
            },
            None => {
                self.entries.push((w, count));
                proof {
                    assert(self.entries@.drop_last() =~= old(self).entries@);
                }
            },
        }
    }

    /// Raises the count for `word` by one, counting from zero for a word not
    /// yet in the table.
    pub fn increment(&mut self, word: &str)
        requires
            old(self).wf(),
            old(self)@.contains_key(word@) ==> old(self)@[word@] < i32::MAX,
        ensures
            final(self).wf(),
            final(self)@ == old(self)@.insert(
                word@,
                if old(self)@.contains_key(word@) {
                    old(self)@[word@] + 1
                } else {
                    1
                },
            ),
    {
        proof {
            lemma_pairs_map(self.entries@);
        }
        let w = String::from_str(word);
        match self.find(word) {
            Some(i) => {
                let c = self.entries[i].1;
                let nc = c + 1;
                proof {
                    lemma_pairs_map_update(self.entries@, i as int, (w, nc));
                }
                self.entries.set(i, (w, nc));
                assert(unique_keys(self.entries@));
            },
            None => {
                self.entries.push((w, 1));
                proof {
                    assert(self.entries@.drop_last() =~= old(self).entries@);
                }
            },
        }
    }

    /// How many distinct words the table holds.
    pub fn len(&self) -> (n: usize)
        requires
            self.wf(),
        ensures
            n == self@.dom().len(),
    {
        proof {
            lemma_pairs_map_dom(self.entries@);
        }
        self.entries.len()
    }
}

/// Errors of building or loading a frequency table.
#[derive(Clone, Copy, PartialEq, Eq, Structural, Debug)]
pub enum CorpusError {
    /// The corpus text could not be read and no cache artifact exists.
    CorpusUnreadable,
    /// The cache artifact exists but does not parse as a frequency table.
    CacheCorrupt,
}

/// The frequency table that a cache text describes, if it parses as a JSON
/// object of string keys and 32-bit integer counts; exactly what
/// `serde_json::from_str::<BTreeMap<String, i32>>` accepts and returns.
pub uninterp spec fn json_table(s: Seq<char>) -> Option<Map<Seq<char>, int>>;

/// Relies on `serde_json::to_string` on a `BTreeMap<String, i32>`: the result
/// is a JSON object holding exactly the given entries, which
/// `serde_json::from_str` reads back to the same mapping. Serializing such a
/// map cannot fail.
#[verifier::external_body]
fn encode_entries(entries: &Vec<(String, i32)>) -> (r: String)
    ensures
        json_table(r@) == Some(pairs_map(entries@)),
{
    let mut m = std::collections::BTreeMap::new();
    for (k, v) in entries.iter() {
        m.insert(k.clone(), *v);
    }
    serde_json::to_string(&m).unwrap()
}

/// Relies on `serde_json::from_str::<BTreeMap<String, i32>>`: parses a JSON
/// object of string keys and 32-bit integer counts, deterministically in the
/// input text; the map's keys are distinct.
#[verifier::external_body]
fn decode_entries(s: &str) -> (r: Option<Vec<(String, i32)>>)
    ensures
        match r {
            Some(v) => unique_keys(v@) && json_table(s@) == Some(pairs_map(v@)),
            None => json_table(s@) is None,
        },
{
    match serde_json::from_str::<std::collections::BTreeMap<String, i32>>(s) {
        Ok(m) => Some(m.into_iter().collect()),
        Err(_) => None,
    }
}

impl FrequencyTable {
    /// The cache artifact text for this table: parsing it back yields the
    /// very same mapping.
    pub fn to_cache(&self) -> (r: String)
        requires
            self.wf(),
        ensures
            json_table(r@) == Some(self@),
    {
        encode_entries(&self.entries)
    }

    /// The table a cache artifact describes: `Ok` exactly when the text
    /// parses as a frequency table, and then the table is the one the text
    /// describes; `CacheCorrupt` otherwise.
    pub fn from_cache(s: &str) -> (r: Result<FrequencyTable, CorpusError>)
        ensures
            match r {
                Ok(t) => t.wf() && json_table(s@) == Some(t@),
                Err(e) => e == CorpusError::CacheCorrupt && json_table(s@) is None,
            },
    {
        match decode_entries(s) {
            Some(v) => Ok(FrequencyTable { entries: v }),
            None => Err(CorpusError::CacheCorrupt),
        }
    }
}

} // verus!
