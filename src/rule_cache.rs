use vstd::prelude::*;
use crate::atlas::same_text;
use crate::tile_xml::{parse_tilesets_with_rules, tilesets_of, tilesets_view, xml_events_of};
use crate::tileset::Tileset;

verus! {

/// Index of the first entry whose key is `key`.
pub open spec fn first_key<T>(entries: Seq<(String, T)>, key: Seq<char>) -> Option<int>
    decreases entries.len(),
{
    if entries.len() == 0 {
        None
    } else {
        match first_key(entries.drop_last(), key) {
            Some(k) => Some(k),
            None => if entries.last().0@ == key {
                Some(entries.len() - 1)
            } else {
                None
            },
        }
    }
}

proof fn lemma_first_key<T>(entries: Seq<(String, T)>, key: Seq<char>)
    ensures
        first_key(entries, key) matches Some(k) ==> 0 <= k < entries.len() && entries[k].0@ == key
            && forall|j: int| 0 <= j < k ==> (#[trigger] entries[j]).0@ != key,
        first_key(entries, key) is None ==> forall|j: int| 0 <= j < entries.len() ==> (#[trigger] entries[j]).0@ != key,
    decreases entries.len(),
{
    if entries.len() > 0 {
        lemma_first_key(entries.drop_last(), key);
        assert forall|j: int| 0 <= j < entries.len() - 1 implies entries[j] == entries.drop_last()[j] by {}
    }
}

/// A path keeps its first entry when entries are appended: once a rule
/// file is loaded, later loads never change what the cache gives for it.
pub proof fn lemma_first_load_stays<T>(before: Seq<(String, T)>, after: Seq<(String, T)>, key: Seq<char>)
    requires
        before.len() <= after.len(),
        after.take(before.len() as int) == before,
        first_key(before, key) is Some,
    ensures
        first_key(after, key) == first_key(before, key),
    decreases after.len(),
{
    if after.len() > before.len() {
        assert(after.drop_last().take(before.len() as int) =~= before);
        lemma_first_load_stays(before, after.drop_last(), key);
    } else {
        assert(after =~= before);
    }
}

/// Parsed rule files by path: each path is parsed once, and the first load
/// of a path is kept for good.
#[derive(Debug)]
pub struct RuleCache {
    pub entries: Vec<(String, Vec<Tileset>)>,
}

impl RuleCache {
    /// An empty cache.
    pub fn new() -> (r: Self)
        ensures
            r.entries@.len() == 0,
    {
        RuleCache { entries: Vec::new() }
    }

    fn find(&self, xml_path: &str) -> (r: Option<usize>)
        ensures
            r matches Some(k) ==> k < self.entries@.len() && first_key(self.entries@, xml_path@) == Some(k as int),
            r is None ==> first_key(self.entries@, xml_path@) is None,
    {
        proof { lemma_first_key(self.entries@, xml_path@); }
        let mut i: usize = 0;
        while i < self.entries.len()
            invariant
                0 <= i <= self.entries@.len(),
                forall|j: int| 0 <= j < i ==> (#[trigger] self.entries@[j]).0@ != xml_path@,
                first_key(self.entries@, xml_path@) matches Some(k) ==> 0 <= k < self.entries@.len()
                    && self.entries@[k].0@ == xml_path@ && forall|j: int|
                    0 <= j < k ==> (#[trigger] self.entries@[j]).0@ != xml_path@,
                first_key(self.entries@, xml_path@) is None ==> forall|j: int|
                    0 <= j < self.entries@.len() ==> (#[trigger] self.entries@[j]).0@ != xml_path@,
            decreases self.entries.len() - i,
        {
            if same_text(self.entries[i].0.as_str(), xml_path) {
                return Some(i);
            }
            i = i + 1;
        }
        None
    }

    /// The tilesets loaded for a rule file, if it was loaded.
    pub fn get_tilesets_with_rules(&self, xml_path: &str) -> (r: Option<&Vec<Tileset>>)
        ensures
            match first_key(self.entries@, xml_path@) {
                Some(k) => r == Some(&self.entries@[k].1),
                None => r is None,
            },
    {
        match self.find(xml_path) {
            Some(k) => Some(&self.entries[k].1),
            None => None,
        }
    }

    /// Parses and keeps a rule file's text under its path, unless that path
    /// was loaded before; returns whether it was kept. What a later
    /// [`RuleCache::get_tilesets_with_rules`] of the path gives is then the
    /// parse of this text, whatever is loaded after.
    pub fn load(&mut self, xml_path: &str, xml_text: &str) -> (r: bool)
        ensures
            r == (first_key(old(self).entries@, xml_path@) is None),
            !r ==> final(self).entries@ == old(self).entries@,
            r ==> final(self).entries@.len() == old(self).entries@.len() + 1 && final(self).entries@.drop_last()
                == old(self).entries@ && final(self).entries@.last().0@ == xml_path@,
            r ==> tilesets_view(final(self).entries@.last().1@) == tilesets_of(xml_events_of(xml_text@)),
            r ==> first_key(final(self).entries@, xml_path@) == Some(old(self).entries@.len() as int),
    {
        if self.find(xml_path).is_some() {
            return false;
        }
        let tilesets = parse_tilesets_with_rules(xml_text);
        let ghost before = self.entries@;
        self.entries.push((xml_path.to_owned(), tilesets));
        assert(self.entries@.drop_last() =~= before);
        true
    }
}

} // verus!
