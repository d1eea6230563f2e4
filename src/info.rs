//! The fingerprint record of a cache namespace: for each root-relative
//! source path, the fingerprint recorded when its package was last saved.
//! On disk it is a RON map from path to fingerprint.

use vstd::prelude::*;
use crate::paths::{relative_path, relative_path_spec};
use std::collections::BTreeMap;

verus! {

/// The map that a list of pairs describes, a later pair winning over an
/// earlier one with the same key.
pub open spec fn map_of_pairs(s: Seq<(String, String)>) -> Map<Seq<char>, Seq<char>>
    decreases s.len(),
{
    if s.len() == 0 {
        Map::empty()
    } else {
        map_of_pairs(s.drop_last()).insert(s.last().0@, s.last().1@)
    }
}

/// What ron reads from `text` as a map from strings to strings; `None` where
/// `text` is no such map.
pub uninterp spec fn ron_info_of(text: Seq<char>) -> Option<Map<Seq<char>, Seq<char>>>;

/// What ron writes for a map from strings to strings.
pub uninterp spec fn ron_text_of(m: Map<Seq<char>, Seq<char>>) -> Seq<char>;

/// Relies on `ron::de::from_str` into a `BTreeMap<String, String>`: the map
/// that `text` holds, or `None` where it holds none; the pairs come out of the
/// map one per key.
#[verifier::external_body]
fn ron_parse_info(text: &str) -> (r: Option<Vec<(String, String)>>)
    ensures
        r is Some <==> ron_info_of(text@) is Some,
        r matches Some(v) ==> map_of_pairs(v@) == ron_info_of(text@)->Some_0,
{
    ron::de::from_str::<BTreeMap<String, String>>(text).ok().map(|m| m.into_iter().collect())
}

/// Relies on `ron::ser::to_string` of a `BTreeMap<String, String>` built
/// from pairs with distinct keys: the RON text of that map. ron serialises
/// into a `Vec` and has no error path for a map of strings, so the text
/// always comes back.
#[verifier::external_body]
fn ron_write_info(pairs: &Vec<(String, String)>) -> (r: Option<String>)
    requires
        keys_unique(pairs@),
    ensures
        r is Some,
        r matches Some(t) ==> t@ == ron_text_of(map_of_pairs(pairs@)),
{
    let m: BTreeMap<String, String> = pairs.iter().cloned().collect();
    ron::ser::to_string(&m).ok()
}

/// The keys of the pairs are distinct.
pub open spec fn keys_unique(s: Seq<(String, String)>) -> bool {
    forall|i: int, j: int| 0 <= i < j < s.len() ==> s[i].0@ != s[j].0@
}

/// The fingerprint record of one cache namespace.
///
/// It is held as a vector of pairs with distinct keys rather than as a hash
/// map: std's hash map, keyed by strings, gives Verus nothing to reason with
/// about lookups and inserts. On disk it is still a RON map.
pub struct CacheInfo {
    entries: Vec<(String, String)>,
}

proof fn lemma_map_of_pairs_keys(s: Seq<(String, String)>, k: Seq<char>)
    ensures
        map_of_pairs(s).contains_key(k) <==> exists|i: int| 0 <= i < s.len() && s[i].0@ == k,
    decreases s.len(),
{
    if s.len() > 0 {
        lemma_map_of_pairs_keys(s.drop_last(), k);
        if map_of_pairs(s).contains_key(k) && s.last().0@ != k {
            let i = choose|i: int| 0 <= i < s.drop_last().len() && s.drop_last()[i].0@ == k;
            assert(s[i].0@ == k);
        }
        if exists|i: int| 0 <= i < s.len() && s[i].0@ == k {
            let i = choose|i: int| 0 <= i < s.len() && s[i].0@ == k;
            if i < s.len() - 1 {
                assert(s.drop_last()[i].0@ == k);
            }
        }
    }
}

proof fn lemma_map_of_pairs_value(s: Seq<(String, String)>, i: int)
    requires
        keys_unique(s),
        0 <= i < s.len(),
    ensures
        map_of_pairs(s).contains_key(s[i].0@),
        map_of_pairs(s)[s[i].0@] == s[i].1@,
    decreases s.len(),
{
    if i < s.len() - 1 {
        assert(s.drop_last()[i] == s[i]);
        lemma_map_of_pairs_value(s.drop_last(), i);
    }
}

proof fn lemma_map_of_pairs_update(s: Seq<(String, String)>, i: int, p: (String, String))
    requires
        keys_unique(s),
        0 <= i < s.len(),
        s[i].0@ == p.0@,
    ensures
        map_of_pairs(s.update(i, p)) == map_of_pairs(s).insert(p.0@, p.1@),
    decreases s.len(),
{
    let t = s.update(i, p);
    if i == s.len() - 1 {
        assert(t.drop_last() =~= s.drop_last());
        assert(map_of_pairs(s).insert(p.0@, p.1@) =~= map_of_pairs(s.drop_last()).insert(
            p.0@,
            p.1@,
        ));
    } else {
        assert(t.drop_last() =~= s.drop_last().update(i, p));
        lemma_map_of_pairs_update(s.drop_last(), i, p);
        assert(s.last().0@ != p.0@);
        assert(map_of_pairs(t) =~= map_of_pairs(s).insert(p.0@, p.1@));
    }
}

impl CacheInfo {
    /// What the record maps each root-relative source path to.
    pub closed spec fn view(&self) -> Map<Seq<char>, Seq<char>> {
        map_of_pairs(self.entries@)
    }

    /// Each path is recorded once.
    pub closed spec fn wf(&self) -> bool {
        keys_unique(self.entries@)
    }

    /// An empty record.
    pub fn new() -> (r: Self)
        ensures
            r.wf(),
            r.view() == Map::<Seq<char>, Seq<char>>::empty(),
    {
        CacheInfo { entries: Vec::new() }
    }

    /// The number of recorded paths.
    pub fn len(&self) -> (r: usize)
        requires
            self.wf(),
        ensures
            r == self.view().dom().len(),
    {
        proof {
            self.lemma_len();
        }
        self.entries.len()
    }

    proof fn lemma_len(&self)
        requires
            self.wf(),
        ensures
            self.entries@.len() == self.view().dom().len(),
    {
        lemma_unique_len(self.entries@);
    }

    /// The fingerprint recorded for `path`, if any.
    pub fn get(&self, path: &String) -> (r: Option<&String>)
        requires
            self.wf(),
        ensures
            r is None <==> !self.view().contains_key(path@),
            r matches Some(v) ==> self.view()[path@] == v@,
    {
        let mut i: usize = 0;
        while i < self.entries.len()
            invariant
                i <= self.entries@.len(),
                self.wf(),
                forall|j: int| 0 <= j < i ==> self.entries@[j].0@ != path@,
            decreases self.entries@.len() - i,
        {
            if self.entries[i].0 == *path {
                proof {
                    lemma_map_of_pairs_value(self.entries@, i as int);
                }
                return Some(&self.entries[i].1);
            }
            i = i + 1;
        }
        proof {
            lemma_map_of_pairs_keys(self.entries@, path@);
        }
        None
    }

    /// Records `fingerprint` for `path`, replacing what was recorded for it.
    pub fn insert(&mut self, path: String, fingerprint: String)
        requires
            old(self).wf(),
        ensures
            final(self).wf(),
            final(self).view() == old(self).view().insert(path@, fingerprint@),
    {
        let mut i: usize = 0;
        while i < self.entries.len()
            invariant
                i <= self.entries@.len(),
                self.entries@ == old(self).entries@,
                keys_unique(self.entries@),
                forall|j: int| 0 <= j < i ==> self.entries@[j].0@ != path@,
            decreases self.entries@.len() - i,
        {
            if self.entries[i].0 == path {
                let ghost s = self.entries@;
                let p = (path, fingerprint);
                proof {
                    lemma_map_of_pairs_update(s, i as int, p);
                }
                self.entries.set(i, p);
                assert(self.entries@ =~= s.update(i as int, p));
                assert(keys_unique(self.entries@)) by {
                    assert forall|a: int, b: int| 0 <= a < b < self.entries@.len() implies
                        self.entries@[a].0@ != self.entries@[b].0@ by {
                        assert(s[a].0@ != s[b].0@);
                    }
                }
                return;
            }
            i = i + 1;
        }
        let ghost s = self.entries@;
        self.entries.push((path, fingerprint));
        assert(self.entries@.drop_last() =~= s);
        assert(keys_unique(self.entries@)) by {
            assert forall|a: int, b: int| 0 <= a < b < self.entries@.len() implies
                self.entries@[a].0@ != self.entries@[b].0@ by {
                if b < s.len() {
                    assert(self.entries@[a] == s[a] && self.entries@[b] == s[b]);
                } else {
                    assert(self.entries@[a] == s[a]);
                }
            }
        }
    }

    /// The record in RON.
    pub fn to_ron(&self) -> (r: String)
        requires
            self.wf(),
        ensures
            r@ == ron_text_of(self.view()),
    {
        ron_write_info(&self.entries).unwrap()
    }
}

proof fn lemma_unique_len(s: Seq<(String, String)>)
    requires
        keys_unique(s),
    ensures
        map_of_pairs(s).dom().len() == s.len(),
        map_of_pairs(s).dom().finite(),
    decreases s.len(),
{
    if s.len() > 0 {
        let t = s.drop_last();
        assert(keys_unique(t));
        lemma_unique_len(t);
        lemma_map_of_pairs_keys(t, s.last().0@);
        assert(!map_of_pairs(t).contains_key(s.last().0@));
        assert(map_of_pairs(s).dom() =~= map_of_pairs(t).dom().insert(s.last().0@));
    }
}

/// The record that the text of a fingerprint record file gives: empty where
/// there is no file or its text is no RON map.
pub open spec fn info_of_text(text: Option<Seq<char>>) -> Map<Seq<char>, Seq<char>> {
    match text {
        None => Map::empty(),
        Some(t) => match ron_info_of(t) {
            Some(m) => m,
            None => Map::empty(),
        },
    }
}

/// Reads a fingerprint record from the text of its file (`None` where there
/// is no file). A record that is not well formed reads as empty: the next
/// save writes a good one.
pub fn read_info_cache(text: Option<&str>) -> (r: CacheInfo)
    ensures
        r.wf(),
        r.view() == info_of_text(
            match text {
                Some(t) => Some(t@),
                None => None,
            },
        ),
{
    let mut info = CacheInfo::new();
    match text {
        None => info,
        Some(t) => match ron_parse_info(t) {
            None => info,
            Some(pairs) => {
                let mut i: usize = 0;
                while i < pairs.len()
                    invariant
                        i <= pairs@.len(),
                        info.wf(),
                        info.view() == map_of_pairs(pairs@.subrange(0, i as int)),
                    decreases pairs@.len() - i,
                {
                    let k = pairs[i].0.clone();
                    let v = pairs[i].1.clone();
                    assert(pairs@.subrange(0, i + 1).drop_last() =~= pairs@.subrange(0, i as int));
                    info.insert(k, v);
                    i = i + 1;
                }
                assert(pairs@.subrange(0, i as int) =~= pairs@);
                info
            },
        },
    }
}

/// Records `fingerprint` for the source at `filepath`, under its path
/// relative to `root`, and gives the record's new RON text.
pub fn write_info_cache(root: &str, filepath: &str, fingerprint: String, cache: &mut CacheInfo) -> (r:
    String)
    requires
        old(cache).wf(),
    ensures
        final(cache).wf(),
        final(cache).view() == old(cache).view().insert(
            relative_path_spec(root@, filepath@),
            fingerprint@,
        ),
        r@ == ron_text_of(final(cache).view()),
{
    let rel = relative_path(root, filepath);
    cache.insert(rel, fingerprint);
    cache.to_ron()
}

} // verus!
