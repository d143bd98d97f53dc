//! Word tables: the map from source words to English replacements, the
//! mapping document that carries one together with stop words, and the
//! manager of that document.
use vstd::prelude::*;
use crate::defaults::{default_mapping_table, default_mappings, default_stop_word_list, default_stop_words};
use crate::text::{pieces, split_on, views};

verus! {

/// The map that a list of (key, value) pairs stands for.
pub open spec fn pairs_map(s: Seq<(String, String)>) -> Map<Seq<char>, Seq<char>> {
    Map::new(
        |k: Seq<char>| exists|i: int| 0 <= i < s.len() && (#[trigger] s[i]).0@ == k,
        |k: Seq<char>| s[choose|i: int| 0 <= i < s.len() && (#[trigger] s[i]).0@ == k].1@,
    )
}

/// No key occurs twice.
pub open spec fn unique_keys(s: Seq<(String, String)>) -> bool {
    forall|i: int, j: int| 0 <= i < s.len() && 0 <= j < s.len() && i != j ==> (#[trigger] s[i]).0@
        != (#[trigger] s[j]).0@
}

/// In a list with unique keys, the pair at `i` gives the value of its key.
pub proof fn lemma_pairs_map_at(s: Seq<(String, String)>, i: int)
    requires
        unique_keys(s),
        0 <= i < s.len(),
    ensures
        pairs_map(s).contains_key(s[i].0@),
        pairs_map(s)[s[i].0@] == s[i].1@,
{
    let k = s[i].0@;
    assert(pairs_map(s).contains_key(k));
    let j = choose|j: int| 0 <= j < s.len() && (#[trigger] s[j]).0@ == k;
    assert(j == i);
}

/// Appending a pair with a new key inserts it.
pub proof fn lemma_pairs_map_push(s: Seq<(String, String)>, p: (String, String))
    requires
        unique_keys(s),
        !pairs_map(s).contains_key(p.0@),
    ensures
        unique_keys(s.push(p)),
        pairs_map(s.push(p)) == pairs_map(s).insert(p.0@, p.1@),
{
    let t = s.push(p);
    assert forall|i: int, j: int| 0 <= i < t.len() && 0 <= j < t.len() && i != j implies (
    #[trigger] t[i]).0@ != (#[trigger] t[j]).0@ by {
        if i == s.len() {
            assert(t[j] == s[j]);
        } else if j == s.len() {
            assert(t[i] == s[i]);
        }
    }
    assert forall|k: Seq<char>| #[trigger]
        pairs_map(t).contains_key(k) == pairs_map(s).insert(p.0@, p.1@).contains_key(k) by {
        if pairs_map(s).contains_key(k) {
            let i = choose|i: int| 0 <= i < s.len() && (#[trigger] s[i]).0@ == k;
            assert(t[i] == s[i]);
        }
        if k == p.0@ {
            assert(t[s.len() as int] == p);
        }
        if pairs_map(t).contains_key(k) {
            let i = choose|i: int| 0 <= i < t.len() && (#[trigger] t[i]).0@ == k;
            if i < s.len() {
                assert(s[i] == t[i]);
            }
        }
    }
    assert forall|k: Seq<char>| #[trigger] pairs_map(t).contains_key(k) implies pairs_map(t)[k]
        == pairs_map(s).insert(p.0@, p.1@)[k] by {
        let i = choose|i: int| 0 <= i < t.len() && (#[trigger] t[i]).0@ == k;
        lemma_pairs_map_at(t, i);
        if i < s.len() {
            assert(s[i] == t[i]);
            lemma_pairs_map_at(s, i);
        }
    }
    assert(pairs_map(t) =~= pairs_map(s).insert(p.0@, p.1@));
}

/// Replacing the value of the pair at `i` updates its key.
pub proof fn lemma_pairs_map_update(s: Seq<(String, String)>, i: int, v: String)
    requires
        unique_keys(s),
        0 <= i < s.len(),
    ensures
        unique_keys(s.update(i, (s[i].0, v))),
        pairs_map(s.update(i, (s[i].0, v))) == pairs_map(s).insert(s[i].0@, v@),
{
    let t = s.update(i, (s[i].0, v));
    assert forall|a: int, b: int| 0 <= a < t.len() && 0 <= b < t.len() && a != b implies (
    #[trigger] t[a]).0@ != (#[trigger] t[b]).0@ by {
        assert(t[a].0 == s[a].0);
        assert(t[b].0 == s[b].0);
    }
    assert forall|k: Seq<char>| #[trigger]
        pairs_map(t).contains_key(k) == pairs_map(s).contains_key(k) by {
        if pairs_map(s).contains_key(k) {
            let j = choose|j: int| 0 <= j < s.len() && (#[trigger] s[j]).0@ == k;
            assert(t[j].0 == s[j].0);
        }
        if pairs_map(t).contains_key(k) {
            let j = choose|j: int| 0 <= j < t.len() && (#[trigger] t[j]).0@ == k;
            assert(t[j].0 == s[j].0);
        }
    }
    lemma_pairs_map_at(s, i);
    assert forall|k: Seq<char>| #[trigger] pairs_map(t).contains_key(k) implies pairs_map(t)[k]
        == pairs_map(s).insert(s[i].0@, v@)[k] by {
        let j = choose|j: int| 0 <= j < t.len() && (#[trigger] t[j]).0@ == k;
        lemma_pairs_map_at(t, j);
        if j != i {
            assert(s[j] == t[j]);
            lemma_pairs_map_at(s, j);
        }
    }
    assert(pairs_map(t) =~= pairs_map(s).insert(s[i].0@, v@));
}

/// Removing the pair at `i` removes its key.
pub proof fn lemma_pairs_map_remove(s: Seq<(String, String)>, i: int)
    requires
        unique_keys(s),
        0 <= i < s.len(),
    ensures
        unique_keys(s.remove(i)),
        pairs_map(s.remove(i)) == pairs_map(s).remove(s[i].0@),
{
    let t = s.remove(i);
    assert forall|a: int, b: int| 0 <= a < t.len() && 0 <= b < t.len() && a != b implies (
    #[trigger] t[a]).0@ != (#[trigger] t[b]).0@ by {
        let a2 = if a < i { a } else { a + 1 };
        let b2 = if b < i { b } else { b + 1 };
        assert(t[a] == s[a2]);
        assert(t[b] == s[b2]);
    }
    assert forall|k: Seq<char>| #[trigger]
        pairs_map(t).contains_key(k) == pairs_map(s).remove(s[i].0@).contains_key(k) by {
        if pairs_map(s).contains_key(k) && k != s[i].0@ {
            let j = choose|j: int| 0 <= j < s.len() && (#[trigger] s[j]).0@ == k;
            let j2 = if j < i { j } else { j - 1 };
            assert(t[j2] == s[j]);
        }
        if pairs_map(t).contains_key(k) {
            let j = choose|j: int| 0 <= j < t.len() && (#[trigger] t[j]).0@ == k;
            let j2 = if j < i { j } else { j + 1 };
            assert(t[j] == s[j2]);
        }
    }
    assert forall|k: Seq<char>| #[trigger] pairs_map(t).contains_key(k) implies pairs_map(t)[k]
        == pairs_map(s)[k] by {
        let j = choose|j: int| 0 <= j < t.len() && (#[trigger] t[j]).0@ == k;
        let j2 = if j < i { j } else { j + 1 };
        assert(t[j] == s[j2]);
        lemma_pairs_map_at(t, j);
        lemma_pairs_map_at(s, j2);
    }
    assert(pairs_map(t) =~= pairs_map(s).remove(s[i].0@));
}

/// A map from words to words, kept as a list of pairs in the order in
/// which keys were first inserted.
#[derive(Debug)]
pub struct WordMap {
    entries: Vec<(String, String)>,
}

impl View for WordMap {
    type V = Map<Seq<char>, Seq<char>>;

    closed spec fn view(&self) -> Map<Seq<char>, Seq<char>> {
        pairs_map(self.entries@)
    }
}

impl Clone for WordMap {
    fn clone(&self) -> (r: WordMap)
        ensures
            r@ == self@,
    {
        proof {
            use_type_invariant(self);
        }
        WordMap { entries: self.copied() }
    }
}

impl WordMap {
    #[verifier::type_invariant]
    closed spec fn keys_unique(&self) -> bool {
        unique_keys(self.entries@)
    }

    /// The empty map.
    pub fn new() -> (r: WordMap)
        ensures
            r@ == Map::<Seq<char>, Seq<char>>::empty(),
    {
        let r = WordMap { entries: Vec::new() };
        assert(r@ =~= Map::<Seq<char>, Seq<char>>::empty());
        r
    }

    /// The position of `key` in the list, if it is there.
    fn position(&self, key: &str) -> (r: Option<usize>)
        ensures
            r is None <==> !self@.contains_key(key@),
            r matches Some(i) ==> i < self.entries@.len() && self.entries@[i as int].0@ == key@,
    {
        let wanted = key.to_string();
        let n = self.entries.len();
        for i in 0..n
            invariant
                n == self.entries@.len(),
                wanted@ == key@,
                forall|j: int| 0 <= j < i ==> (#[trigger] self.entries@[j]).0@ != key@,
        {
            if self.entries[i].0 == wanted {
                return Some(i);
            }
        }
        None
    }

    /// A copy of the list of pairs.
    fn copied(&self) -> (r: Vec<(String, String)>)
        ensures
            r@ == self.entries@,
    {
        let mut r: Vec<(String, String)> = Vec::new();
        let n = self.entries.len();
        for i in 0..n
            invariant
                n == self.entries@.len(),
                r@ == self.entries@.subrange(0, i as int),
        {
            let p = (self.entries[i].0.clone(), self.entries[i].1.clone());
            r.push(p);
        }
        r
    }

    /// The value of `key`.
    pub fn get(&self, key: &str) -> (r: Option<&String>)
        ensures
            r is Some <==> self@.contains_key(key@),
            r matches Some(v) ==> v@ == self@[key@],
    {
        proof {
            use_type_invariant(self);
        }
        match self.position(key) {
            Some(i) => {
                proof {
                    lemma_pairs_map_at(self.entries@, i as int);
                }
                Some(&self.entries[i].1)
            },
            None => None,
        }
    }

    /// Sets the value of `key`, replacing the one it had.
    pub fn insert(&mut self, key: String, value: String)
        ensures
            final(self)@ == old(self)@.insert(key@, value@),
    {
        proof {
            use_type_invariant(&*self);
        }
        match self.position(key.as_str()) {
            Some(i) => {
                proof {
                    lemma_pairs_map_update(self.entries@, i as int, value);
                }
                let mut e = self.copied();
                let k = e[i].0.clone();
                e.set(i, (k, value));
                self.entries = e;
            },
            None => {
                proof {
                    lemma_pairs_map_push(self.entries@, (key, value));
                }
                let mut e = self.copied();
                e.push((key, value));
                self.entries = e;
            },
        }
    }

    /// Removes `key`, and returns the value it had.
    pub fn remove(&mut self, key: &str) -> (r: Option<String>)
        ensures
            final(self)@ == old(self)@.remove(key@),
            r is Some <==> old(self)@.contains_key(key@),
            r matches Some(v) ==> v@ == old(self)@[key@],
    {
        proof {
            use_type_invariant(&*self);
        }
        match self.position(key) {
            Some(i) => {
                proof {
                    lemma_pairs_map_at(self.entries@, i as int);
                    lemma_pairs_map_remove(self.entries@, i as int);
                }
                let mut e = self.copied();
                let (_, v) = e.remove(i);
                self.entries = e;
                Some(v)
            },
            None => {
                proof {
                    assert(self@.remove(key@) =~= self@);
                }
                None
            },
        }
    }

    /// The pairs, each key once, in the order in which keys came in.
    pub fn entries(&self) -> (r: &Vec<(String, String)>)
        ensures
            pairs_map(r@) == self@,
            unique_keys(r@),
    {
        proof {
            use_type_invariant(self);
        }
        &self.entries
    }

    /// The number of keys.
    pub fn len(&self) -> (r: usize)
        ensures
            r == self@.dom().len(),
    {
        proof {
            use_type_invariant(self);
            lemma_pairs_map_len(self.entries@);
        }
        self.entries.len()
    }
}

/// A list with unique keys has as many keys as pairs.
pub proof fn lemma_pairs_map_len(s: Seq<(String, String)>)
    requires
        unique_keys(s),
    ensures
        pairs_map(s).dom().finite(),
        pairs_map(s).dom().len() == s.len(),
    decreases s.len(),
{
    if s.len() == 0 {
        assert(pairs_map(s).dom() =~= Set::<Seq<char>>::empty());
    } else {
        let p = s.drop_last();
        assert forall|i: int, j: int| 0 <= i < p.len() && 0 <= j < p.len() && i != j implies (
        #[trigger] p[i]).0@ != (#[trigger] p[j]).0@ by {
            assert(p[i] == s[i]);
            assert(p[j] == s[j]);
        }
        lemma_pairs_map_len(p);
        if pairs_map(p).contains_key(s.last().0@) {
            let i = choose|i: int| 0 <= i < p.len() && (#[trigger] p[i]).0@ == s.last().0@;
            assert(s[i] == p[i]);
            assert(false);
        }
        lemma_pairs_map_push(p, s.last());
        assert(p.push(s.last()) == s);
    }
}

/// `s` with each word kept at its first occurrence only.
pub open spec fn dedup(s: Seq<Seq<char>>) -> Seq<Seq<char>>
    decreases s.len(),
{
    if s.len() == 0 {
        s
    } else {
        let d = dedup(s.drop_last());
        if d.contains(s.last()) {
            d
        } else {
            d.push(s.last())
        }
    }
}

/// `dedup` keeps every word once and drops none.
pub proof fn lemma_dedup(s: Seq<Seq<char>>)
    ensures
        dedup(s).no_duplicates(),
        dedup(s).to_set() == s.to_set(),
    decreases s.len(),
{
    if s.len() > 0 {
        let p = s.drop_last();
        lemma_dedup(p);
        let d = dedup(p);
        assert(s == p.push(s.last()));
        assert(s.to_set() =~= p.to_set().insert(s.last())) by {
            assert forall|w: Seq<char>| s.to_set().contains(w) implies p.to_set().insert(
                s.last(),
            ).contains(w) by {
                let i = choose|i: int| 0 <= i < s.len() && s[i] == w;
                if i < p.len() {
                    assert(p[i] == w);
                }
            }
            assert forall|w: Seq<char>| p.to_set().contains(w) implies s.to_set().contains(w) by {
                let i = choose|i: int| 0 <= i < p.len() && p[i] == w;
                assert(s[i] == w);
            }
            assert(s[s.len() - 1] == s.last());
        }
        if d.contains(s.last()) {
            assert(d.to_set().contains(s.last()));
            assert(p.to_set().insert(s.last()) =~= p.to_set());
        } else {
            let e = d.push(s.last());
            assert forall|i: int, j: int| 0 <= i < e.len() && 0 <= j < e.len() && i != j implies e[i]
                != e[j] by {
                if i == d.len() {
                    assert(e[j] == d[j]);
                } else if j == d.len() {
                    assert(e[i] == d[i]);
                }
            }
            assert(e.to_set() =~= d.to_set().insert(s.last())) by {
                assert forall|w: Seq<char>| e.to_set().contains(w) implies d.to_set().insert(
                    s.last(),
                ).contains(w) by {
                    let i = choose|i: int| 0 <= i < e.len() && e[i] == w;
                    if i < d.len() {
                        assert(d[i] == w);
                    }
                }
                assert forall|w: Seq<char>| d.to_set().contains(w) implies e.to_set().contains(w) by {
                    let i = choose|i: int| 0 <= i < d.len() && d[i] == w;
                    assert(e[i] == w);
                }
                assert(e[e.len() - 1] == s.last());
            }
        }
    }
}

/// Whether `w` is among the strings of `v`.
pub fn list_contains(v: &Vec<String>, w: &str) -> (r: bool)
    ensures
        r == views(v@).contains(w@),
{
    let wanted = w.to_string();
    let n = v.len();
    for i in 0..n
        invariant
            n == v@.len(),
            wanted@ == w@,
            forall|j: int| 0 <= j < i ==> (#[trigger] v@[j])@ != w@,
    {
        if v[i] == wanted {
            assert(views(v@)[i as int] == w@);
            return true;
        }
    }
    assert forall|j: int| 0 <= j < views(v@).len() implies views(v@)[j] != w@ by {
        assert(views(v@)[j] == v@[j]@);
    }
    false
}

/// A vocabulary document: translations, stop words, a version and an
/// optional description.
#[derive(Clone, Debug)]
pub struct MappingConfig {
    pub mappings: WordMap,
    pub stop_words: Vec<String>,
    pub version: String,
    pub description: Option<String>,
}

pub open spec fn default_version() -> Seq<char> {
    "1.0"@
}

pub open spec fn default_description() -> Seq<char> {
    "默认中文到英文词汇映射配置"@
}

impl Default for MappingConfig {
    /// The default document: the default translations and stop words,
    /// version "1.0", and a description.
    fn default() -> (r: MappingConfig)
        ensures
            r.mappings@ == default_mappings(),
            views(r.stop_words@) == default_stop_words(),
            r.version@ == default_version(),
            r.description matches Some(d) && d@ == default_description(),
    {
        MappingConfig {
            mappings: default_mapping_table(),
            stop_words: default_stop_word_list(),
            version: "1.0".to_string(),
            description: Some("默认中文到英文词汇映射配置".to_string()),
        }
    }
}

impl MappingConfig {
    /// Merges `other` into this document: its translations replace those of
    /// the same words, and its stop words join these, each word kept once.
    pub fn merge(&mut self, other: MappingConfig)
        ensures
            final(self).mappings@ == old(self).mappings@.union_prefer_right(other.mappings@),
            views(final(self).stop_words@) == dedup(
                views(old(self).stop_words@) + views(other.stop_words@),
            ),
            views(final(self).stop_words@).no_duplicates(),
            views(final(self).stop_words@).to_set() == views(old(self).stop_words@).to_set().union(
                views(other.stop_words@).to_set(),
            ),
            final(self).version == old(self).version,
            final(self).description == old(self).description,
    {
        let entries = other.mappings.entries();
        let n = entries.len();
        assert(pairs_map(entries@.subrange(0, 0)) =~= Map::<Seq<char>, Seq<char>>::empty());
        assert(self.mappings@.union_prefer_right(Map::<Seq<char>, Seq<char>>::empty())
            =~= self.mappings@);
        for i in 0..n
            invariant
                n == entries@.len(),
                unique_keys(entries@),
                pairs_map(entries@) == other.mappings@,
                self.mappings@ == old(self).mappings@.union_prefer_right(
                    pairs_map(entries@.subrange(0, i as int)),
                ),
                self.stop_words == old(self).stop_words,
                self.version == old(self).version,
                self.description == old(self).description,
        {
            let ghost pre = entries@.subrange(0, i as int);
            proof {
                assert(entries@.subrange(0, i + 1) == pre.push(entries@[i as int]));
                assert forall|a: int, b: int| 0 <= a < pre.len() && 0 <= b < pre.len() && a != b implies (
                #[trigger] pre[a]).0@ != (#[trigger] pre[b]).0@ by {
                    assert(pre[a] == entries@[a]);
                    assert(pre[b] == entries@[b]);
                }
                if pairs_map(pre).contains_key(entries@[i as int].0@) {
                    let j = choose|j: int| 0 <= j < pre.len() && (#[trigger] pre[j]).0@
                        == entries@[i as int].0@;
                    assert(pre[j] == entries@[j]);
                }
                lemma_pairs_map_push(pre, entries@[i as int]);
                assert(old(self).mappings@.union_prefer_right(
                    pairs_map(pre).insert(entries@[i as int].0@, entries@[i as int].1@),
                ) =~= old(self).mappings@.union_prefer_right(pairs_map(pre)).insert(
                    entries@[i as int].0@,
                    entries@[i as int].1@,
                ));
            }
            self.mappings.insert(entries[i].0.clone(), entries[i].1.clone());
        }
        assert(entries@.subrange(0, n as int) == entries@);
        let mut combined: Vec<String> = Vec::new();
        let ghost all = views(self.stop_words@) + views(other.stop_words@);
        let m = self.stop_words.len();
        assert(views(combined@) =~= dedup(all.subrange(0, 0)));
        for i in 0..m
            invariant
                m == self.stop_words@.len(),
                all == views(self.stop_words@) + views(other.stop_words@),
                views(combined@) == dedup(all.subrange(0, i as int)),
        {
            proof {
                assert(all.subrange(0, i + 1).drop_last() == all.subrange(0, i as int));
                assert(all.subrange(0, i + 1).last() == self.stop_words@[i as int]@);
            }
            if !list_contains(&combined, self.stop_words[i].as_str()) {
                let ghost before = combined@;
                combined.push(self.stop_words[i].clone());
                assert(views(combined@) =~= views(before).push(self.stop_words@[i as int]@));
            }
        }
        let k = other.stop_words.len();
        for i in 0..k
            invariant
                m == self.stop_words@.len(),
                k == other.stop_words@.len(),
                all == views(self.stop_words@) + views(other.stop_words@),
                views(combined@) == dedup(all.subrange(0, m + i)),
        {
            proof {
                assert(all.subrange(0, m + i + 1).drop_last() == all.subrange(0, m + i));
                assert(all.subrange(0, m + i + 1).last() == other.stop_words@[i as int]@);
            }
            if !list_contains(&combined, other.stop_words[i].as_str()) {
                let ghost before = combined@;
                combined.push(other.stop_words[i].clone());
                assert(views(combined@) =~= views(before).push(other.stop_words@[i as int]@));
            }
        }
        proof {
            assert(all.subrange(0, m + k) == all);
            lemma_dedup(all);
            assert(all.to_set() =~= views(self.stop_words@).to_set().union(
                views(other.stop_words@).to_set(),
            )) by {
                let a = views(self.stop_words@);
                let b = views(other.stop_words@);
                assert forall|w: Seq<char>| all.to_set().contains(w) implies a.to_set().union(
                    b.to_set(),
                ).contains(w) by {
                    let i = choose|i: int| 0 <= i < all.len() && all[i] == w;
                    if i < a.len() {
                        assert(a[i] == w);
                    } else {
                        assert(b[i - a.len()] == w);
                    }
                }
                assert forall|w: Seq<char>| a.to_set().union(b.to_set()).contains(w) implies all.to_set().contains(w) by {
                    if a.to_set().contains(w) {
                        let i = choose|i: int| 0 <= i < a.len() && a[i] == w;
                        assert(all[i] == w);
                    } else {
                        let i = choose|i: int| 0 <= i < b.len() && b[i] == w;
                        assert(all[i + a.len()] == w);
                    }
                }
            }
        }
        self.stop_words = combined;
    }

    /// The translation of `key`.
    pub fn get_mapping(&self, key: &str) -> (r: Option<&String>)
        ensures
            r is Some <==> self.mappings@.contains_key(key@),
            r matches Some(v) ==> v@ == self.mappings@[key@],
    {
        self.mappings.get(key)
    }

    /// Adds a translation, replacing the one `chinese` had.
    pub fn add_mapping(&mut self, chinese: String, english: String)
        ensures
            final(self).mappings@ == old(self).mappings@.insert(chinese@, english@),
            final(self).stop_words == old(self).stop_words,
            final(self).version == old(self).version,
            final(self).description == old(self).description,
    {
        self.mappings.insert(chinese, english);
    }

    /// Removes the translation of `key` and returns it.
    pub fn remove_mapping(&mut self, key: &str) -> (r: Option<String>)
        ensures
            final(self).mappings@ == old(self).mappings@.remove(key@),
            r is Some <==> old(self).mappings@.contains_key(key@),
            r matches Some(v) ==> v@ == old(self).mappings@[key@],
            final(self).stop_words == old(self).stop_words,
            final(self).version == old(self).version,
            final(self).description == old(self).description,
    {
        self.mappings.remove(key)
    }

    /// Whether `word` is one of the document's stop words.
    pub fn is_stop_word(&self, word: &str) -> (r: bool)
        ensures
            r == views(self.stop_words@).contains(word@),
    {
        list_contains(&self.stop_words, word)
    }

    /// The translations.
    pub fn mappings(&self) -> (r: &WordMap)
        ensures
            r@ == self.mappings@,
    {
        &self.mappings
    }

    /// The stop words, in order.
    pub fn stop_words(&self) -> (r: &[String])
        ensures
            r@ == self.stop_words@,
    {
        self.stop_words.as_slice()
    }
}

/// The two formats a vocabulary document is written in.
#[derive(Clone, Copy, Debug, PartialEq, Eq, Structural)]
pub enum DocumentFormat {
    Json,
    Toml,
}

/// The last non-empty piece of `ps`, or the empty string.
pub open spec fn last_nonempty(ps: Seq<Seq<char>>) -> Seq<char>
    decreases ps.len(),
{
    if ps.len() == 0 {
        Seq::empty()
    } else if ps.last().len() > 0 {
        ps.last()
    } else {
        last_nonempty(ps.drop_last())
    }
}

/// The final component of a path, trailing slashes aside.
pub open spec fn file_name(path: Seq<char>) -> Seq<char> {
    last_nonempty(pieces(path, '/'))
}

/// The format of the document at `path`: JSON where the file name has the
/// extension "json" (a non-empty stem, then ".json"), TOML otherwise.
pub open spec fn format_for(path: Seq<char>) -> DocumentFormat {
    let name = file_name(path);
    if name.len() > 5 && name.subrange(name.len() - 5, name.len() as int) == ".json"@ {
        DocumentFormat::Json
    } else {
        DocumentFormat::Toml
    }
}

/// The format in which the document at `path` is read and written.
pub fn document_format(path: &str) -> (r: DocumentFormat)
    ensures
        r == format_for(path@),
{
    let parts = split_on(path, '/');
    let mut i: usize = parts.len();
    proof {
        assert(views(parts@).subrange(0, i as int) == views(parts@));
    }
    while i > 0 && parts[i - 1].as_str().is_empty()
        invariant
            i <= parts@.len(),
            last_nonempty(views(parts@).subrange(0, i as int)) == file_name(path@),
            views(parts@) == pieces(path@, '/'),
        decreases i,
    {
        proof {
            let pre = views(parts@).subrange(0, i as int);
            assert(pre.drop_last() == views(parts@).subrange(0, i - 1));
            assert(pre.last() == parts@[i - 1]@);
        }
        i = i - 1;
    }
    if i == 0 {
        proof {
            assert(views(parts@).subrange(0, 0).len() == 0);
        }
        return DocumentFormat::Toml;
    }
    proof {
        let pre = views(parts@).subrange(0, i as int);
        assert(pre.last() == parts@[i - 1]@);
    }
    let name = crate::text::char_vec(parts[i - 1].as_str());
    let n = name.len();
    proof {
        reveal_strlit(".json");
    }
    if n > 5 && name[n - 5] == '.' && name[n - 4] == 'j' && name[n - 3] == 's' && name[n - 2] == 'o'
        && name[n - 1] == 'n' {
        assert(name@.subrange(n - 5, n as int) =~= ".json"@);
        DocumentFormat::Json
    } else {
        proof {
            if n > 5 && name@.subrange(n - 5, n as int) == ".json"@ {
                assert(name@.subrange(n - 5, n as int)[0] == name@[n - 5]);
                assert(name@.subrange(n - 5, n as int)[1] == name@[n - 4]);
                assert(name@.subrange(n - 5, n as int)[2] == name@[n - 3]);
                assert(name@.subrange(n - 5, n as int)[3] == name@[n - 2]);
                assert(name@.subrange(n - 5, n as int)[4] == name@[n - 1]);
            }
        }
        DocumentFormat::Toml
    }
}

/// Holds the vocabulary document of one path. Reading and writing the file
/// is the caller's part: the manager is told what was read, and says in
/// which format to write.
#[derive(Debug)]
pub struct MappingConfigManager {
    config_path: String,
    config: MappingConfig,
    created: bool,
}

impl MappingConfigManager {
    pub closed spec fn path_view(&self) -> Seq<char> {
        self.config_path@
    }

    pub closed spec fn config_view(&self) -> MappingConfig {
        self.config
    }

    pub closed spec fn created_view(&self) -> bool {
        self.created
    }

    /// Opens the document at `config_path`. `stored` is the document read
    /// from there, or `None` where the path does not exist: the manager then
    /// holds the default document and reports, by `created_default`, that
    /// the caller is to persist it.
    pub fn new(config_path: &str, stored: Option<MappingConfig>) -> (r: MappingConfigManager)
        ensures
            r.path_view() == config_path@,
            r.created_view() == (stored is None),
            stored matches Some(c) ==> r.config_view() == c,
            stored is None ==> {
                &&& r.config_view().mappings@ == default_mappings()
                &&& views(r.config_view().stop_words@) == default_stop_words()
                &&& r.config_view().version@ == default_version()
                &&& r.config_view().description matches Some(d) && d@ == default_description()
            },
    {
        match stored {
            Some(config) => MappingConfigManager {
                config_path: config_path.to_string(),
                config,
                created: false,
            },
            None => MappingConfigManager {
                config_path: config_path.to_string(),
                config: MappingConfig::default(),
                created: true,
            },
        }
    }

    /// Whether the document did not exist and the default one was created;
    /// it is then still to be written.
    pub fn created_default(&self) -> (r: bool)
        ensures
            r == self.created_view(),
    {
        self.created
    }

    /// The current document.
    pub fn config(&self) -> (r: &MappingConfig)
        ensures
            *r == self.config_view(),
    {
        &self.config
    }

    /// The current document, for editing in place.
    pub fn config_mut(&mut self) -> (r: &mut MappingConfig)
        ensures
            *r == old(self).config_view(),
            final(self).config_view() == *final(r),
            final(self).path_view() == old(self).path_view(),
            final(self).created_view() == old(self).created_view(),
    {
        &mut self.config
    }

    /// Takes the document read again from the path.
    pub fn reload(&mut self, stored: MappingConfig)
        ensures
            final(self).config_view() == stored,
            final(self).path_view() == old(self).path_view(),
            final(self).created_view() == old(self).created_view(),
    {
        self.config = stored;
    }

    /// The format in which to write the current document to the path.
    pub fn save(&self) -> (r: DocumentFormat)
        ensures
            r == format_for(self.path_view()),
    {
        document_format(self.config_path.as_str())
    }

    /// The path of the document.
    pub fn config_path(&self) -> (r: &str)
        ensures
            r@ == self.path_view(),
    {
        self.config_path.as_str()
    }
}

} // verus!
