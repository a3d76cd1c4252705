//! Query result caching with time-to-live and tag invalidation.
//!
//! Provides the [`QueryCache`] trait and the [`InMemoryCache`] implementation,
//! which supports expiry, a capacity limit and tag-based invalidation.
//!
//! Time is counted in nanoseconds since the cache was created. Every
//! operation that reads the clock has a counterpart ending in `_at` that takes
//! the current time as an argument.
use std::time::{Duration, Instant};

use vstd::prelude::*;

use crate::assoc::{
    assoc_map, distinct_keys, lemma_assoc_dom, lemma_assoc_index, lemma_assoc_len,
    lemma_assoc_push, lemma_assoc_remove,
};
use crate::dialect::str_views;

verus! {

#[verifier::external_type_specification]
#[verifier::external_body]
pub struct ExInstant(Instant);

/// What the cache holds for one key.
pub struct EntryModel {
    /// The cached bytes.
    pub data: Seq<u8>,
    /// The instant, in nanoseconds, from which the entry counts as expired.
    pub expires_at: Option<u128>,
    /// The tags the entry was stored under, in the order given.
    pub tags: Seq<Seq<char>>,
}

/// The abstract state of an [`InMemoryCache`].
pub struct CacheModel {
    /// The entries by key.
    pub entries: Map<Seq<char>, EntryModel>,
    /// For each tag, the keys recorded under it.
    pub tags: Map<Seq<char>, Set<Seq<char>>>,
    /// The capacity the cache was created with.
    pub max_entries: nat,
}

#[derive(Debug)]
struct CacheEntry {
    key: String,
    data: Vec<u8>,
    expires_at: Option<u128>,
    tags: Vec<String>,
}

#[derive(Debug)]
struct TagKeys {
    tag: String,
    keys: Vec<String>,
}

/// In-memory query cache with TTL and tag invalidation.
#[derive(Debug)]
pub struct InMemoryCache {
    entries: Vec<CacheEntry>,
    tag_index: Vec<TagKeys>,
    max_entries: usize,
    origin: Instant,
}

/// The text of each string in `s`.
pub open spec fn string_views(s: Seq<String>) -> Seq<Seq<char>> {
    s.map_values(|x: String| x@)
}

spec fn entry_pair(e: CacheEntry) -> (Seq<char>, EntryModel) {
    (e.key@, EntryModel { data: e.data@, expires_at: e.expires_at, tags: string_views(e.tags@) })
}

spec fn tag_pair(t: TagKeys) -> (Seq<char>, Set<Seq<char>>) {
    (t.tag@, string_views(t.keys@).to_set())
}

/// An entry is expired at `now` when it has a deadline that `now` has reached.
pub open spec fn is_expired(e: EntryModel, now: u128) -> bool {
    match e.expires_at {
        Some(t) => now >= t,
        None => false,
    }
}

/// The keys whose entries are still active (not expired) at `now`.
pub open spec fn active_keys(m: CacheModel, now: u128) -> Set<Seq<char>> {
    m.entries.dom().filter(|k: Seq<char>| !is_expired(m.entries[k], now))
}

/// The number of pairs of `s` whose entry is active at `now`.
pub open spec fn active_in(s: Seq<(Seq<char>, EntryModel)>, now: u128) -> nat
    decreases s.len(),
{
    if s.len() == 0 {
        0
    } else {
        active_in(s.drop_last(), now) + if is_expired(s.last().1, now) {
            0nat
        } else {
            1nat
        }
    }
}

/// With distinct keys, the active keys of the map the pairs make are as
/// many as the active pairs.
proof fn lemma_active_in(s: Seq<(Seq<char>, EntryModel)>, now: u128)
    requires
        distinct_keys(s),
    ensures
        assoc_map(s).dom().filter(|k: Seq<char>| !is_expired(assoc_map(s)[k], now)).finite(),
        assoc_map(s).dom().filter(|k: Seq<char>| !is_expired(assoc_map(s)[k], now)).len() == active_in(s, now),
    decreases s.len(),
{
    lemma_assoc_dom(s);
    let f = assoc_map(s).dom().filter(|k: Seq<char>| !is_expired(assoc_map(s)[k], now));
    assert(f.subset_of(assoc_map(s).dom()));
    vstd::set_lib::lemma_len_subset(f, assoc_map(s).dom());
    if s.len() == 0 {
        assert(f =~= Set::<Seq<char>>::empty());
    } else {
        let p = s.drop_last();
        assert(distinct_keys(p)) by {
            assert forall|a: int, b: int|
                0 <= a < p.len() && 0 <= b < p.len() && a != b implies #[trigger] p[a].0 != #[trigger] p[b].0 by {
                assert(p[a] == s[a] && p[b] == s[b]);
            }
        }
        lemma_active_in(p, now);
        lemma_assoc_dom(p);
        let k = s.last().0;
        assert(!assoc_map(p).dom().contains(k)) by {
            if assoc_map(p).dom().contains(k) {
                let i = choose|i: int| 0 <= i < p.len() && #[trigger] p[i].0 == k;
                assert(s[i].0 == s[s.len() - 1].0);
            }
        }
        let g = assoc_map(p).dom().filter(|k2: Seq<char>| !is_expired(assoc_map(p)[k2], now));
        if is_expired(s.last().1, now) {
            assert(f =~= g);
        } else {
            assert(f =~= g.insert(k));
        }
    }
}

/// What a lookup of `key` at the instant `now` yields.
pub open spec fn lookup(m: CacheModel, key: Seq<char>, now: u128) -> Option<Seq<u8>> {
    if m.entries.dom().contains(key) && !is_expired(m.entries[key], now) {
        Some(m.entries[key].data)
    } else {
        None
    }
}

/// The bytes of an optional buffer.
pub open spec fn bytes_opt(r: Option<Vec<u8>>) -> Option<Seq<u8>> {
    match r {
        Some(v) => Some(v@),
        None => None,
    }
}

/// The deadline of a time-to-live of `ttl` nanoseconds started at `now`,
/// saturating at the largest instant.
pub open spec fn deadline(now: u128, ttl: u128) -> u128 {
    if now + ttl <= u128::MAX {
        (now + ttl) as u128
    } else {
        u128::MAX
    }
}

/// The entry that a store of `data` under `tags` at `now` with `ttl` creates.
pub open spec fn fresh_entry(
    data: Seq<u8>,
    ttl: Option<u128>,
    tags: Seq<Seq<char>>,
    now: u128,
) -> EntryModel {
    EntryModel {
        data,
        expires_at: match ttl {
            Some(d) => Some(deadline(now, d)),
            None => None,
        },
        tags,
    }
}

/// The tag index after the keys in `gone`, whose entries `es` held, are
/// taken out of the tags those entries were stored under.
pub open spec fn unlink(
    idx: Map<Seq<char>, Set<Seq<char>>>,
    es: Map<Seq<char>, EntryModel>,
    gone: Set<Seq<char>>,
) -> Map<Seq<char>, Set<Seq<char>>> {
    Map::new(
        |t: Seq<char>| idx.dom().contains(t),
        |t: Seq<char>| idx[t].filter(|k: Seq<char>| !(gone.contains(k) && es[k].tags.contains(t))),
    )
}

/// The tag index after `key` is recorded under each tag of `tags`.
pub open spec fn link(
    idx: Map<Seq<char>, Set<Seq<char>>>,
    tags: Set<Seq<char>>,
    key: Seq<char>,
) -> Map<Seq<char>, Set<Seq<char>>> {
    Map::new(
        |t: Seq<char>| idx.dom().contains(t) || tags.contains(t),
        |t: Seq<char>|
            if tags.contains(t) {
                if idx.dom().contains(t) {
                    idx[t].insert(key)
                } else {
                    set![key]
                }
            } else {
                idx[t]
            },
    )
}

/// A store of a new key into a full cache first evicts an entry.
pub open spec fn must_evict(m: CacheModel, key: Seq<char>) -> bool {
    m.entries.len() >= m.max_entries && !m.entries.dom().contains(key) && m.entries.len() > 0
}

/// The state after a store of `key` with `e`, where `e` carries `tags`.
pub open spec fn stored(
    m: CacheModel,
    key: Seq<char>,
    e: EntryModel,
    evicted: Option<Seq<char>>,
) -> CacheModel {
    match evicted {
        Some(v) => CacheModel {
            entries: m.entries.remove(v).insert(key, e),
            tags: link(unlink(m.tags, m.entries, set![v]), e.tags.to_set(), key),
            max_entries: m.max_entries,
        },
        None => CacheModel {
            entries: m.entries.insert(key, e),
            tags: link(
                if m.entries.dom().contains(key) {
                    unlink(m.tags, m.entries, set![key])
                } else {
                    m.tags
                },
                e.tags.to_set(),
                key,
            ),
            max_entries: m.max_entries,
        },
    }
}

impl View for InMemoryCache {
    type V = CacheModel;

    closed spec fn view(&self) -> CacheModel {
        CacheModel {
            entries: assoc_map(self.entry_pairs()),
            tags: assoc_map(self.tag_pairs()),
            max_entries: self.max_entries as nat,
        }
    }
}

impl InMemoryCache {
    spec fn entry_pairs(&self) -> Seq<(Seq<char>, EntryModel)> {
        self.entries@.map_values(|e: CacheEntry| entry_pair(e))
    }

    spec fn tag_pairs(&self) -> Seq<(Seq<char>, Set<Seq<char>>)> {
        self.tag_index@.map_values(|t: TagKeys| tag_pair(t))
    }

    /// No key is stored twice and no tag is indexed twice.
    pub closed spec fn wf(&self) -> bool {
        distinct_keys(self.entry_pairs()) && distinct_keys(self.tag_pairs())
    }

    /// Creates a new in-memory cache with the given maximum capacity.
    pub fn new(max_entries: usize) -> (r: Self)
        ensures
            r.wf(),
            r@.entries == Map::<Seq<char>, EntryModel>::empty(),
            r@.tags == Map::<Seq<char>, Set<Seq<char>>>::empty(),
            r@.max_entries == max_entries,
    {
        let r = InMemoryCache {
            entries: Vec::new(),
            tag_index: Vec::new(),
            max_entries,
            origin: instant_now(),
        };
        proof {
            assert(r.entry_pairs() =~= Seq::empty());
            assert(r.tag_pairs() =~= Seq::empty());
        }
        r
    }

    fn find_entry(&self, key: &String) -> (r: Option<usize>)
        requires
            self.wf(),
        ensures
            match r {
                Some(i) => i < self.entries@.len() && self.entries@[i as int].key@ == key@
                    && self@.entries.dom().contains(key@),
                None => !self@.entries.dom().contains(key@),
            },
    {
        let mut i: usize = 0;
        while i < self.entries.len()
            invariant
                i <= self.entries@.len(),
                forall|j: int| 0 <= j < i ==> #[trigger] self.entries@[j].key@ != key@,
            decreases self.entries@.len() - i,
        {
            if self.entries[i].key == *key {
                proof {
                    assert(self.entry_pairs()[i as int].0 == key@);
                    lemma_assoc_dom(self.entry_pairs());
                }
                return Some(i);
            }
            i = i + 1;
        }
        proof {
            lemma_assoc_dom(self.entry_pairs());
            if self@.entries.dom().contains(key@) {
                let j = choose|j: int|
                    0 <= j < self.entry_pairs().len() && #[trigger] self.entry_pairs()[j].0
                        == key@;
                assert(self.entries@[j].key@ == key@);
            }
        }
        None
    }

    fn find_tag(&self, tag: &String) -> (r: Option<usize>)
        requires
            self.wf(),
        ensures
            match r {
                Some(i) => i < self.tag_index@.len() && self.tag_index@[i as int].tag@ == tag@
                    && self@.tags.dom().contains(tag@),
                None => !self@.tags.dom().contains(tag@),
            },
    {
        let mut i: usize = 0;
        while i < self.tag_index.len()
            invariant
                i <= self.tag_index@.len(),
                forall|j: int| 0 <= j < i ==> #[trigger] self.tag_index@[j].tag@ != tag@,
            decreases self.tag_index@.len() - i,
        {
            if self.tag_index[i].tag == *tag {
                proof {
                    assert(self.tag_pairs()[i as int].0 == tag@);
                    lemma_assoc_dom(self.tag_pairs());
                }
                return Some(i);
            }
            i = i + 1;
        }
        proof {
            lemma_assoc_dom(self.tag_pairs());
            if self@.tags.dom().contains(tag@) {
                let j = choose|j: int|
                    0 <= j < self.tag_pairs().len() && #[trigger] self.tag_pairs()[j].0 == tag@;
                assert(self.tag_index@[j].tag@ == tag@);
            }
        }
        None
    }

    /// Looks `key` up at the instant `now`: its bytes, unless it is absent or
    /// expired.
    pub fn get_at(&self, key: &str, now: u128) -> (r: Option<Vec<u8>>)
        requires
            self.wf(),
        ensures
            bytes_opt(r) == lookup(self@, key@, now),
    {
        let k = key.to_owned();
        match self.find_entry(&k) {
            None => None,
            Some(i) => {
                let e = &self.entries[i];
                proof {
                    lemma_assoc_index(self.entry_pairs(), i as int);
                    assert(self.entry_pairs()[i as int] == entry_pair(self.entries@[i as int]));
                }
                match e.expires_at {
                    Some(t) => {
                        if now >= t {
                            return None;
                        }
                    },
                    None => {},
                }
                Some(copy_bytes(&e.data))
            },
        }
    }

    /// The number of stored entries, expired ones too.
    pub fn entry_count(&self) -> (r: usize)
        requires
            self.wf(),
        ensures
            r == self@.entries.len(),
    {
        proof {
            lemma_assoc_len(self.entry_pairs());
        }
        self.entries.len()
    }

    /// The number of entries still active (not expired) at the instant
    /// `now`.
    pub fn active_count_at(&self, now: u128) -> (r: usize)
        requires
            self.wf(),
        ensures
            r == active_keys(self@, now).len(),
    {
        let ghost p = self.entry_pairs();
        let mut n: usize = 0;
        let mut i: usize = 0;
        while i < self.entries.len()
            invariant
                i <= self.entries@.len(),
                p == self.entry_pairs(),
                p.len() == self.entries@.len(),
                n <= i,
                n == active_in(p.take(i as int), now),
            decreases self.entries@.len() - i,
        {
            let live = match self.entries[i].expires_at {
                Some(t) => now < t,
                None => true,
            };
            proof {
                assert(p.take(i + 1).drop_last() =~= p.take(i as int));
                assert(p.take(i + 1).last() == entry_pair(self.entries@[i as int]));
            }
            if live {
                n = n + 1;
            }
            i = i + 1;
        }
        proof {
            assert(p.take(p.len() as int) =~= p);
            lemma_active_in(p, now);
        }
        n
    }

    /// The number of tags in the tag index.
    pub fn tag_count(&self) -> (r: usize)
        requires
            self.wf(),
        ensures
            r == self@.tags.len(),
    {
        proof {
            lemma_assoc_len(self.tag_pairs());
        }
        self.tag_index.len()
    }

    /// Whether the tag index has an entry for `tag`.
    pub fn has_tag(&self, tag: &str) -> (r: bool)
        requires
            self.wf(),
        ensures
            r == self@.tags.dom().contains(tag@),
    {
        let t = tag.to_owned();
        self.find_tag(&t).is_some()
    }

    /// Removes every entry and every tag.
    pub fn clear_all(&mut self)
        ensures
            final(self).wf(),
            final(self)@.entries == Map::<Seq<char>, EntryModel>::empty(),
            final(self)@.tags == Map::<Seq<char>, Set<Seq<char>>>::empty(),
            final(self)@.max_entries == old(self)@.max_entries,
    {
        self.entries.clear();
        self.tag_index.clear();
        proof {
            assert(self.entry_pairs() =~= Seq::empty());
            assert(self.tag_pairs() =~= Seq::empty());
        }
    }
}

/// The tag index after `key` is taken out of each tag in `ts` that the
/// index has.
pub open spec fn unlink_one(
    idx: Map<Seq<char>, Set<Seq<char>>>,
    key: Seq<char>,
    ts: Seq<Seq<char>>,
) -> Map<Seq<char>, Set<Seq<char>>> {
    Map::new(
        |t: Seq<char>| idx.dom().contains(t),
        |t: Seq<char>|
            if ts.contains(t) {
                idx[t].remove(key)
            } else {
                idx[t]
            },
    )
}

/// The tag index after `key` is taken out of the set of `tag`; with `prune`,
/// a set left empty is dropped with its tag.
pub open spec fn tag_without(
    idx: Map<Seq<char>, Set<Seq<char>>>,
    tag: Seq<char>,
    key: Seq<char>,
    prune: bool,
) -> Map<Seq<char>, Set<Seq<char>>> {
    if idx.dom().contains(tag) {
        if prune && idx[tag].remove(key) == Set::<Seq<char>>::empty() {
            idx.remove(tag)
        } else {
            idx.insert(tag, idx[tag].remove(key))
        }
    } else {
        idx
    }
}

proof fn lemma_views_push(s: Seq<String>, x: String)
    ensures
        string_views(s.push(x)) == string_views(s).push(x@),
        string_views(s.push(x)).to_set() == string_views(s).to_set().insert(x@),
{
    let v = string_views(s);
    assert(string_views(s.push(x)) =~= v.push(x@));
    assert forall|y: Seq<char>| #[trigger] v.push(x@).contains(y) <==> v.contains(y) || y == x@ by {
        if v.push(x@).contains(y) {
            let i = choose|i: int| 0 <= i < v.push(x@).len() && v.push(x@)[i] == y;
            if i < v.len() {
                assert(v[i] == y);
            }
        }
        if v.contains(y) {
            let i = choose|i: int| 0 <= i < v.len() && v[i] == y;
            assert(v.push(x@)[i] == y);
        }
        if y == x@ {
            assert(v.push(x@)[v.len() as int] == y);
        }
    }
    assert(v.push(x@).to_set() =~= v.to_set().insert(x@));
}

fn contains_string(v: &Vec<String>, k: &String) -> (r: bool)
    ensures
        r == string_views(v@).contains(k@),
{
    let mut i: usize = 0;
    while i < v.len()
        invariant
            i <= v@.len(),
            forall|j: int| 0 <= j < i ==> #[trigger] v@[j]@ != k@,
        decreases v@.len() - i,
    {
        if v[i] == *k {
            proof {
                assert(string_views(v@)[i as int] == k@);
            }
            return true;
        }
        i = i + 1;
    }
    proof {
        if string_views(v@).contains(k@) {
            let j = choose|j: int|
                0 <= j < string_views(v@).len() && string_views(v@)[j] == k@;
            assert(v@[j]@ == k@);
        }
    }
    false
}

fn keys_without(keys: &Vec<String>, k: &String) -> (r: Vec<String>)
    ensures
        string_views(r@).to_set() == string_views(keys@).to_set().remove(k@),
{
    let mut r: Vec<String> = Vec::new();
    let mut i: usize = 0;
    proof {
        assert(string_views(r@).to_set() =~= string_views(keys@.take(0)).to_set().remove(k@));
    }
    while i < keys.len()
        invariant
            i <= keys@.len(),
            string_views(r@).to_set() == string_views(keys@.take(i as int)).to_set().remove(k@),
        decreases keys@.len() - i,
    {
        let ghost before = r@;
        proof {
            assert(keys@.take(i + 1) =~= keys@.take(i as int).push(keys@[i as int]));
            lemma_views_push(keys@.take(i as int), keys@[i as int]);
        }
        if keys[i] != *k {
            r.push(keys[i].clone());
            proof {
                lemma_views_push(before, keys@[i as int]);
                assert(string_views(r@).to_set() =~= string_views(keys@.take(i + 1)).to_set().remove(
                    k@,
                ));
            }
        } else {
            proof {
                assert(string_views(r@).to_set() =~= string_views(keys@.take(i + 1)).to_set().remove(
                    k@,
                ));
            }
        }
        i = i + 1;
    }
    proof {
        assert(keys@.take(keys@.len() as int) =~= keys@);
    }
    r
}

impl InMemoryCache {
    proof fn lemma_replace_tag(&self, i: int, t: TagKeys, after: Seq<TagKeys>)
        requires
            self.wf(),
            0 <= i < self.tag_index@.len(),
            t.tag@ == self.tag_index@[i].tag@,
            after == self.tag_index@.remove(i).push(t),
        ensures
            distinct_keys(after.map_values(|x: TagKeys| tag_pair(x))),
            assoc_map(after.map_values(|x: TagKeys| tag_pair(x))) == self@.tags.insert(
                t.tag@,
                tag_pair(t).1,
            ),
    {
        let p = self.tag_pairs();
        lemma_assoc_remove(p, i);
        assert(p.remove(i) =~= self.tag_index@.remove(i).map_values(|x: TagKeys| tag_pair(x)));
        assert(p[i].0 == t.tag@);
        lemma_assoc_push(p.remove(i), t.tag@, tag_pair(t).1);
        assert(after.map_values(|x: TagKeys| tag_pair(x)) =~= p.remove(i).push(tag_pair(t)));
        assert(self@.tags.remove(t.tag@).insert(t.tag@, tag_pair(t).1) =~= self@.tags.insert(
            t.tag@,
            tag_pair(t).1,
        ));
    }

    proof fn lemma_drop_tag(&self, i: int, after: Seq<TagKeys>)
        requires
            self.wf(),
            0 <= i < self.tag_index@.len(),
            after == self.tag_index@.remove(i),
        ensures
            distinct_keys(after.map_values(|x: TagKeys| tag_pair(x))),
            assoc_map(after.map_values(|x: TagKeys| tag_pair(x))) == self@.tags.remove(
                self.tag_index@[i].tag@,
            ),
    {
        let p = self.tag_pairs();
        lemma_assoc_remove(p, i);
        assert(p.remove(i) =~= after.map_values(|x: TagKeys| tag_pair(x)));
    }

    proof fn lemma_add_tag(&self, t: TagKeys, after: Seq<TagKeys>)
        requires
            self.wf(),
            !self@.tags.dom().contains(t.tag@),
            after == self.tag_index@.push(t),
        ensures
            distinct_keys(after.map_values(|x: TagKeys| tag_pair(x))),
            assoc_map(after.map_values(|x: TagKeys| tag_pair(x))) == self@.tags.insert(
                t.tag@,
                tag_pair(t).1,
            ),
    {
        let p = self.tag_pairs();
        lemma_assoc_push(p, t.tag@, tag_pair(t).1);
        assert(after.map_values(|x: TagKeys| tag_pair(x)) =~= p.push(tag_pair(t)));
    }

    /// Records `key` under `tag`.
    fn tag_add_key(&mut self, tag: &String, key: &String)
        requires
            old(self).wf(),
        ensures
            final(self).wf(),
            final(self)@.entries == old(self)@.entries,
            final(self)@.max_entries == old(self)@.max_entries,
            final(self)@.tags == old(self)@.tags.insert(
                tag@,
                if old(self)@.tags.dom().contains(tag@) {
                    old(self)@.tags[tag@].insert(key@)
                } else {
                    set![key@]
                },
            ),
    {
        match self.find_tag(tag) {
            Some(i) => {
                let ghost pre = *self;
                proof {
                    lemma_assoc_index(pre.tag_pairs(), i as int);
                }
                let mut tk = self.tag_index.remove(i);
                let ghost keys0 = tk.keys@;
                if !contains_string(&tk.keys, key) {
                    tk.keys.push(key.clone());
                    proof {
                        lemma_views_push(keys0, tk.keys@.last());
                    }
                } else {
                    proof {
                        assert(string_views(keys0).to_set() =~= string_views(keys0).to_set().insert(
                            key@,
                        ));
                    }
                }
                self.tag_index.push(tk);
                proof {
                    pre.lemma_replace_tag(i as int, tk, self.tag_index@);
                }
            },
            None => {
                let mut keys: Vec<String> = Vec::new();
                keys.push(key.clone());
                let tk = TagKeys { tag: tag.clone(), keys };
                let ghost pre = *self;
                self.tag_index.push(tk);
                proof {
                    lemma_views_push(Seq::empty(), tk.keys@[0]);
                    assert(tk.keys@ =~= Seq::<String>::empty().push(tk.keys@[0]));
                    assert(string_views(Seq::<String>::empty()).to_set() =~= Set::empty());
                    assert(set![key@] =~= Set::<Seq<char>>::empty().insert(key@));
                    pre.lemma_add_tag(tk, self.tag_index@);
                }
            },
        }
    }

    /// Takes `key` out of the set of `tag`; with `prune`, drops the tag when
    /// its set is left empty.
    fn tag_remove_key(&mut self, tag: &String, key: &String, prune: bool)
        requires
            old(self).wf(),
        ensures
            final(self).wf(),
            final(self)@.entries == old(self)@.entries,
            final(self)@.max_entries == old(self)@.max_entries,
            final(self)@.tags == tag_without(old(self)@.tags, tag@, key@, prune),
    {
        match self.find_tag(tag) {
            Some(i) => {
                let ghost pre = *self;
                proof {
                    lemma_assoc_index(pre.tag_pairs(), i as int);
                }
                let tk = self.tag_index.remove(i);
                let rest = keys_without(&tk.keys, key);
                let ghost s = string_views(rest@).to_set();
                proof {
                    assert(s == pre@.tags[tag@].remove(key@));
                }
                if prune && rest.len() == 0 {
                    proof {
                        assert(s =~= Set::<Seq<char>>::empty());
                        pre.lemma_drop_tag(i as int, self.tag_index@);
                    }
                } else {
                    proof {
                        if rest@.len() > 0 {
                            assert(string_views(rest@)[0] == rest@[0]@);
                            assert(s.contains(rest@[0]@));
                        }
                    }
                    let t2 = TagKeys { tag: tk.tag, keys: rest };
                    self.tag_index.push(t2);
                    proof {
                        pre.lemma_replace_tag(i as int, t2, self.tag_index@);
                    }
                }
            },
            None => {},
        }
    }

    /// Takes `key` out of the set of each tag in `tags`.
    fn unlink_key(&mut self, key: &String, tags: &Vec<String>)
        requires
            old(self).wf(),
        ensures
            final(self).wf(),
            final(self)@.entries == old(self)@.entries,
            final(self)@.max_entries == old(self)@.max_entries,
            final(self)@.tags == unlink_one(old(self)@.tags, key@, string_views(tags@)),
    {
        let ghost idx0 = self@.tags;
        let mut j: usize = 0;
        proof {
            assert(idx0 =~= unlink_one(idx0, key@, string_views(tags@.take(0))));
        }
        while j < tags.len()
            invariant
                j <= tags@.len(),
                self.wf(),
                self@.entries == old(self)@.entries,
                self@.max_entries == old(self)@.max_entries,
                idx0 == old(self)@.tags,
                self@.tags == unlink_one(idx0, key@, string_views(tags@.take(j as int))),
            decreases tags@.len() - j,
        {
            let ghost before = self@.tags;
            self.tag_remove_key(&tags[j], key, false);
            proof {
                let t = tags@[j as int]@;
                assert(tags@.take(j + 1) =~= tags@.take(j as int).push(tags@[j as int]));
                lemma_views_push(tags@.take(j as int), tags@[j as int]);
                let ts = string_views(tags@.take(j as int));
                assert forall|u: Seq<char>| #[trigger] ts.push(t).contains(u) <==> ts.contains(u)
                    || u == t by {
                    assert(ts.push(t).to_set().contains(u) == ts.push(t).contains(u));
                    assert(ts.to_set().contains(u) == ts.contains(u));
                }
                let target = unlink_one(idx0, key@, string_views(tags@.take(j + 1)));
                assert forall|u: Seq<char>| #[trigger] self@.tags.dom().contains(u) implies self@.tags[u]
                    =~= target[u] by {}
                assert(self@.tags =~= target);
            }
            j = j + 1;
        }
        proof {
            assert(tags@.take(tags@.len() as int) =~= tags@);
        }
    }

    /// Records `key` under each tag in `tags`.
    fn link_key(&mut self, key: &String, tags: &Vec<String>)
        requires
            old(self).wf(),
        ensures
            final(self).wf(),
            final(self)@.entries == old(self)@.entries,
            final(self)@.max_entries == old(self)@.max_entries,
            final(self)@.tags == link(old(self)@.tags, string_views(tags@).to_set(), key@),
    {
        let ghost idx0 = self@.tags;
        let mut j: usize = 0;
        proof {
            assert(idx0 =~= link(idx0, string_views(tags@.take(0)).to_set(), key@));
        }
        while j < tags.len()
            invariant
                j <= tags@.len(),
                self.wf(),
                self@.entries == old(self)@.entries,
                self@.max_entries == old(self)@.max_entries,
                idx0 == old(self)@.tags,
                self@.tags == link(idx0, string_views(tags@.take(j as int)).to_set(), key@),
            decreases tags@.len() - j,
        {
            self.tag_add_key(&tags[j], key);
            proof {
                assert(tags@.take(j + 1) =~= tags@.take(j as int).push(tags@[j as int]));
                lemma_views_push(tags@.take(j as int), tags@[j as int]);
                let target = link(idx0, string_views(tags@.take(j + 1)).to_set(), key@);
                assert forall|u: Seq<char>| #[trigger] self@.tags.dom().contains(u) implies self@.tags[u]
                    =~= target[u] by {}
                assert(self@.tags =~= target);
            }
            j = j + 1;
        }
        proof {
            assert(tags@.take(tags@.len() as int) =~= tags@);
        }
    }
}

fn owned_tags(tags: &[&str]) -> (r: Vec<String>)
    ensures
        string_views(r@) == str_views(tags@),
{
    let mut r: Vec<String> = Vec::new();
    let mut j: usize = 0;
    while j < tags.len()
        invariant
            j <= tags@.len(),
            string_views(r@) == str_views(tags@.take(j as int)),
        decreases tags@.len() - j,
    {
        let tj: &str = tags[j];
        let t = tj.to_owned();
        let ghost before = r@;
        r.push(t);
        proof {
            assert(tags@.take(j + 1) =~= tags@.take(j as int).push(tj));
            assert(string_views(before.push(t)) =~= string_views(before).push(t@));
            assert(string_views(r@) =~= str_views(tags@.take(j + 1)));
        }
        j = j + 1;
    }
    proof {
        assert(tags@.take(tags@.len() as int) =~= tags@);
    }
    r
}

impl InMemoryCache {
    /// Stores `value` under `key` at the instant `now`, expiring `ttl`
    /// nanoseconds later when a TTL is given, and records `key` under each of
    /// `tags`. When the cache is full and `key` is new, one stored entry is
    /// evicted first.
    pub fn set_at(&mut self, key: &str, value: Vec<u8>, ttl: Option<u128>, tags: &[&str], now: u128)
        requires
            old(self).wf(),
        ensures
            final(self).wf(),
            store_outcome(old(self)@, final(self)@, key@, value@, ttl, str_views(tags@), now),
    {
        let ghost m0 = self@;
        let ghost e = fresh_entry(value@, ttl, str_views(tags@), now);
        let expires_at = match ttl {
            Some(d) => Some(now.saturating_add(d)),
            None => None,
        };
        let tag_list = owned_tags(tags);
        let tag_copy = owned_tags(tags);
        let key_s = key.to_owned();
        let found = self.find_entry(&key_s);
        proof {
            lemma_assoc_len(self.entry_pairs());
        }
        let ghost mut evicted: Option<Seq<char>> = None;
        match found {
            Some(i) => {
                let ghost p = self.entry_pairs();
                let ghost idx = self@.tags;
                let previous = self.entries.remove(i);
                proof {
                    lemma_assoc_index(p, i as int);
                    lemma_assoc_remove(p, i as int);
                    assert(self.entry_pairs() =~= p.remove(i as int));
                    assert(p[i as int] == entry_pair(previous));
                    assert(self.tag_pairs() == old(self).tag_pairs());
                    assert(self@.tags == idx);
                }
                self.unlink_key(&previous.key, &previous.tags);
                proof {
                    let u = unlink(idx, m0.entries, set![key@]);
                    assert(self@.tags == unlink_one(idx, key@, string_views(previous.tags@)));
                    assert(self@.tags.dom() =~= u.dom());
                    assert forall|t: Seq<char>| #[trigger] u.dom().contains(t) implies u[t]
                        =~= self@.tags[t] by {}
                    assert(self@.tags =~= u);
                }
            },
            None => {
                if self.entries.len() >= self.max_entries && self.entries.len() > 0 {
                    let ghost p = self.entry_pairs();
                    let ghost idx = self@.tags;
                    let victim = self.entries.remove(0);
                    proof {
                        lemma_assoc_index(p, 0);
                        lemma_assoc_remove(p, 0);
                        assert(self.entry_pairs() =~= p.remove(0));
                        assert(p[0] == entry_pair(victim));
                        assert(self.tag_pairs() == old(self).tag_pairs());
                        assert(self@.tags == idx);
                        evicted = Some(victim.key@);
                    }
                    self.unlink_key(&victim.key, &victim.tags);
                    proof {
                        let v = victim.key@;
                        let u = unlink(idx, m0.entries, set![v]);
                        assert(self@.tags == unlink_one(idx, v, string_views(victim.tags@)));
                        assert(self@.tags.dom() =~= u.dom());
                        assert forall|t: Seq<char>| #[trigger] u.dom().contains(t) implies u[t]
                            =~= self@.tags[t] by {}
                        assert(self@.tags =~= u);
                    }
                }
            },
        }
        let ghost mid = self@;
        let ghost p1 = self.entry_pairs();
        let entry = CacheEntry { key: key.to_owned(), data: value, expires_at, tags: tag_copy };
        self.entries.push(entry);
        proof {
            assert(entry_pair(entry) == (key@, e));
            lemma_assoc_push(p1, key@, e);
            assert(self.entry_pairs() =~= p1.push((key@, e)));
        }
        self.link_key(&key_s, &tag_list);
        proof {
            match evicted {
                Some(v) => {
                    assert(must_evict(m0, key@));
                    assert(self@.entries =~= stored(m0, key@, e, Some(v)).entries);
                    assert(self@ == stored(m0, key@, e, Some(v)));
                },
                None => {
                    assert(!must_evict(m0, key@));
                    assert(self@.entries =~= stored(m0, key@, e, None).entries);
                    assert(self@ == stored(m0, key@, e, None));
                },
            }
        }
    }
}

/// Some key in `gone` had an entry in `es` stored under `t`.
pub open spec fn touched(es: Map<Seq<char>, EntryModel>, gone: Set<Seq<char>>, t: Seq<char>) -> bool {
    exists|k: Seq<char>| gone.contains(k) && #[trigger] es[k].tags.contains(t)
}

/// The state after every key recorded under `tag` is invalidated: their
/// entries are removed, `tag` leaves the index, the removed keys leave the
/// other tags their entries carried, and those of these tags left with no
/// key leave the index too.
pub open spec fn invalidated(m: CacheModel, tag: Seq<char>) -> CacheModel {
    let keys = if m.tags.dom().contains(tag) {
        m.tags[tag]
    } else {
        Set::empty()
    };
    let gone = keys.intersect(m.entries.dom());
    let u = unlink(m.tags.remove(tag), m.entries, gone);
    CacheModel {
        entries: m.entries.remove_keys(keys),
        tags: Map::new(
            |t: Seq<char>|
                u.dom().contains(t) && !(touched(m.entries, gone, t) && u[t] == Set::<
                    Seq<char>,
                >::empty()),
            |t: Seq<char>| u[t],
        ),
        max_entries: m.max_entries,
    }
}

/// The text of each pair of strings.
pub open spec fn pair_views(ps: Seq<(String, String)>) -> Seq<(Seq<char>, Seq<char>)> {
    ps.map_values(|p: (String, String)| (p.0@, p.1@))
}

/// The keys paired with tag `t` in `ps`.
pub open spec fn paired_keys(ps: Seq<(Seq<char>, Seq<char>)>, t: Seq<char>) -> Set<Seq<char>> {
    Set::new(|k: Seq<char>| ps.contains((t, k)))
}

/// The tag index after each pair `(t, k)` of `ps` in turn takes `k` out of
/// the set of `t`, dropping `t` when its set is left empty.
pub open spec fn pruned(
    idx: Map<Seq<char>, Set<Seq<char>>>,
    ps: Seq<(Seq<char>, Seq<char>)>,
) -> Map<Seq<char>, Set<Seq<char>>> {
    Map::new(
        |t: Seq<char>|
            idx.dom().contains(t) && !(paired_keys(ps, t) != Set::<Seq<char>>::empty()
                && idx[t].difference(paired_keys(ps, t)) == Set::<Seq<char>>::empty()),
        |t: Seq<char>| idx[t].difference(paired_keys(ps, t)),
    )
}

proof fn lemma_push_contains<A>(s: Seq<A>, x: A)
    ensures
        forall|y: A| #[trigger] s.push(x).contains(y) <==> s.contains(y) || y == x,
{
    assert forall|y: A| #[trigger] s.push(x).contains(y) <==> s.contains(y) || y == x by {
        if s.push(x).contains(y) {
            let i = choose|i: int| 0 <= i < s.push(x).len() && s.push(x)[i] == y;
            if i < s.len() {
                assert(s[i] == y);
            }
        }
        if s.contains(y) {
            let i = choose|i: int| 0 <= i < s.len() && s[i] == y;
            assert(s.push(x)[i] == y);
        }
        if y == x {
            assert(s.push(x)[s.len() as int] == y);
        }
    }
}

proof fn lemma_pruned_step(
    idx: Map<Seq<char>, Set<Seq<char>>>,
    ps: Seq<(Seq<char>, Seq<char>)>,
    t: Seq<char>,
    k: Seq<char>,
)
    ensures
        tag_without(pruned(idx, ps), t, k, true) == pruned(idx, ps.push((t, k))),
{
    lemma_push_contains(ps, (t, k));
    let a = pruned(idx, ps);
    let b = pruned(idx, ps.push((t, k)));
    let c = tag_without(a, t, k, true);
    assert forall|u: Seq<char>| u != t implies #[trigger] paired_keys(ps.push((t, k)), u)
        == paired_keys(ps, u) by {
        assert(paired_keys(ps.push((t, k)), u) =~= paired_keys(ps, u));
    }
    assert(paired_keys(ps.push((t, k)), t) =~= paired_keys(ps, t).insert(k));
    if idx.dom().contains(t) {
        assert(idx[t].difference(paired_keys(ps, t).insert(k)) =~= idx[t].difference(
            paired_keys(ps, t),
        ).remove(k));
        if !a.dom().contains(t) {
            assert(idx[t].difference(paired_keys(ps, t).insert(k)) =~= Set::<Seq<char>>::empty());
        }
    }
    assert(paired_keys(ps, t).insert(k) != Set::<Seq<char>>::empty()) by {
        assert(paired_keys(ps, t).insert(k).contains(k));
    }
    assert forall|u: Seq<char>| c.dom().contains(u) <==> b.dom().contains(u) by {}
    assert forall|u: Seq<char>| #[trigger] c.dom().contains(u) implies c[u] == b[u] by {}
    assert(c =~= b);
}

impl InMemoryCache {
    /// Takes `tag` out of the index and hands back the keys it held.
    fn take_tag(&mut self, tag: &String) -> (keys: Vec<String>)
        requires
            old(self).wf(),
        ensures
            final(self).wf(),
            final(self)@.entries == old(self)@.entries,
            final(self)@.max_entries == old(self)@.max_entries,
            final(self)@.tags == old(self)@.tags.remove(tag@),
            string_views(keys@).to_set() == (if old(self)@.tags.dom().contains(tag@) {
                old(self)@.tags[tag@]
            } else {
                Set::<Seq<char>>::empty()
            }),
    {
        match self.find_tag(tag) {
            Some(i) => {
                let ghost pre = *self;
                proof {
                    lemma_assoc_index(pre.tag_pairs(), i as int);
                }
                let tk = self.tag_index.remove(i);
                proof {
                    pre.lemma_drop_tag(i as int, self.tag_index@);
                }
                tk.keys
            },
            None => {
                proof {
                    assert(self@.tags.remove(tag@) =~= self@.tags);
                    assert(string_views(Seq::<String>::empty()).to_set() =~= Set::<
                        Seq<char>,
                    >::empty());
                }
                Vec::new()
            },
        }
    }

    /// Removes the entries of `keys`, and lists, for each entry removed, the
    /// pairs of each of its tags other than `tag` with its key.
    fn drop_entries(&mut self, keys: &Vec<String>, tag: &String) -> (pairs: Vec<(String, String)>)
        requires
            old(self).wf(),
        ensures
            final(self).wf(),
            final(self)@.tags == old(self)@.tags,
            final(self)@.max_entries == old(self)@.max_entries,
            final(self)@.entries == old(self)@.entries.remove_keys(string_views(keys@).to_set()),
            forall|t: Seq<char>, k: Seq<char>|
                #[trigger] pair_views(pairs@).contains((t, k)) <==> (string_views(keys@).contains(k)
                    && old(self)@.entries.dom().contains(k) && old(self)@.entries[k].tags.contains(t)
                    && t != tag@),
    {
        let ghost es = self@.entries;
        let mut pairs: Vec<(String, String)> = Vec::new();
        let mut j: usize = 0;
        proof {
            assert(es.remove_keys(string_views(keys@.take(0)).to_set()) =~= es);
        }
        while j < keys.len()
            invariant
                j <= keys@.len(),
                self.wf(),
                es == old(self)@.entries,
                self@.tags == old(self)@.tags,
                self@.max_entries == old(self)@.max_entries,
                self@.entries == es.remove_keys(string_views(keys@.take(j as int)).to_set()),
                forall|t: Seq<char>, k: Seq<char>|
                    #[trigger] pair_views(pairs@).contains((t, k)) <==> (string_views(
                        keys@.take(j as int),
                    ).contains(k) && es.dom().contains(k) && es[k].tags.contains(t) && t != tag@),
            decreases keys@.len() - j,
        {
            let ghost taken = string_views(keys@.take(j as int));
            let ghost k = keys@[j as int]@;
            proof {
                assert(keys@.take(j + 1) =~= keys@.take(j as int).push(keys@[j as int]));
                lemma_views_push(keys@.take(j as int), keys@[j as int]);
                lemma_push_contains(taken, k);
            }
            let ghost cur = self@.entries;
            match self.find_entry(&keys[j]) {
                Some(i) => {
                    let ghost p = self.entry_pairs();
                    let e = self.entries.remove(i);
                    proof {
                        lemma_assoc_index(p, i as int);
                        lemma_assoc_remove(p, i as int);
                        assert(self.entry_pairs() =~= p.remove(i as int));
                        assert(p[i as int] == entry_pair(e));
                        assert(es[k] == cur[k]);
                        assert(!taken.contains(k)) by {
                            if taken.contains(k) {
                                assert(taken.to_set().contains(k));
                            }
                        }
                        assert(self@.entries =~= es.remove_keys(
                            string_views(keys@.take(j + 1)).to_set(),
                        ));
                    }
                    let ghost pv0 = pair_views(pairs@);
                    let mut m: usize = 0;
                    while m < e.tags.len()
                        invariant
                            m <= e.tags@.len(),
                            j < keys@.len(),
                            k == keys@[j as int]@,
                            forall|t: Seq<char>, k2: Seq<char>|
                                #[trigger] pair_views(pairs@).contains((t, k2)) <==> (pv0.contains(
                                    (t, k2),
                                ) || (k2 == k && string_views(e.tags@.take(m as int)).contains(t)
                                    && t != tag@)),
                        decreases e.tags@.len() - m,
                    {
                        let ghost pb = pair_views(pairs@);
                        proof {
                            assert(e.tags@.take(m + 1) =~= e.tags@.take(m as int).push(
                                e.tags@[m as int],
                            ));
                            lemma_views_push(e.tags@.take(m as int), e.tags@[m as int]);
                            lemma_push_contains(string_views(e.tags@.take(m as int)), e.tags@[m as int]@);
                        }
                        if !(e.tags[m] == *tag) {
                            let pr = (e.tags[m].clone(), keys[j].clone());
                            pairs.push(pr);
                            proof {
                                assert(pair_views(pairs@) =~= pb.push((e.tags@[m as int]@, k)));
                                lemma_push_contains(pb, (e.tags@[m as int]@, k));
                            }
                        }
                        m = m + 1;
                    }
                    proof {
                        assert(e.tags@.take(e.tags@.len() as int) =~= e.tags@);
                        assert(string_views(e.tags@) == es[k].tags);
                    }
                },
                None => {
                    proof {
                        assert(self@.entries =~= es.remove_keys(
                            string_views(keys@.take(j + 1)).to_set(),
                        ));
                        if es.dom().contains(k) {
                            assert(taken.to_set().contains(k));
                        }
                    }
                },
            }
            j = j + 1;
        }
        proof {
            assert(keys@.take(keys@.len() as int) =~= keys@);
        }
        pairs
    }

    /// Applies each pair `(t, k)` of `pairs` in turn: `k` leaves the set of
    /// `t`, and `t` leaves the index when its set is left empty.
    fn prune_pairs(&mut self, pairs: &Vec<(String, String)>)
        requires
            old(self).wf(),
        ensures
            final(self).wf(),
            final(self)@.entries == old(self)@.entries,
            final(self)@.max_entries == old(self)@.max_entries,
            final(self)@.tags == pruned(old(self)@.tags, pair_views(pairs@)),
    {
        let ghost idx0 = self@.tags;
        let mut j: usize = 0;
        proof {
            let e = pair_views(pairs@.take(0));
            assert forall|t: Seq<char>| #[trigger] paired_keys(e, t) == Set::<Seq<char>>::empty() by {
                assert(paired_keys(e, t) =~= Set::<Seq<char>>::empty());
            }
            assert forall|t: Seq<char>| #[trigger] idx0.dom().contains(t) implies idx0[t].difference(
                paired_keys(e, t),
            ) == idx0[t] by {
                assert(idx0[t].difference(paired_keys(e, t)) =~= idx0[t]);
            }
            assert(idx0 =~= pruned(idx0, e));
        }
        while j < pairs.len()
            invariant
                j <= pairs@.len(),
                self.wf(),
                self@.entries == old(self)@.entries,
                self@.max_entries == old(self)@.max_entries,
                idx0 == old(self)@.tags,
                self@.tags == pruned(idx0, pair_views(pairs@.take(j as int))),
            decreases pairs@.len() - j,
        {
            let ghost pv = pair_views(pairs@.take(j as int));
            self.tag_remove_key(&pairs[j].0, &pairs[j].1, true);
            proof {
                let x = pairs@[j as int];
                assert(pair_views(pairs@.take(j + 1)) =~= pv.push((x.0@, x.1@)));
                lemma_pruned_step(idx0, pv, x.0@, x.1@);
            }
            j = j + 1;
        }
        proof {
            assert(pairs@.take(pairs@.len() as int) =~= pairs@);
        }
    }

    /// Invalidates every entry recorded under `tag`.
    pub fn invalidate(&mut self, tag: &str)
        requires
            old(self).wf(),
        ensures
            final(self).wf(),
            final(self)@ == invalidated(old(self)@, tag@),
    {
        let ghost m0 = self@;
        let tag_s = tag.to_owned();
        let keys = self.take_tag(&tag_s);
        let pairs = self.drop_entries(&keys, &tag_s);
        self.prune_pairs(&pairs);
        proof {
            let target = invalidated(m0, tag@);
            let keyset = if m0.tags.dom().contains(tag@) {
                m0.tags[tag@]
            } else {
                Set::<Seq<char>>::empty()
            };
            let gone = keyset.intersect(m0.entries.dom());
            let u0 = m0.tags.remove(tag@);
            let u = unlink(u0, m0.entries, gone);
            let pv = pair_views(pairs@);
            assert(string_views(keys@).to_set() == keyset);
            assert forall|k: Seq<char>| #[trigger] keyset.contains(k) <==> string_views(keys@).contains(
                k,
            ) by {}
            assert(self@.entries =~= target.entries);
            assert forall|t: Seq<char>| t != tag@ implies #[trigger] paired_keys(pv, t)
                == Set::new(|k: Seq<char>| gone.contains(k) && m0.entries[k].tags.contains(t)) by {
                assert(paired_keys(pv, t) =~= Set::new(
                    |k: Seq<char>| gone.contains(k) && m0.entries[k].tags.contains(t),
                ));
            }
            assert forall|t: Seq<char>| #[trigger] u0.dom().contains(t) implies u0[t].difference(
                paired_keys(pv, t),
            ) == u[t] by {
                assert(u0[t].difference(paired_keys(pv, t)) =~= u[t]);
            }
            assert forall|t: Seq<char>| #[trigger] u0.dom().contains(t) implies (paired_keys(pv, t)
                != Set::<Seq<char>>::empty() <==> touched(m0.entries, gone, t)) by {
                let s = Set::new(|k: Seq<char>| gone.contains(k) && m0.entries[k].tags.contains(t));
                if touched(m0.entries, gone, t) {
                    let k = choose|k: Seq<char>|
                        gone.contains(k) && #[trigger] m0.entries[k].tags.contains(t);
                    assert(s.contains(k));
                }
                if s != Set::<Seq<char>>::empty() {
                    assert(!(s =~= Set::<Seq<char>>::empty()));
                    let k = choose|k: Seq<char>| s.contains(k);
                    assert(m0.entries[k].tags.contains(t));
                }
            }
            assert(self@.tags =~= target.tags);
        }
    }
}

/// The keys whose entries are expired at `now`.
pub open spec fn expired_keys(m: CacheModel, now: u128) -> Set<Seq<char>> {
    Set::new(|k: Seq<char>| m.entries.dom().contains(k) && is_expired(m.entries[k], now))
}

/// The state after the entries expired at `now` are removed and their keys
/// taken out of the tags they were stored under.
pub open spec fn pruned_at(m: CacheModel, now: u128) -> CacheModel {
    CacheModel {
        entries: m.entries.remove_keys(expired_keys(m, now)),
        tags: unlink(m.tags, m.entries, expired_keys(m, now)),
        max_entries: m.max_entries,
    }
}

proof fn lemma_unlink_step(
    idx: Map<Seq<char>, Set<Seq<char>>>,
    es: Map<Seq<char>, EntryModel>,
    gone: Set<Seq<char>>,
    k: Seq<char>,
)
    ensures
        unlink_one(unlink(idx, es, gone), k, es[k].tags) == unlink(idx, es, gone.insert(k)),
{
    let a = unlink_one(unlink(idx, es, gone), k, es[k].tags);
    let b = unlink(idx, es, gone.insert(k));
    assert forall|t: Seq<char>| #[trigger] a.dom().contains(t) implies a[t] == b[t] by {
        assert(a[t] =~= b[t]);
    }
    assert(a =~= b);
}

impl InMemoryCache {
    fn expired_list(&self, now: u128) -> (r: Vec<String>)
        requires
            self.wf(),
        ensures
            string_views(r@).to_set() == expired_keys(self@, now),
    {
        let ghost p = self.entry_pairs();
        let mut r: Vec<String> = Vec::new();
        let mut j: usize = 0;
        proof {
            assert(string_views(r@).to_set() =~= Set::new(
                |k: Seq<char>| exists|i: int| 0 <= i < 0 && #[trigger] p[i].0 == k && is_expired(p[i].1, now),
            ));
        }
        while j < self.entries.len()
            invariant
                j <= self.entries@.len(),
                p == self.entry_pairs(),
                string_views(r@).to_set() == Set::new(
                    |k: Seq<char>|
                        exists|i: int| 0 <= i < j && #[trigger] p[i].0 == k && is_expired(p[i].1, now),
                ),
            decreases self.entries@.len() - j,
        {
            let ghost before = r@;
            let e = &self.entries[j];
            proof {
                assert(p[j as int] == entry_pair(self.entries@[j as int]));
            }
            let hit = match e.expires_at {
                Some(t) => now >= t,
                None => false,
            };
            if hit {
                r.push(e.key.clone());
                proof {
                    lemma_views_push(before, e.key);
                }
            }
            proof {
                let lo = Set::new(
                    |k: Seq<char>|
                        exists|i: int| 0 <= i < j && #[trigger] p[i].0 == k && is_expired(p[i].1, now),
                );
                let hi = Set::new(
                    |k: Seq<char>|
                        exists|i: int| 0 <= i < j + 1 && #[trigger] p[i].0 == k && is_expired(p[i].1, now),
                );
                assert forall|k: Seq<char>| #[trigger] hi.contains(k) <==> string_views(r@).to_set().contains(k) by {
                    if hi.contains(k) {
                        let i = choose|i: int| 0 <= i < j + 1 && #[trigger] p[i].0 == k && is_expired(p[i].1, now);
                        if i < j {
                            assert(lo.contains(k));
                        }
                    }
                    if lo.contains(k) {
                        let i = choose|i: int| 0 <= i < j && #[trigger] p[i].0 == k && is_expired(p[i].1, now);
                        assert(hi.contains(k));
                    }
                    if hit && k == e.key@ {
                        assert(p[j as int].0 == k);
                        assert(hi.contains(k));
                    }
                }
                assert(string_views(r@).to_set() =~= hi);
            }
            j = j + 1;
        }
        proof {
            let x = expired_keys(self@, now);
            let s = string_views(r@).to_set();
            lemma_assoc_dom(p);
            assert forall|k: Seq<char>| #[trigger] x.contains(k) <==> s.contains(k) by {
                if s.contains(k) {
                    let i = choose|i: int| 0 <= i < p.len() && #[trigger] p[i].0 == k && is_expired(p[i].1, now);
                    lemma_assoc_index(p, i);
                }
                if x.contains(k) {
                    let i = choose|i: int| 0 <= i < p.len() && #[trigger] p[i].0 == k;
                    lemma_assoc_index(p, i);
                    assert(is_expired(p[i].1, now));
                }
            }
            assert(s =~= x);
        }
        r
    }

    /// Removes the entries expired at the instant `now`, and takes their keys
    /// out of the tags they were stored under.
    pub fn prune_expired_at(&mut self, now: u128)
        requires
            old(self).wf(),
        ensures
            final(self).wf(),
            final(self)@ == pruned_at(old(self)@, now),
    {
        let ghost m0 = self@;
        let keys = self.expired_list(now);
        let mut j: usize = 0;
        proof {
            assert(m0.entries.remove_keys(string_views(keys@.take(0)).to_set()) =~= m0.entries);
            let g = string_views(keys@.take(0)).to_set();
            assert forall|t: Seq<char>| #[trigger] m0.tags.dom().contains(t) implies m0.tags[t]
                == unlink(m0.tags, m0.entries, g)[t] by {
                assert(m0.tags[t] =~= unlink(m0.tags, m0.entries, g)[t]);
            }
            assert(m0.tags =~= unlink(m0.tags, m0.entries, g));
        }
        while j < keys.len()
            invariant
                j <= keys@.len(),
                self.wf(),
                self@.max_entries == m0.max_entries,
                string_views(keys@).to_set() == expired_keys(m0, now),
                self@.entries == m0.entries.remove_keys(string_views(keys@.take(j as int)).to_set()),
                self@.tags == unlink(m0.tags, m0.entries, string_views(keys@.take(j as int)).to_set()),
            decreases keys@.len() - j,
        {
            let ghost taken = string_views(keys@.take(j as int));
            let ghost k = keys@[j as int]@;
            proof {
                assert(keys@.take(j + 1) =~= keys@.take(j as int).push(keys@[j as int]));
                lemma_views_push(keys@.take(j as int), keys@[j as int]);
            }
            match self.find_entry(&keys[j]) {
                Some(i) => {
                    let ghost p = self.entry_pairs();
                    let ghost cur = self@.entries;
                    let e = self.entries.remove(i);
                    proof {
                        lemma_assoc_index(p, i as int);
                        lemma_assoc_remove(p, i as int);
                        assert(self.entry_pairs() =~= p.remove(i as int));
                        assert(p[i as int] == entry_pair(e));
                        assert(m0.entries[k] == cur[k]);
                        assert(self@.entries =~= m0.entries.remove_keys(
                            string_views(keys@.take(j + 1)).to_set(),
                        ));
                    }
                    self.unlink_key(&e.key, &e.tags);
                    proof {
                        assert(string_views(e.tags@) == m0.entries[k].tags);
                        lemma_unlink_step(m0.tags, m0.entries, taken.to_set(), k);
                    }
                },
                None => {
                    proof {
                        assert(string_views(keys@).contains(k)) by {
                            assert(string_views(keys@)[j as int] == k);
                        }
                        assert(string_views(keys@).to_set().contains(k));
                        assert(taken.to_set().contains(k));
                        assert(taken.to_set().insert(k) =~= taken.to_set());
                    }
                },
            }
            j = j + 1;
        }
        proof {
            assert(keys@.take(keys@.len() as int) =~= keys@);
        }
    }
}

/// What a store leaves behind: `new` is `old` after `data` is stored under
/// `key` with `tags` at the instant `now`, with the TTL `ttl`, evicting one
/// entry first when `old` is full and `key` is new.
pub open spec fn store_outcome(
    old: CacheModel,
    new: CacheModel,
    key: Seq<char>,
    data: Seq<u8>,
    ttl: Option<u128>,
    tags: Seq<Seq<char>>,
    now: u128,
) -> bool {
    let e = fresh_entry(data, ttl, tags, now);
    if must_evict(old, key) {
        exists|v: Seq<char>| old.entries.dom().contains(v) && new == stored(old, key, e, Some(v))
    } else {
        new == stored(old, key, e, None)
    }
}

/// The TTL `ttl` in nanoseconds, where one is given.
pub open spec fn ttl_nanos(ttl: Option<Duration>) -> Option<u128> {
    match ttl {
        Some(d) => Some(nanos_of(d)),
        None => None,
    }
}

/// The state after each tag of `tags` in turn is invalidated.
pub open spec fn invalidated_all(m: CacheModel, tags: Seq<Seq<char>>) -> CacheModel
    decreases tags.len(),
{
    if tags.len() == 0 {
        m
    } else {
        invalidated(invalidated_all(m, tags.drop_last()), tags.last())
    }
}

/// A backend for cached query results (in memory, Redis, ...).
pub trait QueryCache: Send + Sync {
    /// The backend's own consistency condition, kept by every operation.
    spec fn valid(&self) -> bool;

    /// `n` is a number of active entries the backend may report: which
    /// entries are active can depend on when it is asked.
    spec fn active_count(&self, n: nat) -> bool;

    /// `next` is this backend after the entries stored under `tag` were
    /// invalidated.
    spec fn tag_invalidated(&self, tag: Seq<char>, next: &Self) -> bool;

    /// Retrieves a cached entry if present and not expired.
    fn get(&self, key: &str) -> (r: Option<Vec<u8>>)
        requires
            self.valid(),
    ;

    /// Stores an entry with an optional TTL and associated cache tags.
    fn set(&mut self, key: &str, value: Vec<u8>, ttl: Option<Duration>, tags: &[&str])
        requires
            old(self).valid(),
        ensures
            final(self).valid(),
    ;

    /// Invalidates all entries associated with the given tag.
    fn invalidate_tag(&mut self, tag: &str)
        requires
            old(self).valid(),
        ensures
            final(self).valid(),
            old(self).tag_invalidated(tag@, final(self)),
    ;

    /// Invalidates all entries associated with any of the given tags: each
    /// tag in turn, in order.
    fn invalidate_tags(&mut self, tags: &[&str])
        requires
            old(self).valid(),
        ensures
            final(self).valid(),
            exists|states: Seq<&Self>|
                {
                    &&& states.len() == tags@.len() + 1
                    &&& states[0] == &*old(self)
                    &&& states.last() == &*final(self)
                    &&& forall|i: int|
                        0 <= i < tags@.len() ==> #[trigger] states[i].tag_invalidated(tags@[i]@, states[i + 1])
                },
    {
        let ghost mut states: Seq<&Self> = seq![&*old(self)];
        let mut i: usize = 0;
        while i < tags.len()
            invariant
                i <= tags@.len(),
                self.valid(),
                states.len() == i + 1,
                states[0] == &*old(self),
                states.last() == &*self,
                forall|j: int| 0 <= j < i ==> #[trigger] states[j].tag_invalidated(tags@[j]@, states[j + 1]),
            decreases tags@.len() - i,
        {
            self.invalidate_tag(tags[i]);
            proof {
                let prev = states;
                states = states.push(&*self);
                assert forall|j: int| 0 <= j < i + 1 implies #[trigger] states[j].tag_invalidated(
                    tags@[j]@,
                    states[j + 1],
                ) by {
                    if j < i {
                        assert(states[j] == prev[j] && states[j + 1] == prev[j + 1]);
                    }
                }
            }
            i = i + 1;
        }
    }

    /// Clears all entries from the cache.
    fn clear(&mut self)
        requires
            old(self).valid(),
        ensures
            final(self).valid(),
    ;

    /// Returns the number of active cached entries.
    fn len(&self) -> (r: usize)
        requires
            self.valid(),
        ensures
            self.active_count(r as nat),
    ;

    /// Returns `true` if the cache has no active entries.
    fn is_empty(&self) -> (r: bool)
        requires
            self.valid(),
        ensures
            r ==> self.active_count(0),
            !r ==> exists|n: nat| n > 0 && #[trigger] self.active_count(n),
    {
        let n = self.len();
        n == 0
    }
}

impl InMemoryCache {
    /// The nanoseconds elapsed since the cache was created.
    fn now(&self) -> (r: u128) {
        let d = elapsed_since(&self.origin);
        duration_nanos(&d)
    }

    /// Removes the entries that have expired, and takes their keys out of the
    /// tags they were stored under.
    pub fn prune_expired(&mut self)
        requires
            old(self).wf(),
        ensures
            final(self).wf(),
            exists|now: u128| final(self)@ == pruned_at(old(self)@, now),
    {
        let now = self.now();
        self.prune_expired_at(now);
    }
}

impl QueryCache for InMemoryCache {
    open spec fn valid(&self) -> bool {
        self.wf()
    }

    open spec fn active_count(&self, n: nat) -> bool {
        exists|now: u128| n == #[trigger] active_keys(self@, now).len()
    }

    open spec fn tag_invalidated(&self, tag: Seq<char>, next: &Self) -> bool {
        next@ == invalidated(self@, tag)
    }

    /// The bytes stored under `key` unless the entry is absent or expired at
    /// the time of the call.
    fn get(&self, key: &str) -> (r: Option<Vec<u8>>)
        ensures
            exists|now: u128| bytes_opt(r) == lookup(self@, key@, now),
    {
        let now = self.now();
        self.get_at(key, now)
    }

    /// Stores `value` under `key`; the TTL, when given, runs from the time of
    /// the call.
    fn set(&mut self, key: &str, value: Vec<u8>, ttl: Option<Duration>, tags: &[&str])
        ensures
            exists|now: u128|
                #[trigger] store_outcome(
                    old(self)@,
                    final(self)@,
                    key@,
                    value@,
                    ttl_nanos(ttl),
                    str_views(tags@),
                    now,
                ),
    {
        let now = self.now();
        let nanos = match &ttl {
            Some(d) => Some(duration_nanos(d)),
            None => None,
        };
        proof {
            assert(nanos == ttl_nanos(ttl));
        }
        self.set_at(key, value, nanos, tags, now);
    }

    fn invalidate_tag(&mut self, tag: &str)
        ensures
            final(self)@ == invalidated(old(self)@, tag@),
    {
        self.invalidate(tag);
    }

    fn invalidate_tags(&mut self, tags: &[&str])
        ensures
            final(self)@ == invalidated_all(old(self)@, str_views(tags@)),
    {
        let ghost m0 = self@;
        let ghost mut states: Seq<&Self> = seq![&*old(self)];
        let mut i: usize = 0;
        proof {
            assert(str_views(tags@).take(0) =~= Seq::<Seq<char>>::empty());
        }
        while i < tags.len()
            invariant
                i <= tags@.len(),
                self.wf(),
                self@ == invalidated_all(m0, str_views(tags@).take(i as int)),
                states.len() == i + 1,
                states[0] == &*old(self),
                states.last() == &*self,
                forall|j: int| 0 <= j < i ==> #[trigger] states[j].tag_invalidated(tags@[j]@, states[j + 1]),
            decreases tags@.len() - i,
        {
            let ghost before = self@;
            self.invalidate(tags[i]);
            proof {
                let v = str_views(tags@);
                assert(v.take(i + 1).drop_last() =~= v.take(i as int));
                let prev = states;
                states = states.push(&*self);
                assert(prev.last()@ == before);
                assert forall|j: int| 0 <= j < i + 1 implies #[trigger] states[j].tag_invalidated(
                    tags@[j]@,
                    states[j + 1],
                ) by {
                    if j < i {
                        assert(states[j] == prev[j] && states[j + 1] == prev[j + 1]);
                    } else {
                        assert(states[j] == prev.last());
                    }
                }
            }
            i = i + 1;
        }
        proof {
            assert(str_views(tags@).take(tags@.len() as int) =~= str_views(tags@));
        }
    }

    fn clear(&mut self)
        ensures
            final(self)@.entries == Map::<Seq<char>, EntryModel>::empty(),
            final(self)@.tags == Map::<Seq<char>, Set<Seq<char>>>::empty(),
            final(self)@.max_entries == old(self)@.max_entries,
    {
        self.clear_all();
    }

    /// The number of entries still active at the time of the call.
    fn len(&self) -> (r: usize)
        ensures
            exists|now: u128| r == active_keys(self@, now).len(),
    {
        let now = self.now();
        self.active_count_at(now)
    }
}

impl Default for InMemoryCache {
    fn default() -> (r: Self)
        ensures
            r.wf(),
            r@.entries == Map::<Seq<char>, EntryModel>::empty(),
            r@.tags == Map::<Seq<char>, Set<Seq<char>>>::empty(),
            r@.max_entries == 10_000,
    {
        Self::new(10_000)
    }
}

/// A lookup right after a store gives back the stored bytes until the TTL,
/// if any, runs out, and nothing from then on.
pub proof fn law_lookup_after_store(
    before: CacheModel,
    after: CacheModel,
    key: Seq<char>,
    data: Seq<u8>,
    ttl: Option<u128>,
    tags: Seq<Seq<char>>,
    now: u128,
    later: u128,
)
    requires
        store_outcome(before, after, key, data, ttl, tags, now),
    ensures
        lookup(after, key, later) == match ttl {
            None => Some(data),
            Some(d) => if later >= deadline(now, d) {
                None
            } else {
                Some(data)
            },
        },
{
}

/// A store changes no other key's entry; it adds `key` and, when the cache
/// was full and `key` new, takes out exactly one other key.
pub proof fn law_store_keeps_others(
    before: CacheModel,
    after: CacheModel,
    key: Seq<char>,
    data: Seq<u8>,
    ttl: Option<u128>,
    tags: Seq<Seq<char>>,
    now: u128,
)
    requires
        store_outcome(before, after, key, data, ttl, tags, now),
    ensures
        after.entries.dom().contains(key),
        after.max_entries == before.max_entries,
        forall|k: Seq<char>|
            k != key && #[trigger] after.entries.dom().contains(k) ==> before.entries.dom().contains(k)
                && after.entries[k] == before.entries[k],
        !must_evict(before, key) ==> forall|k: Seq<char>|
            k != key ==> (#[trigger] after.entries.dom().contains(k) <==> before.entries.dom().contains(
                k,
            )),
        must_evict(before, key) ==> exists|v: Seq<char>|
            #[trigger] before.entries.dom().contains(v) && v != key && forall|k: Seq<char>|
                k != key && k != v ==> (#[trigger] after.entries.dom().contains(k)
                    <==> before.entries.dom().contains(k)),
{
    if must_evict(before, key) {
        let v = choose|v: Seq<char>|
            before.entries.dom().contains(v) && after == stored(
                before,
                key,
                fresh_entry(data, ttl, tags, now),
                Some(v),
            );
        assert(before.entries.dom().contains(v) && v != key);
    }
}

/// A cache within its capacity stays within it after a store, for a
/// capacity of at least one entry.
pub proof fn law_store_within_capacity(
    before: CacheModel,
    after: CacheModel,
    key: Seq<char>,
    data: Seq<u8>,
    ttl: Option<u128>,
    tags: Seq<Seq<char>>,
    now: u128,
)
    requires
        before.entries.dom().finite(),
        store_outcome(before, after, key, data, ttl, tags, now),
        before.entries.len() <= before.max_entries,
        before.max_entries > 0,
    ensures
        after.entries.len() <= after.max_entries,
{
    let e = fresh_entry(data, ttl, tags, now);
    if must_evict(before, key) {
        let v = choose|v: Seq<char>|
            before.entries.dom().contains(v) && after == stored(before, key, e, Some(v));
        let r = before.entries.remove(v);
        assert(r.dom() =~= before.entries.dom().remove(v));
        assert(r.insert(key, e).dom() =~= r.dom().insert(key));
    } else if before.entries.dom().contains(key) {
        assert(before.entries.insert(key, e).dom() =~= before.entries.dom());
    } else {
        assert(before.entries.insert(key, e).dom() =~= before.entries.dom().insert(key));
    }
}

/// A store, in one statement: the cache stays within a capacity of at least
/// one entry; `key` is found with `data` (until its deadline, with a TTL);
/// `key` is recorded under every tag given; no other key is removed unless
/// the cache was full and `key` new, and then exactly one other key is
/// removed and taken out of every tag its entry was stored under.
pub proof fn law_store(
    before: CacheModel,
    after: CacheModel,
    key: Seq<char>,
    data: Seq<u8>,
    ttl: Option<u128>,
    tags: Seq<Seq<char>>,
    now: u128,
)
    requires
        before.entries.dom().finite(),
        before.entries.len() <= before.max_entries,
        before.max_entries > 0,
        store_outcome(before, after, key, data, ttl, tags, now),
    ensures
        after.entries.len() <= after.max_entries,
        ttl is None ==> forall|later: u128| #[trigger] lookup(after, key, later) == Some(data),
        ttl matches Some(d) ==> forall|later: u128|
            #[trigger] lookup(after, key, later) == if later >= deadline(now, d) {
                None
            } else {
                Some(data)
            },
        forall|t: Seq<char>| #[trigger] tags.contains(t) ==> after.tags.dom().contains(t) && after.tags[t].contains(key),
        !must_evict(before, key) ==> forall|k: Seq<char>|
            k != key ==> (#[trigger] after.entries.dom().contains(k) <==> before.entries.dom().contains(k)),
        must_evict(before, key) ==> exists|v: Seq<char>|
            {
                &&& #[trigger] before.entries.dom().contains(v)
                &&& v != key
                &&& !after.entries.dom().contains(v)
                &&& forall|k: Seq<char>|
                    k != key && k != v ==> (#[trigger] after.entries.dom().contains(k)
                        <==> before.entries.dom().contains(k))
                &&& forall|t: Seq<char>|
                    #[trigger] before.entries[v].tags.contains(t) && after.tags.dom().contains(t) ==> !after.tags[t].contains(v)
            },
{
    law_store_within_capacity(before, after, key, data, ttl, tags, now);
    law_store_keeps_others(before, after, key, data, ttl, tags, now);
    assert forall|later: u128| #[trigger] lookup(after, key, later) == match ttl {
        None => Some(data),
        Some(d) => if later >= deadline(now, d) {
            None
        } else {
            Some(data)
        },
    } by {
        law_lookup_after_store(before, after, key, data, ttl, tags, now, later);
    }
    let e = fresh_entry(data, ttl, tags, now);
    assert forall|t: Seq<char>| #[trigger] tags.contains(t) implies after.tags.dom().contains(t)
        && after.tags[t].contains(key) by {
        assert(e.tags.to_set().contains(t));
    }
    if must_evict(before, key) {
        let v = choose|v: Seq<char>|
            before.entries.dom().contains(v) && after == stored(before, key, e, Some(v));
        assert(v != key);
        assert(!after.entries.dom().contains(v));
        assert forall|k: Seq<char>|
            k != key && k != v implies (#[trigger] after.entries.dom().contains(k) <==> before.entries.dom().contains(k)) by {}
        assert forall|t: Seq<char>|
            #[trigger] before.entries[v].tags.contains(t) && after.tags.dom().contains(t) implies !after.tags[t].contains(v) by {}
    }
}

/// The time-to-live holds across later calls: once `key` was stored at
/// `now` with a TTL of `d` nanoseconds, any later state that still holds
/// the entry stored then (stores of other keys that evict no `key`, and
/// invalidations of tags it is not under, keep it; see [`law_store`] and
/// [`law_invalidate_removes_tagged`]) finds `data` before the deadline and
/// nothing from the deadline on.
pub proof fn law_ttl_across_calls(
    before: CacheModel,
    after: CacheModel,
    key: Seq<char>,
    data: Seq<u8>,
    d: u128,
    tags: Seq<Seq<char>>,
    now: u128,
    later_state: CacheModel,
    later: u128,
)
    requires
        store_outcome(before, after, key, data, Some(d), tags, now),
        later_state.entries.dom().contains(key),
        later_state.entries[key] == after.entries[key],
    ensures
        lookup(later_state, key, later) == if later >= deadline(now, d) {
            None
        } else {
            Some(data)
        },
{
    law_store_keeps_others(before, after, key, data, Some(d), tags, now);
    law_lookup_after_store(before, after, key, data, Some(d), tags, now, later);
}

/// Invalidating a tag removes exactly the entries whose keys it recorded,
/// leaves every other entry as it was, and drops the tag from the index.
pub proof fn law_invalidate_removes_tagged(m: CacheModel, tag: Seq<char>)
    ensures
        !invalidated(m, tag).tags.dom().contains(tag),
        forall|k: Seq<char>|
            #[trigger] invalidated(m, tag).entries.dom().contains(k) <==> (m.entries.dom().contains(k)
                && !(m.tags.dom().contains(tag) && m.tags[tag].contains(k))),
        forall|k: Seq<char>|
            #[trigger] invalidated(m, tag).entries.dom().contains(k) ==> invalidated(m, tag).entries[k]
                == m.entries[k],
{
}

/// A tag other than the invalidated one, each of whose keys belonged to a
/// removed entry stored under it, leaves the index with them.
pub proof fn law_invalidate_drops_emptied_tags(m: CacheModel, tag: Seq<char>, t: Seq<char>)
    requires
        t != tag,
        m.tags.dom().contains(tag),
        m.tags.dom().contains(t),
        m.tags[t] != Set::<Seq<char>>::empty(),
        forall|k: Seq<char>|
            #[trigger] m.tags[t].contains(k) ==> m.tags[tag].contains(k) && m.entries.dom().contains(
                k,
            ) && m.entries[k].tags.contains(t),
    ensures
        !invalidated(m, tag).tags.dom().contains(t),
{
    let keys = m.tags[tag];
    let gone = keys.intersect(m.entries.dom());
    let u = unlink(m.tags.remove(tag), m.entries, gone);
    assert(u[t] =~= Set::<Seq<char>>::empty());
    assert(!(m.tags[t] =~= Set::<Seq<char>>::empty()));
    let k = choose|k: Seq<char>| m.tags[t].contains(k);
    assert(gone.contains(k));
    assert(touched(m.entries, gone, t));
}

/// Pruning at `now` removes exactly the entries expired at `now` and keeps
/// every other entry as it was.
pub proof fn law_prune_removes_expired(m: CacheModel, now: u128)
    ensures
        forall|k: Seq<char>|
            #[trigger] pruned_at(m, now).entries.dom().contains(k) <==> (m.entries.dom().contains(k)
                && !is_expired(m.entries[k], now)),
        forall|k: Seq<char>|
            #[trigger] pruned_at(m, now).entries.dom().contains(k) ==> pruned_at(m, now).entries[k]
                == m.entries[k],
{
}

fn copy_bytes(v: &Vec<u8>) -> (r: Vec<u8>)
    ensures
        r@ == v@,
{
    let mut r: Vec<u8> = Vec::new();
    let mut i: usize = 0;
    while i < v.len()
        invariant
            i <= v@.len(),
            r@ == v@.take(i as int),
        decreases v@.len() - i,
    {
        r.push(v[i]);
        i = i + 1;
        proof {
            assert(r@ =~= v@.take(i as int));
        }
    }
    proof {
        assert(v@.take(v@.len() as int) =~= v@);
    }
    r
}

/// Reads the monotonic clock through `std::time::Instant::now`; nothing is
/// stated of the instant it returns.
#[verifier::external_body]
fn instant_now() -> (r: Instant) {
    Instant::now()
}

/// The time elapsed since `origin`, through `std::time::Instant::elapsed`;
/// nothing is stated of it, as it depends on when the call is made.
#[verifier::external_body]
fn elapsed_since(origin: &Instant) -> (r: Duration) {
    origin.elapsed()
}

/// The total number of whole nanoseconds in `d`, as
/// `std::time::Duration::as_nanos` gives it.
pub uninterp spec fn nanos_of(d: Duration) -> u128;

/// The length of `d` in whole nanoseconds, through
/// `std::time::Duration::as_nanos`: the named value [`nanos_of`] of `d`.
#[verifier::external_body]
pub(crate) fn duration_nanos(d: &Duration) -> (r: u128)
    ensures
        r == nanos_of(*d),
{
    d.as_nanos()
}

} // verus!
