//! A hierarchical cache: values stored under paths of 64-bit keys.
//!
//! A string key is turned into a path by splitting it at every `:` and
//! hashing each segment with FNV-1a. The paths form a tree: storing at a
//! path turns the paths above it into branches (they hold nothing) and
//! replaces what was below it; removing a path removes everything below it
//! too, and a key that ends with `:` removes every key that begins with it.

use std::collections::BTreeMap;
use vstd::prelude::*;
use vstd::string::StringSliceAdditionalSpecFns;

use crate::data::Data;
use crate::{fnv1a_64, spec_fnv1a_64};

verus! {

broadcast use {vstd::std_specs::btree::group_btree_axioms, vstd::laws_cmp::group_laws_cmp};

/// A node of the cache tree: the value stored at its path, if any, and the
/// nodes below it by their next segment.
#[derive(Debug)]
pub struct CacheKey {
    pub value: Option<Data>,
    pub more: BTreeMap<i64, CacheKey>,
}

/// What is stored at `path` below `node`, if anything.
pub open spec fn lookup(node: CacheKey, path: Seq<i64>) -> Option<Data>
    decreases path.len(),
{
    if path.len() == 0 {
        node.value
    } else if node.more@.contains_key(path[0]) {
        lookup(node.more@[path[0]], path.drop_first())
    } else {
        None
    }
}

/// `a` is a prefix of `b` (possibly equal to it).
pub open spec fn is_prefix(a: Seq<i64>, b: Seq<i64>) -> bool {
    a.len() <= b.len() && b.subrange(0, a.len() as int) =~= a
}

/// What is stored at `p` after storing `d` at `k`, given what was stored
/// at `p` before: `k` now holds `d`; the paths above `k` and below it hold
/// nothing; every other path keeps its value.
pub open spec fn after_set(prev: Option<Data>, k: Seq<i64>, p: Seq<i64>, d: Data) -> Option<Data> {
    if p =~= k {
        Some(d)
    } else if is_prefix(p, k) || is_prefix(k, p) {
        None
    } else {
        prev
    }
}

/// What is stored at `p` after removing the key `k`: nothing at `k` and
/// below it, the rest unchanged.
pub open spec fn after_del(prev: Option<Data>, k: Seq<i64>, p: Seq<i64>) -> Option<Data> {
    if is_prefix(k, p) {
        None
    } else {
        prev
    }
}

/// What is stored at `p` after removing all keys that extend `pre`:
/// nothing under it, the rest (`pre` itself too) unchanged.
pub open spec fn after_group_del(prev: Option<Data>, pre: Seq<i64>, p: Seq<i64>) -> Option<Data> {
    if is_prefix(pre, p) && p.len() > pre.len() {
        None
    } else {
        prev
    }
}

/// Whether a path is that of a key ending with `:`: its last segment is the
/// hash of the empty text.
pub open spec fn is_group_key(keys: Seq<i64>) -> bool {
    keys.len() >= 2 && keys.last() == spec_fnv1a_64(Seq::empty())
}

/// What is stored at `p` after removing the key `keys` from `c`: a key
/// ending with `:` removes all keys that begin with it (those that extend
/// the path before its last segment); any other key removes itself and
/// everything below it.
pub open spec fn after_remove(c: CacheSys, keys: Seq<i64>, p: Seq<i64>) -> Option<Data> {
    if keys.len() == 0 {
        c.stored(p)
    } else if is_group_key(keys) {
        after_group_del(c.stored(p), keys.drop_last(), p)
    } else {
        after_del(c.stored(p), keys, p)
    }
}

proof fn lemma_prefix_step(a: Seq<i64>, b: Seq<i64>)
    requires
        a.len() > 0,
        b.len() > 0,
        a[0] == b[0],
    ensures
        is_prefix(a, b) <==> is_prefix(a.drop_first(), b.drop_first()),
        (a =~= b) <==> (a.drop_first() =~= b.drop_first()),
{
    if is_prefix(a.drop_first(), b.drop_first()) {
        assert forall|i: int| 0 <= i < a.len() implies b.subrange(0, a.len() as int)[i] == a[i] by {
            if i > 0 {
                assert(b.drop_first().subrange(0, a.len() - 1)[i - 1] == a.drop_first()[i - 1]);
            }
        }
    }
    if is_prefix(a, b) {
        assert forall|i: int| 0 <= i < a.len() - 1 implies b.drop_first().subrange(
            0,
            a.len() - 1,
        )[i] == a.drop_first()[i] by {
            assert(b.subrange(0, a.len() as int)[i + 1] == a[i + 1]);
        }
    }
    if a.drop_first() =~= b.drop_first() {
        assert forall|i: int| 0 <= i < a.len() implies a[i] == b[i] by {
            if i > 0 {
                assert(a.drop_first()[i - 1] == b.drop_first()[i - 1]);
            }
        }
    }
}

proof fn lemma_prefix_differ(a: Seq<i64>, b: Seq<i64>)
    requires
        a.len() > 0,
        b.len() > 0,
        a[0] != b[0],
    ensures
        !is_prefix(a, b),
        !is_prefix(b, a),
        !(a =~= b),
{
    if is_prefix(a, b) {
        assert(b.subrange(0, a.len() as int)[0] == a[0]);
    }
    if is_prefix(b, a) {
        assert(a.subrange(0, b.len() as int)[0] == b[0]);
    }
    if a =~= b {
        assert(a[0] == b[0]);
    }
}

/// A fresh node holding nothing.
fn empty_node() -> (res: CacheKey)
    ensures
        forall|p: Seq<i64>| lookup(res, p) is None,
{
    let res = CacheKey { value: None, more: BTreeMap::new() };
    assert forall|p: Seq<i64>| lookup(res, p) is None by {
    }
    res
}

/// How a path below a node changes.
pub enum Change {
    Store(Data),
    Del,
    Group,
}

/// What is stored at `p` after a change at `k`.
pub open spec fn changed(prev: Option<Data>, k: Seq<i64>, p: Seq<i64>, c: Change) -> Option<Data> {
    match c {
        Change::Store(d) => after_set(prev, k, p, d),
        Change::Del => after_del(prev, k, p),
        Change::Group => after_group_del(prev, k, p),
    }
}

/// Applies a change at `keys[i..]` below `node` and returns the new node.
fn change_node(node: CacheKey, keys: &[i64], i: usize, c: Change) -> (res: CacheKey)
    requires
        i <= keys@.len(),
    ensures
        forall|p: Seq<i64>|
            #![trigger lookup(res, p)]
            lookup(res, p) == changed(lookup(node, p), keys@.subrange(i as int, keys@.len() as int), p, c),
    decreases keys@.len() - i,
{
    let ghost k = keys@.subrange(i as int, keys@.len() as int);
    let ghost old_node = node;
    let ghost c0 = c;
    let CacheKey { value, more } = node;
    if i == keys.len() {
        let res = match c {
            Change::Store(d) => CacheKey { value: Some(d), more: BTreeMap::new() },
            Change::Del => CacheKey { value: None, more: BTreeMap::new() },
            Change::Group => CacheKey { value, more: BTreeMap::new() },
        };
        assert forall|p: Seq<i64>| #![trigger lookup(res, p)] lookup(res, p) == changed(lookup(old_node, p), k, p, c0) by {
            assert(k.len() == 0);
            if p.len() == 0 {
                assert(p =~= k);
            } else {
                assert(!(p =~= k));
                assert(is_prefix(k, p));
            }
        }
        return res;
    }
    let key = keys[i];
    let value = match c {
        Change::Store(_) => None,
        _ => value,
    };
    let mut m = more;
    let ghost m0 = m@;
    match m.remove(&key) {
        Some(child) => {
            let ghost child0 = child;
            let new_child = change_node(child, keys, i + 1, c);
            m.insert(key, new_child);
            let res = CacheKey { value, more: m };
            assert forall|p: Seq<i64>| #![trigger lookup(res, p)] lookup(res, p) == changed(lookup(old_node, p), k, p, c0) by {
                assert(k[0] == key);
                if p.len() == 0 {
                    assert(!(p =~= k));
                    assert(!is_prefix(k, p));
                } else if p[0] == key {
                    lemma_prefix_step(k, p);
                    lemma_prefix_step(p, k);
                    assert(k.drop_first() =~= keys@.subrange(i + 1, keys@.len() as int));
                    assert(lookup(res, p) == lookup(new_child, p.drop_first()));
                    assert(lookup(old_node, p) == lookup(child0, p.drop_first()));
                } else {
                    lemma_prefix_differ(p, k);
                    assert(m@[p[0]] == m0[p[0]]);
                }
            }
            res
        },
        None => {
            match c {
                Change::Store(d) => {
                    let child = empty_node();
                    let ghost child0 = child;
                    let new_child = change_node(child, keys, i + 1, Change::Store(d));
                    m.insert(key, new_child);
                    let res = CacheKey { value, more: m };
                    assert forall|p: Seq<i64>| #![trigger lookup(res, p)] lookup(res, p) == changed(lookup(old_node, p), k, p, c0) by {
                        assert(k[0] == key);
                        if p.len() == 0 {
                            assert(!(p =~= k));
                        } else if p[0] == key {
                            lemma_prefix_step(k, p);
                            lemma_prefix_step(p, k);
                            assert(k.drop_first() =~= keys@.subrange(i + 1, keys@.len() as int));
                            assert(lookup(res, p) == lookup(new_child, p.drop_first()));
                            assert(lookup(child0, p.drop_first()) is None);
                        } else {
                            lemma_prefix_differ(p, k);
                            assert(m@[p[0]] == m0[p[0]]);
                        }
                    }
                    res
                },
                _ => {
                    let res = CacheKey { value, more: m };
                    assert forall|p: Seq<i64>| #![trigger lookup(res, p)] lookup(res, p) == changed(lookup(old_node, p), k, p, c0) by {
                        assert(k[0] == key);
                        if p.len() == 0 {
                            assert(!(p =~= k));
                            assert(!is_prefix(k, p));
                        } else if p[0] == key {
                            assert(lookup(old_node, p) is None);
                        } else {
                            lemma_prefix_differ(p, k);
                        }
                    }
                    res
                },
            }
        },
    }
}

/// The data caching module.
///
/// A cache is a set of `key` = `value`. A key is a path of hashed
/// segments (a string key's `:`-separated parts); the grouping changes
/// nothing but removal: removing a key that ends with `:` removes all keys
/// that begin with it.
#[derive(Debug)]
pub struct CacheSys {
    data: CacheKey,
}

impl CacheSys {
    /// What is stored at `path`.
    pub closed spec fn stored(self, path: Seq<i64>) -> Option<Data> {
        if path.len() == 0 {
            None
        } else {
            lookup(self.data, path)
        }
    }

    /// Initializes the data caching module: an empty cache.
    pub fn new() -> (res: CacheSys)
        ensures
            forall|p: Seq<i64>| #[trigger] res.stored(p) is None,
    {
        CacheSys { data: empty_node() }
    }

    /// Returns the data stored at `keys`, if any.
    pub fn get(&self, keys: &[i64]) -> (res: Option<&Data>)
        ensures
            match res {
                Some(d) => self.stored(keys@) == Some(*d),
                None => self.stored(keys@) is None,
            },
    {
        if keys.len() == 0 {
            return None;
        }
        let mut last = &self.data;
        let mut i: usize = 0;
        assert(keys@.subrange(0, keys@.len() as int) =~= keys@);
        while i < keys.len()
            invariant
                i <= keys@.len(),
                keys@.len() > 0,
                lookup(self.data, keys@) == lookup(*last, keys@.subrange(i as int, keys@.len() as int)),
            decreases keys@.len() - i,
        {
            let ghost rest = keys@.subrange(i as int, keys@.len() as int);
            assert(rest.drop_first() =~= keys@.subrange(i + 1, keys@.len() as int));
            match last.more.get(&keys[i]) {
                Some(c) => {
                    last = c;
                },
                None => return None,
            }
            i = i + 1;
        }
        assert(keys@.subrange(i as int, keys@.len() as int).len() == 0);
        match &last.value {
            Some(d) => Some(d),
            None => None,
        }
    }

    fn apply(&mut self, keys: &[i64], c: Change)
        requires
            keys@.len() > 0,
        ensures
            forall|p: Seq<i64>| #[trigger] final(self).stored(p) == if p.len() == 0 {
                None
            } else {
                changed(old(self).stored(p), keys@, p, c)
            },
    {
        let mut node = empty_node();
        std::mem::swap(&mut node, &mut self.data);
        let ghost c0 = c;
        let res = change_node(node, keys, 0, c);
        assert(keys@.subrange(0, keys@.len() as int) =~= keys@);
        self.data = res;
    }

    /// Stores `data` at `keys`; every other key keeps its value. An empty
    /// path stores nothing.
    pub fn set(&mut self, keys: &[i64], data: Data)
        ensures
            forall|p: Seq<i64>|
                #[trigger] final(self).stored(p) == if keys@.len() == 0 {
                    old(self).stored(p)
                } else {
                    after_set(old(self).stored(p), keys@, p, data)
                },
    {
        if keys.len() == 0 {
            return;
        }
        self.apply(keys, Change::Store(data));
        assert forall|p: Seq<i64>| #[trigger] self.stored(p) == after_set(old(self).stored(p), keys@, p, data) by {
            if p.len() == 0 {
                assert(!(p =~= keys@));
            }
        }
    }

    /// Removes a key. A key that ends with `:` (its last segment is empty)
    /// removes all data that begins with it. An empty path removes nothing.
    pub fn del(&mut self, keys: &[i64])
        ensures
            forall|p: Seq<i64>| #[trigger] final(self).stored(p) == after_remove(*old(self), keys@, p),
    {
        if keys.len() == 0 {
            return;
        }
        let n = keys.len();
        if n >= 2 && keys[n - 1] == (crate::FNV_OFFSET as i64) {
            let prefix = &keys[0..n - 1];
            assert(prefix@ == keys@.drop_last());
            self.apply(prefix, Change::Group);
            assert forall|p: Seq<i64>| #[trigger] self.stored(p) == after_remove(*old(self), keys@, p) by {
                if p.len() == 0 {
                    assert(!(is_prefix(prefix@, p) && p.len() > prefix@.len()));
                }
            }
        } else {
            self.apply(keys, Change::Del);
            assert forall|p: Seq<i64>| #[trigger] self.stored(p) == after_remove(*old(self), keys@, p) by {
                if p.len() == 0 {
                    assert(!(p =~= keys@));
                }
            }
        }
    }

    /// Clears all the cache.
    pub fn clear(&mut self)
        ensures
            forall|p: Seq<i64>| #[trigger] final(self).stored(p) is None,
    {
        self.data = empty_node();
    }
}

} // verus!

verus! {

/// The `:`-separated segments of `s`, in order; `s` with `n` colons has
/// `n + 1` segments, some of which may be empty.
pub open spec fn colon_segments(s: Seq<u8>) -> Seq<Seq<u8>>
    decreases s.len(),
{
    if s.len() == 0 {
        seq![Seq::<u8>::empty()]
    } else {
        let r = colon_segments(s.drop_last());
        if s.last() == 58u8 {
            r.push(Seq::<u8>::empty())
        } else {
            r.update(r.len() - 1, r.last().push(s.last()))
        }
    }
}

proof fn lemma_colon_segments_nonempty(s: Seq<u8>)
    ensures
        colon_segments(s).len() >= 1,
    decreases s.len(),
{
    if s.len() > 0 {
        lemma_colon_segments_nonempty(s.drop_last());
    }
}

/// The cache path of a string key: the FNV-1a hash of each `:`-separated segment.
pub open spec fn key_path(key: Seq<u8>) -> Seq<i64> {
    colon_segments(key).map_values(|seg: Seq<u8>| spec_fnv1a_64(seg))
}

impl CacheSys {
    /// Converts a key to its cache path: the key is split at every `:` and
    /// each segment is hashed with `fnv1a_64`.
    pub fn get_hash(key: &str) -> (res: Vec<i64>)
        ensures
            res@ == key_path(key.spec_bytes()),
    {
        let keys = key.as_bytes();
        let n = keys.len();
        let mut vec: Vec<i64> = Vec::new();
        let mut start: usize = 0;
        let mut index: usize = 0;
        let ghost mut done: Seq<Seq<u8>> = Seq::empty();
        assert(keys@.subrange(0, 0) =~= Seq::<u8>::empty());
        while index < n
            invariant
                n == keys@.len(),
                start <= index <= n,
                colon_segments(keys@.subrange(0, index as int)) =~= done.push(
                    keys@.subrange(start as int, index as int),
                ),
                vec@ =~= done.map_values(|seg: Seq<u8>| spec_fnv1a_64(seg)),
            decreases n - index,
        {
            let ghost prefix = keys@.subrange(0, index + 1);
            assert(prefix.drop_last() =~= keys@.subrange(0, index as int));
            if keys[index] == 58u8 {
                let h = fnv1a_64(&keys[start..index]);
                vec.push(h);
                proof {
                    done = done.push(keys@.subrange(start as int, index as int));
                    assert(keys@.subrange(index + 1, index + 1) =~= Seq::<u8>::empty());
                }
                start = index + 1;
            } else {
                assert(keys@.subrange(start as int, index + 1) =~= keys@.subrange(
                    start as int,
                    index as int,
                ).push(keys@[index as int]));
            }
            index = index + 1;
        }
        let h = fnv1a_64(&keys[start..n]);
        vec.push(h);
        proof {
            assert(keys@.subrange(0, n as int) =~= keys@);
            done = done.push(keys@.subrange(start as int, n as int));
        }
        vec
    }
}

/// Reading a path just written gives back the value written there.
pub proof fn law_get_after_set(before: CacheSys, after: CacheSys, keys: Seq<i64>, d: Data)
    requires
        keys.len() > 0,
        forall|p: Seq<i64>| #[trigger] after.stored(p) == after_set(before.stored(p), keys, p, d),
    ensures
        after.stored(keys) == Some(d),
{
    assert(after.stored(keys) == after_set(before.stored(keys), keys, keys, d));
}

/// Storing at a key leaves every path that is neither above nor below it
/// as it was; the paths above it and below it hold nothing.
pub proof fn law_set_keeps_unrelated(
    before: CacheSys,
    after: CacheSys,
    keys: Seq<i64>,
    d: Data,
    p: Seq<i64>,
)
    requires
        !(p =~= keys),
        forall|q: Seq<i64>| #[trigger] after.stored(q) == after_set(before.stored(q), keys, q, d),
    ensures
        !is_prefix(p, keys) && !is_prefix(keys, p) ==> after.stored(p) == before.stored(p),
        is_prefix(p, keys) || is_prefix(keys, p) ==> after.stored(p) is None,
{
    assert(after.stored(p) == after_set(before.stored(p), keys, p, d));
}

/// Removing a key that does not end with `:` removes that key and every
/// key below it, and only those.
pub proof fn law_del_removes_key(before: CacheSys, after: CacheSys, keys: Seq<i64>, p: Seq<i64>)
    requires
        keys.len() > 0,
        !is_group_key(keys),
        forall|q: Seq<i64>| #[trigger] after.stored(q) == after_remove(before, keys, q),
    ensures
        is_prefix(keys, p) ==> after.stored(p) is None,
        !is_prefix(keys, p) ==> after.stored(p) == before.stored(p),
{
    assert(after.stored(p) == after_remove(before, keys, p));
}

/// Removing a key that ends with `:` removes every key that begins with it,
/// and only those.
pub proof fn law_del_colon_key(before: CacheSys, after: CacheSys, keys: Seq<i64>, p: Seq<i64>)
    requires
        is_group_key(keys),
        forall|q: Seq<i64>| #[trigger] after.stored(q) == after_remove(before, keys, q),
    ensures
        is_prefix(keys.drop_last(), p) && p.len() >= keys.len() ==> after.stored(p) is None,
        !(is_prefix(keys.drop_last(), p) && p.len() >= keys.len()) ==> after.stored(p) == before.stored(p),
{
    assert(after.stored(p) == after_remove(before, keys, p));
}

/// In terms of string keys: after removing `k:`, no key `k:rest` holds anything.
pub proof fn law_del_colon_string_key(before: CacheSys, after: CacheSys, k: Seq<u8>, rest: Seq<u8>)
    requires
        forall|q: Seq<i64>| #[trigger] after.stored(q) == after_remove(
            before,
            key_path(k + seq![58u8]),
            q,
        ),
    ensures
        after.stored(key_path(k + seq![58u8] + rest)) is None,
{
    law_key_path_concat(k, Seq::empty());
    law_key_path_concat(k, rest);
    assert(k + seq![58u8] + Seq::<u8>::empty() =~= k + seq![58u8]);
    law_plain_key_is_one_segment(Seq::<u8>::empty());
    lemma_key_path_nonempty(rest);
    let keys = key_path(k + seq![58u8]);
    let p = key_path(k + seq![58u8] + rest);
    lemma_key_path_nonempty(k);
    assert(keys =~= key_path(k) + seq![spec_fnv1a_64(Seq::empty())]);
    assert(keys.drop_last() =~= key_path(k));
    assert(p.subrange(0, key_path(k).len() as int) =~= key_path(k));
    law_del_colon_key(before, after, keys, p);
}

proof fn lemma_key_path_nonempty(k: Seq<u8>)
    ensures
        key_path(k).len() >= 1,
{
    lemma_colon_segments_nonempty(k);
}

/// A string key without `:` is a path of one segment: its hash.
pub proof fn law_plain_key_is_one_segment(key: Seq<u8>)
    requires
        forall|i: int| 0 <= i < key.len() ==> key[i] != 58u8,
    ensures
        key_path(key) =~= seq![spec_fnv1a_64(key)],
    decreases key.len(),
{
    lemma_plain_segments(key);
}

proof fn lemma_plain_segments(key: Seq<u8>)
    requires
        forall|i: int| 0 <= i < key.len() ==> key[i] != 58u8,
    ensures
        colon_segments(key) =~= seq![key],
    decreases key.len(),
{
    if key.len() > 0 {
        lemma_plain_segments(key.drop_last());
        assert(key[key.len() - 1] != 58u8);
        assert(key.drop_last().push(key.last()) =~= key);
    } else {
        assert(key =~= Seq::<u8>::empty());
    }
}

/// A key `a:b` is the path of `a` followed by the path of `b`.
pub proof fn law_key_path_concat(a: Seq<u8>, b: Seq<u8>)
    ensures
        key_path(a + seq![58u8] + b) =~= key_path(a) + key_path(b),
    decreases b.len(),
{
    lemma_segments_concat(a, b);
    let f = |seg: Seq<u8>| spec_fnv1a_64(seg);
    assert(colon_segments(a + seq![58u8] + b).map_values(f) =~= colon_segments(a).map_values(f)
        + colon_segments(b).map_values(f));
}

proof fn lemma_segments_concat(a: Seq<u8>, b: Seq<u8>)
    ensures
        colon_segments(a + seq![58u8] + b) =~= colon_segments(a) + colon_segments(b),
    decreases b.len(),
{
    lemma_colon_segments_nonempty(a);
    if b.len() == 0 {
        assert((a + seq![58u8] + b).drop_last() =~= a);
    } else {
        let s = a + seq![58u8] + b;
        assert(s.drop_last() =~= a + seq![58u8] + b.drop_last());
        lemma_segments_concat(a, b.drop_last());
        lemma_colon_segments_nonempty(b.drop_last());
    }
}

/// A cache key given as a string or as a path of segment hashes.
pub trait StrOrArrI64 {
    /// The cache path of the key.
    fn to_arr(self) -> Vec<i64>;
}

impl<'a> StrOrArrI64 for &'a str {
    fn to_arr(self) -> (res: Vec<i64>)
        ensures
            res@ == key_path(self.spec_bytes()),
    {
        CacheSys::get_hash(self)
    }
}

impl StrOrArrI64 for Vec<i64> {
    fn to_arr(self) -> (res: Vec<i64>)
        ensures
            res@ == self@,
    {
        self
    }
}

} // verus!
