//! A two-level cache with expiring entries. Times are milliseconds of the
//! caller's monotonic clock.
use vstd::prelude::*;
use crate::text::{copy_text, text_eq};

verus! {

/// A cached value and the time at which it expires.
pub struct CacheEntry<T> {
    /// The value.
    pub data: T,
    /// Expiry time, in milliseconds.
    pub expires_at: u64,
}

impl<T: Clone> Clone for CacheEntry<T> {
    fn clone(&self) -> (c: Self)
        ensures
            cloned(self.data, c.data),
            c.expires_at == self.expires_at,
    {
        CacheEntry { data: self.data.clone(), expires_at: self.expires_at }
    }
}

/// The entries of a level, by key.
pub open spec fn level_view<T>(v: Seq<(String, CacheEntry<T>)>) -> Seq<(Seq<char>, CacheEntry<T>)> {
    v.map_values(|e: (String, CacheEntry<T>)| (e.0@, e.1))
}

/// Some entry has the key `k`.
pub open spec fn has_entry<T>(m: Seq<(Seq<char>, CacheEntry<T>)>, k: Seq<char>) -> bool {
    exists|i: int| 0 <= i < m.len() && (#[trigger] m[i]).0 == k
}

/// The entry stored under `k`.
pub open spec fn entry_of<T>(m: Seq<(Seq<char>, CacheEntry<T>)>, k: Seq<char>) -> Option<CacheEntry<T>> {
    if has_entry(m, k) {
        Some(m[choose|i: int| 0 <= i < m.len() && (#[trigger] m[i]).0 == k].1)
    } else {
        None
    }
}

/// Keys are unique.
pub open spec fn entry_keys_unique<T>(m: Seq<(Seq<char>, CacheEntry<T>)>) -> bool {
    forall|i: int, j: int|
        0 <= i < m.len() && 0 <= j < m.len() && i != j ==> (#[trigger] m[i]).0 != (#[trigger] m[j]).0
}

/// An entry under `k` that has not expired at `now`.
pub open spec fn fresh_entry<T>(m: Seq<(Seq<char>, CacheEntry<T>)>, k: Seq<char>, now: u64) -> Option<CacheEntry<T>> {
    match entry_of(m, k) {
        Some(e) => if e.expires_at > now { Some(e) } else { None },
        None => None,
    }
}

proof fn lemma_update_entry<T>(m: Seq<(Seq<char>, CacheEntry<T>)>, i: int, e: (Seq<char>, CacheEntry<T>))
    requires
        entry_keys_unique(m),
        0 <= i < m.len(),
        m[i].0 == e.0,
    ensures
        entry_keys_unique(m.update(i, e)),
        entry_of(m.update(i, e), e.0) == Some(e.1),
        forall|k: Seq<char>| k != e.0 ==> #[trigger] entry_of(m.update(i, e), k) == entry_of(m, k),
{
    let n = m.update(i, e);
    assert forall|a: int, b: int| 0 <= a < n.len() && 0 <= b < n.len() && a != b implies (#[trigger] n[a]).0 != (#[trigger] n[b]).0 by {
        assert(n[a].0 == m[a].0);
        assert(n[b].0 == m[b].0);
    }
    let k0 = choose|k: int| 0 <= k < n.len() && (#[trigger] n[k]).0 == e.0;
    assert(n[i].0 == e.0);
    if k0 != i {
        assert(n[k0].0 != n[i].0);
    }
    assert forall|k: Seq<char>| k != e.0 implies #[trigger] entry_of(n, k) == entry_of(m, k) by {
        if has_entry(m, k) {
            let j = choose|j: int| 0 <= j < m.len() && (#[trigger] m[j]).0 == k;
            assert(n[j].0 == k);
            let j2 = choose|j2: int| 0 <= j2 < n.len() && (#[trigger] n[j2]).0 == k;
            if j2 != j {
                assert(n[j2].0 != n[j].0);
            }
        } else {
            assert forall|j: int| 0 <= j < n.len() implies (#[trigger] n[j]).0 != k by {
                assert(n[j].0 == m[j].0);
            }
        }
    }
}

proof fn lemma_push_entry<T>(m: Seq<(Seq<char>, CacheEntry<T>)>, e: (Seq<char>, CacheEntry<T>))
    requires
        entry_keys_unique(m),
        !has_entry(m, e.0),
    ensures
        entry_keys_unique(m.push(e)),
        entry_of(m.push(e), e.0) == Some(e.1),
        forall|k: Seq<char>| k != e.0 ==> #[trigger] entry_of(m.push(e), k) == entry_of(m, k),
{
    let n = m.push(e);
    assert forall|a: int, b: int| 0 <= a < n.len() && 0 <= b < n.len() && a != b implies (#[trigger] n[a]).0 != (#[trigger] n[b]).0 by {
        if a < m.len() {
            assert(n[a] == m[a]);
        }
        if b < m.len() {
            assert(n[b] == m[b]);
        }
    }
    assert(n[m.len() as int].0 == e.0);
    let k0 = choose|k: int| 0 <= k < n.len() && (#[trigger] n[k]).0 == e.0;
    if k0 != m.len() {
        assert(n[k0] == m[k0]);
    }
    assert forall|k: Seq<char>| k != e.0 implies #[trigger] entry_of(n, k) == entry_of(m, k) by {
        if has_entry(m, k) {
            let j = choose|j: int| 0 <= j < m.len() && (#[trigger] m[j]).0 == k;
            assert(n[j] == m[j]);
            let j2 = choose|j2: int| 0 <= j2 < n.len() && (#[trigger] n[j2]).0 == k;
            if j2 != j {
                assert(n[j2].0 != n[j].0);
            }
        } else {
            assert forall|j: int| 0 <= j < n.len() implies (#[trigger] n[j]).0 != k by {
                if j < m.len() {
                    assert(n[j] == m[j]);
                }
            }
        }
    }
}

fn find_entry<T>(v: &Vec<(String, CacheEntry<T>)>, key: &str) -> (r: Option<usize>)
    requires
        entry_keys_unique(level_view(v@)),
    ensures
        match r {
            Some(i) => i < v@.len() && v@[i as int].0@ == key@ && entry_of(level_view(v@), key@) == Some(
                v@[i as int].1,
            ),
            None => entry_of(level_view(v@), key@) is None,
        },
{
    let ghost m = level_view(v@);
    let mut i: usize = 0;
    while i < v.len()
        invariant
            m == level_view(v@),
            entry_keys_unique(m),
            i <= v@.len(),
            forall|j: int| 0 <= j < i ==> (#[trigger] m[j]).0 != key@,
        decreases v.len() - i,
    {
        if text_eq(v[i].0.as_str(), key) {
            proof {
                assert(m[i as int].0 == key@);
                let k0 = choose|k: int| 0 <= k < m.len() && (#[trigger] m[k]).0 == key@;
                if k0 != i {
                    assert(m[k0].0 != m[i as int].0);
                }
            }
            return Some(i);
        }
        i = i + 1;
    }
    None
}

fn put_entry<T>(v: &mut Vec<(String, CacheEntry<T>)>, key: String, e: CacheEntry<T>)
    requires
        entry_keys_unique(level_view(old(v)@)),
    ensures
        entry_keys_unique(level_view(final(v)@)),
        entry_of(level_view(final(v)@), key@) == Some(e),
        forall|k: Seq<char>| k != key@ ==> #[trigger] entry_of(level_view(final(v)@), k) == entry_of(
            level_view(old(v)@),
            k,
        ),
{
    let ghost m = level_view(v@);
    let ghost ke = key@;
    match find_entry(v, key.as_str()) {
        Some(i) => {
            v.set(i, (key, e));
            proof {
                assert(level_view(v@) =~= m.update(i as int, (ke, e)));
                lemma_update_entry(m, i as int, (ke, e));
            }
        },
        None => {
            v.push((key, e));
            proof {
                assert(level_view(v@) =~= m.push((ke, e)));
                lemma_push_entry(m, (ke, e));
            }
        },
    }
}

/// A cache of two levels, a near one and a far one; a value is written to
/// both and read from the near one first.
pub struct MultiLevelCache<T> {
    l1_cache: Vec<(String, CacheEntry<T>)>,
    l2_cache: Vec<(String, CacheEntry<T>)>,
}

impl<T: Clone> MultiLevelCache<T> {
    /// The near level.
    pub closed spec fn l1(&self) -> Seq<(Seq<char>, CacheEntry<T>)> {
        level_view(self.l1_cache@)
    }

    /// The far level.
    pub closed spec fn l2(&self) -> Seq<(Seq<char>, CacheEntry<T>)> {
        level_view(self.l2_cache@)
    }

    /// Well-formedness: each level holds one entry per key.
    pub closed spec fn wf(&self) -> bool {
        entry_keys_unique(self.l1()) && entry_keys_unique(self.l2())
    }

    /// An empty cache.
    pub fn new() -> (c: Self)
        ensures
            c.wf(),
            forall|k: Seq<char>| #[trigger] entry_of(c.l1(), k) is None && entry_of(c.l2(), k) is None,
    {
        let c = MultiLevelCache { l1_cache: Vec::new(), l2_cache: Vec::new() };
        assert(c.l1() =~= Seq::<(Seq<char>, CacheEntry<T>)>::empty());
        assert(c.l2() =~= Seq::<(Seq<char>, CacheEntry<T>)>::empty());
        c
    }

    /// The value under `key` at `now`: from the near level if it holds an
    /// entry that has not expired; else from the far level if it does, in
    /// which case a copy of that entry is also written to the near level;
    /// else `None`.
    pub fn get(&mut self, key: &str, now: u64) -> (r: Option<T>)
        requires
            old(self).wf(),
        ensures
            final(self).wf(),
            final(self).l2() == old(self).l2(),
            match fresh_entry(old(self).l1(), key@, now) {
                Some(e) => final(self).l1() == old(self).l1() && (r matches Some(v) && cloned(e.data, v)),
                None => match fresh_entry(old(self).l2(), key@, now) {
                    Some(e) => {
                        &&& r matches Some(v) && cloned(e.data, v)
                        &&& entry_of(final(self).l1(), key@) matches Some(n) && n.expires_at == e.expires_at
                            && cloned(e.data, n.data)
                        &&& forall|k: Seq<char>| k != key@ ==> #[trigger] entry_of(final(self).l1(), k)
                            == entry_of(old(self).l1(), k)
                    },
                    None => final(self).l1() == old(self).l1() && r is None,
                },
            },
    {
        match find_entry(&self.l1_cache, key) {
            Some(i) => {
                if self.l1_cache[i].1.expires_at > now {
                    return Some(self.l1_cache[i].1.data.clone());
                }
            },
            None => {},
        }
        match find_entry(&self.l2_cache, key) {
            Some(j) => {
                if self.l2_cache[j].1.expires_at > now {
                    let promoted = self.l2_cache[j].1.clone();
                    let value = self.l2_cache[j].1.data.clone();
                    put_entry(&mut self.l1_cache, copy_text(key), promoted);
                    return Some(value);
                }
            },
            None => {},
        }
        None
    }

    /// Stores `value` under `key` in both levels until `now + ttl`: the far
    /// level keeps the value itself, the near level a copy.
    pub fn set(&mut self, key: String, value: T, ttl: u64, now: u64)
        requires
            old(self).wf(),
            now + ttl <= u64::MAX,
        ensures
            final(self).wf(),
            entry_of(final(self).l2(), key@) == Some(CacheEntry { data: value, expires_at: (now + ttl) as u64 }),
            (entry_of(final(self).l1(), key@) matches Some(n) && n.expires_at == now + ttl && cloned(value, n.data)),
            forall|k: Seq<char>| k != key@ ==> #[trigger] entry_of(final(self).l1(), k) == entry_of(old(self).l1(), k),
            forall|k: Seq<char>| k != key@ ==> #[trigger] entry_of(final(self).l2(), k) == entry_of(old(self).l2(), k),
    {
        let entry = CacheEntry { data: value, expires_at: now + ttl };
        let near = entry.clone();
        put_entry(&mut self.l1_cache, copy_text(key.as_str()), near);
        put_entry(&mut self.l2_cache, key, entry);
    }
}

/// After `set(key, value, ttl, now)` leaves `n1` in the near level and `n2`
/// in the far level, both expiring at `now + ttl`: a read of `key` at `t` is
/// served from the near level while `t < now + ttl`, and from then on
/// neither level has a live entry for it.
pub proof fn law_set_then_get<T>(
    l1: Seq<(Seq<char>, CacheEntry<T>)>,
    l2: Seq<(Seq<char>, CacheEntry<T>)>,
    key: Seq<char>,
    n1: CacheEntry<T>,
    n2: CacheEntry<T>,
    now: u64,
    ttl: u64,
    t: u64,
)
    requires
        entry_of(l1, key) == Some(n1),
        entry_of(l2, key) == Some(n2),
        n1.expires_at == now + ttl,
        n2.expires_at == now + ttl,
    ensures
        t < now + ttl ==> fresh_entry(l1, key, t) == Some(n1),
        t >= now + ttl ==> fresh_entry(l1, key, t) is None && fresh_entry(l2, key, t) is None,
{
}

} // verus!
