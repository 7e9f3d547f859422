//! The keyed TTL cache behind the read-side queries. Each entry memoizes
//! one query result; a read either hits the stored value, wins the right to
//! recompute, or coalesces onto a recomputation already in flight, so the
//! underlying store is never queried twice for the same key at once.

use vstd::prelude::*;

verus! {

/// How an entry is refreshed: lazily, by the first reader that finds it
/// expired, or proactively, on a schedule independent of readers.
#[derive(Clone, Copy, Debug, PartialEq, Eq, Structural)]
pub enum RefreshMode {
    Lazy,
    Proactive,
}

/// What a reader must do after asking the cache for a key.
#[derive(Clone, Copy, Debug, PartialEq, Eq, Structural)]
pub enum Decision {
    /// The stored value stands: read it, compute nothing.
    Hit,
    /// This caller won the computation: compute, then `complete` (or `fail`).
    Compute,
    /// Another caller is already computing: wait for its result.
    Wait,
}

/// One memoized query result. `value` is empty only while the very first
/// computation for the key is in flight.
pub struct CacheEntry<V> {
    pub key: String,
    pub value: Option<V>,
    pub computed_at: i64,
    pub ttl: i64,
    pub refresh_mode: RefreshMode,
    pub in_flight: bool,
}

/// The cache: one entry per key. Entries are created on first query and
/// replaced in place on refresh, never explicitly deleted (an entry leaves
/// only when its first computation fails).
pub struct TtlCache<V> {
    pub entries: Vec<CacheEntry<V>>,
}

impl<V> TtlCache<V> {
    /// Keys are unique; an entry without a value is one whose first
    /// computation is in flight; timestamps never lie below zero.
    pub open spec fn wf(self) -> bool {
        &&& forall|i: int, j: int|
            0 <= i < j < self.entries@.len() ==> self.entries@[i].key@ != self.entries@[j].key@
        &&& forall|i: int|
            0 <= i < self.entries@.len() ==> (self.entries@[i].value is None
                ==> self.entries@[i].in_flight)
        &&& forall|i: int| 0 <= i < self.entries@.len() ==> 0 <= self.entries@[i].computed_at
    }

    /// Whether some entry carries the key.
    pub open spec fn has_key(self, k: Seq<char>) -> bool {
        exists|i: int| 0 <= i < self.entries@.len() && self.entries@[i].key@ == k
    }

    /// The position of the key's entry (unique under `wf`).
    pub open spec fn key_index(self, k: Seq<char>) -> int {
        choose|i: int| 0 <= i < self.entries@.len() && self.entries@[i].key@ == k
    }

    /// The key's entry.
    pub open spec fn entry(self, k: Seq<char>) -> CacheEntry<V> {
        self.entries@[self.key_index(k)]
    }

    /// A populated entry still within its TTL.
    pub open spec fn entry_fresh(self, k: Seq<char>, now: i64) -> bool {
        &&& self.has_key(k)
        &&& self.entry(k).value is Some
        &&& now - self.entry(k).computed_at < self.entry(k).ttl
    }

    /// What a read of `k` at `now` decides. A missing entry is computed; an
    /// entry awaiting its first value is waited on; a populated entry is a
    /// hit under proactive refresh or within its TTL, and past its TTL the
    /// reader waits if a recomputation is in flight, else computes.
    pub open spec fn spec_decision(self, k: Seq<char>, mode: RefreshMode, now: i64) -> Decision {
        if !self.has_key(k) {
            Decision::Compute
        } else if self.entry(k).value is None {
            Decision::Wait
        } else if mode == RefreshMode::Proactive {
            Decision::Hit
        } else if now - self.entry(k).computed_at < self.entry(k).ttl {
            Decision::Hit
        } else if self.entry(k).in_flight {
            Decision::Wait
        } else {
            Decision::Compute
        }
    }

    /// How one `begin` step relates the cache before and after: the
    /// decision is `spec_decision`; a hit or a wait changes nothing; a
    /// compute marks the key in flight — keeping a stale value readable,
    /// or installing an empty entry on a cold start — and touches no other
    /// key.
    pub open spec fn begin_post(
        pre: Self,
        post: Self,
        k: Seq<char>,
        ttl: i64,
        mode: RefreshMode,
        now: i64,
        d: Decision,
    ) -> bool {
        &&& d == pre.spec_decision(k, mode, now)
        &&& (d == Decision::Hit || d == Decision::Wait ==> post == pre)
        &&& (d == Decision::Compute ==> {
            &&& post.has_key(k)
            &&& (forall|k2: Seq<char>| k2 != k ==> (post.has_key(k2) <==> pre.has_key(k2)))
            &&& (forall|k2: Seq<char>|
                k2 != k && pre.has_key(k2) ==> post.entry(k2) == pre.entry(k2))
            &&& post.entry(k).key@ == k
            &&& post.entry(k).in_flight
            &&& (pre.has_key(k) ==> {
                &&& post.entry(k).value == pre.entry(k).value
                &&& post.entry(k).computed_at == pre.entry(k).computed_at
                &&& post.entry(k).ttl == pre.entry(k).ttl
                &&& post.entry(k).refresh_mode == pre.entry(k).refresh_mode
            })
            &&& (!pre.has_key(k) ==> {
                &&& post.entry(k).value is None
                &&& post.entry(k).ttl == ttl
                &&& post.entry(k).refresh_mode == mode
            })
        })
    }

    /// An empty cache.
    pub fn new() -> (r: Self)
        ensures
            r.wf(),
            forall|k: Seq<char>| !r.has_key(k),
    {
        TtlCache { entries: Vec::new() }
    }

    /// The entry at a position is the one its own key finds.
    proof fn lemma_at_index(self, i: int)
        requires
            self.wf(),
            0 <= i < self.entries@.len(),
        ensures
            self.has_key(self.entries@[i].key@),
            self.key_index(self.entries@[i].key@) == i,
    {
        let k = self.entries@[i].key@;
        assert(self.has_key(k));
        let j = self.key_index(k);
        assert(0 <= j < self.entries@.len() && self.entries@[j].key@ == k);
        if j < i {
            assert(self.entries@[j].key@ != self.entries@[i].key@);
        } else if i < j {
            assert(self.entries@[i].key@ != self.entries@[j].key@);
        }
    }

    /// A change to the entry at one position that moves no entry and
    /// renames no key leaves the lookup of every other key as it was.
    proof fn lemma_untouched_keys(pre: Self, post: Self, i: int)
        requires
            pre.wf(),
            post.wf(),
            0 <= i < pre.entries@.len(),
            post.entries@.len() == pre.entries@.len(),
            forall|j: int|
                0 <= j < pre.entries@.len() ==> #[trigger] post.entries@[j].key@
                    == pre.entries@[j].key@,
            forall|j: int|
                0 <= j < pre.entries@.len() && j != i ==> #[trigger] post.entries@[j]
                    == pre.entries@[j],
        ensures
            forall|k2: Seq<char>|
                k2 != pre.entries@[i].key@ ==> (#[trigger] post.has_key(k2) <==> pre.has_key(k2)),
            forall|k2: Seq<char>|
                k2 != pre.entries@[i].key@ && pre.has_key(k2) ==> #[trigger] post.entry(k2)
                    == pre.entry(k2),
    {
        let k = pre.entries@[i].key@;
        assert forall|k2: Seq<char>| k2 != k implies (post.has_key(k2) <==> pre.has_key(k2)) && (
        pre.has_key(k2) ==> post.entry(k2) == pre.entry(k2)) by {
            if pre.has_key(k2) {
                let j = pre.key_index(k2);
                assert(post.entries@[j].key@ == k2);
                post.lemma_at_index(j);
                pre.lemma_at_index(j);
            }
            if post.has_key(k2) {
                let j = post.key_index(k2);
                assert(pre.entries@[j].key@ == k2);
                pre.lemma_at_index(j);
            }
        }
    }

    /// Linear search for the key's entry.
    fn find(&self, key: &String) -> (r: Option<usize>)
        requires
            self.wf(),
        ensures
            r is Some <==> self.has_key(key@),
            r matches Some(i) ==> i < self.entries@.len() && self.entries@[i as int].key@ == key@
                && self.key_index(key@) == i,
    {
        let mut i: usize = 0;
        while i < self.entries.len()
            invariant
                self.wf(),
                i <= self.entries@.len(),
                forall|j: int| 0 <= j < i ==> self.entries@[j].key@ != key@,
            decreases self.entries@.len() - i,
        {
            if self.entries[i].key == *key {
                proof {
                    self.lemma_at_index(i as int);
                }
                return Some(i);
            }
            i += 1;
        }
        None
    }

    /// One read of `key` at time `now`: decides among hit, compute and
    /// wait, and on a compute marks the key as in flight so that every
    /// concurrent reader of the same key coalesces onto this computation.
    pub fn begin(&mut self, key: &String, ttl: i64, mode: RefreshMode, now: i64) -> (d: Decision)
        requires
            old(self).wf(),
            0 <= now,
        ensures
            final(self).wf(),
            Self::begin_post(*old(self), *final(self), key@, ttl, mode, now, d),
    {
        match self.find(key) {
            Some(i) => {
                if self.entries[i].value.is_none() {
                    return Decision::Wait;
                }
                if matches!(mode, RefreshMode::Proactive) {
                    return Decision::Hit;
                }
                if now - self.entries[i].computed_at < self.entries[i].ttl {
                    return Decision::Hit;
                }
                if self.entries[i].in_flight {
                    return Decision::Wait;
                }
                self.entries[i].in_flight = true;
                proof {
                    let pre = *old(self);
                    let post = *self;
                    assert(post.entries@[i as int].key@ == key@);
                    post.lemma_at_index(i as int);
                    Self::lemma_untouched_keys(pre, post, i as int);
                }
                Decision::Compute
            },
            None => {
                let entry = CacheEntry {
                    key: key.clone(),
                    value: None,
                    computed_at: 0,
                    ttl,
                    refresh_mode: mode,
                    in_flight: true,
                };
                self.entries.push(entry);
                proof {
                    let pre = *old(self);
                    let post = *self;
                    let n = pre.entries@.len() as int;
                    assert(post.entries@[n].key@ == key@);
                    post.lemma_at_index(n);
                    assert forall|k2: Seq<char>| k2 != key@ implies (post.has_key(k2)
                        <==> pre.has_key(k2)) && (pre.has_key(k2) ==> post.entry(k2) == pre.entry(
                        k2,
                    )) by {
                        if pre.has_key(k2) {
                            let j = pre.key_index(k2);
                            assert(post.entries@[j].key@ == k2);
                            post.lemma_at_index(j);
                        }
                        if post.has_key(k2) {
                            let j = post.key_index(k2);
                            assert(0 <= j < post.entries@.len());
                            assert(j != n);
                            assert(pre.entries@[j].key@ == k2);
                            pre.lemma_at_index(j);
                        }
                    }
                }
                Decision::Compute
            },
        }
    }

    /// Stores the result of a computation begun for `key`: the entry is
    /// populated with the value, stamped `now`, and no longer in flight;
    /// no other key is touched.
    pub fn complete(&mut self, key: &String, value: V, now: i64)
        requires
            old(self).wf(),
            old(self).has_key(key@),
            old(self).entry(key@).in_flight,
            0 <= now,
        ensures
            final(self).wf(),
            final(self).has_key(key@),
            final(self).entry(key@).key@ == key@,
            final(self).entry(key@).value == Some(value),
            final(self).entry(key@).computed_at == now,
            final(self).entry(key@).in_flight == false,
            final(self).entry(key@).ttl == old(self).entry(key@).ttl,
            final(self).entry(key@).refresh_mode == old(self).entry(key@).refresh_mode,
            forall|k2: Seq<char>| k2 != key@ ==> (final(self).has_key(k2) <==> old(self).has_key(k2)),
            forall|k2: Seq<char>|
                k2 != key@ && old(self).has_key(k2) ==> final(self).entry(k2) == old(self).entry(k2),
    {
        if let Some(i) = self.find(key) {
            self.entries[i].value = Some(value);
            self.entries[i].computed_at = now;
            self.entries[i].in_flight = false;
            proof {
                let pre = *old(self);
                let post = *self;
                assert(post.entries@[i as int].key@ == key@);
                post.lemma_at_index(i as int);
                Self::lemma_untouched_keys(pre, post, i as int);
            }
        } else {
            proof {
                assert(false);
            }
        }
    }

    /// Abandons a computation begun for `key`, after the underlying query
    /// failed: a stale value, if one is stored, stays readable and merely
    /// stops being in flight; an entry still awaiting its first value
    /// leaves the cache, so a later reader may try again. Errors are never
    /// cached, and no other key is touched.
    pub fn fail(&mut self, key: &String)
        requires
            old(self).wf(),
            old(self).has_key(key@),
            old(self).entry(key@).in_flight,
        ensures
            final(self).wf(),
            forall|k2: Seq<char>| k2 != key@ ==> (final(self).has_key(k2) <==> old(self).has_key(k2)),
            forall|k2: Seq<char>|
                k2 != key@ && old(self).has_key(k2) ==> final(self).entry(k2) == old(self).entry(k2),
            old(self).entry(key@).value is Some ==> {
                &&& final(self).has_key(key@)
                &&& final(self).entry(key@).key@ == key@
                &&& final(self).entry(key@).value == old(self).entry(key@).value
                &&& final(self).entry(key@).computed_at == old(self).entry(key@).computed_at
                &&& final(self).entry(key@).ttl == old(self).entry(key@).ttl
                &&& final(self).entry(key@).refresh_mode == old(self).entry(key@).refresh_mode
                &&& final(self).entry(key@).in_flight == false
            },
            old(self).entry(key@).value is None ==> !final(self).has_key(key@),
    {
        if let Some(i) = self.find(key) {
            if self.entries[i].value.is_some() {
                self.entries[i].in_flight = false;
                proof {
                    let pre = *old(self);
                    let post = *self;
                    assert(post.entries@[i as int].key@ == key@);
                    post.lemma_at_index(i as int);
                    Self::lemma_untouched_keys(pre, post, i as int);
                }
            } else {
                self.entries.swap_remove(i);
                proof {
                    let pre = *old(self);
                    let post = *self;
                    let n = pre.entries@.len() as int;
                    assert forall|j: int| 0 <= j < post.entries@.len() implies post.entries@[j] == (
                    if j == i {
                        pre.entries@[n - 1]
                    } else {
                        pre.entries@[j]
                    }) by {}
                    assert(post.wf()) by {
                        assert forall|a: int, b: int|
                            0 <= a < b < post.entries@.len() implies post.entries@[a].key@
                            != post.entries@[b].key@ by {
                            let pa: int = if a == i {
                                n - 1
                            } else {
                                a
                            };
                            let pb: int = if b == i {
                                n - 1
                            } else {
                                b
                            };
                            assert(pa != pb);
                        }
                    }
                    assert(!post.has_key(key@)) by {
                        if post.has_key(key@) {
                            let j = post.key_index(key@);
                            let pj: int = if j == i {
                                n - 1
                            } else {
                                j
                            };
                            assert(pre.entries@[pj].key@ == key@);
                            pre.lemma_at_index(pj);
                        }
                    }
                    assert forall|k2: Seq<char>| k2 != key@ implies (post.has_key(k2)
                        <==> pre.has_key(k2)) && (pre.has_key(k2) ==> post.entry(k2) == pre.entry(
                        k2,
                    )) by {
                        if pre.has_key(k2) {
                            let j = pre.key_index(k2);
                            assert(j != i);
                            if j == n - 1 {
                                assert(post.entries@[i as int].key@ == k2);
                                post.lemma_at_index(i as int);
                            } else {
                                assert(post.entries@[j].key@ == k2);
                                post.lemma_at_index(j);
                            }
                            pre.lemma_at_index(j);
                        }
                        if post.has_key(k2) {
                            let j = post.key_index(k2);
                            let pj: int = if j == i {
                                n - 1
                            } else {
                                j
                            };
                            assert(pre.entries@[pj].key@ == k2);
                            pre.lemma_at_index(pj);
                        }
                    }
                }
            }
        } else {
            proof {
                assert(false);
            }
        }
    }

    /// A proactive entry whose schedule says it is due: populated, past its
    /// TTL, not already being recomputed.
    pub open spec fn spec_refresh_due(self, k: Seq<char>, now: i64) -> bool {
        &&& self.has_key(k)
        &&& self.entry(k).refresh_mode == RefreshMode::Proactive
        &&& self.entry(k).value is Some
        &&& !self.entry(k).in_flight
        &&& now - self.entry(k).computed_at >= self.entry(k).ttl
    }

    /// One tick of the proactive refresh schedule for `key`: when the entry
    /// is due, it is marked in flight (the stale value stays readable, so
    /// readers never observe a miss) and the caller must recompute and then
    /// `complete` or `fail`; otherwise nothing changes.
    pub fn begin_refresh(&mut self, key: &String, now: i64) -> (r: bool)
        requires
            old(self).wf(),
            0 <= now,
        ensures
            final(self).wf(),
            r == old(self).spec_refresh_due(key@, now),
            !r ==> *final(self) == *old(self),
            r ==> {
                &&& final(self).has_key(key@)
                &&& final(self).entry(key@).key@ == key@
                &&& final(self).entry(key@).in_flight
                &&& final(self).entry(key@).value == old(self).entry(key@).value
                &&& final(self).entry(key@).computed_at == old(self).entry(key@).computed_at
                &&& final(self).entry(key@).ttl == old(self).entry(key@).ttl
                &&& final(self).entry(key@).refresh_mode == old(self).entry(key@).refresh_mode
                &&& (forall|k2: Seq<char>|
                    k2 != key@ ==> (final(self).has_key(k2) <==> old(self).has_key(k2)))
                &&& (forall|k2: Seq<char>|
                    k2 != key@ && old(self).has_key(k2) ==> final(self).entry(k2) == old(
                        self,
                    ).entry(k2))
            },
    {
        match self.find(key) {
            Some(i) => {
                let due = matches!(self.entries[i].refresh_mode, RefreshMode::Proactive)
                    && self.entries[i].value.is_some() && !self.entries[i].in_flight && now
                    - self.entries[i].computed_at >= self.entries[i].ttl;
                if due {
                    self.entries[i].in_flight = true;
                    proof {
                        let pre = *old(self);
                        let post = *self;
                        assert(post.entries@[i as int].key@ == key@);
                        post.lemma_at_index(i as int);
                        Self::lemma_untouched_keys(pre, post, i as int);
                    }
                    true
                } else {
                    false
                }
            },
            None => false,
        }
    }

    /// Whether a computation for `key` is currently in flight.
    pub fn is_in_flight(&self, key: &String) -> (r: bool)
        requires
            self.wf(),
        ensures
            r == (self.has_key(key@) && self.entry(key@).in_flight),
    {
        match self.find(key) {
            Some(i) => self.entries[i].in_flight,
            None => false,
        }
    }

    /// Reads the stored value for `key`, if the entry is populated.
    pub fn get(&self, key: &String) -> (r: Option<&V>)
        requires
            self.wf(),
        ensures
            r is Some <==> (self.has_key(key@) && self.entry(key@).value is Some),
            r matches Some(v) ==> self.entry(key@).value == Some(*v),
    {
        match self.find(key) {
            Some(i) => {
                match &self.entries[i].value {
                    Some(v) => Some(v),
                    None => None,
                }
            },
            None => None,
        }
    }
}

/// LAW: while a key's entry is populated and every read falls within its
/// TTL, each of the reads — however many — decides `Hit` and leaves the
/// cache exactly as it was, so the underlying query ran only for the single
/// computation that populated the entry. `states` are the cache states
/// around the reads, `ds` their decisions, `times` their clock readings.
pub proof fn lemma_repeated_hits_within_ttl<V>(
    states: Seq<TtlCache<V>>,
    ds: Seq<Decision>,
    times: Seq<i64>,
    k: Seq<char>,
    ttl: i64,
    mode: RefreshMode,
)
    requires
        states.len() == times.len() + 1,
        ds.len() == times.len(),
        states[0].wf(),
        forall|i: int| 0 <= i < times.len() ==> states[0].entry_fresh(k, times[i]),
        forall|i: int|
            0 <= i < times.len() ==> TtlCache::begin_post(
                states[i],
                states[i + 1],
                k,
                ttl,
                mode,
                times[i],
                ds[i],
            ),
    ensures
        forall|i: int| 0 <= i < ds.len() ==> ds[i] == Decision::Hit,
        forall|i: int| 0 <= i < states.len() ==> #[trigger] states[i] == states[0],
    decreases times.len(),
{
    if times.len() > 0 {
        assert(states[0].spec_decision(k, mode, times[0]) == Decision::Hit);
        assert(ds[0] == Decision::Hit && states[1] == states[0]);
        let states2 = states.subrange(1, states.len() as int);
        let ds2 = ds.subrange(1, ds.len() as int);
        let times2 = times.subrange(1, times.len() as int);
        assert(states2[0] == states[0]);
        assert forall|i: int|
            0 <= i < times2.len() implies TtlCache::begin_post(
            states2[i],
            states2[i + 1],
            k,
            ttl,
            mode,
            times2[i],
            ds2[i],
        ) by {
            assert(states2[i] == states[i + 1]);
            assert(states2[i + 1] == states[i + 2]);
        }
        lemma_repeated_hits_within_ttl(states2, ds2, times2, k, ttl, mode);
        assert forall|i: int| 0 <= i < ds.len() implies ds[i] == Decision::Hit by {
            if i > 0 {
                assert(ds2[i - 1] == ds[i]);
            }
        }
        assert forall|i: int| 0 <= i < states.len() implies #[trigger] states[i] == states[0] by {
            if i > 0 {
                assert(states2[i - 1] == states[i]);
            }
        }
    }
}

/// LAW: once one reader's `begin` decides `Compute` for a key, every later
/// read of that key — at any time up to the computation's `complete` or
/// `fail` — decides `Wait`: the readers coalesce, and the underlying query
/// for the key is recomputed exactly once.
pub proof fn lemma_coalescing<V>(
    pre: TtlCache<V>,
    post: TtlCache<V>,
    k: Seq<char>,
    ttl: i64,
    mode: RefreshMode,
    now: i64,
    later: i64,
)
    requires
        pre.wf(),
        post.wf(),
        TtlCache::begin_post(pre, post, k, ttl, mode, now, Decision::Compute),
        now <= later,
    ensures
        post.spec_decision(k, mode, later) == Decision::Wait,
{
    if pre.has_key(k) {
        assert(pre.entry(k).value is Some);
        assert(now - pre.entry(k).computed_at >= pre.entry(k).ttl);
        assert(later - post.entry(k).computed_at >= post.entry(k).ttl);
    } else {
        assert(post.entry(k).value is None);
    }
}

} // verus!
