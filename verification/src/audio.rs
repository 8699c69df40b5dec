//! Decoded-audio cache: reference counting, LRU eviction and load progress.
//!
//! Audio files are identified by integer ids (one per file path). A chart
//! takes a lease on the files it uses; entries whose leases are all returned
//! stay cached until the cache holds more than [`LRU_CACHE_MAX`] entries, and
//! then the least recently loaded unreferenced ones are evicted first.

use std::collections::{HashMap, HashSet};

use vstd::prelude::*;

verus! {

broadcast use {vstd::std_specs::hash::group_hash_axioms, vstd::seq_lib::group_seq_properties};

/// Number of cached entries above which unreferenced entries are evicted.
pub const LRU_CACHE_MAX: usize = 512;

/// Number of occurrences of `k` in `s`.
pub open spec fn seq_count(s: Seq<u64>, k: u64) -> nat
    decreases s.len(),
{
    if s.len() == 0 {
        0
    } else {
        seq_count(s.drop_last(), k) + if s.last() == k {
            1nat
        } else {
            0nat
        }
    }
}

/// Reference count of `k` (absent keys count zero).
pub open spec fn ref_count(refs: Map<u64, usize>, k: u64) -> nat {
    if refs.contains_key(k) {
        refs[k] as nat
    } else {
        0
    }
}

/// The keys that eviction removes from an LRU order `lru` (oldest first):
/// the first `budget` keys that are not in `held`.
pub open spec fn lru_evicted(lru: Seq<u64>, held: Set<u64>, budget: nat) -> Seq<u64>
    decreases lru.len(),
{
    if lru.len() == 0 {
        Seq::empty()
    } else {
        let e = lru_evicted(lru.drop_last(), held, budget);
        if !held.contains(lru.last()) && e.len() < budget {
            e.push(lru.last())
        } else {
            e
        }
    }
}

/// The LRU order left after eviction (order kept).
pub open spec fn lru_kept(lru: Seq<u64>, held: Set<u64>, budget: nat) -> Seq<u64>
    decreases lru.len(),
{
    if lru.len() == 0 {
        Seq::empty()
    } else {
        let e = lru_evicted(lru.drop_last(), held, budget);
        let k = lru_kept(lru.drop_last(), held, budget);
        if !held.contains(lru.last()) && e.len() < budget {
            k
        } else {
            k.push(lru.last())
        }
    }
}

/// How many entries a cache of `len` entries holds above the limit.
pub open spec fn cache_excess(len: nat) -> nat {
    if len > LRU_CACHE_MAX {
        (len - LRU_CACHE_MAX) as nat
    } else {
        0
    }
}

/// A chart's lease on audio files: the ids it holds a reference to.
#[derive(Debug)]
pub struct AudioLease {
    ids: Vec<u64>,
}

impl AudioLease {
    /// The ids held by the lease, in the order they were leased.
    pub closed spec fn held(&self) -> Seq<u64> {
        self.ids@
    }

    /// The ids held by the lease.
    pub fn ids(&self) -> (r: &Vec<u64>)
        ensures
            r@ == self.held(),
    {
        &self.ids
    }
}

impl Default for AudioLease {
    /// A lease on nothing.
    fn default() -> (l: Self)
        ensures
            l.held() == Seq::<u64>::empty(),
    {
        AudioLease { ids: Vec::new() }
    }
}

/// Audio cache with reference counts, LRU eviction and load progress.
///
/// `P` is the decoded payload (shared PCM data in the player).
pub struct AudioCache<P> {
    /// Decoded entries.
    cache: HashMap<u64, P>,
    /// Number of leases holding each id (absent = zero).
    refs: HashMap<u64, usize>,
    /// Cached ids, least recently loaded first.
    lru: Vec<u64>,
    /// Ids requested for loading.
    requested: HashSet<u64>,
    /// Ids needed before play can start (no id twice).
    priority: Vec<u64>,
}

impl<P> AudioCache<P> {
    /// Cached payloads.
    pub closed spec fn cached(&self) -> Map<u64, P> {
        self.cache@
    }

    /// Reference counts (only ids with a positive count are present).
    pub closed spec fn ref_counts(&self) -> Map<u64, usize> {
        self.refs@
    }

    /// Cached ids, least recently loaded first.
    pub closed spec fn lru_order(&self) -> Seq<u64> {
        self.lru@
    }

    /// Ids requested for loading.
    pub closed spec fn requested_ids(&self) -> Set<u64> {
        self.requested@
    }

    /// Ids needed before play can start.
    pub closed spec fn priority_ids(&self) -> Set<u64> {
        self.priority@.to_set()
    }

    /// The cache's invariant: the LRU order lists each cached id exactly once,
    /// stored reference counts are positive, and no priority id is listed twice.
    pub closed spec fn wf(&self) -> bool {
        &&& self.lru@.no_duplicates()
        &&& forall|k: u64| self.cache@.contains_key(k) <==> self.lru@.contains(k)
        &&& forall|k: u64| self.refs@.contains_key(k) ==> self.refs@[k] > 0
        &&& self.priority@.no_duplicates()
    }

    /// An empty cache.
    pub fn new() -> (c: Self)
        ensures
            c.wf(),
            c.cached() == Map::<u64, P>::empty(),
            c.ref_counts() == Map::<u64, usize>::empty(),
            c.lru_order() == Seq::<u64>::empty(),
            c.requested_ids() == Set::<u64>::empty(),
            c.priority_ids() == Set::<u64>::empty(),
    {
        let c = AudioCache {
            cache: HashMap::new(),
            refs: HashMap::new(),
            lru: Vec::new(),
            requested: HashSet::new(),
            priority: Vec::new(),
        };
        proof {
            assert(c.priority@.to_set() =~= Set::<u64>::empty());
        }
        c
    }

    /// The cached payload of an id.
    pub fn get(&self, id: u64) -> (r: Option<&P>)
        ensures
            r matches Some(p) ==> self.cached().contains_key(id) && *p == self.cached()[id],
            r is None ==> !self.cached().contains_key(id),
    {
        self.cache.get(&id)
    }

    /// Marks an id as needed before play can start.
    pub fn mark_priority(&mut self, id: u64)
        requires
            old(self).wf(),
        ensures
            final(self).wf(),
            final(self).priority_ids() == old(self).priority_ids().insert(id),
            final(self).cached() == old(self).cached(),
            final(self).ref_counts() == old(self).ref_counts(),
            final(self).lru_order() == old(self).lru_order(),
            final(self).requested_ids() == old(self).requested_ids(),
    {
        let mut found = false;
        let mut i: usize = 0;
        while i < self.priority.len()
            invariant
                0 <= i <= self.priority.len(),
                found <==> self.priority@.take(i as int).contains(id),
            decreases self.priority.len() - i,
        {
            if self.priority[i] == id {
                found = true;
            }
            proof {
                assert(self.priority@.take(i + 1) =~= self.priority@.take(i as int).push(self.priority@[i as int]));
                vstd::seq_lib::lemma_seq_contains_after_push(self.priority@.take(i as int), self.priority@[i as int], id);
            }
            i = i + 1;
        }
        proof {
            assert(self.priority@.take(self.priority@.len() as int) =~= self.priority@);
        }
        if !found {
            self.priority.push(id);
            proof {
                old(self).priority@.lemma_push_to_set_commute(id);
                assert(self.priority@.to_set() =~= old(self).priority@.to_set().insert(id));
            }
        } else {
            proof {
                assert(old(self).priority@.to_set().insert(id) =~= old(self).priority@.to_set());
            }
        }
    }

    /// Whether every id needed before play is cached.
    pub fn is_ready(&self) -> (b: bool)
        requires
            self.wf(),
        ensures
            b == self.priority_ids().subset_of(self.cached().dom()),
    {
        let mut i: usize = 0;
        while i < self.priority.len()
            invariant
                0 <= i <= self.priority.len(),
                forall|j: int| 0 <= j < i ==> self.cache@.contains_key(#[trigger] self.priority@[j]),
            decreases self.priority.len() - i,
        {
            if !self.cache.contains_key(&self.priority[i]) {
                proof {
                    assert(self.priority@.to_set().contains(self.priority@[i as int]));
                }
                return false;
            }
            i = i + 1;
        }
        proof {
            assert forall|k: u64| self.priority@.to_set().contains(k) implies self.cache@.dom().contains(k) by {
                let j = choose|j: int| 0 <= j < self.priority@.len() && self.priority@[j] == k;
            }
        }
        true
    }
}


/// The keys left by eviction and the keys evicted together are the LRU order
/// split in two; evicted keys were unreferenced, at most `budget` of them
/// go, and fewer go only when every key left is referenced.
pub proof fn lemma_lru_split(lru: Seq<u64>, held: Set<u64>, budget: nat)
    ensures
        lru_evicted(lru, held, budget).len() + lru_kept(lru, held, budget).len() == lru.len(),
        lru_evicted(lru, held, budget).len() <= budget,
        forall|k: u64| #[trigger] lru_evicted(lru, held, budget).contains(k) ==> lru.contains(k) && !held.contains(k),
        forall|k: u64| #[trigger] lru_kept(lru, held, budget).contains(k) ==> lru.contains(k),
        forall|k: u64| lru.contains(k) ==> (lru_evicted(lru, held, budget).contains(k) || lru_kept(lru, held, budget).contains(k)),
        lru_evicted(lru, held, budget).len() < budget
            ==> forall|k: u64| #[trigger] lru_kept(lru, held, budget).contains(k) ==> held.contains(k),
        lru.no_duplicates() ==> lru_evicted(lru, held, budget).no_duplicates() && lru_kept(lru, held, budget).no_duplicates(),
        lru.no_duplicates() ==> forall|k: u64| #[trigger] lru_evicted(lru, held, budget).contains(k) ==> !lru_kept(lru, held, budget).contains(k),
    decreases lru.len(),
{
    if lru.len() > 0 {
        let pre = lru.drop_last();
        let x = lru.last();
        lemma_lru_split(pre, held, budget);
        assert(lru =~= pre.push(x));
        assert forall|k: u64| pre.contains(k) implies lru.contains(k) by {
            let j = choose|j: int| 0 <= j < pre.len() && pre[j] == k;
            assert(lru[j] == k);
        }
        assert(lru.contains(x)) by {
            assert(lru[lru.len() - 1] == x);
        }
        assert forall|k: u64| lru.contains(k) implies (pre.contains(k) || k == x) by {
            let j = choose|j: int| 0 <= j < lru.len() && lru[j] == k;
            if j < lru.len() - 1 {
                assert(pre[j] == k);
            }
        }
        if lru.no_duplicates() {
            assert(pre.no_duplicates());
            assert(!pre.contains(x)) by {
                if pre.contains(x) {
                    let j = choose|j: int| 0 <= j < pre.len() && pre[j] == x;
                    assert(lru[j] == lru[lru.len() - 1]);
                }
            }
            let e = lru_evicted(pre, held, budget);
            let kp = lru_kept(pre, held, budget);
            assert(!e.contains(x));
            assert(!kp.contains(x));
            assert(e.push(x).no_duplicates()) by {
                assert forall|a: int, b: int| 0 <= a < b < e.push(x).len() implies e.push(x)[a] != e.push(x)[b] by {
                    if b == e.len() {
                        assert(e.contains(e[a]));
                    }
                }
            }
            assert(kp.push(x).no_duplicates()) by {
                assert forall|a: int, b: int| 0 <= a < b < kp.push(x).len() implies kp.push(x)[a] != kp.push(x)[b] by {
                    if b == kp.len() {
                        assert(kp.contains(kp[a]));
                    }
                }
            }
        }
    }
}

impl<P> AudioCache<P> {
    /// Evicts the least recently loaded unreferenced entries while the cache
    /// holds more than [`LRU_CACHE_MAX`] entries (referenced entries and the
    /// order of the rest are kept).
    fn evict_if_needed(&mut self)
        requires
            old(self).wf(),
        ensures
            final(self).wf(),
            ({
                let e = lru_evicted(old(self).lru_order(), old(self).ref_counts().dom(), cache_excess(old(self).cached().len())).to_set();
                &&& final(self).lru_order() == lru_kept(old(self).lru_order(), old(self).ref_counts().dom(), cache_excess(old(self).cached().len()))
                &&& final(self).cached() == old(self).cached().remove_keys(e)
                &&& final(self).requested_ids() == old(self).requested_ids().difference(e)
                &&& final(self).priority_ids() == old(self).priority_ids().difference(e)
            }),
            final(self).ref_counts() == old(self).ref_counts(),
    {
        let len = self.cache.len();
        let budget: usize = if len > LRU_CACHE_MAX {
            len - LRU_CACHE_MAX
        } else {
            0
        };
        let ghost held = self.refs@.dom();
        let ghost old_refs = self.refs@;
        let ghost old_lru = self.lru@;
        let ghost old_cache = self.cache@;
        let ghost old_requested = self.requested@;
        let ghost old_priority = self.priority@;
        proof {
            assert(budget == cache_excess(old_cache.len()));
            lemma_lru_split(old_lru, held, budget as nat);
        }
        let mut kept: Vec<u64> = Vec::new();
        let mut evicted_n: usize = 0;
        let mut i: usize = 0;
        let n = self.lru.len();
        while i < n
            invariant
                n == self.lru.len(),
                self.lru@ == old_lru,
                self.refs@ == old_refs,
                held == old_refs.dom(),
                0 <= i <= n,
                old_lru.no_duplicates(),
                kept@ == lru_kept(old_lru.take(i as int), held, budget as nat),
                evicted_n == lru_evicted(old_lru.take(i as int), held, budget as nat).len(),
                evicted_n <= budget,
                self.cache@ == old_cache.remove_keys(lru_evicted(old_lru.take(i as int), held, budget as nat).to_set()),
                self.requested@ == old_requested.difference(lru_evicted(old_lru.take(i as int), held, budget as nat).to_set()),
                self.priority@.to_set() == old_priority.to_set().difference(lru_evicted(old_lru.take(i as int), held, budget as nat).to_set()),
                self.priority@.no_duplicates(),
            decreases n - i,
        {
            let k = self.lru[i];
            let ghost pre = old_lru.take(i as int);
            let ghost ev = lru_evicted(pre, held, budget as nat);
            proof {
                assert(old_lru.take(i + 1).drop_last() =~= pre);
                assert(old_lru.take(i + 1).last() == k);
                lemma_lru_split(pre, held, budget as nat);
            }
            if evicted_n < budget && !self.refs.contains_key(&k) {
                self.cache.remove(&k);
                self.requested.remove(&k);
                remove_value(&mut self.priority, k);
                evicted_n = evicted_n + 1;
                proof {
                    ev.lemma_push_to_set_commute(k);
                    assert(self.cache@ =~= old_cache.remove_keys(ev.push(k).to_set()));
                    assert(self.requested@ =~= old_requested.difference(ev.push(k).to_set()));
                    assert(self.priority@.to_set() =~= old_priority.to_set().difference(ev.push(k).to_set()));
                }
            } else {
                kept.push(k);
            }
            i = i + 1;
        }
        proof {
            assert(old_lru.take(n as int) =~= old_lru);
        }
        self.lru = kept;
        proof {
            let ev = lru_evicted(old_lru, held, budget as nat);
            let kp = lru_kept(old_lru, held, budget as nat);
            assert forall|k: u64| self.cache@.contains_key(k) <==> self.lru@.contains(k) by {
                if self.lru@.contains(k) {
                    assert(!ev.to_set().contains(k));
                }
                if self.cache@.contains_key(k) {
                    assert(old_lru.contains(k));
                    assert(!ev.contains(k));
                }
            }
        }
    }
}

/// Removes the one occurrence of `k` from a vector without duplicates.
fn remove_value(v: &mut Vec<u64>, k: u64)
    requires
        old(v)@.no_duplicates(),
    ensures
        final(v)@.no_duplicates(),
        final(v)@.to_set() == old(v)@.to_set().remove(k),
{
    let mut out: Vec<u64> = Vec::new();
    let mut i: usize = 0;
    while i < v.len()
        invariant
            0 <= i <= v.len(),
            v@ == old(v)@,
            old(v)@.no_duplicates(),
            out@.no_duplicates(),
            forall|x: u64| out@.contains(x) <==> (old(v)@.take(i as int).contains(x) && x != k),
        decreases v.len() - i,
    {
        let x = v[i];
        proof {
            assert(old(v)@.take(i + 1) =~= old(v)@.take(i as int).push(x));
        }
        if x != k {
            proof {
                assert(!out@.contains(x)) by {
                    if out@.contains(x) {
                        let j = choose|j: int| 0 <= j < i && old(v)@.take(i as int)[j] == x;
                        assert(old(v)@[j] == old(v)@[i as int]);
                    }
                }
            }
            out.push(x);
        }
        i = i + 1;
    }
    proof {
        assert(old(v)@.take(old(v)@.len() as int) =~= old(v)@);
        assert(out@.to_set() =~= old(v)@.to_set().remove(k));
    }
    *v = out;
}

/// A prefix never holds more occurrences than the whole sequence.
pub proof fn lemma_count_prefix(s: Seq<u64>, j: int, k: u64)
    requires
        0 <= j <= s.len(),
    ensures
        seq_count(s.take(j), k) <= seq_count(s, k),
    decreases s.len(),
{
    if j < s.len() {
        let pre = s.drop_last();
        assert(s.take(j) =~= pre.take(j));
        lemma_count_prefix(pre, j, k);
    } else {
        assert(s.take(j) =~= s);
    }
}

/// `a - b`, or zero when `b > a`.
pub open spec fn sat_sub(a: nat, b: nat) -> nat {
    if a >= b {
        (a - b) as nat
    } else {
        0
    }
}

/// The LRU order after (re)loading `id`: moved to the most recent end.
pub open spec fn lru_touch(lru: Seq<u64>, id: u64) -> Seq<u64> {
    lru.filter(other_than(id)).push(id)
}

/// The predicate "is not `id`".
pub open spec fn other_than(id: u64) -> spec_fn(u64) -> bool {
    |x: u64| x != id
}

impl<P> AudioCache<P> {
    /// A chart enters: takes a lease on `ids` (one more reference for each
    /// occurrence) and records them as requested.
    pub fn acquire(&mut self, ids: &[u64]) -> (lease: AudioLease)
        requires
            old(self).wf(),
            forall|k: u64| ref_count(old(self).ref_counts(), k) + seq_count(ids@, k) <= usize::MAX,
        ensures
            final(self).wf(),
            lease.held() == ids@,
            forall|k: u64| #[trigger] ref_count(final(self).ref_counts(), k) == ref_count(old(self).ref_counts(), k) + seq_count(ids@, k),
            final(self).requested_ids() == old(self).requested_ids().union(ids@.to_set()),
            final(self).cached() == old(self).cached(),
            final(self).lru_order() == old(self).lru_order(),
            final(self).priority_ids() == old(self).priority_ids(),
    {
        let ghost old_refs = self.refs@;
        let ghost old_requested = self.requested@;
        let mut out: Vec<u64> = Vec::new();
        let mut i: usize = 0;
        while i < ids.len()
            invariant
                0 <= i <= ids.len(),
                out@ == ids@.take(i as int),
                forall|k: u64| #[trigger] ref_count(self.refs@, k) == ref_count(old_refs, k) + seq_count(ids@.take(i as int), k),
                forall|k: u64| ref_count(old_refs, k) + seq_count(ids@, k) <= usize::MAX,
                forall|k: u64| self.refs@.contains_key(k) ==> self.refs@[k] > 0,
                self.requested@ == old_requested.union(ids@.take(i as int).to_set()),
                self.cache@ == old(self).cache@,
                self.lru@ == old(self).lru@,
                self.priority@ == old(self).priority@,
            decreases ids.len() - i,
        {
            let k = ids[i];
            proof {
                assert(ids@.take(i + 1).drop_last() =~= ids@.take(i as int));
                assert(ids@.take(i + 1).last() == k);
                lemma_count_prefix(ids@, i + 1, k);
            }
            let ghost refs_before = self.refs@;
            let cur: usize = match self.refs.get(&k) {
                Some(n) => *n,
                None => 0,
            };
            proof {
                assert(cur == ref_count(refs_before, k));
                assert(seq_count(ids@.take(i + 1), k) == seq_count(ids@.take(i as int), k) + 1);
            }
            self.refs.insert(k, cur + 1);
            self.requested.insert(k);
            out.push(k);
            proof {
                assert(ids@.take(i + 1) =~= ids@.take(i as int).push(k));
                ids@.take(i as int).lemma_push_to_set_commute(k);
                assert(self.requested@ =~= old_requested.union(ids@.take(i + 1).to_set()));
                assert forall|x: u64| #[trigger] ref_count(self.refs@, x) == ref_count(old_refs, x) + seq_count(ids@.take(i + 1), x) by {
                    assert(seq_count(ids@.take(i + 1), x) == seq_count(ids@.take(i as int), x) + if k == x { 1nat } else { 0nat });
                    if x != k {
                        assert(ref_count(self.refs@, x) == ref_count(refs_before, x));
                    }
                }
            }
            i = i + 1;
        }
        proof {
            assert(ids@.take(ids@.len() as int) =~= ids@);
        }
        AudioLease { ids: out }
    }

    /// A chart leaves: returns its lease (one reference fewer for each
    /// occurrence; counts stop at zero), then evicts as needed.
    pub fn release(&mut self, lease: &AudioLease)
        requires
            old(self).wf(),
        ensures
            final(self).wf(),
            forall|k: u64| #[trigger] ref_count(final(self).ref_counts(), k) == sat_sub(ref_count(old(self).ref_counts(), k), seq_count(lease.held(), k)),
            ({
                let held = final(self).ref_counts().dom();
                let budget = cache_excess(old(self).cached().len());
                let e = lru_evicted(old(self).lru_order(), held, budget).to_set();
                &&& final(self).lru_order() == lru_kept(old(self).lru_order(), held, budget)
                &&& final(self).cached() == old(self).cached().remove_keys(e)
                &&& final(self).requested_ids() == old(self).requested_ids().difference(e)
                &&& final(self).priority_ids() == old(self).priority_ids().difference(e)
            }),
    {
        let ghost old_refs = self.refs@;
        let mut i: usize = 0;
        while i < lease.ids.len()
            invariant
                0 <= i <= lease.ids.len(),
                forall|k: u64| #[trigger] ref_count(self.refs@, k) == sat_sub(ref_count(old_refs, k), seq_count(lease.ids@.take(i as int), k)),
                forall|k: u64| self.refs@.contains_key(k) ==> self.refs@[k] > 0,
                self.cache@ == old(self).cache@,
                self.lru@ == old(self).lru@,
                self.priority@ == old(self).priority@,
                self.requested@ == old(self).requested@,
            decreases lease.ids.len() - i,
        {
            let k = lease.ids[i];
            proof {
                assert(lease.ids@.take(i + 1).drop_last() =~= lease.ids@.take(i as int));
                assert(lease.ids@.take(i + 1).last() == k);
            }
            let ghost refs_before = self.refs@;
            let cur: usize = match self.refs.get(&k) {
                Some(n) => *n,
                None => 0,
            };
            proof {
                assert(cur == ref_count(refs_before, k));
            }
            if cur == 1 {
                self.refs.remove(&k);
            } else if cur > 1 {
                self.refs.insert(k, cur - 1);
            }
            proof {
                assert forall|x: u64| #[trigger] ref_count(self.refs@, x) == sat_sub(ref_count(old_refs, x), seq_count(lease.ids@.take(i + 1), x)) by {
                    assert(seq_count(lease.ids@.take(i + 1), x) == seq_count(lease.ids@.take(i as int), x) + if k == x { 1nat } else { 0nat });
                    if x != k {
                        assert(ref_count(self.refs@, x) == ref_count(refs_before, x));
                    }
                }
            }
            i = i + 1;
        }
        proof {
            assert(lease.ids@.take(lease.ids@.len() as int) =~= lease.ids@);
        }
        self.evict_if_needed();
    }

    /// Stores a decoded entry, moves it to the most recent end of the LRU
    /// order, then evicts as needed.
    pub fn insert_ready(&mut self, id: u64, pcm: P)
        requires
            old(self).wf(),
        ensures
            final(self).wf(),
            final(self).ref_counts() == old(self).ref_counts(),
            ({
                let held = old(self).ref_counts().dom();
                let c1 = old(self).cached().insert(id, pcm);
                let l1 = lru_touch(old(self).lru_order(), id);
                let budget = cache_excess(c1.len());
                let e = lru_evicted(l1, held, budget).to_set();
                &&& final(self).lru_order() == lru_kept(l1, held, budget)
                &&& final(self).cached() == c1.remove_keys(e)
                &&& final(self).requested_ids() == old(self).requested_ids().difference(e)
                &&& final(self).priority_ids() == old(self).priority_ids().difference(e)
            }),
    {
        self.cache.insert(id, pcm);
        let mut kept: Vec<u64> = Vec::new();
        let mut i: usize = 0;
        let ghost f = other_than(id);
        while i < self.lru.len()
            invariant
                0 <= i <= self.lru.len(),
                self.lru@ == old(self).lru@,
                kept@ == self.lru@.take(i as int).filter(f),
                f == other_than(id),
            decreases self.lru.len() - i,
        {
            let x = self.lru[i];
            proof {
                assert(self.lru@.take(i + 1) =~= self.lru@.take(i as int).push(x));
                self.lru@.take(i as int).lemma_filter_push(x, f);
            }
            if x != id {
                kept.push(x);
            }
            i = i + 1;
        }
        proof {
            assert(self.lru@.take(self.lru@.len() as int) =~= self.lru@);
        }
        kept.push(id);
        self.lru = kept;
        proof {
            let pre = old(self).lru@;
            let filt = pre.filter(f);
            assert(self.lru@ == filt.push(id));
            pre.filter_lemma(f);
            assert forall|x: u64| filt.contains(x) implies pre.contains(x) && x != id by {
                pre.lemma_filter_contains_rev(f, x);
            }
            assert forall|x: u64| pre.contains(x) && x != id implies filt.contains(x) by {
                let j = choose|j: int| 0 <= j < pre.len() && pre[j] == x;
            }
            assert(filt.no_duplicates()) by {
                assert forall|a: int, b: int| 0 <= a < b < filt.len() implies filt[a] != filt[b] by {
                    lemma_filter_no_dup(pre, f, a, b);
                }
            }
            assert(self.lru@.no_duplicates()) by {
                assert forall|a: int, b: int| 0 <= a < b < self.lru@.len() implies self.lru@[a] != self.lru@[b] by {
                    if b == filt.len() {
                        assert(filt.contains(filt[a]));
                    }
                }
            }
            assert forall|k: u64| self.cache@.contains_key(k) <==> self.lru@.contains(k) by {
                if k == id {
                    assert(self.lru@[self.lru@.len() - 1] == id);
                } else if self.lru@.contains(k) {
                    let j = choose|j: int| 0 <= j < self.lru@.len() && self.lru@[j] == k;
                    assert(filt.contains(self.lru@[j]));
                }
            }
        }
        self.evict_if_needed();
    }

    /// A load failed: the id is no longer awaited.
    pub fn remove_requested(&mut self, id: u64)
        requires
            old(self).wf(),
        ensures
            final(self).wf(),
            final(self).requested_ids() == old(self).requested_ids().remove(id),
            final(self).priority_ids() == old(self).priority_ids().remove(id),
            final(self).cached() == old(self).cached(),
            final(self).ref_counts() == old(self).ref_counts(),
            final(self).lru_order() == old(self).lru_order(),
    {
        self.requested.remove(&id);
        remove_value(&mut self.priority, id);
    }

    /// Load progress: (priority ids cached, priority ids).
    pub fn progress(&self) -> (r: (usize, usize))
        requires
            self.wf(),
        ensures
            r.0 == self.priority_ids().filter(|k: u64| self.cached().contains_key(k)).len(),
            r.1 == self.priority_ids().len(),
    {
        let mut ready: usize = 0;
        let ghost mut rs: Seq<u64> = Seq::empty();
        let ghost pred = |k: u64| self.cache@.contains_key(k);
        let mut i: usize = 0;
        while i < self.priority.len()
            invariant
                0 <= i <= self.priority.len(),
                self.priority@.no_duplicates(),
                ready == rs.len(),
                ready <= i,
                rs.no_duplicates(),
                pred == (|k: u64| self.cache@.contains_key(k)),
                forall|x: u64| rs.contains(x) <==> (self.priority@.take(i as int).contains(x) && pred(x)),
            decreases self.priority.len() - i,
        {
            let k = self.priority[i];
            proof {
                assert(self.priority@.take(i + 1) =~= self.priority@.take(i as int).push(k));
            }
            if self.cache.contains_key(&k) {
                proof {
                    assert(!rs.contains(k)) by {
                        if rs.contains(k) {
                            let j = choose|j: int| 0 <= j < i && self.priority@.take(i as int)[j] == k;
                            assert(self.priority@[j] == self.priority@[i as int]);
                        }
                    }
                    assert(rs.push(k).no_duplicates()) by {
                        assert forall|a: int, b: int| 0 <= a < b < rs.push(k).len() implies rs.push(k)[a] != rs.push(k)[b] by {
                            if b == rs.len() {
                                assert(rs.contains(rs[a]));
                            }
                        }
                    }
                    rs = rs.push(k);
                }
                ready = ready + 1;
            }
            i = i + 1;
        }
        proof {
            assert(self.priority@.take(self.priority@.len() as int) =~= self.priority@);
            assert(rs.to_set() =~= self.priority@.to_set().filter(pred));
            rs.unique_seq_to_set();
            self.priority@.unique_seq_to_set();
        }
        (ready, self.priority.len())
    }
}

/// Filtering keeps distinct positions distinct when the source has no duplicates.
proof fn lemma_filter_no_dup(s: Seq<u64>, f: spec_fn(u64) -> bool, a: int, b: int)
    requires
        s.no_duplicates(),
        0 <= a < b < s.filter(f).len(),
    ensures
        s.filter(f)[a] != s.filter(f)[b],
    decreases s.len(),
{
    reveal(Seq::filter);
    if s.len() > 0 {
        let pre = s.drop_last();
        assert(pre.no_duplicates());
        let fp = pre.filter(f);
        if f(s.last()) {
            assert(s.filter(f) == fp.push(s.last()));
            if b < fp.len() {
                lemma_filter_no_dup(pre, f, a, b);
            } else {
                pre.filter_lemma(f);
                assert(pre.contains(fp[a])) by {
                    pre.lemma_filter_contains_rev(f, fp[a]);
                }
                assert(!pre.contains(s.last())) by {
                    if pre.contains(s.last()) {
                        let j = choose|j: int| 0 <= j < pre.len() && pre[j] == s.last();
                        assert(s[j] == s[s.len() - 1]);
                    }
                }
            }
        } else {
            assert(s.filter(f) == fp);
            lemma_filter_no_dup(pre, f, a, b);
        }
    }
}

impl<P> AudioCache<P> {
    /// Number of leases holding `id` (`None` when none does).
    pub fn reference_count(&self, id: u64) -> (r: Option<usize>)
        ensures
            r matches Some(n) ==> self.ref_counts().contains_key(id) && n == self.ref_counts()[id],
            r is None ==> !self.ref_counts().contains_key(id),
    {
        match self.refs.get(&id) {
            Some(n) => Some(*n),
            None => None,
        }
    }

    /// Number of cached entries.
    pub fn len(&self) -> (n: usize)
        ensures
            n == self.cached().len(),
    {
        self.cache.len()
    }

    /// In a well-formed cache the LRU order lists exactly the cached entries.
    pub proof fn lemma_cache_size(&self)
        requires
            self.wf(),
        ensures
            self.cached().len() == self.lru_order().len(),
            self.cached().dom() == self.lru_order().to_set(),
    {
        assert(self.cache@.dom() =~= self.lru@.to_set());
        self.lru@.unique_seq_to_set();
    }
}

/// Eviction never removes an entry that a lease still holds.
pub proof fn lemma_eviction_keeps_held(lru: Seq<u64>, held: Set<u64>, budget: nat, k: u64)
    requires
        lru.contains(k),
        held.contains(k),
    ensures
        lru_kept(lru, held, budget).contains(k),
        !lru_evicted(lru, held, budget).contains(k),
{
    lemma_lru_split(lru, held, budget);
}

/// After eviction a cache of `lru.len()` entries is back within
/// [`LRU_CACHE_MAX`], unless every entry left is held by a lease.
pub proof fn lemma_eviction_bound(lru: Seq<u64>, held: Set<u64>)
    ensures
        lru_kept(lru, held, cache_excess(lru.len())).len() <= LRU_CACHE_MAX
            || forall|k: u64| #[trigger] lru_kept(lru, held, cache_excess(lru.len())).contains(k) ==> held.contains(k),
{
    lemma_lru_split(lru, held, cache_excess(lru.len()));
}

/// Eviction never removes more than the excess over [`LRU_CACHE_MAX`]: a
/// cache within the limit is left unchanged.
pub proof fn lemma_no_eviction_within_limit(lru: Seq<u64>, held: Set<u64>)
    requires
        lru.len() <= LRU_CACHE_MAX,
    ensures
        lru_kept(lru, held, cache_excess(lru.len())) == lru,
        lru_evicted(lru, held, cache_excess(lru.len())).len() == 0,
{
    lemma_kept_all_when_no_budget(lru, held);
}

proof fn lemma_kept_all_when_no_budget(lru: Seq<u64>, held: Set<u64>)
    ensures
        lru_kept(lru, held, 0) == lru,
        lru_evicted(lru, held, 0).len() == 0,
    decreases lru.len(),
{
    if lru.len() > 0 {
        lemma_kept_all_when_no_budget(lru.drop_last(), held);
        assert(lru.drop_last().push(lru.last()) =~= lru);
    }
}

/// The oldest unreferenced entries go first: if an entry is evicted, every
/// older unreferenced entry is evicted too.
pub proof fn lemma_evicts_oldest_first(lru: Seq<u64>, held: Set<u64>, budget: nat, i: int, j: int)
    requires
        lru.no_duplicates(),
        0 <= i < j < lru.len(),
        lru_evicted(lru, held, budget).contains(lru[j]),
        !held.contains(lru[i]),
    ensures
        lru_evicted(lru, held, budget).contains(lru[i]),
    decreases lru.len(),
{
    let pre = lru.drop_last();
    lemma_lru_split(lru, held, budget);
    lemma_lru_split(pre, held, budget);
    let e = lru_evicted(pre, held, budget);
    if j < lru.len() - 1 {
        // lru[j] was evicted within the prefix
        assert(pre[j] == lru[j]);
        if !e.contains(lru[j]) {
            // then lru[j] is the newly pushed last element, contradiction with j < len-1
            assert(lru_evicted(lru, held, budget) == e.push(lru.last()));
            assert(lru[j] == lru.last());
            assert(false);
        }
        assert(pre[i] == lru[i]);
        lemma_evicts_oldest_first(pre, held, budget, i, j);
        assert(lru_evicted(lru, held, budget).contains(lru[i])) by {
            let k = choose|k: int| 0 <= k < e.len() && e[k] == lru[i];
            if lru_evicted(lru, held, budget) != e {
                assert(lru_evicted(lru, held, budget)[k] == lru[i]);
            }
        }
    } else {
        // the last element was evicted, so the prefix had budget to spare and
        // evicted every unreferenced key in it
        assert(lru.last() == lru[j]);
        assert(!e.contains(lru.last())) by {
            if e.contains(lru.last()) {
                assert(pre.contains(lru.last()));
                let k = choose|k: int| 0 <= k < pre.len() && pre[k] == lru.last();
                assert(lru[k] == lru[lru.len() - 1]);
            }
        }
        assert(lru_evicted(lru, held, budget) == e.push(lru.last()));
        assert(e.len() < budget);
        assert(pre[i] == lru[i]);
        assert(pre.contains(lru[i]));
        assert(e.contains(lru[i]));
        let k = choose|k: int| 0 <= k < e.len() && e[k] == lru[i];
        assert(e.push(lru.last())[k] == lru[i]);
    }
}

/// Returning a lease undoes taking it: each reference count is back where
/// it was.
pub proof fn lemma_release_undoes_acquire(refs: Map<u64, usize>, ids: Seq<u64>, k: u64)
    ensures
        sat_sub(ref_count(refs, k) + seq_count(ids, k), seq_count(ids, k)) == ref_count(refs, k),
{
}

impl<P> Default for AudioCache<P> {
    /// An empty cache.
    fn default() -> (c: Self)
        ensures
            c.wf(),
            c.cached() == Map::<u64, P>::empty(),
            c.ref_counts() == Map::<u64, usize>::empty(),
            c.lru_order() == Seq::<u64>::empty(),
            c.requested_ids() == Set::<u64>::empty(),
            c.priority_ids() == Set::<u64>::empty(),
    {
        AudioCache::new()
    }
}

} // verus!
