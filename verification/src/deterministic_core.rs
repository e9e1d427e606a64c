//! Deterministic core abstractions: an ordered map, a keyed task scheduler, a
//! caller-supplied time value and a seeded xorshift64* generator.
use vstd::prelude::*;
use std::collections::BTreeMap;
use vstd::laws_cmp::obeys_cmp;
use vstd::std_specs::cmp::OrdSpec;
use vstd::std_specs::iter::IteratorSpec;

verus! {

broadcast use vstd::std_specs::btree::group_btree_axioms;

/// An ordered map whose iteration follows key order.
pub struct DetMap<K: Ord, V> {
    inner: BTreeMap<K, V>,
}

impl<K: Ord, V> View for DetMap<K, V> {
    type V = Map<K, V>;

    closed spec fn view(&self) -> Map<K, V> {
        self.inner@
    }
}

impl<K: Ord, V> DetMap<K, V> {
    /// An empty map.
    pub fn new() -> (m: Self)
        ensures
            m@ == Map::<K, V>::empty(),
    {
        DetMap { inner: BTreeMap::new() }
    }

    /// A map holds finitely many entries.
    pub proof fn lemma_view_finite(&self)
        ensures
            self@.dom().finite(),
    {
        vstd::std_specs::btree::axiom_btree_map_view_finite_dom(self.inner);
    }

    /// Inserts `v` under `k`, returning the value it replaces.
    pub fn insert(&mut self, k: K, v: V) -> (old_v: Option<V>)
        ensures
            old(self)@.dom().finite(),
            final(self)@.dom().finite(),
            obeys_cmp::<K>() ==> {
                &&& final(self)@ == old(self)@.insert(k, v)
                &&& final(self)@.len() == old(self)@.len() + (if old_v is Some { 0int } else { 1int })
                &&& match old_v {
                    Some(x) => old(self)@.contains_key(k) && x == old(self)@[k],
                    None => !old(self)@.contains_key(k),
                }
            },
    {
        proof {
            old(self).lemma_view_finite();
        }
        let r = self.inner.insert(k, v);
        proof {
            self.lemma_view_finite();
            if obeys_cmp::<K>() {
                assert(self@.dom() == old(self)@.dom().insert(k));
            }
        }
        r
    }

    /// The value under `k`, if any.
    pub fn get(&self, k: &K) -> (r: Option<&V>)
        ensures
            obeys_cmp::<K>() ==> match r {
                Some(v) => self@.contains_key(*k) && *v == self@[*k],
                None => !self@.contains_key(*k),
            },
    {
        self.inner.get(k)
    }

    /// Removes the value under `k`, returning it.
    pub fn remove(&mut self, k: &K) -> (r: Option<V>)
        ensures
            obeys_cmp::<K>() ==> {
                &&& final(self)@ == old(self)@.remove(*k)
                &&& match r {
                    Some(v) => old(self)@.contains_key(*k) && v == old(self)@[*k],
                    None => !old(self)@.contains_key(*k),
                }
            },
    {
        self.inner.remove(k)
    }

    /// The number of entries.
    pub fn len(&self) -> (n: usize)
        ensures
            obeys_cmp::<K>() ==> n == self@.len(),
    {
        self.inner.len()
    }

    /// The entries in increasing key order (for keys whose `Ord` is a lawful
    /// total order, as `BTreeMap` itself presumes).
    pub fn iter(&self) -> (entries: Vec<(&K, &V)>)
        requires
            obeys_cmp::<K>(),
        ensures
            entries@.len() == self@.len(),
            forall|i: int| 0 <= i < entries@.len() ==> self@.contains_key(*(#[trigger] entries@[i]).0) && self@[*entries@[i].0] == *entries@[i].1,
            forall|k: K| #[trigger] self@.contains_key(k) ==> (exists|i: int| 0 <= i < entries@.len() && *(#[trigger] entries@[i]).0 == k),
            forall|i: int, j: int| 0 <= i < j < entries@.len() ==> ((#[trigger] entries@[i]).0.cmp_spec(#[trigger] entries@[j].0) is Less),
    {
        let mut out: Vec<(&K, &V)> = Vec::new();
        let ghost full = vstd::std_specs::btree::spec_btree_map_iter(&self.inner).remaining();
        for kv in it: self.inner.iter()
            invariant
                out@ == it.seq().take(it.index()),
                obeys_cmp::<K>(),
                it.seq() == full,
        {
            out.push(kv);
        }
        proof {
            {
                assert(out@ == full);
                let s = full;
                assert forall|k: K| #[trigger] self@.contains_key(k) implies exists|i: int| 0 <= i < out@.len() && *(#[trigger] out@[i]).0 == k by {
                    assert(s.contains((&k, &self@[k])));
                    let i = choose|i: int| 0 <= i < s.len() && s[i] == (&k, &self@[k]);
                    assert(*out@[i].0 == k);
                }
                assert(vstd::std_specs::btree::increasing_seq(s.map_values(|kv: (&K, &V)| *kv.0)));
                assert forall|i: int, j: int| 0 <= i < j < out@.len() implies (#[trigger] out@[i]).0.cmp_spec(#[trigger] out@[j].0) is Less by {
                    let ks = s.map_values(|kv: (&K, &V)| *kv.0);
                    assert(ks[i] == *out@[i].0 && ks[j] == *out@[j].0);
                }
            }
        }
        out
    }
}

/// A task the scheduler can run; it may enqueue further tasks.
pub trait DetTask: Sized {
    fn run(&mut self, scheduler: &mut DetScheduler<Self>) -> Result<(), String>;
}

/// A scheduler that hands out tasks by ascending order key; within one key the
/// most recently queued task comes first.
pub struct DetScheduler<T> {
    pub tick: u64,
    task_queue: BTreeMap<u64, Vec<T>>,
}

impl<T> DetScheduler<T> {
    /// The queued tasks under each key that has any, oldest first.
    pub closed spec fn queue(&self) -> Map<u64, Seq<T>> {
        self.task_queue@.map_values(|v: Vec<T>| v@)
    }

    /// The scheduler's tick counter.
    pub closed spec fn current_tick(&self) -> u64 {
        self.tick
    }

    /// The tasks queued under key `k`, oldest first.
    pub open spec fn tasks(&self, k: u64) -> Seq<T> {
        if self.queue().contains_key(k) {
            self.queue()[k]
        } else {
            Seq::empty()
        }
    }

    /// No key is kept without a task.
    pub open spec fn wf(&self) -> bool {
        forall|k: u64| #[trigger] self.queue().contains_key(k) ==> self.queue()[k].len() > 0
    }

    /// Whether any task is queued.
    pub open spec fn pending(&self) -> bool {
        exists|k: u64| #[trigger] self.tasks(k).len() > 0
    }

    /// A scheduler at tick 0 with nothing queued.
    pub fn new() -> (s: Self)
        ensures
            s.wf(),
            s.current_tick() == 0,
            forall|k: u64| #[trigger] s.tasks(k) == Seq::<T>::empty(),
    {
        let s = DetScheduler { tick: 0, task_queue: BTreeMap::new() };
        assert(s.queue() =~= Map::<u64, Seq<T>>::empty());
        s
    }

    /// Advances the tick, wrapping at `u64::MAX`.
    pub fn step(&mut self)
        ensures
            final(self).current_tick() == (if old(self).current_tick() == u64::MAX { 0 } else { (old(self).current_tick() + 1) as u64 }),
            final(self).queue() == old(self).queue(),
    {
        self.tick = self.tick.wrapping_add(1);
    }

    /// Whether any task is queued.
    pub fn has_pending(&self) -> (r: bool)
        requires
            self.wf(),
        ensures
            r == self.pending(),
    {
        let r = !self.task_queue.is_empty();
        proof {
            if r {
                let k = self.task_queue@.dom().choose();
                assert(self.task_queue@.dom().contains(k));
                assert(self.queue().contains_key(k));
                assert(self.tasks(k).len() > 0);
            } else {
                assert forall|k: u64| #[trigger] self.tasks(k).len() == 0 by {
                    assert(!self.task_queue@.dom().contains(k));
                }
            }
        }
        r
    }

    /// Queues `task` under `order_key`, after the tasks already under that key.
    pub fn enqueue(&mut self, order_key: u64, task: T)
        requires
            old(self).wf(),
        ensures
            final(self).wf(),
            final(self).current_tick() == old(self).current_tick(),
            final(self).tasks(order_key) == old(self).tasks(order_key).push(task),
            forall|k: u64| k != order_key ==> #[trigger] final(self).tasks(k) == old(self).tasks(k),
    {
        broadcast use vstd::std_specs::btree::group_btree_axioms;
        let ghost q0 = self.queue();
        let mut bucket = match self.task_queue.remove(&order_key) {
            Some(b) => b,
            None => Vec::new(),
        };
        assert(bucket@ == old(self).tasks(order_key));
        bucket.push(task);
        self.task_queue.insert(order_key, bucket);
        proof {
            assert(self.queue() =~= q0.insert(order_key, old(self).tasks(order_key).push(task)));
        }
    }

    /// Takes the most recently queued task of the least key that has any.
    pub fn dequeue_next(&mut self) -> (r: Option<T>)
        requires
            old(self).wf(),
        ensures
            final(self).wf(),
            final(self).current_tick() == old(self).current_tick(),
            r is None <==> !old(self).pending(),
            r matches Some(t) ==> exists|k0: u64| {
                &&& old(self).tasks(k0).len() > 0
                &&& t == old(self).tasks(k0).last()
                &&& forall|k: u64| #[trigger] old(self).tasks(k).len() > 0 ==> k0 <= k
                &&& final(self).tasks(k0) == old(self).tasks(k0).drop_last()
                &&& forall|k: u64| k != k0 ==> #[trigger] final(self).tasks(k) == old(self).tasks(k)
            },
            r is None ==> final(self).queue() == old(self).queue(),
    {
        broadcast use vstd::std_specs::btree::group_btree_axioms;
        let ghost q0 = self.queue();
        let ghost m0 = self.task_queue@;
        let mut least: Option<u64> = None;
        let ghost full = vstd::std_specs::btree::spec_btree_map_iter(&self.task_queue).remaining();
        for kv in it: self.task_queue.iter()
            invariant
                it.seq() == full,
                full.len() == m0.dom().len(),
                forall|i: int| 0 <= i < full.len() ==> m0.contains_key(*(#[trigger] full[i]).0),
                self.task_queue@ == m0,
                match least {
                    None => it.index() == 0,
                    Some(l) => {
                        &&& m0.contains_key(l)
                        &&& forall|i: int| 0 <= i < it.index() ==> l <= *(#[trigger] full[i]).0
                    },
                },
        {
            let k = *kv.0;
            least = match least {
                None => Some(k),
                Some(l) => if k < l { Some(k) } else { Some(l) },
            };
        }
        match least {
            None => {
                proof {
                    assert(m0.dom().len() == 0);
                    assert forall|k: u64| #[trigger] old(self).tasks(k).len() == 0 by {
                        if m0.contains_key(k) {
                            assert(m0.dom().contains(k));
                            vstd::std_specs::btree::axiom_btree_map_view_finite_dom(self.task_queue);
                        }
                    }
                }
                None
            },
            Some(key) => {
                proof {
                    assert forall|k: u64| #[trigger] old(self).tasks(k).len() > 0 implies key <= k by {
                        assert(m0.contains_key(k));
                        assert(full.contains((&k, &m0[k])));
                        let i = choose|i: int| 0 <= i < full.len() && full[i] == (&k, &m0[k]);
                        assert(*full[i].0 == k);
                    }
                }
                let mut bucket = match self.task_queue.remove(&key) {
                    Some(b) => b,
                    None => Vec::new(),
                };
                assert(bucket@ == old(self).tasks(key));
                assert(old(self).tasks(key).len() > 0);
                let t = bucket.pop();
                if bucket.len() > 0 {
                    self.task_queue.insert(key, bucket);
                    proof {
                        assert(self.queue() =~= q0.insert(key, old(self).tasks(key).drop_last()));
                    }
                } else {
                    proof {
                        assert(self.queue() =~= q0.remove(key));
                        assert(self.tasks(key) =~= old(self).tasks(key).drop_last());
                    }
                }
                proof {
                    assert(self.tasks(key) == old(self).tasks(key).drop_last());
                    assert(forall|k: u64| k != key ==> #[trigger] self.tasks(k) == old(self).tasks(k));
                    assert(t == Some(old(self).tasks(key).last()));
                }
                t
            },
        }
    }
}

/// A caller-supplied canonical time value in milliseconds.
#[derive(Debug, Clone, Copy, PartialEq, Eq, PartialOrd, Ord, Structural)]
pub struct DetTime(pub u128);

impl DetTime {
    pub fn from_millis(ms: u128) -> (t: Self)
        ensures
            t.0 == ms,
    {
        DetTime(ms)
    }

    pub fn as_millis(&self) -> (ms: u128)
        ensures
            ms == self.0,
    {
        self.0
    }

    /// The time marker of a clock reading (nanoseconds since the Unix epoch, `None`
    /// before the epoch): whole milliseconds, or 0 when there is no reading.
    pub fn from_clock_reading(reading: Option<u128>) -> (t: Self)
        ensures
            t.0 == (match reading {
                Some(ns) => ns / 1_000_000,
                None => 0,
            }),
    {
        match reading {
            Some(ns) => DetTime(ns / 1_000_000),
            None => DetTime(0),
        }
    }

    /// A canonical time marker read from the host clock at an execution entry
    /// point: the host clock read once and passed through `from_clock_reading`.
    /// The value depends on the host clock.
    pub fn canonical_now_ms() -> (t: Self) {
        Self::from_clock_reading(crate::clock::clock_reading(crate::clock::unix_time_nanos()))
    }
}

/// The additive constant applied to a seed.
pub const RNG_SEED_OFFSET: u64 = 0x9E3779B97F4A7C15;

/// The state used in place of a zero seed state.
pub const RNG_ZERO_REPLACEMENT: u64 = 0x6A09E667F3BCC909;

/// The output multiplier of xorshift64*.
pub const RNG_MULTIPLIER: u64 = 0x2545F4914F6CDD1D;

/// The initial state for a seed: `seed + offset` (wrapping), with zero replaced.
pub open spec fn seed_state(seed: u64) -> u64 {
    let s = vstd::wrapping::u64_specs::wrapping_add(seed, RNG_SEED_OFFSET);
    if s == 0 {
        RNG_ZERO_REPLACEMENT
    } else {
        s
    }
}

/// One xorshift step: shifts by 12 right, 25 left and 27 right.
pub open spec fn xorshift_step(x: u64) -> u64 {
    let a = x ^ (x >> 12u64);
    let b = a ^ (a << 25u64);
    b ^ (b >> 27u64)
}

/// The value drawn from a state: the state times the multiplier, wrapping.
pub open spec fn rng_output(x: u64) -> u64 {
    vstd::wrapping::u64_specs::wrapping_mul(x, RNG_MULTIPLIER)
}

/// A small deterministic generator (xorshift64*). Not cryptographically secure.
#[derive(Debug, Clone)]
pub struct DetRng {
    state: u64,
}

impl DetRng {
    pub closed spec fn state_of(&self) -> u64 {
        self.state
    }

    /// A generator whose state is determined by `seed` alone.
    pub fn seeded(seed: u64) -> (r: Self)
        ensures
            r.state_of() == seed_state(seed),
            r.state_of() != 0,
    {
        let mut s = seed.wrapping_add(RNG_SEED_OFFSET);
        if s == 0 {
            s = RNG_ZERO_REPLACEMENT;
        }
        DetRng { state: s }
    }

    /// Advances the state by one xorshift step and returns the new state times
    /// the multiplier.
    pub fn next_u64(&mut self) -> (v: u64)
        ensures
            final(self).state_of() == xorshift_step(old(self).state_of()),
            v == rng_output(final(self).state_of()),
    {
        let mut x = self.state;
        x = x ^ (x >> 12u64);
        x = x ^ (x << 25u64);
        x = x ^ (x >> 27u64);
        self.state = x;
        x.wrapping_mul(RNG_MULTIPLIER)
    }

    /// The high 32 bits of the next 64-bit draw.
    pub fn next_u32(&mut self) -> (v: u32)
        ensures
            final(self).state_of() == xorshift_step(old(self).state_of()),
            v == (rng_output(final(self).state_of()) >> 32u64) as u32,
    {
        let x = self.next_u64();
        (x >> 32u64) as u32
    }
}

/// The xorshift step never reaches the all-zero state from a non-zero one, so a
/// seeded generator never gets stuck at zero.
pub proof fn lemma_xorshift_nonzero(x: u64)
    requires
        x != 0,
    ensures
        xorshift_step(x) != 0,
{
    assert(x != 0 ==> (x ^ (x >> 12u64)) != 0) by (bit_vector);
    let a = x ^ (x >> 12u64);
    assert(a != 0 ==> (a ^ (a << 25u64)) != 0) by (bit_vector);
    let b = a ^ (a << 25u64);
    assert(b != 0 ==> (b ^ (b >> 27u64)) != 0) by (bit_vector);
}

} // verus!
