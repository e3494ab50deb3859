//! The admission limiter: how many jobs may be at work at once, in all and
//! per registry.
//!
//! A job enters the limiter by taking one of the global permits. Holding it,
//! the job starts work by taking one of the permits of its registry; the
//! pool of a registry comes into being when a job first asks for it. When
//! the work ends the job gives both permits back together.

use vstd::prelude::*;
use crate::text::same_text;

verus! {

/// The permits of one registry: its key and how many of them are taken.
pub struct RegistryPool {
    key: String,
    in_use: usize,
}

/// The mathematical content of a [`RegistryPool`].
pub struct PoolView {
    pub key: Seq<char>,
    pub in_use: nat,
}

/// The mathematical content of an [`AdmissionGate`]: the two limits, the
/// number of global permits taken, and the pools in the order in which
/// they came into being.
pub struct GateView {
    pub global_limit: nat,
    pub per_key_limit: nat,
    pub global_in_use: nat,
    pub pools: Seq<PoolView>,
}

/// What the limiter says to a job that asks to start work.
#[derive(Clone, Copy, Debug, PartialEq, Eq, Structural)]
pub enum Admission {
    /// The job holds a permit of its registry and may work.
    Granted,
    /// All permits of the registry are taken; the job keeps waiting.
    Busy,
    /// No job that has entered the limiter is waiting to start.
    NotEntered,
}

/// The limiter itself.
pub struct AdmissionGate {
    global_limit: usize,
    per_key_limit: usize,
    global_in_use: usize,
    pools: Vec<RegistryPool>,
}

impl View for RegistryPool {
    type V = PoolView;

    closed spec fn view(&self) -> PoolView {
        PoolView { key: self.key@, in_use: self.in_use as nat }
    }
}

impl View for AdmissionGate {
    type V = GateView;

    closed spec fn view(&self) -> GateView {
        GateView {
            global_limit: self.global_limit as nat,
            per_key_limit: self.per_key_limit as nat,
            global_in_use: self.global_in_use as nat,
            pools: Seq::new(self.pools@.len(), |i: int| self.pools@[i]@),
        }
    }
}

// ----------------------------------------------------------------- model

/// Position of the first pool at or after `from` whose key is `key`.
pub open spec fn pool_index_from(pools: Seq<PoolView>, key: Seq<char>, from: int) -> Option<int>
    decreases pools.len() - from,
{
    if from < 0 || from >= pools.len() {
        None
    } else if pools[from].key == key {
        Some(from)
    } else {
        pool_index_from(pools, key, from + 1)
    }
}

/// Position of the pool of `key`, if it has come into being.
pub open spec fn pool_index(pools: Seq<PoolView>, key: Seq<char>) -> Option<int> {
    pool_index_from(pools, key, 0)
}

/// How many permits of `key` are taken; none where the pool has not come
/// into being.
pub open spec fn in_use(g: GateView, key: Seq<char>) -> nat {
    match pool_index(g.pools, key) {
        Some(i) => g.pools[i].in_use,
        None => 0,
    }
}

/// How many permits are taken in the first `n` pools together.
pub open spec fn total_in_use(pools: Seq<PoolView>, n: int) -> nat
    decreases n,
{
    if n <= 0 || n > pools.len() {
        0
    } else {
        total_in_use(pools, n - 1) + pools[n - 1].in_use
    }
}

/// How many jobs are at work: each holds one permit of its registry.
pub open spec fn executing(g: GateView) -> nat {
    total_in_use(g.pools, g.pools.len() as int)
}

/// How many jobs have entered the limiter and wait to start work.
pub open spec fn waiting(g: GateView) -> int {
    g.global_in_use - executing(g)
}

/// What holds of every limiter: no more global permits are taken than there
/// are, no pool has more permits taken than a registry has, every job at
/// work holds a global permit, and no registry has two pools.
pub open spec fn gate_wf(g: GateView) -> bool {
    &&& g.global_in_use <= g.global_limit
    &&& executing(g) <= g.global_in_use
    &&& forall|i: int| 0 <= i < g.pools.len() ==> (#[trigger] g.pools[i]).in_use <= g.per_key_limit
    &&& forall|i: int, j: int|
        0 <= i < j < g.pools.len() ==> (#[trigger] g.pools[i]).key != (#[trigger] g.pools[j]).key
}

/// The limiter once the pool of `key` has come into being, with no permit
/// taken; a pool that is there stays as it is.
pub open spec fn pool_step(g: GateView, key: Seq<char>) -> GateView {
    if pool_index(g.pools, key) is Some {
        g
    } else {
        GateView { pools: g.pools.push(PoolView { key, in_use: 0 }), ..g }
    }
}

/// Whether a job that asks to enter gets a global permit.
pub open spec fn may_enter(g: GateView) -> bool {
    g.global_in_use < g.global_limit
}

/// The limiter after a job asked to enter.
pub open spec fn enter_step(g: GateView) -> GateView {
    if may_enter(g) {
        GateView { global_in_use: g.global_in_use + 1, ..g }
    } else {
        g
    }
}

/// What the limiter says to a job that asks to start work at `key`.
pub open spec fn start_answer(g: GateView, key: Seq<char>) -> Admission {
    if waiting(g) <= 0 {
        Admission::NotEntered
    } else if in_use(g, key) >= g.per_key_limit {
        Admission::Busy
    } else {
        Admission::Granted
    }
}

/// The limiter with one permit more (`delta` 1) or less (`delta` -1) taken in
/// the pool at position `i`.
pub open spec fn with_pool_change(g: GateView, i: int, delta: int) -> GateView {
    GateView {
        pools: g.pools.update(
            i,
            PoolView { key: g.pools[i].key, in_use: (g.pools[i].in_use + delta) as nat },
        ),
        ..g
    }
}

/// The limiter after a job asked to start work at `key`: the pool of the key
/// has come into being, and one of its permits is taken if the answer is
/// `Granted`.
pub open spec fn start_step(g: GateView, key: Seq<char>) -> GateView {
    let made = pool_step(g, key);
    if start_answer(g, key) == Admission::Granted {
        with_pool_change(made, pool_index(made.pools, key)->0, 1)
    } else {
        made
    }
}

/// Whether a job at work at `key` can be found to finish.
pub open spec fn may_finish(g: GateView, key: Seq<char>) -> bool {
    in_use(g, key) > 0
}

/// The limiter after a job at work at `key` finished: both its permits are
/// free again.
pub open spec fn finish_step(g: GateView, key: Seq<char>) -> GateView {
    if may_finish(g, key) {
        let freed = with_pool_change(g, pool_index(g.pools, key)->0, -1);
        GateView { global_in_use: (g.global_in_use - 1) as nat, ..freed }
    } else {
        g
    }
}

/// Whether a job that waits to start can be found to leave.
pub open spec fn may_leave(g: GateView) -> bool {
    waiting(g) > 0
}

/// The limiter after a job that waited to start left without working: its
/// global permit is free again.
pub open spec fn leave_step(g: GateView) -> GateView {
    if may_leave(g) {
        GateView { global_in_use: (g.global_in_use - 1) as nat, ..g }
    } else {
        g
    }
}

// ---------------------------------------------------------------- lemmas

/// Where `pool_index_from` finds a pool, the pool has the key and no pool
/// between `from` and it has; where it finds none, none from `from` on has.
pub proof fn lemma_pool_index_from(pools: Seq<PoolView>, key: Seq<char>, from: int)
    requires
        0 <= from <= pools.len(),
    ensures
        match pool_index_from(pools, key, from) {
            Some(i) => from <= i < pools.len() && pools[i].key == key && forall|k: int|
                from <= k < i ==> (#[trigger] pools[k]).key != key,
            None => forall|k: int| from <= k < pools.len() ==> (#[trigger] pools[k]).key != key,
        },
    decreases pools.len() - from,
{
    if from < pools.len() && pools[from].key != key {
        lemma_pool_index_from(pools, key, from + 1);
    }
}

/// Lookups by key depend on the keys alone.
pub proof fn lemma_pool_index_same_keys(
    a: Seq<PoolView>,
    b: Seq<PoolView>,
    key: Seq<char>,
    from: int,
)
    requires
        a.len() <= b.len(),
        forall|k: int| 0 <= k < a.len() ==> (#[trigger] a[k]).key == (#[trigger] b[k]).key,
        pool_index_from(a, key, from) is Some || a.len() == b.len(),
    ensures
        pool_index_from(a, key, from) == pool_index_from(b, key, from),
    decreases a.len() - from,
{
    if 0 <= from < a.len() {
        assert(a[from].key == b[from].key);
        if a[from].key != key {
            lemma_pool_index_same_keys(a, b, key, from + 1);
        }
    }
}

/// The total changes by what the one pool changes by.
pub proof fn lemma_total_after_change(pools: Seq<PoolView>, i: int, p: PoolView, n: int)
    requires
        0 <= i < pools.len(),
        0 <= n <= pools.len(),
    ensures
        total_in_use(pools.update(i, p), n) == if i < n {
            total_in_use(pools, n) - pools[i].in_use + p.in_use
        } else {
            total_in_use(pools, n) as int
        },
    decreases n,
{
    if n > 0 {
        lemma_total_after_change(pools, i, p, n - 1);
    }
}

/// A new pool leaves the total of the pools before it as it was.
pub proof fn lemma_total_before_push(pools: Seq<PoolView>, p: PoolView, n: int)
    requires
        0 <= n <= pools.len(),
    ensures
        total_in_use(pools.push(p), n) == total_in_use(pools, n),
    decreases n,
{
    if n > 0 {
        lemma_total_before_push(pools, p, n - 1);
    }
}

/// A new pool adds its permits to the total.
pub proof fn lemma_total_after_push(pools: Seq<PoolView>, p: PoolView)
    ensures
        total_in_use(pools.push(p), (pools.len() + 1) as int) == total_in_use(
            pools,
            pools.len() as int,
        ) + p.in_use,
{
    lemma_total_before_push(pools, p, pools.len() as int);
    assert(pools.push(p)[pools.len() as int] == p);
}

/// No pool holds more permits than all pools together.
pub proof fn lemma_pool_within_total(pools: Seq<PoolView>, i: int, n: int)
    requires
        0 <= i < n <= pools.len(),
    ensures
        pools[i].in_use <= total_in_use(pools, n),
    decreases n,
{
    if i < n - 1 {
        lemma_pool_within_total(pools, i, n - 1);
    }
}

/// Bringing a pool into being keeps the limiter well formed, and leaves the
/// permits taken of every key, and the number of jobs at work, as they
/// were.
pub proof fn lemma_pool_step(g: GateView, key: Seq<char>)
    requires
        gate_wf(g),
    ensures
        gate_wf(pool_step(g, key)),
        pool_index(pool_step(g, key).pools, key) is Some,
        executing(pool_step(g, key)) == executing(g),
        forall|k: Seq<char>| in_use(pool_step(g, key), k) == in_use(g, k),
{
    let t = pool_step(g, key);
    lemma_pool_index_from(g.pools, key, 0);
    lemma_pool_index_from(t.pools, key, 0);
    if pool_index(g.pools, key) is None {
        let n = g.pools.len() as int;
        lemma_total_after_push(g.pools, PoolView { key, in_use: 0 });
        assert(t.pools[n].key == key);
        assert forall|i: int, j: int| 0 <= i < j < t.pools.len() implies (
        #[trigger] t.pools[i]).key != (#[trigger] t.pools[j]).key by {
            if j < n {
                assert(g.pools[i].key != g.pools[j].key);
            } else {
                assert(g.pools[i].key != key);
            }
        }
        assert forall|i: int| 0 <= i < t.pools.len() implies (#[trigger] t.pools[i]).in_use
            <= t.per_key_limit by {
            if i < n {
                assert(g.pools[i].in_use <= g.per_key_limit);
            }
        }
        assert forall|k: Seq<char>| in_use(t, k) == in_use(g, k) by {
            lemma_pool_index_from(g.pools, k, 0);
            lemma_pool_index_from(t.pools, k, 0);
            if pool_index(g.pools, k) is Some {
                lemma_pool_index_same_keys(g.pools, t.pools, k, 0);
            } else if pool_index(t.pools, k) is Some {
                let w = pool_index(t.pools, k)->0;
                if w < n {
                    assert(g.pools[w].key != k);
                }
            }
        }
    }
}

/// Changing the permits taken in one pool changes the permits taken of its
/// key and of no other, and the number of jobs at work by as much.
pub proof fn lemma_pool_change(g: GateView, i: int, delta: int)
    requires
        gate_wf(g),
        0 <= i < g.pools.len(),
        g.pools[i].in_use + delta >= 0,
    ensures
        executing(with_pool_change(g, i, delta)) == executing(g) + delta,
        in_use(with_pool_change(g, i, delta), g.pools[i].key) == g.pools[i].in_use + delta,
        in_use(g, g.pools[i].key) == g.pools[i].in_use,
        forall|k: Seq<char>|
            k != g.pools[i].key ==> in_use(with_pool_change(g, i, delta), k) == in_use(g, k),
        forall|a: int, b: int|
            0 <= a < b < g.pools.len() ==> (#[trigger] with_pool_change(g, i, delta).pools[a]).key
                != (#[trigger] with_pool_change(g, i, delta).pools[b]).key,
{
    let t = with_pool_change(g, i, delta);
    lemma_total_after_change(g.pools, i, t.pools[i], g.pools.len() as int);
    assert forall|a: int, b: int| 0 <= a < b < g.pools.len() implies (#[trigger] t.pools[a]).key
        != (#[trigger] t.pools[b]).key by {
        assert(g.pools[a].key != g.pools[b].key);
    }
    assert forall|k: Seq<char>| true implies pool_index(t.pools, k) == pool_index(g.pools, k) by {
        lemma_pool_index_same_keys(g.pools, t.pools, k, 0);
    }
    lemma_pool_index_from(g.pools, g.pools[i].key, 0);
    let found = pool_index(g.pools, g.pools[i].key)->0;
    if found < i {
        assert(g.pools[found].key != g.pools[i].key);
    }
    assert forall|k: Seq<char>| k != g.pools[i].key implies in_use(t, k) == in_use(g, k) by {
        lemma_pool_index_from(g.pools, k, 0);
    }
}

/// The total of the first pools is no more than the total of all.
pub proof fn lemma_total_grows(pools: Seq<PoolView>, i: int, n: int)
    requires
        0 <= i <= n <= pools.len(),
    ensures
        total_in_use(pools, i) <= total_in_use(pools, n),
    decreases n - i,
{
    if i < n {
        lemma_total_grows(pools, i, n - 1);
    }
}

// ------------------------------------------------------------------ limiter

impl AdmissionGate {
    /// Whether the limiter is well formed; every operation keeps it so.
    pub open spec fn wf(&self) -> bool {
        gate_wf(self@)
    }

    /// A limiter with `global_limit` permits in all and `per_key_limit`
    /// permits for each registry, none of them taken and no pool yet.
    pub fn new(global_limit: usize, per_key_limit: usize) -> (gate: AdmissionGate)
        ensures
            gate.wf(),
            gate@ == (GateView {
                global_limit: global_limit as nat,
                per_key_limit: per_key_limit as nat,
                global_in_use: 0,
                pools: Seq::empty(),
            }),
    {
        let gate = AdmissionGate {
            global_limit,
            per_key_limit,
            global_in_use: 0,
            pools: Vec::new(),
        };
        assert(gate@.pools =~= Seq::<PoolView>::empty());
        gate
    }

    /// The number of global permits.
    pub fn global_limit(&self) -> (n: usize)
        ensures
            n == self@.global_limit,
    {
        self.global_limit
    }

    /// The number of permits of each registry.
    pub fn per_key_limit(&self) -> (n: usize)
        ensures
            n == self@.per_key_limit,
    {
        self.per_key_limit
    }

    /// How many global permits are taken.
    pub fn entered(&self) -> (n: usize)
        ensures
            n == self@.global_in_use,
    {
        self.global_in_use
    }

    /// How many pools have come into being.
    pub fn pool_count(&self) -> (n: usize)
        ensures
            n == self@.pools.len(),
    {
        self.pools.len()
    }

    /// Position of the pool of `key`.
    fn find_pool(&self, key: &str) -> (r: Option<usize>)
        ensures
            match r {
                Some(i) => pool_index(self@.pools, key@) == Some(i as int) && i < self@.pools.len(),
                None => pool_index(self@.pools, key@) is None,
            },
    {
        let mut i: usize = 0;
        while i < self.pools.len()
            invariant
                i <= self.pools.len(),
                pool_index(self@.pools, key@) == pool_index_from(self@.pools, key@, i as int),
            decreases self.pools.len() - i,
        {
            if same_text(self.pools[i].key.as_str(), key) {
                return Some(i);
            }
            i = i + 1;
        }
        None
    }

    /// How many permits of `key` are taken.
    pub fn permits_in_use(&self, key: &str) -> (n: usize)
        ensures
            n == in_use(self@, key@),
    {
        match self.find_pool(key) {
            Some(i) => self.pools[i].in_use,
            None => 0,
        }
    }

    /// How many jobs are at work.
    pub fn at_work(&self) -> (n: usize)
        requires
            self.wf(),
        ensures
            n == executing(self@),
            n <= self@.global_in_use,
    {
        let mut n: usize = 0;
        let mut i: usize = 0;
        while i < self.pools.len()
            invariant
                i <= self.pools.len(),
                self.wf(),
                n == total_in_use(self@.pools, i as int),
            decreases self.pools.len() - i,
        {
            proof {
                lemma_total_grows(self@.pools, i + 1, self@.pools.len() as int);
            }
            n = n + self.pools[i].in_use;
            i = i + 1;
        }
        n
    }

    /// The pool of `registry`, brought into being with no permit taken if
    /// it is not there yet. Returns its position among the pools; a pool
    /// never changes its position.
    pub fn get_or_create_reg_sem(&mut self, registry: &str) -> (at: usize)
        requires
            old(self).wf(),
        ensures
            final(self).wf(),
            final(self)@ == pool_step(old(self)@, registry@),
            pool_index(final(self)@.pools, registry@) == Some(at as int),
            at < final(self)@.pools.len(),
    {
        proof {
            lemma_pool_step(self@, registry@);
        }
        match self.find_pool(registry) {
            Some(i) => i,
            None => {
                let at = self.pools.len();
                self.pools.push(RegistryPool { key: registry.to_owned(), in_use: 0 });
                assert(self@.pools =~= old(self)@.pools.push(
                    PoolView { key: registry@, in_use: 0 },
                ));
                proof {
                    lemma_pool_index_from(self@.pools, registry@, 0);
                    lemma_pool_index_from(old(self)@.pools, registry@, 0);
                    let found = pool_index(self@.pools, registry@)->0;
                    if found < at {
                        assert(old(self)@.pools[found].key != registry@);
                    }
                }
                at
            },
        }
    }

    /// Takes one permit more in the pool at position `i`, or gives one back.
    fn change_pool(&mut self, i: usize, up: bool)
        requires
            i < old(self)@.pools.len(),
            up ==> old(self)@.pools[i as int].in_use < usize::MAX,
            !up ==> old(self)@.pools[i as int].in_use > 0,
        ensures
            final(self)@ == with_pool_change(
                old(self)@,
                i as int,
                if up {
                    1int
                } else {
                    -1int
                },
            ),
    {
        let key = self.pools[i].key.clone();
        let n = self.pools[i].in_use;
        let m = if up {
            n + 1
        } else {
            n - 1
        };
        self.pools.set(i, RegistryPool { key, in_use: m });
        assert(self@.pools =~= with_pool_change(
            old(self)@,
            i as int,
            if up {
                1int
            } else {
                -1int
            },
        ).pools);
    }

    /// A job asks to enter. It gets a global permit if one is free, and
    /// `true`; otherwise nothing changes.
    pub fn try_enter(&mut self) -> (granted: bool)
        requires
            old(self).wf(),
        ensures
            final(self).wf(),
            granted == may_enter(old(self)@),
            final(self)@ == enter_step(old(self)@),
    {
        if self.global_in_use < self.global_limit {
            self.global_in_use = self.global_in_use + 1;
            assert(self@.pools =~= old(self)@.pools);
            true
        } else {
            false
        }
    }

    /// A job that has entered asks to start work at `key`. The pool of the
    /// key comes into being if it is not there. The job gets one of its
    /// permits if one is free; if none is, it keeps waiting. Where no job
    /// waits to start, the answer is `NotEntered`.
    pub fn try_start(&mut self, key: &str) -> (answer: Admission)
        requires
            old(self).wf(),
        ensures
            final(self).wf(),
            answer == start_answer(old(self)@, key@),
            final(self)@ == start_step(old(self)@, key@),
    {
        let working = self.at_work();
        let at = self.get_or_create_reg_sem(key);
        proof {
            lemma_pool_step(old(self)@, key@);
            assert(in_use(self@, key@) == in_use(old(self)@, key@));
        }
        if working >= self.global_in_use {
            Admission::NotEntered
        } else if self.pools[at].in_use >= self.per_key_limit {
            Admission::Busy
        } else {
            proof {
                lemma_pool_change(self@, at as int, 1);
            }
            let ghost made = self@;
            self.change_pool(at, true);
            proof {
                assert forall|i: int| 0 <= i < self@.pools.len() implies (
                #[trigger] self@.pools[i]).in_use <= self@.per_key_limit by {
                    if i != at {
                        assert(made.pools[i].in_use <= made.per_key_limit);
                    }
                }
            }
            Admission::Granted
        }
    }

    /// A job at work at `key` finishes, whatever the outcome: its permit of
    /// the registry and its global permit are free again. Where no job is
    /// at work at `key` nothing changes and the answer is `false`.
    pub fn finish(&mut self, key: &str) -> (done: bool)
        requires
            old(self).wf(),
        ensures
            final(self).wf(),
            done == may_finish(old(self)@, key@),
            final(self)@ == finish_step(old(self)@, key@),
    {
        match self.find_pool(key) {
            None => false,
            Some(at) => {
                if self.pools[at].in_use == 0 {
                    false
                } else {
                    proof {
                        lemma_pool_change(self@, at as int, -1);
                        lemma_pool_within_total(self@.pools, at as int, self@.pools.len() as int);
                    }
                    let ghost before = self@;
                    self.change_pool(at, false);
                    self.global_in_use = self.global_in_use - 1;
                    proof {
                        assert(self@.pools =~= with_pool_change(before, at as int, -1).pools);
                        assert forall|i: int| 0 <= i < self@.pools.len() implies (
                        #[trigger] self@.pools[i]).in_use <= self@.per_key_limit by {
                            assert(before.pools[i].in_use <= before.per_key_limit);
                        }
                    }
                    true
                }
            },
        }
    }

    /// A job that has entered and waits to start leaves without working:
    /// its global permit is free again. Where no job waits nothing changes
    /// and the answer is `false`.
    pub fn leave(&mut self) -> (done: bool)
        requires
            old(self).wf(),
        ensures
            final(self).wf(),
            done == may_leave(old(self)@),
            final(self)@ == leave_step(old(self)@),
    {
        let working = self.at_work();
        if working < self.global_in_use {
            self.global_in_use = self.global_in_use - 1;
            assert(self@.pools =~= old(self)@.pools);
            true
        } else {
            false
        }
    }
}

// ------------------------------------------------------------------ laws

/// The bounds of the limiter: in a well-formed limiter no more jobs are at work
/// than there are global permits, and no more are at work at one registry
/// than a registry has permits.
pub proof fn law_gate_bounds(g: GateView, key: Seq<char>)
    requires
        gate_wf(g),
    ensures
        executing(g) <= g.global_in_use <= g.global_limit,
        in_use(g, key) <= g.per_key_limit,
        in_use(g, key) <= executing(g),
{
    lemma_pool_index_from(g.pools, key, 0);
    if pool_index(g.pools, key) is Some {
        lemma_pool_within_total(g.pools, pool_index(g.pools, key)->0, g.pools.len() as int);
    }
}

/// Every step keeps the limiter well formed, and with it its bounds.
pub proof fn law_steps_keep_gate_wf(g: GateView, key: Seq<char>)
    requires
        gate_wf(g),
    ensures
        gate_wf(pool_step(g, key)),
        gate_wf(enter_step(g)),
        gate_wf(start_step(g, key)),
        gate_wf(finish_step(g, key)),
        gate_wf(leave_step(g)),
{
    lemma_pool_step(g, key);
    let made = pool_step(g, key);
    lemma_pool_index_from(made.pools, key, 0);
    if start_answer(g, key) == Admission::Granted {
        let at = pool_index(made.pools, key)->0;
        lemma_pool_change(made, at, 1);
        let t = with_pool_change(made, at, 1);
        assert forall|i: int| 0 <= i < t.pools.len() implies (#[trigger] t.pools[i]).in_use
            <= t.per_key_limit by {
            if i != at {
                assert(made.pools[i].in_use <= made.per_key_limit);
            }
        }
    }
    if may_finish(g, key) {
        lemma_pool_index_from(g.pools, key, 0);
        let at = pool_index(g.pools, key)->0;
        lemma_pool_change(g, at, -1);
        let t = finish_step(g, key);
        assert(t.pools == with_pool_change(g, at, -1).pools);
        assert forall|i: int| 0 <= i < t.pools.len() implies (#[trigger] t.pools[i]).in_use
            <= t.per_key_limit by {
            assert(g.pools[i].in_use <= g.per_key_limit);
        }
    }
}

/// Jobs at different registries do not contend: a job that starts or
/// finishes at one key leaves the permits taken of every other key as they
/// were.
pub proof fn law_keys_do_not_contend(g: GateView, key: Seq<char>, other: Seq<char>)
    requires
        gate_wf(g),
        other != key,
    ensures
        in_use(start_step(g, key), other) == in_use(g, other),
        in_use(finish_step(g, key), other) == in_use(g, other),
{
    lemma_pool_step(g, key);
    let made = pool_step(g, key);
    lemma_pool_index_from(made.pools, key, 0);
    if start_answer(g, key) == Admission::Granted {
        lemma_pool_change(made, pool_index(made.pools, key)->0, 1);
    }
    if may_finish(g, key) {
        lemma_pool_index_from(g.pools, key, 0);
        let at = pool_index(g.pools, key)->0;
        lemma_pool_change(g, at, -1);
        assert(finish_step(g, key).pools == with_pool_change(g, at, -1).pools);
    }
}

/// Finishing frees both permits: where a job is at work at `key`, its
/// finishing leaves one job less at work, one permit less taken at `key`
/// and one global permit less taken.
pub proof fn law_finish_frees(g: GateView, key: Seq<char>)
    requires
        gate_wf(g),
        may_finish(g, key),
    ensures
        in_use(finish_step(g, key), key) == in_use(g, key) - 1,
        executing(finish_step(g, key)) == executing(g) - 1,
        finish_step(g, key).global_in_use == g.global_in_use - 1,
        g.global_in_use >= 1,
{
    lemma_pool_index_from(g.pools, key, 0);
    let at = pool_index(g.pools, key)->0;
    lemma_pool_change(g, at, -1);
    lemma_pool_within_total(g.pools, at, g.pools.len() as int);
    assert(finish_step(g, key).pools == with_pool_change(g, at, -1).pools);
}

/// Taking and giving back: a job that is granted a start and then finishes
/// leaves the number of jobs at work, and the permits taken of its key, as
/// they were before it started, and one global permit more free.
pub proof fn law_start_then_finish(g: GateView, key: Seq<char>)
    requires
        gate_wf(g),
        start_answer(g, key) == Admission::Granted,
    ensures
        in_use(start_step(g, key), key) == in_use(g, key) + 1,
        executing(start_step(g, key)) == executing(g) + 1,
        may_finish(start_step(g, key), key),
        in_use(finish_step(start_step(g, key), key), key) == in_use(g, key),
        executing(finish_step(start_step(g, key), key)) == executing(g),
        finish_step(start_step(g, key), key).global_in_use == g.global_in_use - 1,
{
    lemma_pool_step(g, key);
    let made = pool_step(g, key);
    lemma_pool_index_from(made.pools, key, 0);
    let at = pool_index(made.pools, key)->0;
    lemma_pool_change(made, at, 1);
    let started = start_step(g, key);
    law_steps_keep_gate_wf(g, key);
    lemma_pool_index_from(started.pools, key, 0);
    let again = pool_index(started.pools, key)->0;
    lemma_pool_change(started, again, -1);
    assert(finish_step(started, key).pools == with_pool_change(started, again, -1).pools);
}

} // verus!
