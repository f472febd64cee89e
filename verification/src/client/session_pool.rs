//! Idle sessions kept for reuse by the client.
use vstd::prelude::*;
use std::collections::BTreeMap;
use std::time::Duration;
use tokio::time::Instant;
use vstd::std_specs::btree::spec_btree_map_iter;
use vstd::std_specs::cmp::OrdSpec;
use vstd::std_specs::iter::IteratorSpec;

verus! {

broadcast use vstd::std_specs::btree::group_btree_axioms;

/// Keys of type `u64` are ordered as integers are.
proof fn lemma_u64_keys_ordered()
    ensures
        vstd::std_specs::btree::key_obeys_cmp_spec::<u64>(),
        vstd::laws_cmp::obeys_cmp::<u64>(),
{
    broadcast use vstd::laws_cmp::group_laws_cmp;
}

/// A sequence of `u64` keys that a map hands out in increasing order is strictly
/// increasing as integers.
proof fn lemma_u64_increasing(s: Seq<u64>)
    requires
        vstd::std_specs::btree::increasing_seq(s),
    ensures
        forall|i: int, j: int| 0 <= i < j < s.len() ==> s[i] < s[j],
{
    broadcast use vstd::laws_cmp::group_laws_cmp;

    vstd::std_specs::btree::axiom_increasing_seq_meaning(s);
    assert forall|i: int, j: int| 0 <= i < j < s.len() implies s[i] < s[j] by {
        assert(s[i].cmp_spec(&s[j]) is Less);
    }
}

/// `ks` lists the keys of `m` once each, in strictly increasing order.
pub open spec fn is_key_order<V>(m: Map<u64, V>, ks: Seq<u64>) -> bool {
    &&& ks.to_set() == m.dom()
    &&& ks.no_duplicates()
    &&& ks.len() == m.dom().len()
    &&& forall|i: int, j: int| 0 <= i < j < ks.len() ==> ks[i] < ks[j]
}

/// The keys that a map hands out, in order, list its keys in increasing order.
proof fn lemma_handed_out_keys<V>(m: &BTreeMap<u64, V>, all: Seq<(&u64, &V)>)
    requires
        all == spec_btree_map_iter(m).remaining(),
        vstd::std_specs::btree::increasing_seq(all.map_values(|kv: (&u64, &V)| *kv.0)),
    ensures
        is_key_order(m@, all.map_values(|kv: (&u64, &V)| *kv.0)),
{
    lemma_u64_keys_ordered();
    let keys = all.map_values(|kv: (&u64, &V)| *kv.0);
    lemma_u64_increasing(keys);
    assert forall|k: u64| keys.to_set().contains(k) <==> m@.dom().contains(k) by {
        if keys.contains(k) {
            let i = choose|i: int| 0 <= i < keys.len() && keys[i] == k;
            assert(m@.contains_key(*all[i].0));
        }
        if m@.contains_key(k) {
            assert(all.contains((&k, &m@[k])));
            let i = choose|i: int| 0 <= i < all.len() && all[i] == (&k, &m@[k]);
            assert(keys[i] == k);
        }
    }
    assert(keys.to_set() =~= m@.dom());
}

/// The keys of a map, in increasing order.
fn sorted_keys<V>(m: &BTreeMap<u64, V>) -> (ks: Vec<u64>)
    ensures
        is_key_order(m@, ks@),
{
    let mut ks: Vec<u64> = Vec::new();
    let ghost all = spec_btree_map_iter(m).remaining();
    proof {
        lemma_u64_keys_ordered();
    }
    let ghost keys = all.map_values(|kv: (&u64, &V)| *kv.0);
    for kv in it: m.iter()
        invariant
            it.seq() == all,
            keys == all.map_values(|kv: (&u64, &V)| *kv.0),
            ks@.len() == it.index(),
            ks@ == keys.take(it.index()),
    {
        ks.push(*kv.0);
        assert(keys.take(ks@.len() as int) =~= ks@);
    }
    assert(keys.take(ks@.len() as int) =~= keys);
    proof {
        lemma_handed_out_keys(m, all);
    }
    ks
}

/// `tokio::time::Instant` is an outside type; Verus sees nothing inside a value of it.
#[verifier::external_type_specification]
#[verifier::external_body]
pub struct ExInstant(Instant);

/// Calls `tokio::time::Instant::now`, which reads the clock; nothing is promised of
/// the instant it returns.
#[verifier::external_body]
fn clock_now() -> Instant {
    Instant::now()
}

/// Calls `tokio::time::Instant::elapsed`, which reads the clock; nothing is
/// promised of the duration it returns.
#[verifier::external_body]
fn clock_elapsed(origin: &Instant) -> Duration {
    origin.elapsed()
}

/// Calls `Duration::as_nanos`; nothing is stated of the count.
#[verifier::external_body]
fn duration_nanos(d: Duration) -> u128 {
    d.as_nanos()
}

/// A session waiting in the pool since `idle_since` (nanoseconds on the pool's clock).
pub struct PooledSession<S> {
    pub session: S,
    pub idle_since: u64,
    pub seq: u64,
}

/// The key under which a session with sequence number `seq` waits: sessions with
/// higher numbers come first.
pub open spec fn pool_key(seq: u64) -> u64 {
    (u64::MAX - seq) as u64
}

/// Whether a session idle since `idle_since` has been idle for at least `timeout`
/// at `now`.
pub open spec fn is_expired(idle_since: u64, now: u64, timeout: u64) -> bool {
    idle_since + timeout <= now
}

/// How many keys of the map are less than `k`: `k`'s place in key order.
pub open spec fn key_rank<V>(m: Map<u64, V>, k: u64) -> nat {
    m.dom().filter(|j: u64| j < k).len()
}

/// The sessions that a clean-up at `now` removes: the expired ones, except that
/// the first `min_idle` sessions in key order stay whatever their age.
pub open spec fn expired_keys<S>(
    m: Map<u64, PooledSession<S>>,
    now: u64,
    timeout: u64,
    min_idle: nat,
) -> Set<u64> {
    m.dom().filter(
        |k: u64| is_expired(m[k].idle_since, now, timeout) && key_rank(m, k) >= min_idle,
    )
}

/// In a map whose keys in increasing order are `ks`, the key at place `i` has
/// exactly `i` keys below it.
proof fn lemma_rank_is_place<V>(m: Map<u64, V>, ks: Seq<u64>, i: int)
    requires
        ks.to_set() == m.dom(),
        ks.no_duplicates(),
        forall|a: int, b: int| 0 <= a < b < ks.len() ==> ks[a] < ks[b],
        0 <= i < ks.len(),
    ensures
        key_rank(m, ks[i]) == i,
{
    let below = m.dom().filter(|j: u64| j < ks[i]);
    let prefix = ks.take(i);
    assert forall|x: u64| below.contains(x) <==> prefix.to_set().contains(x) by {
        if below.contains(x) {
            assert(ks.to_set().contains(x));
            let a = choose|a: int| 0 <= a < ks.len() && ks[a] == x;
            if a >= i {
                if a > i {
                    assert(ks[i] < ks[a]);
                }
            }
            assert(prefix[a] == x);
        }
        if prefix.to_set().contains(x) {
            let a = choose|a: int| 0 <= a < prefix.len() && prefix[a] == x;
            assert(ks[a] == x);
            assert(ks.to_set().contains(x));
        }
    }
    assert(below =~= prefix.to_set());
    assert(prefix.no_duplicates());
    prefix.unique_seq_to_set();
}

/// Every session of the map waits under the key of its sequence number.
pub open spec fn keys_follow_seq<S>(m: Map<u64, PooledSession<S>>) -> bool {
    forall|k: u64| #[trigger] m.contains_key(k) ==> pool_key(m[k].seq) == k
}

/// The shape of the waiting sessions: finitely many, each under the key of its
/// sequence number.
pub open spec fn pool_shape<S>(m: Map<u64, PooledSession<S>>) -> bool {
    m.dom().finite() && keys_follow_seq(m)
}

/// SessionPool manages idle sessions for reuse
pub struct SessionPool<S> {
    idle_sessions: BTreeMap<u64, PooledSession<S>>,
    min_idle: usize,
    idle_timeout: u64,
    clock: Instant,
    readings: Ghost<Seq<u64>>,
}

/// Default number of idle sessions that a clean-up keeps however old they are.
pub const DEFAULT_MIN_IDLE: usize = 1;

/// Default idle time after which a session may be cleaned up: 60 seconds, in
/// nanoseconds.
pub const DEFAULT_IDLE_TIMEOUT: u64 = 60_000_000_000;

/// The sessions waiting under the keys `ks`, in that order.
pub open spec fn sessions_under<S>(m: Map<u64, PooledSession<S>>, ks: Seq<u64>) -> Seq<S> {
    ks.map_values(|k: u64| m[k].session)
}

/// `removed` holds the sessions of `m` under the keys `gone`, in key order.
pub open spec fn removed_in_order<S>(
    m: Map<u64, PooledSession<S>>,
    gone: Set<u64>,
    removed: Seq<S>,
) -> bool {
    exists|ks: Seq<u64>|
        #[trigger] is_key_order(m.restrict(gone), ks) && removed == sessions_under(m, ks)
}

impl<S> SessionPool<S> {
    /// Every session waits under the key of its sequence number.
    #[verifier::type_invariant]
    spec fn keys_match(&self) -> bool {
        keys_follow_seq(self.idle_sessions@)
    }

    /// The waiting sessions, by key.
    pub closed spec fn sessions(&self) -> Map<u64, PooledSession<S>> {
        self.idle_sessions@
    }

    /// The readings of the pool's clock taken so far (nanoseconds since the pool was
    /// created), in the order they were taken.
    pub closed spec fn clock_readings(&self) -> Seq<u64> {
        self.readings@
    }

    /// How many sessions a clean-up keeps however old they are.
    pub closed spec fn spec_min_idle(&self) -> nat {
        self.min_idle as nat
    }

    /// How long (in nanoseconds) a session may wait before a clean-up may remove it.
    pub closed spec fn spec_idle_timeout(&self) -> u64 {
        self.idle_timeout
    }

    /// Create a new session pool
    pub fn new() -> (res: Self)
        ensures
            res.sessions() == Map::<u64, PooledSession<S>>::empty(),
            pool_shape(res.sessions()),
            res.spec_min_idle() == DEFAULT_MIN_IDLE,
            res.spec_idle_timeout() == DEFAULT_IDLE_TIMEOUT,
            res.clock_readings() == Seq::<u64>::empty(),
    {
        SessionPool {
            idle_sessions: BTreeMap::new(),
            min_idle: DEFAULT_MIN_IDLE,
            idle_timeout: DEFAULT_IDLE_TIMEOUT,
            clock: clock_now(),
            readings: Ghost(Seq::empty()),
        }
    }

    /// Nanoseconds since the pool was created, as the clock reads now (capped at
    /// `u64::MAX`).
    fn now(&mut self) -> (res: u64)
        ensures
            final(self).clock_readings() == old(self).clock_readings().push(res),
            final(self).sessions() == old(self).sessions(),
            final(self).spec_min_idle() == old(self).spec_min_idle(),
            final(self).spec_idle_timeout() == old(self).spec_idle_timeout(),
    {
        proof {
            use_type_invariant(&*self);
        }
        let nanos = duration_nanos(clock_elapsed(&self.clock));
        let reading = if nanos > 18_446_744_073_709_551_615u128 {
            u64::MAX
        } else {
            nanos as u64
        };
        self.readings = Ghost(self.readings@.push(reading));
        reading
    }

    /// Get an idle session: the most recent one, that is the one with the highest
    /// sequence number; it leaves the pool.
    pub fn get_idle_session(&mut self) -> (res: Option<S>)
        ensures
            old(self).sessions().dom().is_empty() ==> res is None && final(self).sessions()
                == old(self).sessions(),
            !old(self).sessions().dom().is_empty() ==> exists|k: u64|
                #![trigger old(self).sessions().contains_key(k)]
                {
                    &&& old(self).sessions().contains_key(k)
                    &&& res == Some(old(self).sessions()[k].session)
                    &&& final(self).sessions() == old(self).sessions().remove(k)
                    &&& forall|j: u64| #[trigger]
                        old(self).sessions().contains_key(j) ==> old(self).sessions()[j].seq
                            <= old(self).sessions()[k].seq
                },
            pool_shape(final(self).sessions()),
            final(self).spec_min_idle() == old(self).spec_min_idle(),
            final(self).spec_idle_timeout() == old(self).spec_idle_timeout(),
            final(self).clock_readings() == old(self).clock_readings(),
    {
        proof {
            use_type_invariant(&*self);
            lemma_u64_keys_ordered();
        }
        let ghost before = self.idle_sessions@;
        let ks = sorted_keys(&self.idle_sessions);
        if ks.len() == 0 {
            assert(before.dom() =~= Set::<u64>::empty()) by {
                assert forall|x: u64| !before.dom().contains(x) by {
                    if before.dom().contains(x) {
                        assert(ks@.to_set().contains(x));
                    }
                }
            }
            return None;
        }
        let k = ks[0];
        proof {
            assert(ks@.to_set().contains(k));
            assert forall|j: u64| #[trigger] before.contains_key(j) implies before[j].seq
                <= before[k].seq by {
                assert(ks@.to_set().contains(j));
                let a = choose|a: int| 0 <= a < ks@.len() && ks@[a] == j;
                if a > 0 {
                    assert(ks@[0] < ks@[a]);
                }
            }
        }
        let mut sessions = BTreeMap::new();
        std::mem::swap(&mut sessions, &mut self.idle_sessions);
        let taken = sessions.remove(&k);
        std::mem::swap(&mut sessions, &mut self.idle_sessions);
        assert(!before.dom().is_empty()) by {
            assert(before.dom().contains(k));
        }
        match taken {
            Some(pooled) => Some(pooled.session),
            None => None,
        }
    }

    /// Add a session to the idle pool, idle since `now` (nanoseconds on the pool's
    /// clock); a session waiting under the same sequence number is replaced.
    pub fn add_idle_session_at(&mut self, session: S, seq: u64, now: u64)
        ensures
            final(self).sessions() == old(self).sessions().insert(
                pool_key(seq),
                PooledSession { session, idle_since: now, seq },
            ),
            pool_shape(final(self).sessions()),
            final(self).spec_min_idle() == old(self).spec_min_idle(),
            final(self).spec_idle_timeout() == old(self).spec_idle_timeout(),
            final(self).clock_readings() == old(self).clock_readings(),
    {
        proof {
            use_type_invariant(&*self);
        }
        let key = u64::MAX - seq;
        let pooled = PooledSession { session, idle_since: now, seq };
        let mut sessions = BTreeMap::new();
        std::mem::swap(&mut sessions, &mut self.idle_sessions);
        sessions.insert(key, pooled);
        std::mem::swap(&mut sessions, &mut self.idle_sessions);
    }

    /// Add a session to the idle pool, idle from now on.
    pub fn add_idle_session(&mut self, session: S, seq: u64)
        ensures
            final(self).sessions() == old(self).sessions().insert(
                pool_key(seq),
                PooledSession {
                    session,
                    idle_since: final(self).sessions()[pool_key(seq)].idle_since,
                    seq,
                },
            ),
            pool_shape(final(self).sessions()),
            final(self).spec_min_idle() == old(self).spec_min_idle(),
            final(self).spec_idle_timeout() == old(self).spec_idle_timeout(),
            final(self).clock_readings().len() == old(self).clock_readings().len() + 1,
            final(self).clock_readings().drop_last() == old(self).clock_readings(),
            final(self).sessions()[pool_key(seq)].idle_since == final(self).clock_readings().last(),
    {
        let now = self.now();
        self.add_idle_session_at(session, seq, now);
    }

    /// Clean up expired idle sessions as of `now` (nanoseconds on the pool's clock):
    /// a session idle for at least the timeout leaves, unless it is among the first
    /// `min_idle` sessions in key order (the most recent ones). The sessions that
    /// leave are handed back, in key order, to be closed.
    pub fn cleanup_expired_at(&mut self, now: u64) -> (removed: Vec<S>)
        ensures
            removed_in_order(
                old(self).sessions(),
                expired_keys(
                    old(self).sessions(),
                    now,
                    old(self).spec_idle_timeout(),
                    old(self).spec_min_idle(),
                ),
                removed@,
            ),
            final(self).sessions() == old(self).sessions().remove_keys(
                expired_keys(
                    old(self).sessions(),
                    now,
                    old(self).spec_idle_timeout(),
                    old(self).spec_min_idle(),
                ),
            ),
            pool_shape(final(self).sessions()),
            final(self).spec_min_idle() == old(self).spec_min_idle(),
            final(self).spec_idle_timeout() == old(self).spec_idle_timeout(),
            final(self).clock_readings() == old(self).clock_readings(),
    {
        proof {
            use_type_invariant(&*self);
            lemma_u64_keys_ordered();
        }
        let ghost before = self.idle_sessions@;
        let ghost gone = expired_keys(before, now, self.idle_timeout, self.min_idle as nat);
        let ks = sorted_keys(&self.idle_sessions);
        let mut to_remove: Vec<u64> = Vec::new();
        let mut active_count: usize = 0;
        for i in 0..ks.len()
            invariant
                self.idle_sessions@ == before,
                gone == expired_keys(before, now, self.idle_timeout, self.min_idle as nat),
                ks@.to_set() == before.dom(),
                ks@.no_duplicates(),
                forall|a: int, b: int| 0 <= a < b < ks@.len() ==> ks@[a] < ks@[b],
                i < self.min_idle ==> active_count == i,
                i >= self.min_idle ==> active_count >= self.min_idle,
                active_count <= i,
                forall|a: int, b: int|
                    0 <= a < b < to_remove@.len() ==> to_remove@[a] < to_remove@[b],
                forall|k: u64| to_remove@.contains(k) <==> exists|a: int|
                    0 <= a < i && #[trigger] ks@[a] == k && gone.contains(k),
        {
            let key = ks[i];
            let ghost old_rm = to_remove@;
            proof {
                assert(ks@.to_set().contains(key));
                lemma_rank_is_place(before, ks@, i as int);
            }
            let idle_since = match self.idle_sessions.get(&key) {
                Some(pooled) => pooled.idle_since,
                None => 0,
            };
            assert(idle_since == before[key].idle_since);
            let fresh = idle_since > now || now - idle_since < self.idle_timeout;
            assert(fresh == !is_expired(before[key].idle_since, now, self.idle_timeout));
            assert(gone.contains(key) == (!fresh && i >= self.min_idle));
            if fresh {
                active_count += 1;
            } else if active_count < self.min_idle {
                active_count += 1;
            } else {
                proof {
                    assert forall|t: int| 0 <= t < old_rm.len() implies old_rm[t] < key by {
                        assert(old_rm.contains(old_rm[t]));
                        let a = choose|a: int|
                            0 <= a < i && #[trigger] ks@[a] == old_rm[t] && gone.contains(
                                old_rm[t],
                            );
                    }
                }
                to_remove.push(key);
            }
            assert(to_remove@ == if gone.contains(key) { old_rm.push(key) } else { old_rm });
            assert forall|k: u64| to_remove@.contains(k) <==> exists|a: int|
                0 <= a < i + 1 && #[trigger] ks@[a] == k && gone.contains(k) by {
                broadcast use vstd::seq_lib::group_seq_properties;
                if to_remove@.contains(k) {
                    if old_rm.contains(k) {
                        let a = choose|a: int| 0 <= a < i && #[trigger] ks@[a] == k && gone.contains(k);
                        assert(0 <= a < i + 1 && ks@[a] == k);
                    } else {
                        assert(k == key);
                        assert(ks@[i as int] == k);
                    }
                }
                if exists|a: int| 0 <= a < i + 1 && #[trigger] ks@[a] == k && gone.contains(k) {
                    let a = choose|a: int| 0 <= a < i + 1 && #[trigger] ks@[a] == k && gone.contains(k);
                    if a < i {
                        assert(old_rm.contains(k));
                    } else {
                        assert(k == key);
                    }
                }
            }
        }
        assert(to_remove@.to_set() =~= gone) by {
            assert forall|k: u64| gone.contains(k) implies to_remove@.contains(k) by {
                assert(ks@.to_set().contains(k));
                let a = choose|a: int| 0 <= a < ks@.len() && ks@[a] == k;
            }
        }
        let mut sessions = BTreeMap::new();
        std::mem::swap(&mut sessions, &mut self.idle_sessions);
        let mut removed: Vec<S> = Vec::new();
        for j in 0..to_remove.len()
            invariant
                sessions@ == before.remove_keys(to_remove@.take(j as int).to_set()),
                removed@ == sessions_under(before, to_remove@.take(j as int)),
                forall|a: int, b: int|
                    0 <= a < b < to_remove@.len() ==> to_remove@[a] < to_remove@[b],
                to_remove@.to_set() =~= gone,
                gone.subset_of(before.dom()),
                forall|k: u64| #[trigger]
                    sessions@.contains_key(k) ==> before.contains_key(k),
                forall|k: u64| #[trigger]
                    before.contains_key(k) ==> pool_key(before[k].seq) == k,
        {
            let key = to_remove[j];
            proof {
                assert(to_remove@.to_set().contains(key));
                assert(!to_remove@.take(j as int).to_set().contains(key)) by {
                    if to_remove@.take(j as int).contains(key) {
                        let a = choose|a: int| 0 <= a < j && to_remove@.take(j as int)[a] == key;
                        assert(to_remove@[a] < to_remove@[j as int]);
                    }
                }
            }
            let gone_session = sessions.remove(&key);
            match gone_session {
                Some(pooled) => {
                    removed.push(pooled.session);
                },
                None => {},
            }
            assert(removed@ =~= sessions_under(before, to_remove@.take(j + 1)));
            assert(to_remove@.take(j + 1) =~= to_remove@.take(j as int).push(key));
            assert(to_remove@.take(j + 1).to_set() =~= to_remove@.take(j as int).to_set().insert(key)) by {
                broadcast use vstd::seq_lib::group_seq_properties;
            }
            assert(sessions@ =~= before.remove_keys(to_remove@.take(j + 1).to_set()));
        }
        assert(to_remove@.take(to_remove@.len() as int) =~= to_remove@);
        std::mem::swap(&mut sessions, &mut self.idle_sessions);
        proof {
            assert(to_remove@.no_duplicates()) by {
                assert forall|a: int, b: int|
                    0 <= a < to_remove@.len() && 0 <= b < to_remove@.len() && a != b
                    implies to_remove@[a] != to_remove@[b] by {
                    if a < b {
                        assert(to_remove@[a] < to_remove@[b]);
                    } else {
                        assert(to_remove@[b] < to_remove@[a]);
                    }
                }
            }
            assert(before.restrict(gone).dom() =~= gone);
            to_remove@.unique_seq_to_set();
            assert(is_key_order(before.restrict(gone), to_remove@));
        }
        removed
    }

    /// Clean up expired idle sessions as of now; the sessions that leave are handed
    /// back, in key order, to be closed.
    pub fn cleanup_expired(&mut self) -> (removed: Vec<S>)
        ensures
            exists|now: u64|
                {
                    &&& final(self).sessions() == old(self).sessions().remove_keys(
                        #[trigger] expired_keys(
                            old(self).sessions(),
                            now,
                            old(self).spec_idle_timeout(),
                            old(self).spec_min_idle(),
                        ),
                    )
                    &&& removed_in_order(
                        old(self).sessions(),
                        expired_keys(
                            old(self).sessions(),
                            now,
                            old(self).spec_idle_timeout(),
                            old(self).spec_min_idle(),
                        ),
                        removed@,
                    )
                },
            final(self).clock_readings().len() == old(self).clock_readings().len() + 1,
            final(self).clock_readings().drop_last() == old(self).clock_readings(),
            final(self).sessions() == old(self).sessions().remove_keys(
                expired_keys(
                    old(self).sessions(),
                    final(self).clock_readings().last(),
                    old(self).spec_idle_timeout(),
                    old(self).spec_min_idle(),
                ),
            ),
            removed_in_order(
                old(self).sessions(),
                expired_keys(
                    old(self).sessions(),
                    final(self).clock_readings().last(),
                    old(self).spec_idle_timeout(),
                    old(self).spec_min_idle(),
                ),
                removed@,
            ),
            pool_shape(final(self).sessions()),
            final(self).spec_min_idle() == old(self).spec_min_idle(),
            final(self).spec_idle_timeout() == old(self).spec_idle_timeout(),
    {
        let now = self.now();
        self.cleanup_expired_at(now)
    }
}

/// How many members of `d` are less than `k`.
pub open spec fn rank_in(d: Set<u64>, k: u64) -> nat {
    d.filter(|j: u64| j < k).len()
}

/// A finite nonempty set of `u64` has a greatest member.
proof fn lemma_greatest(d: Set<u64>) -> (top: u64)
    requires
        d.finite(),
        d.len() > 0,
    ensures
        d.contains(top),
        forall|k: u64| d.contains(k) ==> k <= top,
{
    let leq = |a: u64, b: u64| a <= b;
    assert(vstd::relations::total_ordering(leq));
    d.find_unique_maximal_ensures(leq);
    let top = d.find_unique_maximal(leq);
    assert forall|k: u64| d.contains(k) implies k <= top by {
        assert(vstd::relations::is_maximal(leq, top, d));
        if !(k <= top) {
            assert(leq(top, k));
            assert(leq(k, top));
        }
    }
    top
}

/// In a finite set, exactly `min(c, |d|)` members have fewer than `c` members below them.
proof fn lemma_low_ranks(d: Set<u64>, c: nat)
    requires
        d.finite(),
    ensures
        d.filter(|k: u64| rank_in(d, k) < c).len() == if c < d.len() { c } else { d.len() },
    decreases d.len(),
{
    let low = d.filter(|k: u64| rank_in(d, k) < c);
    if d.len() == 0 {
        assert(low =~= Set::<u64>::empty());
    } else {
        let top = lemma_greatest(d);
        let rest = d.remove(top);
        lemma_low_ranks(rest, c);
        let low_rest = rest.filter(|k: u64| rank_in(rest, k) < c);
        assert forall|k: u64| rest.contains(k) implies rank_in(d, k) == rank_in(rest, k) by {
            assert(d.filter(|j: u64| j < k) =~= rest.filter(|j: u64| j < k));
        }
        assert(d.filter(|j: u64| j < top) =~= rest);
        assert(rank_in(d, top) == rest.len());
        if rest.len() < c {
            assert(low =~= low_rest.insert(top));
        } else {
            assert(low =~= low_rest);
        }
    }
}

/// A clean-up removes no session idle for less than the timeout, and leaves at
/// least `min_idle` sessions (all of them, if there are fewer).
pub proof fn lemma_cleanup_keeps_fresh_and_min_idle<S>(
    m: Map<u64, PooledSession<S>>,
    now: u64,
    timeout: u64,
    min_idle: nat,
)
    requires
        m.dom().finite(),
    ensures
        ({
            let kept = m.remove_keys(expired_keys(m, now, timeout, min_idle));
            &&& forall|k: u64|
                m.contains_key(k) && !is_expired(m[k].idle_since, now, timeout)
                    ==> #[trigger] kept.contains_key(k)
            &&& kept.dom().len() >= if min_idle < m.dom().len() { min_idle } else { m.dom().len() }
        }),
{
    let kept = m.remove_keys(expired_keys(m, now, timeout, min_idle));
    let d = m.dom();
    lemma_low_ranks(d, min_idle);
    let low = d.filter(|k: u64| rank_in(d, k) < min_idle);
    assert forall|k: u64| low.contains(k) implies kept.dom().contains(k) by {
        assert(key_rank(m, k) == rank_in(d, k));
    }
    assert(low.subset_of(kept.dom()));
    assert(kept.dom() =~= d.difference(expired_keys(m, now, timeout, min_idle)));
    vstd::set_lib::lemma_len_subset(low, kept.dom());
}

/// A clean-up at clock reading `now` keeps a waiting session exactly when it has been
/// idle for less than the timeout (`now - idle_since < timeout`, as plain integers,
/// in the clock's nanoseconds) or fewer than `min_idle` waiting sessions are more
/// recent (have a higher sequence number). So a session stamped at reading `r`
/// survives every clean-up at a reading below `r + timeout`, and one idle for the
/// timeout or longer leaves unless it is among the `min_idle` most recent.
pub proof fn lemma_cleanup_by_idle_time<S>(
    m: Map<u64, PooledSession<S>>,
    now: u64,
    timeout: u64,
    min_idle: nat,
    k: u64,
)
    requires
        pool_shape(m),
        m.contains_key(k),
    ensures
        m.remove_keys(expired_keys(m, now, timeout, min_idle)).contains_key(k) <==> (now as int
            - m[k].idle_since as int) < timeout as int || m.dom().filter(
            |j: u64| m[j].seq > m[k].seq,
        ).len() < min_idle,
{
    let newer = m.dom().filter(|j: u64| m[j].seq > m[k].seq);
    assert(m.dom().filter(|j: u64| j < k) =~= newer) by {
        assert forall|j: u64| #[trigger] m.dom().contains(j) implies (j < k <==> m[j].seq
            > m[k].seq) by {
            assert(pool_key(m[j].seq) == j);
            assert(pool_key(m[k].seq) == k);
        }
    }
}

/// Cleaning up a second time at the same moment removes nothing more.
pub proof fn lemma_cleanup_idempotent<S>(
    m: Map<u64, PooledSession<S>>,
    now: u64,
    timeout: u64,
    min_idle: nat,
)
    requires
        m.dom().finite(),
    ensures
        ({
            let kept = m.remove_keys(expired_keys(m, now, timeout, min_idle));
            expired_keys(kept, now, timeout, min_idle) == Set::<u64>::empty()
        }),
{
    let kept = m.remove_keys(expired_keys(m, now, timeout, min_idle));
    assert(kept.dom() =~= m.dom().difference(expired_keys(m, now, timeout, min_idle)));
    assert forall|k: u64| !expired_keys(kept, now, timeout, min_idle).contains(k) by {
        if kept.contains_key(k) && is_expired(kept[k].idle_since, now, timeout) {
            assert(key_rank(m, k) < min_idle);
            assert(kept.dom().filter(|j: u64| j < k).subset_of(m.dom().filter(|j: u64| j < k)));
            vstd::set_lib::lemma_len_subset(
                kept.dom().filter(|j: u64| j < k),
                m.dom().filter(|j: u64| j < k),
            );
        }
    }
    assert(expired_keys(kept, now, timeout, min_idle) =~= Set::<u64>::empty());
}

/// A session added with a sequence number above all pooled ones is the one that
/// the next `get_idle_session` hands out, and handing it out restores the pool.
pub proof fn lemma_newest_session_first<S>(m: Map<u64, PooledSession<S>>, p: PooledSession<S>)
    requires
        keys_follow_seq(m),
        forall|k: u64| #[trigger] m.contains_key(k) ==> m[k].seq < p.seq,
    ensures
        ({
            let added = m.insert(pool_key(p.seq), p);
            &&& keys_follow_seq(added)
            &&& forall|k: u64|
                #![trigger added.contains_key(k)]
                added.contains_key(k) && (forall|j: u64|
                    #[trigger] added.contains_key(j) ==> added[j].seq <= added[k].seq)
                    ==> k == pool_key(p.seq) && added[k] == p && added.remove(k) == m
        }),
{
    let added = m.insert(pool_key(p.seq), p);
    assert(!m.contains_key(pool_key(p.seq)));
    assert forall|k: u64|
        #![trigger added.contains_key(k)]
        added.contains_key(k) && (forall|j: u64|
            #[trigger] added.contains_key(j) ==> added[j].seq <= added[k].seq)
            implies k == pool_key(p.seq) && added[k] == p && added.remove(k) == m by {
        assert(added.contains_key(pool_key(p.seq)));
        if k != pool_key(p.seq) {
            assert(added[k].seq < p.seq);
        }
        assert(added.remove(k) =~= m);
    }
}

} // verus!
