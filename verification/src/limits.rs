//! Abuse protection: per-IP token buckets and SSE connection caps.
//!
//! One bucket per client address, refilled at a sustained rate up to a
//! burst ceiling. Token levels are kept exactly, in units of a billionth of
//! a token, so a bucket refilled for `e` nanoseconds at `r` tokens per
//! second gains exactly `e * r` units. Every limit is disable-able (0 = off).
//! Client addresses are given as 128-bit numbers (IPv4 addresses mapped
//! into IPv6), times as nanoseconds on a monotonic clock.

use vstd::prelude::*;
use std::collections::HashMap;
use vstd::multiset::Multiset;
use vstd::std_specs::iter::IteratorSpec;

verus! {

broadcast use vstd::std_specs::hash::group_hash_axioms;

/// Units per token.
pub const TOKEN: u128 = 1_000_000_000;

/// Number of buckets above which full buckets are dropped.
pub const MAX_TRACKED_BUCKETS: usize = 10_000;

/// Token level of one client.
#[derive(Clone, Copy)]
pub struct Bucket {
    /// Tokens, in units of `1 / TOKEN`.
    pub tokens: u128,
    /// Monotonic time of the last refill, in nanoseconds.
    pub last_refill_ns: u64,
}

/// Level of a bucket holding `tokens` units refilled at time `last`, when
/// seen at time `now` (time never runs backwards: an earlier `now` adds
/// nothing).
pub open spec fn refill_level(tokens: int, last: int, now: int, per_sec: int, cap: int) -> int {
    let elapsed = if now > last {
        now - last
    } else {
        0
    };
    let raised = tokens + elapsed * per_sec;
    if raised < cap {
        raised
    } else {
        cap
    }
}

/// Seconds until a bucket at `level` units holds a whole token again.
pub open spec fn retry_after(level: int, per_sec: int) -> int {
    (TOKEN - level + per_sec * TOKEN - 1) / (per_sec * TOKEN)
}

/// Per-IP token buckets with lazy refill.
pub struct IpBuckets {
    per_sec: u32,
    burst: u32,
    buckets: HashMap<u128, Bucket>,
}

impl IpBuckets {
    pub closed spec fn per_sec(&self) -> u32 {
        self.per_sec
    }

    /// The burst ceiling, in tokens.
    pub closed spec fn burst(&self) -> u32 {
        self.burst
    }

    /// The ceiling in units.
    pub open spec fn cap(&self) -> int {
        self.burst() as int * TOKEN as int
    }

    /// Units `ip` could spend at time `now`: a client never seen (or whose
    /// full bucket was dropped) has a full bucket.
    pub closed spec fn level(&self, ip: u128, now: u64) -> int {
        if self.buckets@.contains_key(ip) {
            let b = self.buckets@[ip];
            refill_level(b.tokens as int, b.last_refill_ns as int, now as int, self.per_sec as int, self.cap())
        } else {
            self.cap()
        }
    }

    /// Units `ip` holds once refilled at time `now`, with the refill
    /// recorded at `now`.
    pub closed spec fn settled_at(&self, ip: u128, now: u64) -> bool {
        &&& self.buckets@.contains_key(ip)
        &&& self.buckets@[ip].last_refill_ns == now
    }

    pub closed spec fn well_formed(&self) -> bool {
        &&& self.burst >= self.per_sec
        &&& forall|ip: u128| #[trigger]
            self.buckets@.contains_key(ip) ==> self.buckets@[ip].tokens <= self.cap()
    }

    pub fn new(per_sec: u32, burst: u32) -> (b: Self)
        ensures
            b.well_formed(),
            b.per_sec() == per_sec,
            // A burst below the sustained rate would make the sustained
            // rate unreachable; it is clamped up.
            b.burst() == if burst >= per_sec {
                burst
            } else {
                per_sec
            },
            forall|ip: u128, now: u64| #[trigger] b.level(ip, now) == b.cap(),
    {
        IpBuckets {
            per_sec,
            burst: if burst >= per_sec {
                burst
            } else {
                per_sec
            },
            buckets: HashMap::new(),
        }
    }

    pub fn enabled(&self) -> (on: bool)
        ensures
            on == (self.per_sec() > 0),
    {
        self.per_sec > 0
    }

    /// Number of clients with a bucket.
    pub closed spec fn spec_bucket_count(&self) -> nat {
        self.buckets@.len()
    }

    /// Number of clients with a bucket.
    pub fn bucket_count(&self) -> (n: usize)
        ensures
            n == self.spec_bucket_count(),
    {
        self.buckets.len()
    }

    /// A client never holds more than the burst, however long it idles,
    /// and never less than nothing.
    pub proof fn law_level_within_burst(&self, ip: u128, now: u64)
        requires
            self.well_formed(),
        ensures
            0 <= self.level(ip, now) <= self.cap(),
    {
        if self.buckets@.contains_key(ip) {
            let b = self.buckets@[ip];
            let elapsed = if now > b.last_refill_ns {
                now - b.last_refill_ns
            } else {
                0
            };
            assert(elapsed * self.per_sec >= 0) by (nonlinear_arith)
                requires
                    elapsed >= 0,
                    self.per_sec >= 0,
            ;
        }
    }

    /// How a bucket refills: once a client's bucket was settled at time
    /// `t` (as every call of `try_acquire` for it leaves it), its level at
    /// any later time is its level at `t` raised by the elapsed nanoseconds
    /// times the rate, capped at the burst.
    pub proof fn law_refill(&self, ip: u128, t: u64, later: u64)
        requires
            self.well_formed(),
            self.settled_at(ip, t),
            t <= later,
        ensures
            self.level(ip, later) == refill_level(
                self.level(ip, t),
                t as int,
                later as int,
                self.per_sec() as int,
                self.cap(),
            ),
    {
    }

    /// Waiting never lowers a client's level: tokens only accumulate (up to
    /// the burst) as time passes.
    pub proof fn law_level_grows_with_time(&self, ip: u128, earlier: u64, later: u64)
        requires
            self.well_formed(),
            earlier <= later,
        ensures
            self.level(ip, earlier) <= self.level(ip, later),
    {
        if self.buckets@.contains_key(ip) {
            let b = self.buckets@[ip];
            let e1: int = if earlier > b.last_refill_ns {
                earlier - b.last_refill_ns
            } else {
                0
            };
            let e2: int = if later > b.last_refill_ns {
                later - b.last_refill_ns
            } else {
                0
            };
            assert(e1 * self.per_sec <= e2 * self.per_sec) by (nonlinear_arith)
                requires
                    0 <= e1 <= e2,
                    self.per_sec >= 0,
            ;
        }
    }

    fn refilled(&self, b: Bucket, now_ns: u64) -> (level: u128)
        requires
            self.well_formed(),
            b.tokens <= self.cap(),
        ensures
            level == refill_level(
                b.tokens as int,
                b.last_refill_ns as int,
                now_ns as int,
                self.per_sec as int,
                self.cap(),
            ),
            level <= self.cap(),
    {
        let cap = self.burst as u128 * TOKEN;
        let elapsed = if now_ns > b.last_refill_ns {
            now_ns - b.last_refill_ns
        } else {
            0
        };
        let per_sec = self.per_sec as u128;
        let e = elapsed as u128;
        assert(e * per_sec <= 0xffff_ffff_ffff_ffff * 0xffff_ffffu128) by (nonlinear_arith)
            requires
                e <= 0xffff_ffff_ffff_ffffu128,
                per_sec <= 0xffff_ffffu128,
        ;
        let raised = b.tokens + e * per_sec;
        if raised < cap {
            raised
        } else {
            cap
        }
    }

    /// Drop the buckets that are full at `now`: a full bucket carries no
    /// state worth keeping, since a client without one starts full.
    fn drop_full_buckets(&mut self, now_ns: u64)
        requires
            old(self).well_formed(),
        ensures
            final(self).well_formed(),
            final(self).per_sec() == old(self).per_sec(),
            final(self).burst() == old(self).burst(),
            final(self).buckets@.dom().subset_of(old(self).buckets@.dom()),
            forall|ip: u128| #[trigger] final(self).level(ip, now_ns) == old(self).level(ip, now_ns),
            forall|ip: u128| #[trigger] final(self).buckets@.contains_key(ip) ==> final(self).buckets@[ip] == old(self).buckets@[ip],
            forall|ip: u128| #[trigger] final(self).buckets@.contains_key(ip) <==> (old(
                self,
            ).buckets@.contains_key(ip) && old(self).level(ip, now_ns) < old(self).cap()),
    {
        let ghost rem = vstd::std_specs::hash::spec_keys_iter(&self.buckets).remaining();
        proof {
            vstd::std_specs::hash::axiom_spec_keys_iter(&self.buckets);
        }
        let mut keys: Vec<u128> = Vec::new();
        for k in it: self.buckets.keys()
            invariant
                it.seq() == rem,
                it.index() <= rem.len(),
                keys@ == rem.take(it.index() as int).map_values(|r: &u128| *r),
        {
            keys.push(*k);
            assert(rem.take(it.index() + 1).map_values(|r: &u128| *r) =~= keys@);
        }
        let ghost all_keys = keys@;
        proof {
            assert(rem.take(rem.len() as int) == rem);
            assert forall|x: u128| old(self).buckets@.contains_key(x) implies all_keys.contains(x) by {
                assert(rem.unref().to_set().contains(x));
                let j = choose|j: int| 0 <= j < rem.len() && *rem[j] == x;
                assert(all_keys[j] == x);
            }
        }
        for i in 0..keys.len()
            invariant
                self.per_sec == old(self).per_sec,
                self.burst == old(self).burst,
                self.well_formed(),
                keys@ == all_keys,
                self.buckets@.dom().subset_of(old(self).buckets@.dom()),
                forall|ip: u128| #[trigger] self.buckets@.contains_key(ip) ==> self.buckets@[ip] == old(self).buckets@[ip],
                forall|ip: u128| #[trigger] self.level(ip, now_ns) == old(self).level(ip, now_ns),
                forall|x: u128| old(self).buckets@.contains_key(x) ==> all_keys.contains(x),
                forall|ip: u128| #[trigger] self.buckets@.contains_key(ip) <==> (old(
                    self,
                ).buckets@.contains_key(ip) && !(keys@.take(i as int).contains(ip) && old(self).level(
                    ip,
                    now_ns,
                ) >= old(self).cap())),
        {
            let k = keys[i];
            let ghost before = *self;
            assert(keys@.take(i + 1) =~= keys@.take(i as int).push(k));
            match self.buckets.get(&k) {
                Some(b) => {
                    let b = *b;
                    if self.refilled(b, now_ns) >= self.burst as u128 * TOKEN {
                        let ghost prev = *self;
                        self.buckets.remove(&k);
                        assert(self.buckets@ == prev.buckets@.remove(k));
                        assert forall|ip: u128| #[trigger] self.level(ip, now_ns) == old(self).level(ip, now_ns) by {
                            assert(prev.level(ip, now_ns) == old(self).level(ip, now_ns));
                        }
                    }
                },
                None => {},
            }
            proof {
                assert forall|ip: u128| #[trigger] self.buckets@.contains_key(ip) <==> (old(
                    self,
                ).buckets@.contains_key(ip) && !(keys@.take(i + 1).contains(ip) && old(self).level(
                    ip,
                    now_ns,
                ) >= old(self).cap())) by {
                    let t0 = keys@.take(i as int);
                    let t1 = keys@.take(i + 1);
                    assert(t1 == t0.push(k));
                    if t0.contains(ip) {
                        let j = choose|j: int| 0 <= j < t0.len() && t0[j] == ip;
                        assert(t1[j] == ip);
                    }
                    if ip == k {
                        assert(t1[i as int] == ip);
                    }
                    if t1.contains(ip) {
                        let j = choose|j: int| 0 <= j < t1.len() && t1[j] == ip;
                        if j < i {
                            assert(t0[j] == ip);
                        }
                    }
                    assert(t1.contains(ip) <==> (t0.contains(ip) || ip == k));
                    if ip != k {
                        assert(self.buckets@.contains_key(ip) == before.buckets@.contains_key(ip));
                    }
                }
            }
        }
        proof {
            assert(keys@.take(keys@.len() as int) =~= keys@);
        }
    }

    /// Take one token for `ip` at time `now_ns`. On refusal, returns the
    /// seconds until a token is available (for Retry-After).
    pub fn try_acquire(&mut self, ip: u128, now_ns: u64) -> (r: Result<(), u64>)
        requires
            old(self).well_formed(),
        ensures
            final(self).well_formed(),
            final(self).per_sec() == old(self).per_sec(),
            final(self).burst() == old(self).burst(),
            old(self).per_sec() == 0 ==> r is Ok && *final(self) == *old(self),
            old(self).per_sec() > 0 ==> {
                let level = old(self).level(ip, now_ns);
                &&& final(self).settled_at(ip, now_ns)
                &&& level >= TOKEN ==> r is Ok && final(self).level(ip, now_ns) == level - TOKEN
                &&& level < TOKEN ==> r == Err::<(), u64>(
                    retry_after(level, old(self).per_sec() as int) as u64,
                ) && final(self).level(ip, now_ns) == level
                &&& forall|other: u128|
                    other != ip ==> #[trigger] final(self).level(other, now_ns) == old(self).level(other, now_ns)
            },
    {
        if self.per_sec == 0 {
            return Ok(());
        }
        if self.buckets.len() > MAX_TRACKED_BUCKETS {
            self.drop_full_buckets(now_ns);
        }
        let cap = self.burst as u128 * TOKEN;
        let level = match self.buckets.get(&ip) {
            Some(b) => self.refilled(*b, now_ns),
            None => cap,
        };
        let ghost before = *self;
        assert(level == before.level(ip, now_ns));
        if level >= TOKEN {
            self.buckets.insert(ip, Bucket { tokens: level - TOKEN, last_refill_ns: now_ns });
            assert(self.buckets@ == before.buckets@.insert(ip, Bucket { tokens: (level - TOKEN) as u128, last_refill_ns: now_ns }));
            assert(self.level(ip, now_ns) == level - TOKEN);
            assert forall|other: u128| other != ip implies #[trigger] self.level(other, now_ns) == before.level(other, now_ns) by {}
            Ok(())
        } else {
            self.buckets.insert(ip, Bucket { tokens: level, last_refill_ns: now_ns });
            assert(self.level(ip, now_ns) == level);
            assert forall|other: u128| other != ip implies #[trigger] self.level(other, now_ns) == before.level(other, now_ns) by {}
            let per_sec = self.per_sec as u128;
            let den = per_sec * TOKEN;
            let num = TOKEN - level + den - 1;
            assert(num / den <= 1) by (nonlinear_arith)
                requires
                    num < 2 * den,
                    den > 0,
            ;
            Err((num / den) as u64)
        }
    }
}

// ---------------------------------------------------------------------------
// SSE connection slots
// ---------------------------------------------------------------------------

/// Concurrent-SSE accounting: a global count plus one per client address.
pub struct SseSlots {
    per_ip_cap: u32,
    global_cap: u32,
    global: u64,
    per_ip: HashMap<u128, u64>,
    held: Ghost<Multiset<u128>>,
}

/// A held SSE slot; hand it back with [`SseSlots::release`].
pub struct SseSlot {
    ip: u128,
}

impl SseSlot {
    pub closed spec fn spec_ip(&self) -> u128 {
        self.ip
    }

    pub fn ip(&self) -> (ip: u128)
        ensures
            ip == self.spec_ip(),
    {
        self.ip
    }
}

impl View for SseSlots {
    /// The addresses of the slots currently held, with multiplicity.
    type V = Multiset<u128>;

    closed spec fn view(&self) -> Multiset<u128> {
        self.held@
    }
}

impl SseSlots {
    pub closed spec fn per_ip_cap(&self) -> u32 {
        self.per_ip_cap
    }

    pub closed spec fn global_cap(&self) -> u32 {
        self.global_cap
    }

    pub closed spec fn well_formed(&self) -> bool {
        &&& self.global == self.held@.len()
        &&& forall|ip: u128| #[trigger]
            self.per_ip@.contains_key(ip) ==> self.per_ip@[ip] == self.held@.count(ip)
                && self.per_ip@[ip] > 0
        &&& forall|ip: u128| #[trigger]
            self.held@.count(ip) > 0 ==> self.per_ip@.contains_key(ip)
    }

    pub fn new(per_ip_cap: u32, global_cap: u32) -> (s: Self)
        ensures
            s.well_formed(),
            s@ == Multiset::<u128>::empty(),
            s.per_ip_cap() == per_ip_cap,
            s.global_cap() == global_cap,
    {
        SseSlots {
            per_ip_cap,
            global_cap,
            global: 0,
            per_ip: HashMap::new(),
            held: Ghost(Multiset::empty()),
        }
    }

    /// Take a slot for `ip`, unless the global cap or the per-address cap
    /// (each 0 = unlimited) is reached.
    pub fn try_acquire(&mut self, ip: u128) -> (slot: Option<SseSlot>)
        requires
            old(self).well_formed(),
        ensures
            final(self).well_formed(),
            final(self).per_ip_cap() == old(self).per_ip_cap(),
            final(self).global_cap() == old(self).global_cap(),
            ({
                let refused = (old(self).global_cap() > 0 && old(self)@.len() >= old(
                    self,
                ).global_cap()) || (old(self).per_ip_cap() > 0 && old(self)@.count(ip) >= old(
                    self,
                ).per_ip_cap()) || old(self)@.len() == u64::MAX;
                &&& refused ==> slot is None && final(self)@ == old(self)@
                &&& !refused ==> (slot matches Some(s) && s.spec_ip() == ip) && final(self)@ == old(
                    self,
                )@.insert(ip)
            }),
    {
        if self.global_cap > 0 && self.global >= self.global_cap as u64 {
            return None;
        }
        if self.global == u64::MAX {
            return None;
        }
        let count: u64 = match self.per_ip.get(&ip) {
            Some(c) => *c,
            None => 0,
        };
        assert(count == self.held@.count(ip));
        if self.per_ip_cap > 0 && count >= self.per_ip_cap as u64 {
            return None;
        }
        proof {
            self.held@.insert(ip).len();
        }
        assert(count <= self.global) by {
            vstd::multiset::axiom_count_le_len(self.held@, ip);
        }
        self.per_ip.insert(ip, count + 1);
        self.global = self.global + 1;
        self.held = Ghost(self.held@.insert(ip));
        Some(SseSlot { ip })
    }

    /// Release a held slot.
    pub fn release(&mut self, slot: SseSlot)
        requires
            old(self).well_formed(),
            old(self)@.count(slot.spec_ip()) > 0,
        ensures
            final(self).well_formed(),
            final(self).per_ip_cap() == old(self).per_ip_cap(),
            final(self).global_cap() == old(self).global_cap(),
            final(self)@ == old(self)@.remove(slot.spec_ip()),
    {
        let ip = slot.ip;
        let count: u64 = match self.per_ip.get(&ip) {
            Some(c) => *c,
            None => 0,
        };
        assert(self.global >= 1) by {
            vstd::multiset::axiom_count_le_len(self.held@, ip);
        }
        self.global = self.global - 1;
        if count <= 1 {
            self.per_ip.remove(&ip);
        } else {
            self.per_ip.insert(ip, count - 1);
        }
        self.held = Ghost(self.held@.remove(ip));
    }

    /// Number of slots held in total.
    pub fn active(&self) -> (n: u64)
        requires
            self.well_formed(),
        ensures
            n == self@.len(),
    {
        self.global
    }

    /// Number of slots held by `ip`.
    pub fn active_for(&self, ip: u128) -> (n: u64)
        requires
            self.well_formed(),
        ensures
            n == self@.count(ip),
    {
        match self.per_ip.get(&ip) {
            Some(c) => *c,
            None => 0,
        }
    }
}

/// Releasing a slot undoes acquiring it.
pub proof fn law_release_undoes_acquire(held: Multiset<u128>, ip: u128)
    ensures
        held.insert(ip).remove(ip) =~= held,
{
    assert forall|x: u128| #[trigger] held.insert(ip).remove(ip).count(x) == held.count(x) by {}
}

} // verus!
