//! A sliding-window rate limiter per client address.

use vstd::prelude::*;

use crate::text::same;
use crate::time::nanos_now;

verus! {

/// The hits of one client address.
pub struct Entry {
    pub ip: String,
    pub times: Vec<u128>,
}

/// Lets each client address through at most `max` times within any `window`. The window is counted
/// in nanoseconds, and so are times, since an origin far before the Unix epoch.
pub struct RateLimiter {
    pub max: usize,
    pub window: u128,
    pub hits: Vec<Entry>,
}

/// How often idle addresses are forgotten, in seconds.
pub const CLEANUP_INTERVAL_SECS: u64 = 300;

/// The hits that still count at `now`: those less than a window old.
pub open spec fn live(times: Seq<u128>, window: u128, now: u128) -> Seq<u128> {
    times.filter(|t: u128| t + window > now)
}

/// Whether one more hit at `now` is let through after the hits in `times`.
pub open spec fn admits(times: Seq<u128>, max: usize, window: u128, now: u128) -> bool {
    live(times, window, now).len() < max
}

/// What is remembered of an address after a hit at `now`: its live hits, and this one if it
/// was let through.
pub open spec fn after_hit(times: Seq<u128>, max: usize, window: u128, now: u128) -> Seq<u128> {
    if admits(times, max, window, now) {
        live(times, window, now).push(now)
    } else {
        live(times, window, now)
    }
}

/// Some hit is less than two windows old.
pub open spec fn recent(times: Seq<u128>, window: u128, now: u128) -> bool {
    exists|i: int| 0 <= i < times.len() && #[trigger] times[i] + window + window > now
}

/// One limiter remembers what another does and a hit of `ip` at `now`.
pub open spec fn counted(a: RateLimiter, b: RateLimiter, ip: Seq<char>, now: u128) -> bool {
    &&& b.wf()
    &&& b.max == a.max
    &&& b.window == a.window
    &&& b.hits_of(ip) == after_hit(a.hits_of(ip), a.max, a.window, now)
    &&& forall|other: Seq<char>| other != ip ==> #[trigger] b.hits_of(other) == a.hits_of(other)
    &&& forall|other: Seq<char>| #[trigger] b.knows(other) <==> a.knows(other) || other == ip
}

/// One limiter holds the entries that another does, but for the addresses without a recent hit.
pub open spec fn cleaned(a: RateLimiter, b: RateLimiter, now: u128) -> bool {
    &&& b.wf()
    &&& b.max == a.max
    &&& b.window == a.window
    &&& forall|ip: Seq<char>|
        #[trigger] b.hits_of(ip) == if recent(a.hits_of(ip), a.window, now) {
            a.hits_of(ip)
        } else {
            Seq::<u128>::empty()
        }
    &&& forall|ip: Seq<char>| #[trigger] b.knows(ip) <==> recent(a.hits_of(ip), a.window, now)
    &&& forall|i: int|
        0 <= i < b.hits@.len() ==> recent((#[trigger] b.hits@[i]).times@, a.window, now)
}

/// The hits of the first entry for `ip`, or none.
pub open spec fn lookup(hits: Seq<Entry>, ip: Seq<char>) -> Seq<u128>
    decreases hits.len(),
{
    if hits.len() == 0 {
        Seq::<u128>::empty()
    } else if hits[0].ip@ == ip {
        hits[0].times@
    } else {
        lookup(hits.drop_first(), ip)
    }
}

/// No address has two entries.
pub open spec fn distinct(hits: Seq<Entry>) -> bool {
    forall|i: int, j: int|
        0 <= i < j < hits.len() ==> #[trigger] hits[i].ip@ != #[trigger] hits[j].ip@
}

/// The entry is a recent one among those from position `from` on.
spec fn kept_from(e: Entry, hits: Seq<Entry>, from: int, window: u128, now: u128) -> bool {
    exists|b: int|
        from <= b < hits.len() && #[trigger] hits[b] == e && recent(e.times@, window, now)
}

proof fn lemma_lookup_at(hits: Seq<Entry>, k: int)
    requires
        distinct(hits),
        0 <= k < hits.len(),
    ensures
        lookup(hits, hits[k].ip@) == hits[k].times@,
    decreases hits.len(),
{
    if k > 0 {
        let t = hits.drop_first();
        assert(hits[0].ip@ != hits[k].ip@);
        assert forall|i: int, j: int| 0 <= i < j < t.len() implies #[trigger] t[i].ip@ != #[trigger] t[j].ip@ by {
            assert(t[i] == hits[i + 1] && t[j] == hits[j + 1]);
        }
        assert(t[k - 1] == hits[k]);
        lemma_lookup_at(t, k - 1);
    }
}

proof fn lemma_lookup_none(hits: Seq<Entry>, ip: Seq<char>)
    requires
        forall|i: int| 0 <= i < hits.len() ==> #[trigger] hits[i].ip@ != ip,
    ensures
        lookup(hits, ip) == Seq::<u128>::empty(),
    decreases hits.len(),
{
    if hits.len() > 0 {
        let t = hits.drop_first();
        assert forall|i: int| 0 <= i < t.len() implies #[trigger] t[i].ip@ != ip by {
            assert(t[i] == hits[i + 1]);
        }
        assert(hits[0].ip@ != ip);
        lemma_lookup_none(t, ip);
    }
}

/// Two tables that agree on their entries for `ip` agree on its hits.
proof fn lemma_lookup_same(a: Seq<Entry>, b: Seq<Entry>, ip: Seq<char>)
    requires
        distinct(a),
        distinct(b),
        forall|i: int|
            0 <= i < a.len() && #[trigger] a[i].ip@ == ip ==> exists|j: int|
                0 <= j < b.len() && #[trigger] b[j].ip@ == ip && b[j].times@ == a[i].times@,
        forall|j: int|
            0 <= j < b.len() && #[trigger] b[j].ip@ == ip ==> exists|i: int|
                0 <= i < a.len() && #[trigger] a[i].ip@ == ip,
    ensures
        lookup(a, ip) == lookup(b, ip),
{
    if exists|i: int| 0 <= i < a.len() && #[trigger] a[i].ip@ == ip {
        let i = choose|i: int| 0 <= i < a.len() && #[trigger] a[i].ip@ == ip;
        let j = choose|j: int| 0 <= j < b.len() && #[trigger] b[j].ip@ == ip && b[j].times@ == a[i].times@;
        lemma_lookup_at(a, i);
        lemma_lookup_at(b, j);
    } else {
        lemma_lookup_none(a, ip);
        lemma_lookup_none(b, ip);
    }
}

/// The hits in `times` that still count at `now`.
fn live_hits(times: &Vec<u128>, window: u128, now: u128) -> (r: Vec<u128>)
    ensures
        r@ == live(times@, window, now),
{
    let mut out: Vec<u128> = Vec::new();
    let ghost f = |t: u128| t + window > now;
    let mut i: usize = 0;
    proof {
        reveal_with_fuel(Seq::filter, 1);
        assert(out@ =~= times@.take(0).filter(f));
    }
    while i < times.len()
        invariant
            i <= times@.len(),
            f == (|t: u128| t + window > now),
            out@ == times@.take(i as int).filter(f),
        decreases times.len() - i,
    {
        proof {
            reveal_with_fuel(Seq::filter, 1);
            assert(times@.take(i + 1).drop_last() =~= times@.take(i as int));
        }
        let t: u128 = times[i];
        if window > now || t > now - window {
            out.push(t);
        }
        i = i + 1;
    }
    assert(times@.take(times@.len() as int) =~= times@);
    out
}

/// Whether some hit in `times` is less than two windows old.
fn is_recent(times: &Vec<u128>, window: u128, now: u128) -> (r: bool)
    ensures
        r == recent(times@, window, now),
{
    let mut i: usize = 0;
    while i < times.len()
        invariant
            i <= times@.len(),
            forall|j: int| 0 <= j < i ==> #[trigger] times@[j] + window + window <= now,
        decreases times.len() - i,
    {
        let t: u128 = times[i];
        if window > now || window > now - window || t > now - window - window {
            assert(times@[i as int] + window + window > now);
            return true;
        }
        i = i + 1;
    }
    false
}

impl RateLimiter {
    /// No address is kept twice.
    pub open spec fn wf(self) -> bool {
        distinct(self.hits@)
    }

    /// The hits remembered of `ip`, oldest first.
    pub open spec fn hits_of(self, ip: Seq<char>) -> Seq<u128> {
        lookup(self.hits@, ip)
    }

    /// There is an entry for `ip`.
    pub open spec fn knows(self, ip: Seq<char>) -> bool {
        exists|i: int| 0 <= i < self.hits@.len() && #[trigger] self.hits@[i].ip@ == ip
    }

    /// A limiter that has seen nobody.
    pub fn new(max: usize, window: u128) -> (r: RateLimiter)
        ensures
            r.wf(),
            r.max == max,
            r.window == window,
            r.hits@.len() == 0,
            forall|ip: Seq<char>| #[trigger] r.hits_of(ip) == Seq::<u128>::empty(),
    {
        RateLimiter { max, window, hits: Vec::new() }
    }

    /// The position of the entry for `ip`.
    fn position(&self, ip: &str) -> (r: Option<usize>)
        ensures
            match r {
                Some(k) => k < self.hits@.len() && self.hits@[k as int].ip@ == ip@,
                None => forall|i: int| 0 <= i < self.hits@.len() ==> #[trigger] self.hits@[i].ip@ != ip@,
            },
    {
        let mut i: usize = 0;
        while i < self.hits.len()
            invariant
                i <= self.hits@.len(),
                forall|j: int| 0 <= j < i ==> #[trigger] self.hits@[j].ip@ != ip@,
            decreases self.hits.len() - i,
        {
            if same(self.hits[i].ip.as_str(), ip) {
                return Some(i);
            }
            i = i + 1;
        }
        None
    }

    /// Counts a hit of `ip` at `now` and says whether it is let through.
    pub fn allow_at(&mut self, ip: String, now: u128) -> (r: bool)
        requires
            old(self).wf(),
        ensures
            counted(*old(self), *final(self), ip@, now),
            r == admits(old(self).hits_of(ip@), old(self).max, old(self).window, now),
    {
        let ghost before = self.hits@;
        let ghost was = *self;
        let found = self.position(ip.as_str());
        match found {
            Some(k) => {
                proof {
                    lemma_lookup_at(before, k as int);
                }
                let mut kept = live_hits(&self.hits[k].times, self.window, now);
                let ok = kept.len() < self.max;
                if ok {
                    kept.push(now);
                }
                self.hits.set(k, Entry { ip, times: kept });
                proof {
                    let after = self.hits@;
                    assert forall|i: int, j: int| 0 <= i < j < after.len() implies #[trigger] after[i].ip@
                        != #[trigger] after[j].ip@ by {
                        assert(after[i].ip@ == before[i].ip@);
                        assert(after[j].ip@ == before[j].ip@);
                    }
                    lemma_lookup_at(after, k as int);
                    assert forall|other: Seq<char>| #[trigger] self.knows(other) <==> was.knows(other) || other
                        == ip@ by {
                        if self.knows(other) {
                            let i = choose|i: int| 0 <= i < after.len() && #[trigger] after[i].ip@ == other;
                            assert(before[i].ip@ == other);
                        }
                        if was.knows(other) {
                            let i = choose|i: int| 0 <= i < before.len() && #[trigger] before[i].ip@ == other;
                            assert(after[i].ip@ == other);
                        }
                        assert(after[k as int].ip@ == ip@);
                    }
                    assert forall|other: Seq<char>| other != ip@ implies #[trigger] lookup(after, other)
                        == lookup(before, other) by {
                        assert forall|i: int| 0 <= i < before.len() && #[trigger] before[i].ip@ == other implies exists|
                            j: int,
                        |
                            0 <= j < after.len() && #[trigger] after[j].ip@ == other && after[j].times@
                                == before[i].times@ by {
                            assert(after[i] == before[i]);
                        }
                        assert forall|j: int| 0 <= j < after.len() && #[trigger] after[j].ip@ == other implies exists|
                            i: int,
                        |
                            0 <= i < before.len() && #[trigger] before[i].ip@ == other by {
                            assert(before[j].ip@ == other);
                        }
                        lemma_lookup_same(before, after, other);
                    }
                }
                ok
            },
            None => {
                proof {
                    lemma_lookup_none(before, ip@);
                    reveal_with_fuel(Seq::filter, 1);
                    assert(live(Seq::<u128>::empty(), self.window, now) =~= Seq::<u128>::empty());
                }
                let ok = 0 < self.max;
                let mut kept: Vec<u128> = Vec::new();
                if ok {
                    kept.push(now);
                }
                self.hits.push(Entry { ip, times: kept });
                proof {
                    let after = self.hits@;
                    let k = before.len() as int;
                    assert forall|i: int, j: int| 0 <= i < j < after.len() implies #[trigger] after[i].ip@
                        != #[trigger] after[j].ip@ by {
                        assert(after[i] == before[i]);
                        if j < k {
                            assert(after[j] == before[j]);
                        }
                    }
                    lemma_lookup_at(after, k);
                    assert forall|other: Seq<char>| #[trigger] self.knows(other) <==> was.knows(other) || other
                        == ip@ by {
                        if self.knows(other) {
                            let i = choose|i: int| 0 <= i < after.len() && #[trigger] after[i].ip@ == other;
                            if i < k {
                                assert(before[i].ip@ == other);
                            }
                        }
                        if was.knows(other) {
                            let i = choose|i: int| 0 <= i < before.len() && #[trigger] before[i].ip@ == other;
                            assert(after[i].ip@ == other);
                        }
                        assert(after[k].ip@ == ip@);
                    }
                    assert forall|other: Seq<char>| other != ip@ implies #[trigger] lookup(after, other)
                        == lookup(before, other) by {
                        assert forall|i: int| 0 <= i < before.len() && #[trigger] before[i].ip@ == other implies exists|
                            j: int,
                        |
                            0 <= j < after.len() && #[trigger] after[j].ip@ == other && after[j].times@
                                == before[i].times@ by {
                            assert(after[i] == before[i]);
                        }
                        assert forall|j: int| 0 <= j < after.len() && #[trigger] after[j].ip@ == other implies exists|
                            i: int,
                        |
                            0 <= i < before.len() && #[trigger] before[i].ip@ == other by {
                            assert(after[j] == before[j]);
                        }
                        lemma_lookup_same(before, after, other);
                    }
                }
                ok
            },
        }
    }

    /// Forgets the addresses that have not been let through for two windows.
    pub fn cleanup_at(&mut self, now: u128)
        requires
            old(self).wf(),
        ensures
            cleaned(*old(self), *final(self), now),
    {
        let ghost before = self.hits@;
        let window: u128 = self.window;
        let mut kept: Vec<Entry> = Vec::new();
        let mut all: Vec<Entry> = Vec::new();
        std::mem::swap(&mut all, &mut self.hits);
        while all.len() > 0
            invariant
                distinct(before),
                all@.len() <= before.len(),
                all@ == before.take(all@.len() as int),
                distinct(kept@),
                forall|a: int|
                    0 <= a < kept@.len() ==> kept_from(
                        #[trigger] kept@[a],
                        before,
                        all@.len() as int,
                        window,
                        now,
                    ),
                forall|b: int|
                    all@.len() <= b < before.len() && recent((#[trigger] before[b]).times@, window, now)
                        ==> kept@.contains(before[b]),
            decreases all.len(),
        {
            let ghost n = all@.len() as int;
            let ghost was = kept@;
            let e = all.pop().unwrap();
            assert(all@ =~= before.take(n - 1));
            assert(e == before[n - 1]);
            if is_recent(&e.times, window, now) {
                kept.push(e);
                proof {
                    assert forall|a: int, b: int| 0 <= a < b < kept@.len() implies #[trigger] kept@[a].ip@
                        != #[trigger] kept@[b].ip@ by {
                        assert(kept@[a] == was[a]);
                        assert(kept_from(was[a], before, n, window, now));
                        let c = choose|c: int|
                            n <= c < before.len() && #[trigger] before[c] == was[a] && recent(
                                was[a].times@,
                                window,
                                now,
                            );
                        if b < was.len() {
                            assert(kept@[b] == was[b]);
                        } else {
                            assert(before[n - 1].ip@ != before[c].ip@);
                        }
                    }
                    assert forall|b: int|
                        n - 1 <= b < before.len() && recent((#[trigger] before[b]).times@, window, now) implies kept@.contains(
                        before[b],
                    ) by {
                        if b >= n {
                            assert(was.contains(before[b]));
                            let a = choose|a: int| 0 <= a < was.len() && was[a] == before[b];
                            assert(kept@[a] == before[b]);
                        } else {
                            assert(kept@[was.len() as int] == before[b]);
                        }
                    }
                }
            }
            proof {
                assert forall|a: int| 0 <= a < kept@.len() implies kept_from(
                    #[trigger] kept@[a],
                    before,
                    n - 1,
                    window,
                    now,
                ) by {
                    if a < was.len() {
                        assert(kept@[a] == was[a]);
                        assert(kept_from(was[a], before, n, window, now));
                    } else {
                        assert(before[n - 1] == kept@[a]);
                    }
                }
            }
        }
        self.hits = kept;
        proof {
            let after = self.hits@;
            assert forall|ip: Seq<char>| #[trigger] lookup(after, ip) == if recent(
                lookup(before, ip),
                window,
                now,
            ) {
                lookup(before, ip)
            } else {
                Seq::<u128>::empty()
            } by {
                if exists|a: int| 0 <= a < after.len() && #[trigger] after[a].ip@ == ip {
                    let a = choose|a: int| 0 <= a < after.len() && #[trigger] after[a].ip@ == ip;
                    assert(kept_from(after[a], before, 0, window, now));
                    let b = choose|b: int|
                        0 <= b < before.len() && #[trigger] before[b] == after[a] && recent(
                            after[a].times@,
                            window,
                            now,
                        );
                    lemma_lookup_at(after, a);
                    lemma_lookup_at(before, b);
                } else {
                    lemma_lookup_none(after, ip);
                    if exists|b: int| 0 <= b < before.len() && #[trigger] before[b].ip@ == ip {
                        let b = choose|b: int| 0 <= b < before.len() && #[trigger] before[b].ip@ == ip;
                        lemma_lookup_at(before, b);
                        if recent(before[b].times@, window, now) {
                            assert(after.contains(before[b]));
                        }
                    } else {
                        lemma_lookup_none(before, ip);
                    }
                }
            }
            assert forall|i: int| 0 <= i < after.len() implies recent(
                (#[trigger] after[i]).times@,
                window,
                now,
            ) by {
                assert(kept_from(after[i], before, 0, window, now));
            }
            assert forall|ip: Seq<char>| #[trigger] self.knows(ip) <==> recent(
                lookup(before, ip),
                window,
                now,
            ) by {
                if self.knows(ip) {
                    let a = choose|a: int| 0 <= a < after.len() && #[trigger] after[a].ip@ == ip;
                    lemma_lookup_at(after, a);
                    assert(recent(after[a].times@, window, now));
                } else {
                    lemma_lookup_none(after, ip);
                }
            }
        }
    }

    /// Counts a hit of `ip` now and says whether it is let through.
    pub fn allow(&mut self, ip: String) -> (r: bool)
        requires
            old(self).wf(),
        ensures
            exists|now: u128| #[trigger]
                counted(*old(self), *final(self), ip@, now) && r == admits(
                    old(self).hits_of(ip@),
                    old(self).max,
                    old(self).window,
                    now,
                ),
    {
        let now: u128 = nanos_now();
        self.allow_at(ip, now)
    }

    /// Forgets, now, the addresses that have not been let through for two windows.
    pub fn cleanup(&mut self)
        requires
            old(self).wf(),
        ensures
            exists|now: u128| #[trigger] cleaned(*old(self), *final(self), now),
    {
        let now: u128 = nanos_now();
        self.cleanup_at(now)
    }
}

impl Default for RateLimiter {
    /// A limiter that lets nobody through.
    fn default() -> (r: RateLimiter)
        ensures
            r.wf(),
            r.max == 0,
            r.window == 0,
            r.hits@.len() == 0,
            forall|ip: Seq<char>| #[trigger] r.hits_of(ip) == Seq::<u128>::empty(),
    {
        RateLimiter::new(0, 0)
    }
}

// ---------------------------------------------------------------------------
// Laws
// ---------------------------------------------------------------------------

/// What is remembered of an address after hits at the times `ts`.
pub open spec fn remembered(ts: Seq<u128>, max: usize, window: u128) -> Seq<u128>
    decreases ts.len(),
{
    if ts.len() == 0 {
        Seq::<u128>::empty()
    } else {
        after_hit(remembered(ts.drop_last(), max, window), max, window, ts.last())
    }
}

/// Which of the hits at the times `ts` are let through.
pub open spec fn let_through(ts: Seq<u128>, max: usize, window: u128) -> Seq<u128>
    decreases ts.len(),
{
    if ts.len() == 0 {
        Seq::<u128>::empty()
    } else if admits(remembered(ts.drop_last(), max, window), max, window, ts.last()) {
        let_through(ts.drop_last(), max, window).push(ts.last())
    } else {
        let_through(ts.drop_last(), max, window)
    }
}

/// The clock does not run backwards.
pub open spec fn in_order(ts: Seq<u128>) -> bool {
    forall|i: int, j: int| 0 <= i <= j < ts.len() ==> ts[i] <= ts[j]
}

proof fn lemma_live_later(times: Seq<u128>, window: u128, a: u128, b: u128)
    requires
        a <= b,
    ensures
        live(live(times, window, a), window, b) == live(times, window, b),
    decreases times.len(),
{
    reveal_with_fuel(Seq::filter, 1);
    if times.len() > 0 {
        let f = |t: u128| t + window > a;
        let front = times.drop_last();
        lemma_live_later(front, window, a, b);
        if f(times.last()) {
            assert(live(times, window, a).drop_last() =~= live(front, window, a));
        }
    }
}

proof fn lemma_live_none(times: Seq<u128>, window: u128, now: u128)
    requires
        forall|i: int| 0 <= i < times.len() ==> #[trigger] times[i] + window <= now,
    ensures
        live(times, window, now) == Seq::<u128>::empty(),
    decreases times.len(),
{
    reveal_with_fuel(Seq::filter, 1);
    if times.len() > 0 {
        assert(times[times.len() - 1] + window <= now);
        assert forall|i: int| 0 <= i < times.drop_last().len() implies #[trigger] times.drop_last()[i] + window
            <= now by {
            assert(times.drop_last()[i] == times[i]);
        }
        lemma_live_none(times.drop_last(), window, now);
    }
    assert(live(times, window, now) =~= Seq::<u128>::empty());
}

proof fn lemma_let_through(ts: Seq<u128>, max: usize, window: u128)
    requires
        in_order(ts),
        ts.len() > 0,
    ensures
        window > 0 ==> remembered(ts, max, window) == live(let_through(ts, max, window), window, ts.last()),
        remembered(ts, max, window).len() <= max,
        forall|i: int|
            0 <= i < let_through(ts, max, window).len() ==> #[trigger] let_through(ts, max, window)[i]
                <= ts.last(),
    decreases ts.len(),
{
    let front = ts.drop_last();
    let now = ts.last();
    let prev = let_through(front, max, window);
    reveal_with_fuel(Seq::filter, 1);
    if front.len() > 0 {
        assert(in_order(front));
        lemma_let_through(front, max, window);
        assert(front.last() == ts[ts.len() - 2]);
        lemma_live_later(prev, window, front.last(), now);
    } else {
        assert(remembered(front, max, window) =~= Seq::<u128>::empty());
        assert(prev =~= Seq::<u128>::empty());
    }
    if admits(remembered(front, max, window), max, window, now) {
        assert(prev.push(now).drop_last() =~= prev);
    }
}

/// However often an address asks, at most `max` of the hits less than a window old were let
/// through.
pub proof fn law_at_most_max_per_window(ts: Seq<u128>, max: usize, window: u128)
    requires
        in_order(ts),
        ts.len() > 0,
    ensures
        live(let_through(ts, max, window), window, ts.last()).len() <= max,
{
    lemma_let_through(ts, max, window);
    if window == 0 {
        lemma_live_none(let_through(ts, max, window), window, ts.last());
    }
}

/// An address that was not let through within the last window is let through, unless nobody is.
pub proof fn law_patience_is_rewarded(times: Seq<u128>, max: usize, window: u128, now: u128)
    requires
        forall|i: int| 0 <= i < times.len() ==> #[trigger] times[i] + window <= now,
        max > 0,
    ensures
        admits(times, max, window, now),
{
    lemma_live_none(times, window, now);
}

/// Forgetting idle addresses changes no later answer.
pub proof fn law_cleanup_changes_no_answer(
    a: RateLimiter,
    b: RateLimiter,
    at: u128,
    ip: Seq<char>,
    now: u128,
)
    requires
        cleaned(a, b, at),
        at <= now,
    ensures
        admits(b.hits_of(ip), b.max, b.window, now) == admits(a.hits_of(ip), a.max, a.window, now),
        after_hit(b.hits_of(ip), b.max, b.window, now) == after_hit(a.hits_of(ip), a.max, a.window, now),
{
    let times = a.hits_of(ip);
    if !recent(times, a.window, at) {
        assert forall|i: int| 0 <= i < times.len() implies #[trigger] times[i] + a.window <= now by {
            assert(times[i] + a.window + a.window <= at);
        }
        lemma_live_none(times, a.window, now);
        lemma_live_none(Seq::<u128>::empty(), a.window, now);
    }
}

/// A hit counts exactly while it is less than a window old; the hits that count keep their order.
pub proof fn law_hits_count_for_a_window(a: Seq<u128>, b: Seq<u128>, t: u128, window: u128, now: u128)
    ensures
        live(a + b, window, now) == live(a, window, now) + live(b, window, now),
        now - t < window ==> live(seq![t], window, now) == seq![t],
        now - t >= window ==> live(seq![t], window, now).len() == 0,
        live(Seq::<u128>::empty(), window, now).len() == 0,
{
    let f = |t: u128| t + window > now;
    Seq::filter_distributes_over_add(a, b, f);
    reveal_with_fuel(Seq::filter, 2);
    assert(seq![t].drop_last() =~= Seq::<u128>::empty());
    if now - t < window {
        assert(live(seq![t], window, now) =~= seq![t]);
    }
}

proof fn lemma_live_bound(times: Seq<u128>, window: u128, now: u128)
    ensures
        live(times, window, now).len() <= times.len(),
        (forall|i: int| 0 <= i < times.len() ==> #[trigger] times[i] + window > now) ==> live(
            times,
            window,
            now,
        ) == times,
    decreases times.len(),
{
    reveal_with_fuel(Seq::filter, 1);
    if times.len() > 0 {
        let front = times.drop_last();
        lemma_live_bound(front, window, now);
        if forall|i: int| 0 <= i < times.len() ==> #[trigger] times[i] + window > now {
            assert forall|i: int| 0 <= i < front.len() implies #[trigger] front[i] + window > now by {
                assert(front[i] == times[i]);
            }
            assert(times[times.len() - 1] + window > now);
            assert(front.push(times.last()) =~= times);
        }
    } else {
        assert(live(times, window, now) =~= times);
    }
}

/// An address with as many hits within the window as are allowed is not let through.
pub proof fn law_haste_is_refused(times: Seq<u128>, max: usize, window: u128, now: u128)
    requires
        forall|i: int| 0 <= i < times.len() ==> now - #[trigger] times[i] < window,
        times.len() >= max,
    ensures
        !admits(times, max, window, now),
        after_hit(times, max, window, now) == times,
{
    assert forall|i: int| 0 <= i < times.len() implies #[trigger] times[i] + window > now by {
        assert(now - times[i] < window);
    }
    lemma_live_bound(times, window, now);
}

/// An address that asks no more often than is allowed is always let through, however fast.
pub proof fn law_the_allowed_number_is_let_through(ts: Seq<u128>, max: usize, window: u128)
    requires
        ts.len() <= max,
    ensures
        let_through(ts, max, window) == ts,
        remembered(ts, max, window).len() <= ts.len(),
    decreases ts.len(),
{
    if ts.len() > 0 {
        let front = ts.drop_last();
        law_the_allowed_number_is_let_through(front, max, window);
        lemma_live_bound(remembered(front, max, window), window, ts.last());
        assert(front.push(ts.last()) =~= ts);
    } else {
        assert(let_through(ts, max, window) =~= ts);
    }
}

/// A hit of one address changes the answer to no other.
pub proof fn law_addresses_are_counted_apart(
    a: RateLimiter,
    b: RateLimiter,
    ip: Seq<char>,
    other: Seq<char>,
    now: u128,
    later: u128,
)
    requires
        counted(a, b, ip, now),
        other != ip,
    ensures
        b.max == a.max,
        b.window == a.window,
        b.hits_of(other) == a.hits_of(other),
        admits(b.hits_of(other), b.max, b.window, later) == admits(a.hits_of(other), a.max, a.window, later),
{
}

/// A hit that is let through is remembered as the last one of its address; one that is not leaves no trace.
pub proof fn law_hits_are_remembered(a: RateLimiter, b: RateLimiter, ip: Seq<char>, now: u128)
    requires
        counted(a, b, ip, now),
    ensures
        live(a.hits_of(ip), a.window, now).len() < a.max ==> b.hits_of(ip).len() > 0 && b.hits_of(ip).last()
            == now && b.hits_of(ip).drop_last() == live(a.hits_of(ip), a.window, now),
        live(a.hits_of(ip), a.window, now).len() >= a.max ==> b.hits_of(ip) == live(
            a.hits_of(ip),
            a.window,
            now,
        ),
        b.knows(ip),
{
    let l = live(a.hits_of(ip), a.window, now);
    assert(l.push(now).drop_last() =~= l);
}

/// An address is forgotten exactly if none of its hits is less than two windows old; of the others every
/// hit is kept.
pub proof fn law_idle_addresses_are_forgotten(a: RateLimiter, b: RateLimiter, now: u128, ip: Seq<char>)
    requires
        cleaned(a, b, now),
    ensures
        b.knows(ip) <==> exists|i: int|
            0 <= i < a.hits_of(ip).len() && now - #[trigger] a.hits_of(ip)[i] < 2 * a.window,
        b.knows(ip) ==> b.hits_of(ip) == a.hits_of(ip),
        !b.knows(ip) ==> b.hits_of(ip).len() == 0,
{
    let h = a.hits_of(ip);
    if recent(h, a.window, now) {
        let i = choose|i: int| 0 <= i < h.len() && #[trigger] h[i] + a.window + a.window > now;
        assert(now - h[i] < 2 * a.window);
    }
    if exists|i: int| 0 <= i < h.len() && now - #[trigger] h[i] < 2 * a.window {
        let i = choose|i: int| 0 <= i < h.len() && now - #[trigger] h[i] < 2 * a.window;
        assert(h[i] + a.window + a.window > now);
    }
}

} // verus!
