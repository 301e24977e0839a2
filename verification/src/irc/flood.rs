//! Flood protection: counting how often each source does each kind of
//! thing within a sliding time window.
use vstd::prelude::*;

use crate::text::{ascii_lower, chars_of, seq_eq, to_ascii_lower};

verus! {

/// What kind of event is being counted.
#[derive(Debug, Clone, Copy, PartialEq, Eq, Hash, Structural)]
pub enum FloodType {
    Message,
    Ctcp,
    Join,
    Notice,
    Invite,
    Nick,
}

/// `std::time::Instant`, the clock the tracker measures from.
#[verifier::external_type_specification]
#[verifier::external_body]
pub struct ExInstant(std::time::Instant);

/// The events of one kind seen from one source: the lower-cased source,
/// the kind, and when each happened (nanoseconds since the tracker began).
#[derive(Debug)]
pub struct FloodCounter {
    pub source: String,
    pub kind: FloodType,
    pub timestamps: Vec<u128>,
}

/// Counts events per source and kind, and reports a flood when more than
/// `max_count` fall within the window.
#[derive(Debug)]
pub struct FloodTracker {
    pub counters: Vec<FloodCounter>,
    max_count: u32,
    window_nanos: u128,
    origin: std::time::Instant,
    /// The latest time an event or a sweep was taken at, in nanoseconds
    /// since `origin`.
    latest: u128,
}

/// The abstract value of one counter.
pub open spec fn counter_view(c: FloodCounter) -> (Seq<char>, FloodType, Seq<u128>) {
    (c.source@, c.kind, c.timestamps@)
}

pub open spec fn counters_view(v: Seq<FloodCounter>) -> Seq<(Seq<char>, FloodType, Seq<u128>)> {
    v.map_values(|c: FloodCounter| counter_view(c))
}

/// How long ago `t` was at time `now` (zero if `t` is later).
pub open spec fn age(now: u128, t: u128) -> int {
    if now >= t {
        now - t
    } else {
        0
    }
}

/// The timestamps of `ts` still inside the window at time `now`.
pub open spec fn recent(ts: Seq<u128>, now: u128, window: u128) -> Seq<u128>
    decreases ts.len(),
{
    if ts.len() == 0 {
        Seq::empty()
    } else {
        let r = recent(ts.drop_last(), now, window);
        if age(now, ts.last()) < window {
            r.push(ts.last())
        } else {
            r
        }
    }
}

/// The counters, with old timestamps dropped and counters left empty
/// removed.
pub open spec fn swept(
    cs: Seq<(Seq<char>, FloodType, Seq<u128>)>,
    now: u128,
    window: u128,
) -> Seq<(Seq<char>, FloodType, Seq<u128>)>
    decreases cs.len(),
{
    if cs.len() == 0 {
        Seq::empty()
    } else {
        let r = swept(cs.drop_last(), now, window);
        let c = cs.last();
        let kept = recent(c.2, now, window);
        if kept.len() > 0 {
            r.push((c.0, c.1, kept))
        } else {
            r
        }
    }
}

/// The counters that do not belong to `source`.
pub open spec fn without_source(
    cs: Seq<(Seq<char>, FloodType, Seq<u128>)>,
    source: Seq<char>,
) -> Seq<(Seq<char>, FloodType, Seq<u128>)>
    decreases cs.len(),
{
    if cs.len() == 0 {
        Seq::empty()
    } else {
        let r = without_source(cs.drop_last(), source);
        if cs.last().0 != source {
            r.push(cs.last())
        } else {
            r
        }
    }
}

/// Where the counter for `source` and `kind` is, if there is one.
pub open spec fn counter_for(
    cs: Seq<(Seq<char>, FloodType, Seq<u128>)>,
    source: Seq<char>,
    kind: FloodType,
) -> Option<int> {
    if exists|i: int| 0 <= i < cs.len() && cs[i].0 == source && cs[i].1 == kind {
        Some(choose|i: int| 0 <= i < cs.len() && cs[i].0 == source && cs[i].1 == kind)
    } else {
        None
    }
}

/// Every timestamp of the counters is at most `c`.
pub open spec fn stamps_until(cs: Seq<(Seq<char>, FloodType, Seq<u128>)>, c: u128) -> bool {
    forall|i: int, j: int| 0 <= i < cs.len() && 0 <= j < cs[i].2.len() ==> #[trigger] cs[i].2[j] <= c
}

/// No two counters share a source and a kind.
pub open spec fn keys_unique(cs: Seq<(Seq<char>, FloodType, Seq<u128>)>) -> bool {
    forall|i: int, j: int|
        0 <= i < j < cs.len() ==> !(cs[i].0 == cs[j].0 && cs[i].1 == cs[j].1)
}

/// What recording an event of `kind` from `key` at time `now` does to the
/// counters `cs` (giving `after`), and whether it reports a flood (`r`).
pub open spec fn check_outcome(
    cs: Seq<(Seq<char>, FloodType, Seq<u128>)>,
    after: Seq<(Seq<char>, FloodType, Seq<u128>)>,
    key: Seq<char>,
    kind: FloodType,
    now: u128,
    window: u128,
    max_count: u32,
    r: bool,
) -> bool {
    match counter_for(cs, key, kind) {
        Some(i) => {
            let ts = recent(cs[i].2, now, window).push(now);
            &&& after == cs.update(i, (key, kind, ts))
            &&& r == (ts.len() > max_count)
        },
        None => {
            &&& after == cs.push((key, kind, seq![now]))
            &&& r == (1 > max_count)
        },
    }
}

/// Instant::now.
#[verifier::external_body]
fn instant_now() -> std::time::Instant {
    std::time::Instant::now()
}

/// Nanoseconds since `origin`; `Instant::elapsed`. Nothing is stated of
/// the value: it reads the clock.
#[verifier::external_body]
fn nanos_since(origin: &std::time::Instant) -> u128 {
    origin.elapsed().as_nanos()
}

impl FloodTracker {
    /// The counters do not repeat a source and kind.
    pub closed spec fn wf(&self) -> bool {
        &&& keys_unique(counters_view(self.counters@))
        &&& stamps_until(counters_view(self.counters@), self.latest)
    }

    /// A well-formed tracker has at most one counter per source and kind,
    /// and no timestamp later than its clock.
    pub proof fn lemma_wf_entries(&self)
        requires
            self.wf(),
        ensures
            keys_unique(self.entries()),
            stamps_until(self.entries(), self.clock()),
    {
    }

    /// The counters: source, kind and timestamps of each.
    pub closed spec fn entries(&self) -> Seq<(Seq<char>, FloodType, Seq<u128>)> {
        counters_view(self.counters@)
    }

    /// The latest time the tracker has been used at (nanoseconds since it
    /// began); no timestamp is later.
    pub closed spec fn clock(&self) -> u128 {
        self.latest
    }

    pub closed spec fn max_count_spec(&self) -> u32 {
        self.max_count
    }

    pub closed spec fn window_spec(&self) -> u128 {
        self.window_nanos
    }

    /// A tracker that reports more than `max_count` events within
    /// `window_secs` seconds.
    pub fn new(max_count: u32, window_secs: u64) -> (t: FloodTracker)
        ensures
            t.wf(),
            t.entries().len() == 0,
            t.clock() == 0,
            t.max_count_spec() == max_count,
            t.window_spec() == window_secs as u128 * 1_000_000_000,
    {
        FloodTracker {
            counters: Vec::new(),
            max_count,
            window_nanos: window_secs as u128 * 1_000_000_000,
            origin: instant_now(),
            latest: 0,
        }
    }

    fn position(&self, source: &Vec<char>, kind: FloodType) -> (r: Option<usize>)
        requires
            keys_unique(counters_view(self.counters@)),
        ensures
            match r {
                Some(i) => i < self.counters@.len() && counter_for(
                    counters_view(self.counters@),
                    source@,
                    kind,
                ) == Some(i as int),
                None => counter_for(counters_view(self.counters@), source@, kind) is None,
            },
    {
        let ghost cs = counters_view(self.counters@);
        let mut i: usize = 0;
        while i < self.counters.len()
            invariant
                i <= self.counters@.len(),
                cs == counters_view(self.counters@),
                keys_unique(cs),
                forall|j: int| 0 <= j < i ==> !(cs[j].0 == source@ && cs[j].1 == kind),
            decreases self.counters@.len() - i,
        {
            let sv = chars_of(self.counters[i].source.as_str());
            if self.counters[i].kind == kind && seq_eq(&sv, source) {
                proof {
                    assert(cs[i as int] == counter_view(self.counters@[i as int]));
                    assert(cs[i as int].0 == source@ && cs[i as int].1 == kind);
                    let k = choose|k: int| 0 <= k < cs.len() && cs[k].0 == source@ && cs[k].1 == kind;
                    if k != i {
                        assert(keys_unique(cs));
                    }
                }
                return Some(i);
            }
            assert(cs[i as int] == counter_view(self.counters@[i as int]));
            i += 1;
        }
        None
    }

    /// Records an event from `source` of kind `flood_type` at time `now`
    /// (nanoseconds since the tracker began) and says whether it floods:
    /// whether more than `max_count` events fall within the window.
    pub fn check_at(&mut self, source: &str, flood_type: FloodType, now: u128) -> (r: bool)
        requires
            old(self).wf(),
        ensures
            final(self).wf(),
            final(self).clock() == if now < old(self).clock() {
                old(self).clock()
            } else {
                now
            },
            final(self).max_count_spec() == old(self).max_count_spec(),
            final(self).window_spec() == old(self).window_spec(),
            check_outcome(
                old(self).entries(),
                final(self).entries(),
                ascii_lower(source@),
                flood_type,
                now,
                old(self).window_spec(),
                old(self).max_count_spec(),
                r,
            ),
    {
        let key = to_ascii_lower(source);
        let kv = chars_of(key.as_str());
        let ghost cs = counters_view(self.counters@);
        let ghost was = self.latest;
        if self.latest < now {
            self.latest = now;
        }
        match self.position(&kv, flood_type) {
            Some(i) => {
                let ghost old_ts = self.counters@[i as int].timestamps@;
                let mut kept: Vec<u128> = Vec::new();
                let mut j: usize = 0;
                let n = self.counters[i].timestamps.len();
                while j < n
                    invariant
                        i < self.counters@.len(),
                        n == old_ts.len(),
                        old_ts == self.counters@[i as int].timestamps@,
                        j <= n,
                        kept@ == recent(old_ts.take(j as int), now, self.window_nanos),
                    decreases n - j,
                {
                    let t = self.counters[i].timestamps[j];
                    assert(old_ts.take(j + 1).drop_last() =~= old_ts.take(j as int));
                    let a = if now >= t {
                        now - t
                    } else {
                        0
                    };
                    if a < self.window_nanos {
                        kept.push(t);
                    }
                    j += 1;
                }
                assert(old_ts.take(n as int) =~= old_ts);
                proof {
                    assert(old_ts == cs[i as int].2);
                    assert forall|j: int| 0 <= j < old_ts.len() implies #[trigger] old_ts[j] <= was by {
                        assert(cs[i as int].2[j] <= was);
                    }
                    lemma_recent_bounded(old_ts, now, self.window_nanos, was);
                }
                kept.push(now);
                let count = kept.len();
                let ghost new_ts = kept@;
                let mut counter = FloodCounter { source: key, kind: flood_type, timestamps: kept };
                let ghost cv = counter_view(counter);
                let mut tmp = counter;
                std::mem::swap(&mut tmp, &mut self.counters[i]);
                proof {
                    assert(counters_view(self.counters@) =~= cs.update(i as int, cv));
                    let ncs = counters_view(self.counters@);
                    assert(keys_unique(ncs)) by {
                        assert forall|a: int, b: int| 0 <= a < b < ncs.len() implies !(ncs[a].0
                            == ncs[b].0 && ncs[a].1 == ncs[b].1) by {
                            assert(cs[a].0 == ncs[a].0 || a == i);
                        }
                    }
                    assert(stamps_until(ncs, self.latest)) by {
                        assert forall|a: int, b: int| 0 <= a < ncs.len() && 0 <= b < ncs[a].2.len()
                            implies #[trigger] ncs[a].2[b] <= self.latest by {
                            if a != i {
                                assert(ncs[a] == cs[a]);
                                assert(cs[a].2[b] <= was);
                            } else if b < new_ts.len() - 1 {
                                assert(new_ts[b] <= was);
                            }
                        }
                    }
                }
                count > self.max_count as usize
            },
            None => {
                let mut ts: Vec<u128> = Vec::new();
                ts.push(now);
                let counter = FloodCounter { source: key, kind: flood_type, timestamps: ts };
                let ghost cv = counter_view(counter);
                self.counters.push(counter);
                proof {
                    assert(counters_view(self.counters@) =~= cs.push(cv));
                    let ncs = counters_view(self.counters@);
                    assert(keys_unique(ncs)) by {
                        assert forall|a: int, b: int| 0 <= a < b < ncs.len() implies !(ncs[a].0
                            == ncs[b].0 && ncs[a].1 == ncs[b].1) by {
                            if b == cs.len() {
                                assert(!(cs[a].0 == kv@ && cs[a].1 == flood_type));
                            }
                        }
                    }
                    assert(stamps_until(ncs, self.latest)) by {
                        assert forall|a: int, b: int| 0 <= a < ncs.len() && 0 <= b < ncs[a].2.len()
                            implies #[trigger] ncs[a].2[b] <= self.latest by {
                            if a < cs.len() {
                                assert(ncs[a] == cs[a]);
                                assert(cs[a].2[b] <= was);
                            }
                        }
                    }
                }
                1 > self.max_count
            },
        }
    }

    /// Records an event from `source` now and says whether it floods. The
    /// time it is taken at is no earlier than that of any earlier call.
    pub fn check(&mut self, source: &str, flood_type: FloodType) -> (r: bool)
        requires
            old(self).wf(),
        ensures
            final(self).wf(),
            final(self).max_count_spec() == old(self).max_count_spec(),
            final(self).window_spec() == old(self).window_spec(),
            old(self).clock() <= final(self).clock(),
            exists|now: u128|
                now == final(self).clock() && #[trigger] check_outcome(
                    old(self).entries(),
                    final(self).entries(),
                    ascii_lower(source@),
                    flood_type,
                    now,
                    old(self).window_spec(),
                    old(self).max_count_spec(),
                    r,
                ),
    {
        let now = self.read_clock();
        self.check_at(source, flood_type, now)
    }

    /// The time now, in nanoseconds since the tracker began. `Instant`
    /// never goes back, so this is never before the latest time used; the
    /// comparison makes that visible here.
    fn read_clock(&self) -> (now: u128)
        ensures
            self.latest <= now,
    {
        let t = nanos_since(&self.origin);
        if t < self.latest {
            self.latest
        } else {
            t
        }
    }

    /// Drops the events outside the window at time `now`, and the counters
    /// left without events.
    pub fn cleanup_at(&mut self, now: u128)
        requires
            old(self).wf(),
        ensures
            final(self).wf(),
            final(self).entries() == swept(old(self).entries(), now, old(self).window_spec()),
            final(self).clock() == if now < old(self).clock() {
                old(self).clock()
            } else {
                now
            },
            final(self).max_count_spec() == old(self).max_count_spec(),
            final(self).window_spec() == old(self).window_spec(),
    {
        let ghost cs = counters_view(self.counters@);
        proof {
            lemma_swept_bounded(cs, now, self.window_nanos, self.latest);
        }
        if self.latest < now {
            self.latest = now;
        }
        let mut old_counters: Vec<FloodCounter> = Vec::new();
        std::mem::swap(&mut old_counters, &mut self.counters);
        let mut i: usize = 0;
        let ghost mut idx: Seq<int> = Seq::empty();
        while i < old_counters.len()
            invariant
                i <= old_counters@.len(),
                cs == counters_view(old_counters@),
                keys_unique(cs),
                counters_view(self.counters@) == swept(cs.take(i as int), now, self.window_nanos),
                picks(cs, counters_view(self.counters@), idx, i as int),
                self.max_count == old(self).max_count,
                self.window_nanos == old(self).window_nanos,
                self.latest == if now < old(self).latest {
                    old(self).latest
                } else {
                    now
                },
                stamps_until(cs, old(self).latest),
            decreases old_counters@.len() - i,
        {
            let ghost old_ts = old_counters@[i as int].timestamps@;
            let mut kept: Vec<u128> = Vec::new();
            let mut j: usize = 0;
            let n = old_counters[i].timestamps.len();
            while j < n
                invariant
                    i < old_counters@.len(),
                    n == old_ts.len(),
                    old_ts == old_counters@[i as int].timestamps@,
                    j <= n,
                    kept@ == recent(old_ts.take(j as int), now, self.window_nanos),
                decreases n - j,
            {
                let t = old_counters[i].timestamps[j];
                assert(old_ts.take(j + 1).drop_last() =~= old_ts.take(j as int));
                let a = if now >= t {
                    now - t
                } else {
                    0
                };
                if a < self.window_nanos {
                    kept.push(t);
                }
                j += 1;
            }
            assert(old_ts.take(n as int) =~= old_ts);
            assert(cs.take(i + 1).drop_last() =~= cs.take(i as int));
            assert(cs.take(i + 1).last() == cs[i as int]);
            if kept.len() > 0 {
                let src = crate::text::owned(old_counters[i].source.as_str());
                let counter = FloodCounter {
                    source: src,
                    kind: old_counters[i].kind,
                    timestamps: kept,
                };
                let ghost before = counters_view(self.counters@);
                self.counters.push(counter);
                proof {
                    let ncs = counters_view(self.counters@);
                    assert(ncs =~= before.push((cs[i as int].0, cs[i as int].1, kept@)));
                    lemma_picks_push(cs, before, idx, i as int, ncs);
                    idx = idx.push(i as int);
                }
            } else {
                proof {
                    lemma_picks_skip(cs, counters_view(self.counters@), idx, i as int);
                }
            }
            i += 1;
        }
        assert(cs.take(old_counters@.len() as int) =~= cs);
        proof {
            lemma_picks_unique(cs, counters_view(self.counters@), idx, i as int);
        }
    }

    /// Drops the old events of every counter, now. The time it is taken
    /// at is no earlier than that of any earlier call.
    pub fn cleanup(&mut self)
        requires
            old(self).wf(),
        ensures
            final(self).wf(),
            final(self).max_count_spec() == old(self).max_count_spec(),
            final(self).window_spec() == old(self).window_spec(),
            old(self).clock() <= final(self).clock(),
            exists|now: u128|
                now == final(self).clock() && final(self).entries() == #[trigger] swept(
                    old(self).entries(),
                    now,
                    old(self).window_spec(),
                ),
    {
        let now = self.read_clock();
        self.cleanup_at(now);
    }

    /// Forgets every counter of `source`.
    pub fn reset(&mut self, source: &str)
        requires
            old(self).wf(),
        ensures
            final(self).wf(),
            final(self).entries() == without_source(old(self).entries(), ascii_lower(source@)),
            final(self).clock() == old(self).clock(),
            final(self).max_count_spec() == old(self).max_count_spec(),
            final(self).window_spec() == old(self).window_spec(),
    {
        let key = to_ascii_lower(source);
        let kv = chars_of(key.as_str());
        let ghost cs = counters_view(self.counters@);
        proof {
            lemma_without_bounded(cs, kv@, self.latest);
        }
        let mut old_counters: Vec<FloodCounter> = Vec::new();
        std::mem::swap(&mut old_counters, &mut self.counters);
        let mut i: usize = 0;
        let n = old_counters.len();
        let mut rest: Vec<FloodCounter> = Vec::new();
        let ghost mut idx: Seq<int> = Seq::empty();
        while old_counters.len() > 0
            invariant
                i + old_counters@.len() == cs.len(),
                n == cs.len(),
                counters_view(old_counters@) == cs.skip(i as int),
                keys_unique(cs),
                counters_view(rest@) == without_source(cs.take(i as int), kv@),
                picks(cs, counters_view(rest@), idx, i as int),
            decreases old_counters@.len(),
        {
            let ghost before = counters_view(rest@);
            let ghost prev = old_counters@;
            let counter = old_counters.remove(0);
            assert(old_counters@ =~= prev.subrange(1, prev.len() as int));
            let ghost cv = counter_view(counter);
            assert(cv == cs[i as int]) by {
                assert(cs.skip(i as int)[0] == cs[i as int]);
                assert(counters_view(prev)[0] == counter_view(prev[0]));
            }
            assert(counters_view(old_counters@) =~= counters_view(prev).subrange(
                1,
                prev.len() as int,
            ));
            assert(counters_view(old_counters@) =~= cs.skip(i + 1));
            assert(cs.take(i + 1).drop_last() =~= cs.take(i as int));
            assert(cs.take(i + 1).last() == cs[i as int]);
            let sv = chars_of(counter.source.as_str());
            if !seq_eq(&sv, &kv) {
                rest.push(counter);
                proof {
                    let nr = counters_view(rest@);
                    assert(nr =~= before.push(cv));
                    lemma_picks_push(cs, before, idx, i as int, nr);
                    idx = idx.push(i as int);
                }
            } else {
                proof {
                    lemma_picks_skip(cs, before, idx, i as int);
                }
            }
            i += 1;
        }
        assert(cs.take(i as int) =~= cs);
        proof {
            lemma_picks_unique(cs, counters_view(rest@), idx, i as int);
        }
        self.counters = rest;
    }
}

/// After a source is forgotten it has no counter left, of any kind: its
/// next event starts a count of one.
pub proof fn lemma_reset_forgets(
    cs: Seq<(Seq<char>, FloodType, Seq<u128>)>,
    source: Seq<char>,
    kind: FloodType,
)
    ensures
        counter_for(without_source(cs, source), source, kind) is None,
    decreases cs.len(),
{
    if cs.len() > 0 {
        lemma_reset_forgets(cs.drop_last(), source, kind);
        let r = without_source(cs.drop_last(), source);
        assert forall|i: int| 0 <= i < without_source(cs, source).len() implies !(
        #[trigger] without_source(cs, source)[i].0 == source && without_source(cs, source)[i].1 == kind) by {
            if i < r.len() {
                assert(without_source(cs, source)[i] == r[i]);
                assert(!(r[i].0 == source && r[i].1 == kind));
            }
        }
    }
}

/// An event from one source leaves the counters of every other source and
/// kind as they were.
pub proof fn lemma_sources_apart(
    cs: Seq<(Seq<char>, FloodType, Seq<u128>)>,
    after: Seq<(Seq<char>, FloodType, Seq<u128>)>,
    key: Seq<char>,
    kind: FloodType,
    now: u128,
    window: u128,
    max_count: u32,
    r: bool,
    j: int,
)
    requires
        check_outcome(cs, after, key, kind, now, window, max_count, r),
        0 <= j < cs.len(),
        !(cs[j].0 == key && cs[j].1 == kind),
    ensures
        j < after.len(),
        after[j] == cs[j],
{
}

/// The timestamps kept in the window come from `ts`, so a bound on `ts`
/// bounds them too.
proof fn lemma_recent_bounded(ts: Seq<u128>, now: u128, window: u128, c: u128)
    requires
        forall|j: int| 0 <= j < ts.len() ==> #[trigger] ts[j] <= c,
    ensures
        forall|k: int| 0 <= k < recent(ts, now, window).len() ==> #[trigger] recent(ts, now, window)[k] <= c,
    decreases ts.len(),
{
    if ts.len() > 0 {
        let d = ts.drop_last();
        assert forall|j: int| 0 <= j < d.len() implies #[trigger] d[j] <= c by {
            assert(d[j] == ts[j]);
        }
        lemma_recent_bounded(d, now, window, c);
        assert(ts.last() == ts[ts.len() - 1]);
        let r = recent(d, now, window);
        let rr = recent(ts, now, window);
        assert forall|k: int| 0 <= k < rr.len() implies #[trigger] rr[k] <= c by {
            if k < r.len() {
                assert(rr[k] == r[k]);
            }
        }
    }
}

proof fn lemma_swept_bounded(cs: Seq<(Seq<char>, FloodType, Seq<u128>)>, now: u128, window: u128, c: u128)
    requires
        stamps_until(cs, c),
    ensures
        stamps_until(swept(cs, now, window), c),
    decreases cs.len(),
{
    if cs.len() > 0 {
        let d = cs.drop_last();
        assert(stamps_until(d, c)) by {
            assert forall|i: int, j: int| 0 <= i < d.len() && 0 <= j < d[i].2.len()
                implies #[trigger] d[i].2[j] <= c by {
                assert(d[i] == cs[i]);
                assert(cs[i].2[j] <= c);
            }
        }
        lemma_swept_bounded(d, now, window, c);
        let last = cs.last();
        assert(last == cs[cs.len() - 1]);
        assert forall|j: int| 0 <= j < last.2.len() implies #[trigger] last.2[j] <= c by {
            assert(cs[cs.len() - 1].2[j] <= c);
        }
        lemma_recent_bounded(last.2, now, window, c);
        let r = swept(d, now, window);
        let sw = swept(cs, now, window);
        assert forall|i: int, j: int| 0 <= i < sw.len() && 0 <= j < sw[i].2.len()
            implies #[trigger] sw[i].2[j] <= c by {
            if i < r.len() {
                assert(sw[i] == r[i]);
                assert(r[i].2[j] <= c);
            } else {
                assert(sw[i].2 == recent(last.2, now, window));
            }
        }
    }
}

proof fn lemma_without_bounded(cs: Seq<(Seq<char>, FloodType, Seq<u128>)>, source: Seq<char>, c: u128)
    requires
        stamps_until(cs, c),
    ensures
        stamps_until(without_source(cs, source), c),
    decreases cs.len(),
{
    if cs.len() > 0 {
        let d = cs.drop_last();
        assert(stamps_until(d, c)) by {
            assert forall|i: int, j: int| 0 <= i < d.len() && 0 <= j < d[i].2.len()
                implies #[trigger] d[i].2[j] <= c by {
                assert(d[i] == cs[i]);
                assert(cs[i].2[j] <= c);
            }
        }
        lemma_without_bounded(d, source, c);
        let r = without_source(d, source);
        let w = without_source(cs, source);
        assert forall|i: int, j: int| 0 <= i < w.len() && 0 <= j < w[i].2.len()
            implies #[trigger] w[i].2[j] <= c by {
            if i < r.len() {
                assert(w[i] == r[i]);
                assert(r[i].2[j] <= c);
            } else {
                assert(w[i] == cs[cs.len() - 1]);
                assert(cs[cs.len() - 1].2[j] <= c);
            }
        }
    }
}

/// Sweeping at time `c` keeps what the window still holds at any later
/// time `now`.
proof fn lemma_recent_twice(ts: Seq<u128>, c: u128, now: u128, window: u128)
    requires
        c <= now,
    ensures
        recent(recent(ts, c, window), now, window) == recent(ts, now, window),
    decreases ts.len(),
{
    if ts.len() > 0 {
        let d = ts.drop_last();
        lemma_recent_twice(d, c, now, window);
        let r = recent(d, c, window);
        if age(c, ts.last()) < window {
            assert(r.push(ts.last()).drop_last() =~= r);
        }
    }
}

/// Every timestamp the window keeps at time `c` is younger than the window.
proof fn lemma_recent_fresh(ts: Seq<u128>, c: u128, window: u128)
    ensures
        forall|k: int| 0 <= k < recent(ts, c, window).len() ==> age(c, #[trigger] recent(ts, c, window)[k]) < window,
    decreases ts.len(),
{
    if ts.len() > 0 {
        let d = ts.drop_last();
        lemma_recent_fresh(d, c, window);
        let r = recent(d, c, window);
        let rr = recent(ts, c, window);
        assert forall|k: int| 0 <= k < rr.len() implies age(c, #[trigger] rr[k]) < window by {
            if k < r.len() {
                assert(rr[k] == r[k]);
            }
        }
    }
}

/// Entry `j` of the swept counters `sw` is entry `i` of `cs` with only the
/// timestamps still in the window at `c`.
pub open spec fn swept_from(
    cs: Seq<(Seq<char>, FloodType, Seq<u128>)>,
    sw: Seq<(Seq<char>, FloodType, Seq<u128>)>,
    c: u128,
    window: u128,
    j: int,
    i: int,
) -> bool {
    &&& 0 <= i < cs.len()
    &&& sw[j].0 == cs[i].0
    &&& sw[j].1 == cs[i].1
    &&& sw[j].2 == recent(cs[i].2, c, window)
}

/// What sweeping keeps: each swept counter is a counter of `cs` with its
/// old timestamps dropped and some left, and every counter of `cs` with a
/// timestamp left is among them.
proof fn lemma_swept_entries(cs: Seq<(Seq<char>, FloodType, Seq<u128>)>, c: u128, window: u128)
    ensures
        forall|j: int| 0 <= j < swept(cs, c, window).len() ==> swept(cs, c, window)[j].2.len() > 0
            && exists|i: int| #[trigger] swept_from(cs, swept(cs, c, window), c, window, j, i),
        forall|i: int| 0 <= i < cs.len() && recent(#[trigger] cs[i].2, c, window).len() > 0 ==> exists|j: int|
            0 <= j < swept(cs, c, window).len() && #[trigger] swept_from(cs, swept(cs, c, window), c, window, j, i),
    decreases cs.len(),
{
    if cs.len() > 0 {
        let d = cs.drop_last();
        lemma_swept_entries(d, c, window);
        let r = swept(d, c, window);
        let sw = swept(cs, c, window);
        let n = cs.len() - 1;
        assert forall|j: int| 0 <= j < sw.len() implies sw[j].2.len() > 0
            && exists|i: int| #[trigger] swept_from(cs, sw, c, window, j, i) by {
            if j < r.len() {
                assert(sw[j] == r[j]);
                let i = choose|i: int| #[trigger] swept_from(d, r, c, window, j, i);
                assert(cs[i] == d[i]);
                assert(swept_from(cs, sw, c, window, j, i));
            } else {
                assert(swept_from(cs, sw, c, window, j, n));
            }
        }
        assert forall|i: int| 0 <= i < cs.len() && recent(#[trigger] cs[i].2, c, window).len() > 0
            implies exists|j: int| 0 <= j < sw.len() && #[trigger] swept_from(cs, sw, c, window, j, i) by {
            if i < n {
                assert(cs[i] == d[i]);
                assert(recent(d[i].2, c, window).len() > 0);
                let j = choose|j: int| 0 <= j < r.len() && #[trigger] swept_from(d, r, c, window, j, i);
                assert(sw[j] == r[j]);
                assert(swept_from(cs, sw, c, window, j, i));
            } else {
                assert(swept_from(cs, sw, c, window, r.len() as int, i));
            }
        }
    }
}

/// A sweep at time `c` leaves no counter empty and no timestamp as old as
/// the window.
pub proof fn lemma_swept_fresh(cs: Seq<(Seq<char>, FloodType, Seq<u128>)>, c: u128, window: u128)
    ensures
        forall|j: int| 0 <= j < swept(cs, c, window).len() ==> (#[trigger] swept(cs, c, window)[j]).2.len() > 0,
        forall|j: int, k: int|
            0 <= j < swept(cs, c, window).len() && 0 <= k < swept(cs, c, window)[j].2.len() ==> age(
                c,
                #[trigger] swept(cs, c, window)[j].2[k],
            ) < window,
{
    lemma_swept_entries(cs, c, window);
    let sw = swept(cs, c, window);
    assert forall|j: int, k: int| 0 <= j < sw.len() && 0 <= k < sw[j].2.len() implies age(
        c,
        #[trigger] sw[j].2[k],
    ) < window by {
        let i = choose|i: int| #[trigger] swept_from(cs, sw, c, window, j, i);
        lemma_recent_fresh(cs[i].2, c, window);
    }
}

/// A sweep changes no later answer: an event at any time `now` no earlier
/// than the sweep floods after it exactly when it would have without it.
pub proof fn lemma_cleanup_keeps_outcome(
    cs: Seq<(Seq<char>, FloodType, Seq<u128>)>,
    c: u128,
    now: u128,
    window: u128,
    max_count: u32,
    key: Seq<char>,
    kind: FloodType,
    after1: Seq<(Seq<char>, FloodType, Seq<u128>)>,
    r1: bool,
    after2: Seq<(Seq<char>, FloodType, Seq<u128>)>,
    r2: bool,
)
    requires
        keys_unique(cs),
        c <= now,
        check_outcome(cs, after1, key, kind, now, window, max_count, r1),
        check_outcome(swept(cs, c, window), after2, key, kind, now, window, max_count, r2),
    ensures
        r1 == r2,
{
    let sw = swept(cs, c, window);
    lemma_swept_entries(cs, c, window);
    match counter_for(cs, key, kind) {
        Some(i) => {
            lemma_recent_twice(cs[i].2, c, now, window);
            if recent(cs[i].2, c, window).len() > 0 {
                let j0 = choose|j: int| 0 <= j < sw.len() && #[trigger] swept_from(cs, sw, c, window, j, i);
                assert(sw[j0].0 == key && sw[j0].1 == kind);
                let j = counter_for(sw, key, kind)->0;
                let i2 = choose|i2: int| #[trigger] swept_from(cs, sw, c, window, j, i2);
                assert(i2 == i) by {
                    if i2 != i {
                        if i2 < i {
                            assert(!(cs[i2].0 == cs[i].0 && cs[i2].1 == cs[i].1));
                        } else {
                            assert(!(cs[i].0 == cs[i2].0 && cs[i].1 == cs[i2].1));
                        }
                    }
                }
            } else {
                assert(recent(Seq::<u128>::empty(), now, window) =~= Seq::<u128>::empty());
                assert(recent(cs[i].2, c, window) =~= Seq::<u128>::empty());
                if counter_for(sw, key, kind) is Some {
                    let j = counter_for(sw, key, kind)->0;
                    let i2 = choose|i2: int| #[trigger] swept_from(cs, sw, c, window, j, i2);
                    assert(i2 == i) by {
                        if i2 != i {
                            if i2 < i {
                                assert(!(cs[i2].0 == cs[i].0 && cs[i2].1 == cs[i].1));
                            } else {
                                assert(!(cs[i].0 == cs[i2].0 && cs[i].1 == cs[i2].1));
                            }
                        }
                    }
                    assert(false);
                }
            }
        },
        None => {
            if counter_for(sw, key, kind) is Some {
                let j = counter_for(sw, key, kind)->0;
                let i2 = choose|i2: int| #[trigger] swept_from(cs, sw, c, window, j, i2);
                assert(cs[i2].0 == key && cs[i2].1 == kind);
            }
        },
    }
}

/// `sub` keeps, in order, the keys of the entries `idx` of `cs`, all
/// before position `upto`.
pub open spec fn picks(
    cs: Seq<(Seq<char>, FloodType, Seq<u128>)>,
    sub: Seq<(Seq<char>, FloodType, Seq<u128>)>,
    idx: Seq<int>,
    upto: int,
) -> bool {
    &&& idx.len() == sub.len()
    &&& forall|a: int| 0 <= a < idx.len() ==> 0 <= #[trigger] idx[a] < upto
    &&& forall|a: int, b: int| 0 <= a < b < idx.len() ==> #[trigger] idx[a] < #[trigger] idx[b]
    &&& forall|a: int|
        0 <= a < idx.len() ==> (#[trigger] sub[a]).0 == cs[idx[a]].0 && sub[a].1 == cs[idx[a]].1
}

proof fn lemma_picks_push(
    cs: Seq<(Seq<char>, FloodType, Seq<u128>)>,
    sub: Seq<(Seq<char>, FloodType, Seq<u128>)>,
    idx: Seq<int>,
    i: int,
    nsub: Seq<(Seq<char>, FloodType, Seq<u128>)>,
)
    requires
        picks(cs, sub, idx, i),
        0 <= i < cs.len(),
        nsub.len() == sub.len() + 1,
        forall|a: int| 0 <= a < sub.len() ==> nsub[a] == sub[a],
        nsub.last().0 == cs[i].0 && nsub.last().1 == cs[i].1,
    ensures
        picks(cs, nsub, idx.push(i), i + 1),
{
    let ni = idx.push(i);
    assert forall|a: int| 0 <= a < ni.len() implies (#[trigger] nsub[a]).0 == cs[ni[a]].0 && nsub[a].1
        == cs[ni[a]].1 by {
        if a < idx.len() {
            assert(nsub[a] == sub[a]);
        }
    }
}

proof fn lemma_picks_skip(
    cs: Seq<(Seq<char>, FloodType, Seq<u128>)>,
    sub: Seq<(Seq<char>, FloodType, Seq<u128>)>,
    idx: Seq<int>,
    i: int,
)
    requires
        picks(cs, sub, idx, i),
    ensures
        picks(cs, sub, idx, i + 1),
{
}

proof fn lemma_picks_unique(
    cs: Seq<(Seq<char>, FloodType, Seq<u128>)>,
    sub: Seq<(Seq<char>, FloodType, Seq<u128>)>,
    idx: Seq<int>,
    upto: int,
)
    requires
        picks(cs, sub, idx, upto),
        keys_unique(cs),
        upto <= cs.len(),
    ensures
        keys_unique(sub),
{
    assert forall|a: int, b: int| 0 <= a < b < sub.len() implies !(sub[a].0 == sub[b].0 && sub[a].1
        == sub[b].1) by {
        assert(idx[a] < idx[b]);
        assert(sub[a].0 == cs[idx[a]].0 && sub[a].1 == cs[idx[a]].1);
        assert(sub[b].0 == cs[idx[b]].0 && sub[b].1 == cs[idx[b]].1);
    }
}

} // verus!
