//! A rate limiter: at most so many requests in any window of time.
//!
//! Times are nanoseconds on a clock that does not run backwards.

use vstd::prelude::*;

verus! {

/// Requests per minute where no number is given.
pub const DEFAULT_RPM: u32 = 40;

/// One minute.
pub const MINUTE: u64 = 60000000000;

/// How much longer than the window a request waits.
pub const MARGIN: u64 = 50000000;

/// What a request is told.
#[derive(Debug, Clone, Copy, PartialEq, Eq, Structural)]
pub enum Acquired {
    /// It may go on.
    Granted,
    /// It asks again after so much time.
    Wait(u64),
}

/// Remembers when requests were granted.
#[derive(Debug)]
pub struct RateLimiter {
    timestamps: Vec<u64>,
    max_requests: usize,
    window: u64,
}

/// The state of a rate limiter.
pub struct LimiterModel {
    /// When the requests were granted that it remembers.
    pub times: Seq<u64>,
    pub max_requests: nat,
    pub window: u64,
}

impl View for RateLimiter {
    type V = LimiterModel;

    closed spec fn view(&self) -> LimiterModel {
        LimiterModel {
            times: self.timestamps@,
            max_requests: self.max_requests as nat,
            window: self.window,
        }
    }
}

impl LimiterModel {
    /// Whether the limiter remembers no more requests than it grants, and a wait
    /// can be told.
    pub open spec fn wf(self) -> bool {
        &&& self.times.len() <= self.max_requests
        &&& self.window + MARGIN <= u64::MAX
    }
}

/// The time from `t` to `now`; none where `t` is later.
pub open spec fn elapsed(now: u64, t: u64) -> u64 {
    if t <= now {
        (now - t) as u64
    } else {
        0
    }
}

/// Whether `t` is within the window before `now`.
pub open spec fn is_recent(now: u64, window: u64) -> spec_fn(u64) -> bool {
    |t: u64| elapsed(now, t) < window
}

/// The state, without what is no longer within the window before `now`.
pub open spec fn pruned(m: LimiterModel, now: u64) -> LimiterModel {
    LimiterModel { times: m.times.filter(is_recent(now, m.window)), ..m }
}

/// What a request at the time `now` is told, and the state after it.
pub open spec fn requested(m: LimiterModel, now: u64) -> (LimiterModel, Acquired) {
    let p = pruned(m, now);
    if p.times.len() < p.max_requests {
        (LimiterModel { times: p.times.push(now), ..p }, Acquired::Granted)
    } else {
        (p, Acquired::Wait((p.window - elapsed(now, p.times[0]) + MARGIN) as u64))
    }
}

impl RateLimiter {
    #[verifier::type_invariant]
    spec fn is_valid(self) -> bool {
        self@.wf()
    }

    /// A limiter for so many requests per minute.
    pub fn new(max_requests_per_minute: u32) -> (r: Self)
        ensures
            r@ == (LimiterModel {
                times: Seq::empty(),
                max_requests: max_requests_per_minute as nat,
                window: MINUTE,
            }),
            r@.wf(),
    {
        Self::with_window(max_requests_per_minute as usize, MINUTE)
    }

    /// A limiter for so many requests in a window of time.
    pub fn with_window(max_requests: usize, window: u64) -> (r: Self)
        requires
            window + MARGIN <= u64::MAX,
        ensures
            r@ == (LimiterModel {
                times: Seq::empty(),
                max_requests: max_requests as nat,
                window,
            }),
            r@.wf(),
    {
        RateLimiter { timestamps: Vec::new(), max_requests, window }
    }

    /// Forgets what is no longer within the window before `now`.
    fn prune(&mut self, now: u64)
        ensures
            final(self)@ == pruned(old(self)@, now),
            old(self)@.wf(),
            final(self)@.wf(),
    {
        proof {
            use_type_invariant(&*self);
            pruning_forgets_only(self@, now);
        }
        let ghost all = self.timestamps@;
        let ghost keep = is_recent(now, self.window);
        let mut kept: Vec<u64> = Vec::new();
        proof {
            reveal(Seq::filter);
            assert(kept@ =~= all.take(0).filter(keep));
        }
        let mut i: usize = 0;
        while i < self.timestamps.len()
            invariant
                i <= self.timestamps.len(),
                all == self.timestamps@,
                keep == is_recent(now, self.window),
                kept@ == all.take(i as int).filter(keep),
                *self == *old(self),
            decreases self.timestamps.len() - i,
        {
            let t: u64 = self.timestamps[i];
            proof {
                reveal(Seq::filter);
                assert(all.take(i + 1).drop_last() =~= all.take(i as int));
                assert(all.take(i + 1).last() == t);
            }
            let age: u64 = if t <= now {
                now - t
            } else {
                0
            };
            if age < self.window {
                kept.push(t);
            }
            i = i + 1;
        }
        proof {
            assert(all.take(all.len() as int) =~= all);
        }
        self.timestamps = kept;
    }

    /// Asks for a request at the time `now`.
    pub fn acquire(&mut self, now: u64) -> (r: Acquired)
        requires
            old(self)@.max_requests > 0,
        ensures
            (final(self)@, r) == requested(old(self)@, now),
            old(self)@.wf(),
            final(self)@.wf(),
    {
        proof {
            pruning_forgets_only(old(self)@, now);
        }
        self.prune(now);
        if self.timestamps.len() < self.max_requests {
            let mut times: Vec<u64> = Vec::new();
            std::mem::swap(&mut times, &mut self.timestamps);
            times.push(now);
            self.timestamps = times;
            return Acquired::Granted;
        }
        let oldest: u64 = self.timestamps[0];
        let age: u64 = if oldest <= now {
            now - oldest
        } else {
            0
        };
        proof {
            assert(self@.times.contains(oldest));
        }
        Acquired::Wait(self.window - age + MARGIN)
    }

    /// Counts the requests that were granted within the window before `now`.
    pub fn current_count(&mut self, now: u64) -> (r: usize)
        ensures
            final(self)@ == pruned(old(self)@, now),
            r == pruned(old(self)@, now).times.len(),
            old(self)@.wf(),
            final(self)@.wf(),
    {
        self.prune(now);
        self.timestamps.len()
    }
}

/// The limiter for a configured number of requests per minute; none for 0.
pub fn limiter_for(rpm: u32) -> (r: Option<RateLimiter>)
    ensures
        match r {
            Some(limiter) => rpm > 0 && limiter@ == (LimiterModel {
                times: Seq::empty(),
                max_requests: rpm as nat,
                window: MINUTE,
            }) && limiter@.wf(),
            None => rpm == 0,
        },
{
    if rpm > 0 {
        Some(RateLimiter::new(rpm))
    } else {
        None
    }
}

proof fn lemma_filtered(s: Seq<u64>, keep: spec_fn(u64) -> bool)
    ensures
        s.filter(keep).len() <= s.len(),
        forall|t: u64| #[trigger] s.filter(keep).contains(t) <==> (s.contains(t) && keep(t)),
    decreases s.len(),
{
    reveal(Seq::filter);
    if s.len() > 0 {
        let before = s.drop_last();
        let last = s.last();
        lemma_filtered(before, keep);
        assert forall|t: u64| #[trigger] s.filter(keep).contains(t) <==> (s.contains(t) && keep(
            t,
        )) by {
            if s.contains(t) && t != last {
                let i = choose|i: int| 0 <= i < s.len() && s[i] == t;
                assert(before[i] == t);
            }
            if before.contains(t) {
                let i = choose|i: int| 0 <= i < before.len() && before[i] == t;
                assert(s[i] == t);
            }
            let f = before.filter(keep);
            if f.contains(t) {
                let i = choose|i: int| 0 <= i < f.len() && f[i] == t;
                assert(f.push(last)[i] == t);
            }
            assert(f.push(last)[f.len() as int] == last);
            if f.push(last).contains(t) && t != last {
                let i = choose|i: int| 0 <= i < f.push(last).len() && f.push(last)[i] == t;
                assert(f[i] == t);
            }
            assert(s.contains(last));
        }
    }
}

/// Pruning leaves exactly what is within the window, and adds nothing.
pub proof fn pruning_forgets_only(m: LimiterModel, now: u64)
    ensures
        pruned(m, now).times.len() <= m.times.len(),
        forall|t: u64| #[trigger]
            pruned(m, now).times.contains(t) <==> (m.times.contains(t) && elapsed(now, t)
                < m.window),
{
    lemma_filtered(m.times, is_recent(now, m.window));
}

/// Whether times do not run backwards.
pub open spec fn in_sequence(times: Seq<u64>) -> bool {
    forall|i: int, j: int| 0 <= i <= j < times.len() ==> times[i] <= times[j]
}

/// A call of a limiter, with its time.
pub enum Call {
    /// A request is asked for.
    Acquire(u64),
    /// The requests are counted.
    Count(u64),
}

impl Call {
    /// The time of a call.
    pub open spec fn time(self) -> u64 {
        match self {
            Call::Acquire(now) => now,
            Call::Count(now) => now,
        }
    }
}

/// The times of calls.
pub open spec fn call_times(calls: Seq<Call>) -> Seq<u64> {
    calls.map_values(|c: Call| c.time())
}

/// What a limiter has done with calls, one after another: its state, and when it
/// granted a request.
pub open spec fn served(m: LimiterModel, calls: Seq<Call>) -> (LimiterModel, Seq<u64>)
    decreases calls.len(),
{
    if calls.len() == 0 {
        (m, Seq::empty())
    } else {
        let (before, grants) = served(m, calls.drop_last());
        match calls.last() {
            Call::Acquire(now) => {
                let (after, told) = requested(before, now);
                (after, if told is Granted {
                    grants.push(now)
                } else {
                    grants
                })
            },
            Call::Count(now) => (pruned(before, now), grants),
        }
    }
}

/// A limiter that has granted nothing.
pub open spec fn unused(max_requests: nat, window: u64) -> LimiterModel {
    LimiterModel { times: Seq::empty(), max_requests, window }
}

/// Of times in sequence, those within the window are the last ones.
proof fn lemma_recent_are_last(times: Seq<u64>, now: u64, window: u64) -> (k: int)
    requires
        in_sequence(times),
        forall|i: int| 0 <= i < times.len() ==> #[trigger] times[i] <= now,
    ensures
        0 <= k <= times.len(),
        times.filter(is_recent(now, window)) == times.skip(k),
        forall|i: int| 0 <= i < k ==> now - #[trigger] times[i] >= window,
    decreases times.len(),
{
    reveal(Seq::filter);
    let keep = is_recent(now, window);
    if times.len() == 0 {
        assert(times.filter(keep) =~= times.skip(0));
        0
    } else {
        let before = times.drop_last();
        let last = times.last();
        assert forall|i: int| 0 <= i < before.len() implies #[trigger] before[i] <= now by {
            assert(before[i] == times[i]);
        }
        let k = lemma_recent_are_last(before, now, window);
        if keep(last) {
            assert(times.filter(keep) =~= times.skip(k));
            assert forall|i: int| 0 <= i < k implies now - #[trigger] times[i] >= window by {
                assert(before[i] == times[i]);
            }
            k
        } else {
            assert(before.skip(k).len() == 0) by {
                if k < before.len() {
                    lemma_filtered(before, keep);
                    assert(before.skip(k)[0] == before[k]);
                    assert(before.filter(keep).contains(before[k]));
                    assert(times[k] <= times[times.len() - 1]);
                }
            }
            let n = times.len() as int;
            assert(times.filter(keep) =~= times.skip(n));
            assert forall|i: int| 0 <= i < n implies now - #[trigger] times[i] >= window by {
                assert(times[i] <= times[n - 1]);
            }
            n
        }
    }
}

/// What holds after calls in sequence: what the limiter remembers are the last
/// grants, and the grants that it has forgotten are no longer within the window.
proof fn lemma_served(max_requests: nat, window: u64, calls: Seq<Call>) -> (k: int)
    requires
        in_sequence(call_times(calls)),
    ensures
        ({
            let (m, grants) = served(unused(max_requests, window), calls);
            &&& m.max_requests == max_requests
            &&& m.window == window
            &&& m.times.len() <= max_requests
            &&& 0 <= k <= grants.len()
            &&& m.times == grants.skip(k)
            &&& in_sequence(grants)
            &&& forall|i: int|
                0 <= i < grants.len() ==> calls.len() > 0 && #[trigger] grants[i]
                    <= calls.last().time()
            &&& forall|i: int| 0 <= i < k ==> calls.last().time() - #[trigger] grants[i] >= window
            &&& forall|i: int|
                0 <= i && i + max_requests < grants.len() ==> (#[trigger] grants[i]) + window
                    <= grants[(i + max_requests) as int]
        }),
    decreases calls.len(),
{
    let fresh = unused(max_requests, window);
    if calls.len() == 0 {
        assert(served(fresh, calls).0.times =~= Seq::<u64>::empty().skip(0));
        0
    } else {
        let earlier = calls.drop_last();
        let now = calls.last().time();
        let times = call_times(calls);
        let (m, grants) = served(fresh, earlier);
        assert(in_sequence(call_times(earlier))) by {
            assert forall|i: int, j: int| 0 <= i <= j < call_times(earlier).len() implies call_times(
                earlier,
            )[i] <= call_times(earlier)[j] by {
                assert(call_times(earlier)[i] == times[i]);
                assert(call_times(earlier)[j] == times[j]);
            }
        }
        let k = lemma_served(max_requests, window, earlier);
        if earlier.len() > 0 {
            assert(times[times.len() - 2] <= times[times.len() - 1]);
            assert(earlier.last().time() == times[times.len() - 2]);
        }
        assert forall|i: int| 0 <= i < grants.len() implies #[trigger] grants[i] <= now by {}
        assert forall|i: int| 0 <= i < m.times.len() implies #[trigger] m.times[i] <= now by {
            assert(m.times[i] == grants[k + i]);
        }
        assert(in_sequence(m.times)) by {
            assert forall|i: int, j: int| 0 <= i <= j < m.times.len() implies m.times[i]
                <= m.times[j] by {
                assert(m.times[i] == grants[k + i]);
                assert(m.times[j] == grants[k + j]);
            }
        }
        let d = lemma_recent_are_last(m.times, now, window);
        let p = pruned(m, now);
        assert(p.times =~= grants.skip(k + d));
        assert forall|i: int| 0 <= i < k + d implies now - #[trigger] grants[i] >= window by {
            if i >= k {
                assert(m.times[i - k] == grants[i]);
            }
        }
        if calls.last() is Acquire && requested(m, now).1 is Granted {
            let after = requested(m, now).0;
            let more = grants.push(now);
            assert(after.times =~= more.skip(k + d));
            assert(in_sequence(more)) by {
                assert forall|i: int, j: int| 0 <= i <= j < more.len() implies more[i]
                    <= more[j] by {
                    if j == grants.len() && i < grants.len() {
                        assert(grants[i] <= now);
                    }
                }
            }
            assert forall|i: int| 0 <= i && i + max_requests < more.len() implies (
            #[trigger] more[i]) + window <= more[(i + max_requests) as int] by {
                if i + max_requests < grants.len() {
                    assert(more[i] == grants[i]);
                } else {
                    assert(i + max_requests == grants.len());
                    assert(p.times.len() == grants.len() - (k + d));
                    assert(i < k + d);
                    assert(more[i] == grants[i]);
                }
            }
            assert forall|i: int| 0 <= i < k + d implies now - #[trigger] more[i] >= window by {
                assert(more[i] == grants[i]);
            }
        }
        k + d
    }
}

/// The limit holds, whatever calls come in between: of any `max_requests` + 1
/// requests in a row that were granted, the last comes no sooner than the window
/// after the first. So no window of time has more than `max_requests` of them.
pub proof fn the_limit_holds(max_requests: nat, window: u64, calls: Seq<Call>, i: int)
    requires
        in_sequence(call_times(calls)),
        0 <= i,
        i + max_requests < served(unused(max_requests, window), calls).1.len(),
    ensures
        ({
            let grants = served(unused(max_requests, window), calls).1;
            grants[i] + window <= grants[i + max_requests]
        }),
{
    let _ = lemma_served(max_requests, window, calls);
    let grants = served(unused(max_requests, window), calls).1;
    assert(grants[i] + window <= grants[(i + max_requests) as int]);
}

/// The times of the requests among calls.
pub open spec fn request_times(calls: Seq<Call>) -> Seq<u64>
    decreases calls.len(),
{
    if calls.len() == 0 {
        Seq::empty()
    } else {
        let before = request_times(calls.drop_last());
        match calls.last() {
            Call::Acquire(now) => before.push(now),
            Call::Count(_) => before,
        }
    }
}

/// Requests up to the limit are granted without a wait, whatever calls come in
/// between.
pub proof fn requests_up_to_the_limit_do_not_wait(
    max_requests: nat,
    window: u64,
    calls: Seq<Call>,
)
    requires
        request_times(calls).len() <= max_requests,
    ensures
        served(unused(max_requests, window), calls).1 == request_times(calls),
        served(unused(max_requests, window), calls).0.times.len() <= request_times(calls).len(),
        served(unused(max_requests, window), calls).0.max_requests == max_requests,
    decreases calls.len(),
{
    if calls.len() > 0 {
        let earlier = calls.drop_last();
        requests_up_to_the_limit_do_not_wait(max_requests, window, earlier);
        let m = served(unused(max_requests, window), earlier).0;
        pruning_forgets_only(m, calls.last().time());
    }
}

/// A request that waited as long as it was told is granted, where none came in
/// between.
pub proof fn the_wait_is_long_enough(m: LimiterModel, now: u64, later: u64)
    requires
        m.wf(),
        m.max_requests > 0,
        forall|i: int| 0 <= i < m.times.len() ==> #[trigger] m.times[i] <= now,
        requested(m, now).1 matches Acquired::Wait(w) && now + w <= later,
    ensures
        requested(requested(m, now).0, later).1 is Granted,
{
    let p = pruned(m, now);
    pruning_forgets_only(m, now);
    let oldest = p.times[0];
    assert(p.times.contains(oldest));
    assert(m.times.contains(oldest));
    let q = pruned(p, later);
    lemma_filter_drops_first(p.times, is_recent(later, p.window));
}

/// A filter that does not keep the first element leaves fewer.
proof fn lemma_filter_drops_first(s: Seq<u64>, keep: spec_fn(u64) -> bool)
    requires
        s.len() > 0,
        !keep(s[0]),
    ensures
        s.filter(keep).len() < s.len(),
    decreases s.len(),
{
    reveal(Seq::filter);
    if s.len() == 1 {
        assert(s.drop_last().filter(keep) =~= Seq::<u64>::empty());
    } else {
        lemma_filter_drops_first(s.drop_last(), keep);
    }
}

/// Once the window has passed since the last grant, nothing is counted.
pub proof fn old_requests_are_not_counted(m: LimiterModel, now: u64)
    requires
        forall|i: int|
            0 <= i < m.times.len() ==> #[trigger] m.times[i] <= now && now - m.times[i]
                >= m.window,
    ensures
        pruned(m, now).times.len() == 0,
{
    let p = pruned(m, now);
    pruning_forgets_only(m, now);
    if p.times.len() > 0 {
        assert(p.times.contains(p.times[0]));
    }
}

proof fn lemma_filter_drops_all(s: Seq<u64>, keep: spec_fn(u64) -> bool)
    requires
        forall|i: int| 0 <= i < s.len() ==> !keep(#[trigger] s[i]),
    ensures
        s.filter(keep) == Seq::<u64>::empty(),
    decreases s.len(),
{
    reveal(Seq::filter);
    if s.len() > 0 {
        let before = s.drop_last();
        assert forall|i: int| 0 <= i < before.len() implies !keep(#[trigger] before[i]) by {
            assert(before[i] == s[i]);
        }
        lemma_filter_drops_all(before, keep);
        assert(!keep(s[s.len() - 1]));
    }
    assert(s.filter(keep) =~= Seq::<u64>::empty());
}

proof fn lemma_filter_concat(a: Seq<u64>, b: Seq<u64>, keep: spec_fn(u64) -> bool)
    ensures
        (a + b).filter(keep) == a.filter(keep) + b.filter(keep),
    decreases b.len(),
{
    reveal(Seq::filter);
    if b.len() == 0 {
        assert(a + b =~= a);
        assert(a.filter(keep) + b.filter(keep) =~= a.filter(keep));
    } else {
        assert((a + b).drop_last() =~= a + b.drop_last());
        lemma_filter_concat(a, b.drop_last(), keep);
        assert((a + b).filter(keep) =~= a.filter(keep) + b.filter(keep));
    }
}

/// The grants that lie within the window before `now`.
pub open spec fn grants_within(grants: Seq<u64>, now: u64, window: u64) -> Seq<u64> {
    grants.filter(|t: u64| now - t < window)
}

/// What a request is told, from all that was granted before: it may go on exactly
/// where fewer than `max_requests` grants lie within the window before it; else
/// it waits until the oldest of these leaves the window, and 50 milliseconds more.
pub proof fn a_request_waits_for_the_oldest(
    max_requests: nat,
    window: u64,
    calls: Seq<Call>,
    now: u64,
)
    requires
        in_sequence(call_times(calls.push(Call::Acquire(now)))),
        max_requests > 0,
        window + MARGIN <= u64::MAX,
    ensures
        ({
            let (m, grants) = served(unused(max_requests, window), calls);
            let within = grants_within(grants, now, window);
            let told = requested(m, now).1;
            &&& told is Granted <==> within.len() < max_requests
            &&& told matches Acquired::Wait(w) ==> within.len() > 0 && now + w == within[0]
                + window + 50000000
        }),
{
    let all = calls.push(Call::Acquire(now));
    let times = call_times(all);
    assert(in_sequence(call_times(calls))) by {
        assert forall|i: int, j: int| 0 <= i <= j < call_times(calls).len() implies call_times(
            calls,
        )[i] <= call_times(calls)[j] by {
            assert(call_times(calls)[i] == times[i]);
            assert(call_times(calls)[j] == times[j]);
        }
    }
    let k = lemma_served(max_requests, window, calls);
    let (m, grants) = served(unused(max_requests, window), calls);
    if calls.len() > 0 {
        assert(times[times.len() - 2] <= times[times.len() - 1]);
        assert(calls.last().time() == times[times.len() - 2]);
        assert(now == times[times.len() - 1]);
    }
    let keep = is_recent(now, window);
    let recent = |t: u64| now - t < window;
    assert forall|i: int| 0 <= i < grants.len() implies keep(#[trigger] grants[i]) == recent(
        grants[i],
    ) by {
        assert(grants[i] <= now);
    }
    lemma_same_filter(grants, keep, recent);
    assert(grants.take(k) + grants.skip(k) =~= grants);
    let old_ones = grants.take(k);
    assert forall|i: int| 0 <= i < old_ones.len() implies !keep(#[trigger] old_ones[i]) by {
        assert(old_ones[i] == grants[i]);
        assert(calls.last().time() - grants[i] >= window);
    }
    lemma_filter_drops_all(old_ones, keep);
    lemma_filter_concat(old_ones, grants.skip(k), keep);
    let p = pruned(m, now);
    assert(p.times =~= grants_within(grants, now, window));
    if p.times.len() >= max_requests {
        lemma_filtered(m.times, keep);
        assert(p.times.contains(p.times[0]));
        assert(m.times.contains(p.times[0]));
        let i = choose|i: int| 0 <= i < m.times.len() && m.times[i] == p.times[0];
        assert(grants[k + i] == m.times[i]);
    }
}

proof fn lemma_same_filter(
    s: Seq<u64>,
    f: spec_fn(u64) -> bool,
    g: spec_fn(u64) -> bool,
)
    requires
        forall|i: int| 0 <= i < s.len() ==> f(#[trigger] s[i]) == g(s[i]),
    ensures
        s.filter(f) == s.filter(g),
    decreases s.len(),
{
    reveal(Seq::filter);
    if s.len() > 0 {
        let before = s.drop_last();
        assert forall|i: int| 0 <= i < before.len() implies f(#[trigger] before[i]) == g(
            before[i],
        ) by {
            assert(before[i] == s[i]);
        }
        lemma_same_filter(before, f, g);
        assert(f(s[s.len() - 1]) == g(s[s.len() - 1]));
    }
}

} // verus!
