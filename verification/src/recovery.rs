//! Restart budget and backoff.
use vstd::prelude::*;

use crate::schema::{RecoveryMode, RecoveryPolicy};

verus! {

/// A point in time on the monotonic clock, in nanoseconds since an arbitrary origin.
#[derive(Debug, Clone, Copy, PartialEq, Eq, Structural)]
pub struct Moment {
    pub nanos: u64,
}

/// Nanoseconds in a second.
pub const NANOS_PER_SEC: u64 = 1_000_000_000;

/// Whole seconds from `t` to `now`; zero if `t` is later.
pub open spec fn seconds_since(t: Moment, now: Moment) -> nat {
    if now.nanos >= t.nanos {
        ((now.nanos - t.nanos) / NANOS_PER_SEC as int) as nat
    } else {
        0
    }
}

/// Those of `events` that are less than `window_sec` seconds old, in their order.
pub open spec fn recent(events: Seq<Moment>, window_sec: nat, now: Moment) -> Seq<Moment>
    decreases events.len(),
{
    if events.len() == 0 {
        Seq::empty()
    } else {
        let before = recent(events.drop_last(), window_sec, now);
        if seconds_since(events.last(), now) < window_sec {
            before.push(events.last())
        } else {
            before
        }
    }
}

/// Drops the events that have left the sliding window.
pub fn prune_restart_window(events: &mut Vec<Moment>, window_sec: u64, now: Moment)
    ensures
        final(events)@ == recent(old(events)@, window_sec as nat, now),
{
    let ghost all = events@;
    let mut kept: Vec<Moment> = Vec::new();
    let mut i: usize = 0;
    assert(all.take(0) == Seq::<Moment>::empty());
    while i < events.len()
        invariant
            i <= events.len(),
            events@ == all,
            kept@ == recent(all.take(i as int), window_sec as nat, now),
        decreases events.len() - i,
    {
        assert(all.take(i + 1).drop_last() == all.take(i as int));
        let t = events[i];
        let age: u64 = if now.nanos >= t.nanos {
            (now.nanos - t.nanos) / NANOS_PER_SEC
        } else {
            0
        };
        if age < window_sec {
            kept.push(t);
        }
        i += 1;
    }
    assert(all.take(all.len() as int) == all);
    *events = kept;
}

/// Whether the failure budget is used up: at least `max_restarts` events.
pub fn circuit_should_open(events: &[Moment], max_restarts: u32) -> (r: bool)
    ensures
        r == (events@.len() >= max_restarts),
{
    events.len() >= max_restarts as usize
}

/// `base` doubled `attempt` times, at most thirty-one times, and cut off at what fits.
pub open spec fn backoff(base: nat, attempt: nat) -> nat {
    let doublings: nat = if attempt < 31 {
        attempt
    } else {
        31
    };
    let ms = base * vstd::arithmetic::power2::pow2(doublings);
    if ms <= u64::MAX {
        ms
    } else {
        u64::MAX as nat
    }
}

/// Milliseconds to wait before the restart that follows `attempt` earlier ones.
pub fn backoff_exponential_ms(base: u64, attempt: u32) -> (ms: u64)
    ensures
        ms == backoff(base as nat, attempt as nat),
{
    let doublings: u32 = if attempt < 31 {
        attempt
    } else {
        31
    };
    let mut ms: u128 = base as u128;
    let mut k: u32 = 0;
    proof {
        vstd::arithmetic::power2::lemma2_to64();
        assert(base as nat * 1 == base as nat) by (nonlinear_arith);
    }
    while k < doublings
        invariant
            k <= doublings <= 31,
            ms == base as nat * vstd::arithmetic::power2::pow2(k as nat),
            ms <= base as nat * vstd::arithmetic::power2::pow2(31),
            vstd::arithmetic::power2::pow2(31) == 0x8000_0000,
        decreases doublings - k,
    {
        proof {
            let p = vstd::arithmetic::power2::pow2(k as nat);
            let q = vstd::arithmetic::power2::pow2((k + 1) as nat);
            vstd::arithmetic::power2::lemma_pow2_unfold((k + 1) as nat);
            assert(base as nat * q == 2 * (base as nat * p)) by (nonlinear_arith)
                requires
                    q == 2 * p,
            ;
            if k + 1 < 31 {
                vstd::arithmetic::power2::lemma_pow2_strictly_increases((k + 1) as nat, 31);
            }
            assert(base as nat * q <= base as nat * 0x8000_0000) by (nonlinear_arith)
                requires
                    q <= 0x8000_0000,
            ;
        }
        ms = ms * 2;
        k += 1;
    }
    if ms <= u64::MAX as u128 {
        ms as u64
    } else {
        u64::MAX
    }
}

/// Whether a failed start is tried again under `policy`.
pub open spec fn recovers(policy: Option<RecoveryPolicy>) -> bool {
    policy matches Some(p) && (p.policy == RecoveryMode::OnFailure || p.policy
        == RecoveryMode::Always)
}

/// Whether a service that failed before it was ready is started again, in place of failing
/// for good.
pub fn recovery_applies(policy: Option<&RecoveryPolicy>) -> (r: bool)
    ensures
        r == (policy matches Some(p) && recovers(Some(*p))),
{
    match policy {
        None => false,
        Some(p) => p.policy == RecoveryMode::OnFailure || p.policy == RecoveryMode::Always,
    }
}

/// The seconds and nanoseconds of a one-shot timer that fires after `ms` milliseconds.
pub fn recovery_timer_parts(ms: u64) -> (r: (i64, i64))
    ensures
        0 <= r.1 < NANOS_PER_SEC,
        r.0 * NANOS_PER_SEC + r.1 == ms * 1_000_000,
{
    ((ms / 1000) as i64, ((ms % 1000) * 1_000_000) as i64)
}

/// Law: the window only ever loses events, and an event younger than the window stays.
pub proof fn lemma_recent_keeps(events: Seq<Moment>, window_sec: nat, now: Moment, t: Moment)
    ensures
        recent(events, window_sec, now).contains(t) <==> events.contains(t) && seconds_since(t, now)
            < window_sec,
        recent(events, window_sec, now).len() <= events.len(),
    decreases events.len(),
{
    if events.len() > 0 {
        let rest = events.drop_last();
        let before = recent(rest, window_sec, now);
        lemma_recent_keeps(rest, window_sec, now, t);
        assert(events == rest.push(events.last()));
        assert(events.contains(t) <==> rest.contains(t) || t == events.last()) by {
            if rest.contains(t) {
                assert(events[rest.index_of(t)] == t);
            }
            if t == events.last() {
                assert(events[events.len() - 1] == t);
            }
        }
        let l = events.last();
        assert(before.push(l).contains(t) <==> before.contains(t) || t == l) by {
            if before.contains(t) {
                assert(before.push(l)[before.index_of(t)] == t);
            }
            if t == l {
                assert(before.push(l)[before.len() as int] == t);
            }
        }
    }
}

/// Law: a later attempt never waits less than an earlier one.
pub proof fn lemma_backoff_grows(base: nat, a: nat, b: nat)
    requires
        a <= b,
    ensures
        backoff(base, a) <= backoff(base, b),
{
    let p: nat = if a < 31 {
        a
    } else {
        31
    };
    let q: nat = if b < 31 {
        b
    } else {
        31
    };
    let x = vstd::arithmetic::power2::pow2(p);
    let y = vstd::arithmetic::power2::pow2(q);
    if p < q {
        vstd::arithmetic::power2::lemma_pow2_strictly_increases(p, q);
    }
    assert(base * x <= base * y) by (nonlinear_arith)
        requires
            x <= y,
    ;
}

/// Whether an event at `t` lies in a window of `window_sec` seconds that ends at `now`: less
/// than that many times a thousand million nanoseconds have passed.
pub open spec fn in_window(t: Moment, window_sec: nat, now: Moment) -> bool {
    window_sec > 0 && (now.nanos as int) - (t.nanos as int) < window_sec * 1_000_000_000
}

/// Law: what is kept of the failures is all that lie in the window, as often and in the order
/// in which they were noted.
pub proof fn lemma_window_keeps_exactly(
    events: &mut Vec<Moment>,
    window_sec: u64,
    now: Moment,
)
    requires
        call_ensures(prune_restart_window, (events, window_sec, now), ()),
    ensures
        final(events)@ == old(events)@.filter(|t: Moment| in_window(t, window_sec as nat, now)),
{
    lemma_recent_is_filter(old(events)@, window_sec as nat, now);
}

/// Law: the recent ones of some events are those in the window.
pub proof fn lemma_recent_is_filter(events: Seq<Moment>, window_sec: nat, now: Moment)
    ensures
        recent(events, window_sec, now) == events.filter(
            |t: Moment| in_window(t, window_sec, now),
        ),
    decreases events.len(),
{
    reveal(Seq::filter);
    if events.len() > 0 {
        lemma_recent_is_filter(events.drop_last(), window_sec, now);
        let t = events.last();
        if now.nanos >= t.nanos {
            let d = (now.nanos - t.nanos) as nat;
            assert((d / 1_000_000_000 < window_sec) == (d < window_sec * 1_000_000_000))
                by (nonlinear_arith)
                requires
                    0 <= d,
                    0 <= window_sec,
            ;
        } else if window_sec > 0 {
            assert(window_sec * 1_000_000_000 > 0) by (nonlinear_arith)
                requires
                    window_sec > 0,
            ;
        }
    }
}

/// Law: the budget is used up exactly if there are at least as many failures as restarts are
/// allowed.
pub proof fn lemma_circuit_opens_at_budget(events: &[Moment], max_restarts: u32, r: bool)
    requires
        call_ensures(circuit_should_open, (events, max_restarts), r),
    ensures
        r == (events@.len() >= max_restarts),
{
}

/// Law: the first restart waits the base time, each further one twice as long as the one before
/// it, up to the thirty-first doubling and to what fits.
pub proof fn lemma_backoff_doubles(base: u64, attempt: u32, next: u32, a: u64, b: u64)
    requires
        call_ensures(backoff_exponential_ms, (base, attempt), a),
        call_ensures(backoff_exponential_ms, (base, next), b),
        next == attempt + 1,
    ensures
        attempt == 0 ==> a == base,
        attempt < 31 && 2 * a <= u64::MAX ==> b == 2 * a,
        attempt < 31 && 2 * a > u64::MAX ==> b == u64::MAX,
        attempt >= 31 ==> b == a,
{
    lemma_backoff_step(base as nat, attempt as nat);
}

/// Law: one more attempt doubles the wait, up to the thirty-first doubling and to what fits.
pub proof fn lemma_backoff_step(base: nat, k: nat)
    requires
        base <= u64::MAX,
    ensures
        backoff(base, 0) == base,
        k < 31 && 2 * backoff(base, k) <= u64::MAX ==> backoff(base, k + 1) == 2 * backoff(base, k),
        k < 31 && 2 * backoff(base, k) > u64::MAX ==> backoff(base, k + 1) == u64::MAX,
        k >= 31 ==> backoff(base, k + 1) == backoff(base, k),
{
    vstd::arithmetic::power2::lemma2_to64();
    assert(base * 1 == base) by (nonlinear_arith);
    if k < 31 {
        let p = vstd::arithmetic::power2::pow2(k);
        let q = vstd::arithmetic::power2::pow2(k + 1);
        vstd::arithmetic::power2::lemma_pow2_unfold(k + 1);
        assert(base * q == 2 * (base * p)) by (nonlinear_arith)
            requires
                q == 2 * p,
        ;
    }
}

/// Law: a failed start is tried again exactly under a policy that says so: always, or on
/// failure.
pub proof fn lemma_recovery_by_policy(policy: Option<&RecoveryPolicy>, r: bool)
    requires
        call_ensures(recovery_applies, (policy,), r),
    ensures
        policy is None ==> !r,
        policy matches Some(p) ==> r == (p.policy != RecoveryMode::Manual),
{
}

/// Law: a timer of so many milliseconds fires after exactly that time.
pub proof fn lemma_timer_is_exact(ms: u64, r: (i64, i64))
    requires
        call_ensures(recovery_timer_parts, (ms,), r),
    ensures
        r.0 * 1_000_000_000 + r.1 == ms * 1_000_000,
        0 <= r.1 < 1_000_000_000,
{
}

} // verus!
