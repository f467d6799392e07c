//! End-to-end model of the resolution protocol and its laws.
//!
//! The executable pieces — [`crate::resolver::TlsKeyResolver`]'s cache, the
//! request channel, [`crate::lookup::TlsKeyLookup`]'s pending bookkeeping and
//! the per-caller broadcast subscriptions — cooperate across tasks. This
//! module states the whole assembly as one transition system and proves the
//! protocol's guarantees over it: a hostname is dispatched upstream at most
//! once and polled at most once, one answer fans out identically to every
//! waiter, a completed entry replays forever, an abandoned waiter changes
//! nothing but the waiter list, and a stored failure replays as failure.
//!
//! The correspondence to the executable code is direct: `Resolve` performs
//! exactly the cache transition that `TlsKeyResolver::resolve` ensures,
//! `Poll` and `Answer` the transitions that `TlsKeyLookup::poll` and
//! `TlsKeyLookup::resolve` ensure, and `Answer`'s cache write is the one that
//! `TlsKeyResolver::store_resolution` ensures when the entry is still
//! `Resolving` — which the invariant shows it is.

use vstd::prelude::*;

use crate::key::ResolutionView;
use crate::resolver::EntryView;

verus! {

/// One `resolve()` call that subscribed to a hostname's broadcast: the
/// hostname it waits for, and the result it observed, once one arrived.
pub struct Waiter {
    pub host: Seq<char>,
    pub outcome: Option<ResolutionView>,
}

/// The whole assembly at one instant: the resolver's cache, the requests sent
/// but not yet polled (in order), the hostnames polled but not yet answered,
/// and every subscriber.
pub struct ProtocolState {
    pub cache: Map<Seq<char>, EntryView>,
    pub channel: Seq<Seq<char>>,
    pub pending: Set<Seq<char>>,
    pub waiters: Seq<Waiter>,
}

/// What can happen: a client calls `resolve(h)`; the driving loop polls the
/// next request; the driving loop answers a pending hostname; a caller drops
/// its future before the answer arrives.
pub enum ProtocolEvent {
    Resolve(Seq<char>),
    Poll,
    Answer(Seq<char>, ResolutionView),
    Cancel(int),
}

/// A freshly created resolver/lookup pair: everything empty.
pub open spec fn start() -> ProtocolState {
    ProtocolState {
        cache: Map::empty(),
        channel: Seq::empty(),
        pending: Set::empty(),
        waiters: Seq::empty(),
    }
}

/// When an event may fire. Answering a hostname that is not pending is the
/// driving-loop misuse that the executable side excludes by precondition;
/// cancelling names an existing waiter.
pub open spec fn enabled(s: ProtocolState, e: ProtocolEvent) -> bool {
    match e {
        ProtocolEvent::Resolve(_) => true,
        ProtocolEvent::Poll => true,
        ProtocolEvent::Answer(h, _) => s.pending.contains(h),
        ProtocolEvent::Cancel(i) => 0 <= i < s.waiters.len(),
    }
}

/// The broadcast: every waiter for `h` that is still waiting observes `r`.
pub open spec fn deliver(ws: Seq<Waiter>, h: Seq<char>, r: ResolutionView) -> Seq<Waiter> {
    Seq::new(
        ws.len(),
        |i: int|
            if ws[i].host == h && ws[i].outcome is None {
                Waiter { host: ws[i].host, outcome: Some(r) }
            } else {
                ws[i]
            },
    )
}

/// The transition relation, one event at a time.
pub open spec fn step(s: ProtocolState, e: ProtocolEvent) -> ProtocolState {
    match e {
        ProtocolEvent::Resolve(h) => {
            if s.cache.dom().contains(h) {
                let got = match s.cache[h] {
                    EntryView::Resolving => None,
                    EntryView::Resolved(r) => Some(r),
                };
                ProtocolState {
                    cache: s.cache,
                    channel: s.channel,
                    pending: s.pending,
                    waiters: s.waiters.push(Waiter { host: h, outcome: got }),
                }
            } else {
                ProtocolState {
                    cache: s.cache.insert(h, EntryView::Resolving),
                    channel: s.channel.push(h),
                    pending: s.pending,
                    waiters: s.waiters.push(Waiter { host: h, outcome: None }),
                }
            }
        },
        ProtocolEvent::Poll => {
            if s.channel.len() == 0 {
                s
            } else {
                ProtocolState {
                    cache: s.cache,
                    channel: s.channel.drop_first(),
                    pending: s.pending.insert(s.channel.first()),
                    waiters: s.waiters,
                }
            }
        },
        ProtocolEvent::Answer(h, r) => ProtocolState {
            cache: s.cache.insert(h, EntryView::Resolved(r)),
            channel: s.channel,
            pending: s.pending.remove(h),
            waiters: deliver(s.waiters, h, r),
        },
        ProtocolEvent::Cancel(i) => ProtocolState {
            cache: s.cache,
            channel: s.channel,
            pending: s.pending,
            waiters: s.waiters.remove(i),
        },
    }
}

/// The protocol invariant. A hostname in flight (sent or pending) is recorded
/// `Resolving` and is in flight exactly once; a waiter's observed outcome is
/// the cached resolution of its hostname; and once a hostname resolved, every
/// waiter for it has observed exactly that result.
pub open spec fn inv(s: ProtocolState) -> bool {
    &&& (forall|i: int, j: int| 0 <= i < j < s.channel.len() ==> s.channel[i] != s.channel[j])
    &&& (forall|i: int|
        0 <= i < s.channel.len() ==> s.cache.dom().contains(#[trigger] s.channel[i])
            && s.cache[s.channel[i]] is Resolving && !s.pending.contains(s.channel[i]))
    &&& (forall|h: Seq<char>|
        #[trigger] s.pending.contains(h) ==> s.cache.dom().contains(h)
            && s.cache[h] is Resolving)
    &&& (forall|i: int|
        0 <= i < s.waiters.len() ==> s.cache.dom().contains((#[trigger] s.waiters[i]).host))
    &&& (forall|i: int|
        0 <= i < s.waiters.len() ==> ((#[trigger] s.waiters[i]).outcome matches Some(r)
            ==> s.cache[s.waiters[i].host] == EntryView::Resolved(r)))
    &&& (forall|i: int|
        0 <= i < s.waiters.len() ==> (s.cache.dom().contains((#[trigger] s.waiters[i]).host)
            ==> (s.cache[s.waiters[i].host] matches EntryView::Resolved(r) ==> s.waiters[i].outcome
            == Some(r))))
}

/// A fresh pair satisfies the invariant.
pub proof fn lemma_start_inv()
    ensures
        inv(start()),
{
}

/// Every enabled event preserves the invariant.
pub proof fn lemma_inv_step(s: ProtocolState, e: ProtocolEvent)
    requires
        inv(s),
        enabled(s, e),
    ensures
        inv(step(s, e)),
{
    let s2 = step(s, e);
    match e {
        ProtocolEvent::Resolve(h) => {
            assert forall|i: int| 0 <= i < s2.waiters.len() implies s2.cache.dom().contains(
                (#[trigger] s2.waiters[i]).host,
            ) by {
                if i < s.waiters.len() {
                    assert(s2.waiters[i] == s.waiters[i]);
                }
            }
        },
        ProtocolEvent::Poll => {
            if s.channel.len() > 0 {
                let h = s.channel.first();
                assert forall|i: int| 0 <= i < s2.channel.len() implies s2.cache.dom().contains(
                    #[trigger] s2.channel[i],
                ) && s2.cache[s2.channel[i]] is Resolving && !s2.pending.contains(
                    s2.channel[i],
                ) by {
                    assert(s2.channel[i] == s.channel[i + 1]);
                    assert(s.channel[i + 1] != h);
                }
            }
        },
        ProtocolEvent::Answer(h, r) => {
            assert(!s.channel.contains(h)) by {
                if s.channel.contains(h) {
                    let i = choose|i: int| 0 <= i < s.channel.len() && s.channel[i] == h;
                    assert(!s.pending.contains(s.channel[i]));
                }
            }
            assert forall|i: int|
                0 <= i < s2.channel.len() implies s2.cache.dom().contains(
                #[trigger] s2.channel[i],
            ) && s2.cache[s2.channel[i]] is Resolving && !s2.pending.contains(s2.channel[i]) by {
                assert(s.channel[i] != h) by {
                    if s.channel[i] == h {
                        assert(s.channel.contains(h));
                    }
                }
            }
            assert forall|i: int|
                0 <= i < s2.waiters.len() implies ((#[trigger] s2.waiters[i]).outcome matches Some(
                r2,
            ) ==> s2.cache[s2.waiters[i].host] == EntryView::Resolved(r2)) by {
                if s.waiters[i].host == h && s.waiters[i].outcome is None {
                } else {
                    if s.waiters[i].outcome is Some && s.waiters[i].host == h {
                        assert(s.cache[h] == EntryView::Resolved(
                            s.waiters[i].outcome->Some_0,
                        ));
                        assert(s.cache[h] is Resolving);
                        assert(false);
                    }
                }
            }
            assert forall|i: int|
                0 <= i < s2.waiters.len() implies (s2.cache.dom().contains(
                (#[trigger] s2.waiters[i]).host,
            ) ==> (s2.cache[s2.waiters[i].host] matches EntryView::Resolved(r2)
                ==> s2.waiters[i].outcome == Some(r2))) by {}
        },
        ProtocolEvent::Cancel(k) => {
            assert forall|i: int|
                0 <= i < s2.waiters.len() implies s2.cache.dom().contains(
                (#[trigger] s2.waiters[i]).host,
            ) && ((s2.waiters[i]).outcome matches Some(r2) ==> s2.cache[s2.waiters[i].host]
                == EntryView::Resolved(r2)) && (s2.cache[s2.waiters[i].host]
                matches EntryView::Resolved(r2) ==> s2.waiters[i].outcome == Some(r2)) by {
                let i0: int = if i < k {
                    i
                } else {
                    i + 1
                };
                s.waiters.remove_ensures(k);
                assert(s2.waiters[i] == s.waiters[i0]);
            }
        },
    }
}

/// Running a sequence of events from a state.
pub open spec fn run(s: ProtocolState, es: Seq<ProtocolEvent>) -> ProtocolState
    decreases es.len(),
{
    if es.len() == 0 {
        s
    } else {
        run(step(s, es.first()), es.drop_first())
    }
}

/// Whether this event is the one that issues the upstream request for `h`:
/// a `resolve(h)` that finds no cache entry.
pub open spec fn dispatches(s: ProtocolState, e: ProtocolEvent, h: Seq<char>) -> bool {
    e == ProtocolEvent::Resolve(h) && !s.cache.dom().contains(h)
}

/// How many events of a sequence issue an upstream request for `h`.
pub open spec fn dispatch_count(s: ProtocolState, es: Seq<ProtocolEvent>, h: Seq<char>) -> nat
    decreases es.len(),
{
    if es.len() == 0 {
        0
    } else {
        (if dispatches(s, es.first(), h) {
            1nat
        } else {
            0nat
        }) + dispatch_count(step(s, es.first()), es.drop_first(), h)
    }
}

/// Law (single upstream request): however many `resolve()` calls arrive for a
/// hostname, in whatever interleaving with polls, answers and cancellations,
/// at most one of them issues an upstream request — and none does once a
/// cache entry exists.
pub proof fn lemma_single_upstream_request(
    s: ProtocolState,
    es: Seq<ProtocolEvent>,
    h: Seq<char>,
)
    ensures
        s.cache.dom().contains(h) ==> dispatch_count(s, es, h) == 0,
        dispatch_count(s, es, h) <= 1,
    decreases es.len(),
{
    if es.len() > 0 {
        let s2 = step(s, es.first());
        assert(s.cache.dom().contains(h) ==> s2.cache.dom().contains(h));
        assert(dispatches(s, es.first(), h) ==> s2.cache.dom().contains(h));
        lemma_single_upstream_request(s2, es.drop_first(), h);
    }
}

/// Every event of the sequence is enabled in the state it fires from.
pub open spec fn all_enabled(s: ProtocolState, es: Seq<ProtocolEvent>) -> bool
    decreases es.len(),
{
    es.len() == 0 || (enabled(s, es.first()) && all_enabled(step(s, es.first()), es.drop_first()))
}

/// Whether this event is the poll that yields `h` to the driving loop.
pub open spec fn yields(s: ProtocolState, e: ProtocolEvent, h: Seq<char>) -> bool {
    e is Poll && s.channel.len() > 0 && s.channel.first() == h
}

/// How many events of a sequence yield `h` to the driving loop.
pub open spec fn yield_count(s: ProtocolState, es: Seq<ProtocolEvent>, h: Seq<char>) -> nat
    decreases es.len(),
{
    if es.len() == 0 {
        0
    } else {
        (if yields(s, es.first(), h) {
            1nat
        } else {
            0nat
        }) + yield_count(step(s, es.first()), es.drop_first(), h)
    }
}

/// Whether `h` sits in the request channel, as a count: never more than once.
pub open spec fn chan_count(s: ProtocolState, h: Seq<char>) -> nat {
    if s.channel.contains(h) {
        1nat
    } else {
        0nat
    }
}

/// A poll yields `h` at most once per upstream request for it.
pub proof fn lemma_poll_yield_bound(s: ProtocolState, es: Seq<ProtocolEvent>, h: Seq<char>)
    requires
        inv(s),
        all_enabled(s, es),
    ensures
        yield_count(s, es, h) <= dispatch_count(s, es, h) + chan_count(s, h),
    decreases es.len(),
{
    if es.len() > 0 {
        let e = es.first();
        let s2 = step(s, e);
        lemma_inv_step(s, e);
        match e {
            ProtocolEvent::Poll => {
                if s.channel.len() > 0 {
                    let h0 = s.channel.first();
                    assert(s.channel.contains(h0)) by {
                        assert(s.channel[0] == h0);
                    }
                    if h0 == h {
                        assert(!s2.channel.contains(h)) by {
                            if s2.channel.contains(h) {
                                let j = choose|j: int|
                                    0 <= j < s2.channel.len() && s2.channel[j] == h;
                                assert(s.channel[j + 1] == h);
                                assert(s.channel[0] != s.channel[j + 1]);
                            }
                        }
                    } else {
                        assert(s2.channel.contains(h) == s.channel.contains(h)) by {
                            if s2.channel.contains(h) {
                                let j = choose|j: int|
                                    0 <= j < s2.channel.len() && s2.channel[j] == h;
                                assert(s.channel[j + 1] == h);
                            }
                            if s.channel.contains(h) {
                                let j = choose|j: int|
                                    0 <= j < s.channel.len() && s.channel[j] == h;
                                assert(j != 0);
                                assert(s2.channel[j - 1] == h);
                            }
                        }
                    }
                }
            },
            ProtocolEvent::Resolve(h2) => {
                if !s.cache.dom().contains(h2) {
                    if h2 == h {
                        assert(s2.channel.contains(h)) by {
                            assert(s2.channel[s.channel.len() as int] == h);
                        }
                    } else {
                        assert(s2.channel.contains(h) == s.channel.contains(h)) by {
                            if s2.channel.contains(h) {
                                let j = choose|j: int|
                                    0 <= j < s2.channel.len() && s2.channel[j] == h;
                                assert(j < s.channel.len());
                                assert(s.channel[j] == h);
                            }
                            if s.channel.contains(h) {
                                let j = choose|j: int|
                                    0 <= j < s.channel.len() && s.channel[j] == h;
                                assert(s2.channel[j] == h);
                            }
                        }
                    }
                }
            },
            ProtocolEvent::Answer(_, _) => {
            },
            ProtocolEvent::Cancel(_) => {
            },
        }
        lemma_poll_yield_bound(s2, es.drop_first(), h);
    }
}

/// Law (single poll yield): from a fresh pair, however many concurrent
/// `resolve()` calls arrive for a hostname, the driving loop is handed that
/// hostname at most once.
pub proof fn lemma_single_poll_yield(es: Seq<ProtocolEvent>, h: Seq<char>)
    requires
        all_enabled(start(), es),
    ensures
        yield_count(start(), es, h) <= 1,
{
    lemma_start_inv();
    lemma_poll_yield_bound(start(), es, h);
    lemma_single_upstream_request(start(), es, h);
}

/// Law (fan-out correctness): when the driving loop answers hostname `h`
/// with result `r`, every waiter for `h` — however many concurrent
/// `resolve()` calls subscribed — observes exactly `r`.
pub proof fn lemma_fan_out(s: ProtocolState, h: Seq<char>, r: ResolutionView)
    requires
        inv(s),
        s.pending.contains(h),
    ensures
        forall|i: int|
            0 <= i < step(s, ProtocolEvent::Answer(h, r)).waiters.len() ==> ((#[trigger] step(
                s,
                ProtocolEvent::Answer(h, r),
            ).waiters[i]).host == h ==> step(s, ProtocolEvent::Answer(h, r)).waiters[i].outcome
                == Some(r)),
{
    let s2 = step(s, ProtocolEvent::Answer(h, r));
    assert forall|i: int|
        0 <= i < s2.waiters.len() implies ((#[trigger] s2.waiters[i]).host == h
        ==> s2.waiters[i].outcome == Some(r)) by {
        if s.waiters[i].host == h && s.waiters[i].outcome is Some {
            assert(s.cache[h] == EntryView::Resolved(s.waiters[i].outcome->Some_0));
            assert(s.cache[h] is Resolving);
            assert(false);
        }
    }
}

/// Law (cache replay): a `resolve()` for a hostname that already resolved
/// completes at once with the stored result, and issues no new upstream
/// request: cache, channel and pending bookkeeping are untouched.
pub proof fn lemma_cache_replay(s: ProtocolState, h: Seq<char>, r: ResolutionView)
    requires
        s.cache.dom().contains(h),
        s.cache[h] == EntryView::Resolved(r),
    ensures
        step(s, ProtocolEvent::Resolve(h)).cache == s.cache,
        step(s, ProtocolEvent::Resolve(h)).channel == s.channel,
        step(s, ProtocolEvent::Resolve(h)).pending == s.pending,
        step(s, ProtocolEvent::Resolve(h)).waiters == s.waiters.push(
            Waiter { host: h, outcome: Some(r) },
        ),
{
}

/// Law (cancellation safety, part one): a caller abandoning its wait removes
/// only its waiter — the cache entry, the dispatched request and the pending
/// bookkeeping all survive, and the invariant is preserved.
pub proof fn lemma_cancellation_safe(s: ProtocolState, i: int)
    requires
        inv(s),
        0 <= i < s.waiters.len(),
    ensures
        step(s, ProtocolEvent::Cancel(i)).cache == s.cache,
        step(s, ProtocolEvent::Cancel(i)).channel == s.channel,
        step(s, ProtocolEvent::Cancel(i)).pending == s.pending,
        inv(step(s, ProtocolEvent::Cancel(i))),
{
    lemma_inv_step(s, ProtocolEvent::Cancel(i));
}

/// Law (cancellation safety, part two): the answer populates the cache
/// whether or not anyone is still waiting, so a hostname whose every caller
/// gave up still ends up cached, and a later `resolve()` replays it.
pub proof fn lemma_answer_caches(s: ProtocolState, h: Seq<char>, r: ResolutionView)
    ensures
        step(s, ProtocolEvent::Answer(h, r)).cache.dom().contains(h),
        step(s, ProtocolEvent::Answer(h, r)).cache[h] == EntryView::Resolved(r),
{
}

/// Law (permanence): once a hostname has resolved, its stored result never
/// changes, whatever enabled events follow — entries are kept for the process
/// lifetime, with no eviction and no re-request. With the replay law this
/// gives every later `resolve()` the same stored result, forever.
pub proof fn lemma_resolved_persists(
    s: ProtocolState,
    es: Seq<ProtocolEvent>,
    h: Seq<char>,
    r: ResolutionView,
)
    requires
        inv(s),
        all_enabled(s, es),
        s.cache.dom().contains(h),
        s.cache[h] == EntryView::Resolved(r),
    ensures
        run(s, es).cache.dom().contains(h),
        run(s, es).cache[h] == EntryView::Resolved(r),
    decreases es.len(),
{
    if es.len() > 0 {
        let e = es.first();
        let s2 = step(s, e);
        lemma_inv_step(s, e);
        match e {
            ProtocolEvent::Answer(h2, _) => {
                // only a pending hostname can be answered, and a pending one
                // is still resolving, so it is not this one
                assert(s.pending.contains(h2));
                assert(s.cache[h2] is Resolving);
            },
            _ => {
            },
        }
        lemma_resolved_persists(s2, es.drop_first(), h, r);
    }
}

/// Law (failure replay): answering a hostname with a failure makes every
/// current waiter observe the failure, and every later `resolve()` for it
/// replays a failure without a new upstream request.
pub proof fn lemma_failure_replay(s: ProtocolState, h: Seq<char>, es: Seq<ProtocolEvent>)
    requires
        inv(s),
        s.pending.contains(h),
    ensures
        forall|i: int|
            0 <= i < step(s, ProtocolEvent::Answer(h, ResolutionView::Failure)).waiters.len()
                ==> ((#[trigger] step(
                s,
                ProtocolEvent::Answer(h, ResolutionView::Failure),
            ).waiters[i]).host == h ==> step(
                s,
                ProtocolEvent::Answer(h, ResolutionView::Failure),
            ).waiters[i].outcome == Some(ResolutionView::Failure)),
        dispatch_count(step(s, ProtocolEvent::Answer(h, ResolutionView::Failure)), es, h) == 0,
{
    lemma_fan_out(s, h, ResolutionView::Failure);
    lemma_single_upstream_request(step(s, ProtocolEvent::Answer(h, ResolutionView::Failure)), es, h);
}

} // verus!
