//! Client side: the per-process cache of in-flight and completed resolutions.
//!
//! [`TlsKeyResolver::resolve`] is the synchronous decision at the head of each
//! asynchronous resolution: it inspects the cache and tells the
//! caller whether a completed result can be replayed at once, whether a
//! request for the hostname is already in flight and only a new subscription
//! to its broadcast is needed, or whether this call is the first for the
//! hostname, in which case exactly one upstream request must now be sent.
//! [`TlsKeyResolver::store_resolution`] is the decision of the background
//! completion task that every caller spawns: it writes the broadcast result
//! into the cache, first writer wins. Because that task runs on its own
//! subscription, the cache is populated even when the caller abandons its
//! wait; the channel and task plumbing lives in the embedding application.

use vstd::prelude::*;

use crate::key::Resolution;
use crate::key::ResolutionView;
use crate::key::TlsKey;
use crate::lookup::TlsKeyLookup;

verus! {

/// The lifecycle of one hostname in the cache: a request has been dispatched
/// and its result is awaited, or the result arrived and is kept for the rest
/// of the process lifetime. Entries are never evicted or re-requested.
#[derive(Debug)]
pub enum TlsKeyState {
    Resolving,
    Resolved(Resolution),
}

/// Mathematical value of a cache entry.
pub enum EntryView {
    Resolving,
    Resolved(ResolutionView),
}

impl View for TlsKeyState {
    type V = EntryView;

    open spec fn view(&self) -> EntryView {
        match self {
            TlsKeyState::Resolving => EntryView::Resolving,
            TlsKeyState::Resolved(r) => EntryView::Resolved(r@),
        }
    }
}

/// The generic error a waiter observes: a cached failure replayed, or the
/// broadcast abandoned before a result was sent. The upstream error itself is
/// never reproduced.
#[derive(Clone, Copy, Debug, PartialEq, Eq, Structural)]
pub struct ResolveError;

/// What one `resolve` call must do next, decided synchronously from the cache.
pub enum ResolveOutcome {
    /// The hostname already resolved: the stored result, replayed.
    Ready(Result<TlsKey, ResolveError>),
    /// A request is already in flight: subscribe to its broadcast.
    Subscribe,
    /// This call created the entry: send exactly one upstream request
    /// `(hostname, fan-out sender)`, then subscribe.
    Dispatch,
}

/// A cached result `r` replays to a waiter as `kr`: the key itself on
/// success, the generic error on a stored failure.
pub open spec fn replays(r: ResolutionView, kr: Result<TlsKey, ResolveError>) -> bool {
    match r {
        ResolutionView::Key(kv) => kr matches Ok(k) && k@ == kv,
        ResolutionView::Failure => kr is Err,
    }
}

#[derive(Debug)]
struct CacheSlot {
    host: String,
    state: TlsKeyState,
}

/// The resolution cache, keyed by hostname exactly as the handshake offered
/// it. All mutation happens through one logical owner task in the embedding
/// application, so no synchronization is modeled here.
#[derive(Debug)]
pub struct TlsKeyResolver {
    slots: Vec<CacheSlot>,
}

spec fn contains_host(s: Seq<CacheSlot>, h: Seq<char>) -> bool {
    exists|i: int| 0 <= i < s.len() && s[i].host@ == h
}

spec fn host_index(s: Seq<CacheSlot>, h: Seq<char>) -> int {
    choose|i: int| 0 <= i < s.len() && s[i].host@ == h
}

spec fn state_at(s: Seq<CacheSlot>, h: Seq<char>) -> EntryView {
    s[host_index(s, h)].state@
}

spec fn hosts_unique(s: Seq<CacheSlot>) -> bool {
    forall|i: int, j: int| 0 <= i < j < s.len() ==> s[i].host@ != s[j].host@
}

/// With unique hostnames, the entry of the host at index `i` is the state
/// stored at `i`.
proof fn lemma_state_at(s: Seq<CacheSlot>, i: int)
    requires
        hosts_unique(s),
        0 <= i < s.len(),
    ensures
        contains_host(s, s[i].host@),
        host_index(s, s[i].host@) == i,
        state_at(s, s[i].host@) == s[i].state@,
{
    assert(contains_host(s, s[i].host@));
    let j = host_index(s, s[i].host@);
    assert(0 <= j < s.len() && s[j].host@ == s[i].host@);
    if i < j {
        assert(s[i].host@ != s[j].host@);
    }
    if j < i {
        assert(s[j].host@ != s[i].host@);
    }
}

impl View for TlsKeyResolver {
    type V = Map<Seq<char>, EntryView>;

    /// The cache as a map from hostname to entry state.
    closed spec fn view(&self) -> Map<Seq<char>, EntryView> {
        Map::new(
            |h: Seq<char>| contains_host(self.slots@, h),
            |h: Seq<char>| state_at(self.slots@, h),
        )
    }
}

impl TlsKeyResolver {
    /// Each hostname owns at most one cache entry.
    pub closed spec fn wf(&self) -> bool {
        hosts_unique(self.slots@)
    }

    /// Resolve the key material for a hostname, up to the first suspension
    /// point: serve a completed entry at once, join an in-flight request, or
    /// create the entry and demand the single upstream dispatch. This is the
    /// only path that creates an entry in the `Resolving` state, so for any
    /// hostname at most one upstream request is ever issued, however many
    /// concurrent callers arrive.
    #[verifier::loop_isolation(false)]
    pub fn resolve(&mut self, sni: &String) -> (out: ResolveOutcome)
        requires
            old(self).wf(),
        ensures
            final(self).wf(),
            !old(self)@.dom().contains(sni@) ==> out is Dispatch && final(self)@ == old(
                self,
            )@.insert(sni@, EntryView::Resolving),
            old(self)@.dom().contains(sni@) && old(self)@[sni@] is Resolving ==> out is Subscribe
                && final(self)@ == old(self)@,
            old(self)@.dom().contains(sni@) ==> (old(self)@[sni@] matches EntryView::Resolved(r)
                ==> ((out matches ResolveOutcome::Ready(kr) && replays(r, kr)) && final(self)@
                == old(self)@)),
    {
        let n = self.slots.len();
        let mut i: usize = 0;
        while i < n
            invariant
                i <= n,
                forall|j: int| 0 <= j < i ==> self.slots@[j].host@ != sni@,
            decreases n - i,
        {
            if self.slots[i].host == *sni {
                proof {
                    lemma_state_at(self.slots@, i as int);
                }
                match &self.slots[i].state {
                    TlsKeyState::Resolving => {
                        return ResolveOutcome::Subscribe;
                    },
                    TlsKeyState::Resolved(res) => {
                        let kr = match res {
                            Resolution::Key(k) => Ok(k.clone()),
                            Resolution::Failure => Err(ResolveError),
                        };
                        return ResolveOutcome::Ready(kr);
                    },
                }
            }
            i += 1;
        }
        let ghost pre = self.slots@;
        self.slots.push(CacheSlot { host: sni.clone(), state: TlsKeyState::Resolving });
        proof {
            assert(!contains_host(pre, sni@));
            lemma_view_after_push(pre, self.slots@, sni@, EntryView::Resolving);
            assert(self@ =~= old(self)@.insert(sni@, EntryView::Resolving));
        }
        ResolveOutcome::Dispatch
    }

    /// The background completion task's write: record the broadcast result
    /// for a hostname, first writer wins. A second completion for the same
    /// hostname finds the entry already `Resolved` and changes nothing, and a
    /// completed entry is never overwritten, so the first stored result is
    /// the one replayed forever.
    #[verifier::loop_isolation(false)]
    pub fn store_resolution(&mut self, sni: &String, res: Resolution)
        requires
            old(self).wf(),
        ensures
            final(self).wf(),
            old(self)@.dom().contains(sni@) && old(self)@[sni@] is Resolved ==> final(self)@
                == old(self)@,
            !(old(self)@.dom().contains(sni@) && old(self)@[sni@] is Resolved) ==> final(self)@
                == old(self)@.insert(sni@, EntryView::Resolved(res@)),
    {
        let n = self.slots.len();
        let mut i: usize = 0;
        while i < n
            invariant
                i <= n,
                self.slots@ == old(self).slots@,
                forall|j: int| 0 <= j < i ==> self.slots@[j].host@ != sni@,
            decreases n - i,
        {
            if self.slots[i].host == *sni {
                proof {
                    lemma_state_at(self.slots@, i as int);
                }
                let already_resolved = match &self.slots[i].state {
                    TlsKeyState::Resolved(_) => true,
                    TlsKeyState::Resolving => false,
                };
                if already_resolved {
                    return ;
                }
                let ghost pre = self.slots@;
                let prev = self.slots.remove(i);
                self.slots.insert(i, CacheSlot { host: prev.host, state: TlsKeyState::Resolved(res) });
                proof {
                    assert(self.slots@ =~= pre.update(
                        i as int,
                        CacheSlot { host: pre[i as int].host, state: self.slots@[i as int].state },
                    ));
                    lemma_view_after_update(pre, self.slots@, i as int);
                    assert(self@ =~= old(self)@.insert(sni@, EntryView::Resolved(res@)));
                }
                return ;
            }
            i += 1;
        }
        let ghost pre = self.slots@;
        self.slots.push(CacheSlot { host: sni.clone(), state: TlsKeyState::Resolved(res) });
        proof {
            assert(!contains_host(pre, sni@));
            lemma_view_after_push(pre, self.slots@, sni@, EntryView::Resolved(res@));
            assert(self@ =~= old(self)@.insert(sni@, EntryView::Resolved(res@)));
        }
    }
}

/// Pushing a slot for a fresh hostname keeps every other entry and adds the
/// new one.
proof fn lemma_view_after_push(pre: Seq<CacheSlot>, post: Seq<CacheSlot>, h: Seq<char>, e: EntryView)
    requires
        hosts_unique(pre),
        !contains_host(pre, h),
        post.len() == pre.len() + 1,
        forall|j: int| 0 <= j < pre.len() ==> post[j] == pre[j],
        post[pre.len() as int].host@ == h,
        post[pre.len() as int].state@ == e,
    ensures
        hosts_unique(post),
        contains_host(post, h),
        state_at(post, h) == e,
        forall|h2: Seq<char>| h2 != h ==> (contains_host(post, h2) == contains_host(pre, h2)),
        forall|h2: Seq<char>|
            h2 != h && contains_host(pre, h2) ==> state_at(post, h2) == state_at(pre, h2),
{
    assert forall|a: int, b: int| 0 <= a < b < post.len() implies post[a].host@ != post[b].host@ by {
        if b < pre.len() {
            assert(pre[a].host@ != pre[b].host@);
        } else {
            assert(!(pre[a].host@ == h));
        }
    }
    lemma_state_at(post, pre.len() as int);
    assert forall|h2: Seq<char>| h2 != h implies (contains_host(post, h2) == contains_host(
        pre,
        h2,
    )) by {
        if contains_host(pre, h2) {
            let j = choose|j: int| 0 <= j < pre.len() && pre[j].host@ == h2;
            assert(post[j].host@ == h2);
        }
        if contains_host(post, h2) {
            let j = choose|j: int| 0 <= j < post.len() && post[j].host@ == h2;
            assert(j < pre.len());
            assert(pre[j].host@ == h2);
        }
    }
    assert forall|h2: Seq<char>| h2 != h && contains_host(pre, h2) implies state_at(post, h2)
        == state_at(pre, h2) by {
        let j = choose|j: int| 0 <= j < pre.len() && pre[j].host@ == h2;
        lemma_state_at(pre, j);
        lemma_state_at(post, j);
    }
}

/// Replacing the state stored for one hostname keeps every other entry.
proof fn lemma_view_after_update(pre: Seq<CacheSlot>, post: Seq<CacheSlot>, i: int)
    requires
        hosts_unique(pre),
        0 <= i < pre.len(),
        post.len() == pre.len(),
        forall|j: int| 0 <= j < pre.len() && j != i ==> post[j] == pre[j],
        post[i].host@ == pre[i].host@,
    ensures
        hosts_unique(post),
        contains_host(post, pre[i].host@),
        state_at(post, pre[i].host@) == post[i].state@,
        forall|h2: Seq<char>|
            h2 != pre[i].host@ ==> (contains_host(post, h2) == contains_host(pre, h2)),
        forall|h2: Seq<char>|
            h2 != pre[i].host@ && contains_host(pre, h2) ==> state_at(post, h2) == state_at(
                pre,
                h2,
            ),
{
    let h = pre[i].host@;
    assert forall|a: int, b: int| 0 <= a < b < post.len() implies post[a].host@ != post[b].host@ by {
        assert(pre[a].host@ != pre[b].host@);
        assert(post[a].host@ == pre[a].host@);
        assert(post[b].host@ == pre[b].host@);
    }
    lemma_state_at(post, i);
    assert forall|h2: Seq<char>| h2 != h implies (contains_host(post, h2) == contains_host(
        pre,
        h2,
    )) by {
        if contains_host(pre, h2) {
            let j = choose|j: int| 0 <= j < pre.len() && pre[j].host@ == h2;
            assert(post[j].host@ == h2);
        }
        if contains_host(post, h2) {
            let j = choose|j: int| 0 <= j < post.len() && post[j].host@ == h2;
            assert(pre[j].host@ == h2);
        }
    }
    assert forall|h2: Seq<char>| h2 != h && contains_host(pre, h2) implies state_at(post, h2)
        == state_at(pre, h2) by {
        let j = choose|j: int| 0 <= j < pre.len() && pre[j].host@ == h2;
        lemma_state_at(pre, j);
        lemma_state_at(post, j);
    }
}

/// Creates a connected resolver/lookup pair, both empty: no cache entry
/// exists and nothing is pending. The embedding application wires the
/// request channel between the two and drives the lookup side in its own
/// task.
pub fn new_resolver() -> (r: (TlsKeyResolver, TlsKeyLookup))
    ensures
        r.0.wf(),
        r.0@ == Map::<Seq<char>, EntryView>::empty(),
        r.1.wf(),
        r.1@ == Set::<Seq<char>>::empty(),
{
    let resolver = TlsKeyResolver { slots: Vec::new() };
    proof {
        assert(resolver@ =~= Map::<Seq<char>, EntryView>::empty());
    }
    (resolver, TlsKeyLookup::new())
}

} // verus!
