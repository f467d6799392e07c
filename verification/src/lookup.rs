//! Server side of the request/response protocol: the bookkeeping of
//! hostnames that were polled off the request channel and not yet answered.
//!
//! The embedding application drives this in its own task: it awaits the next
//! request from the channel, hands the hostname to [`TlsKeyLookup::poll`],
//! performs the actual resolution, and hands the answer back through
//! [`TlsKeyLookup::resolve`], which releases the pending entry and normalizes
//! the answer into the broadcast payload.

use vstd::prelude::*;

use crate::key::Resolution;
use crate::key::ResolutionView;
use crate::key::TlsKey;

verus! {

/// The lookup side's bookkeeping: for each hostname, at most one pending
/// request exists between the `poll` that yielded it and the `resolve` that
/// answers it.
#[derive(Debug)]
pub struct TlsKeyLookup {
    pending: Vec<String>,
}

impl View for TlsKeyLookup {
    type V = Set<Seq<char>>;

    /// The set of hostnames yielded by `poll` and not yet answered.
    closed spec fn view(&self) -> Set<Seq<char>> {
        Set::new(
            |h: Seq<char>|
                exists|i: int| 0 <= i < self.pending@.len() && self.pending@[i]@ == h,
        )
    }
}

impl TlsKeyLookup {
    /// No hostname is recorded as pending twice.
    pub closed spec fn wf(&self) -> bool {
        forall|i: int, j: int|
            0 <= i < j < self.pending@.len() ==> self.pending@[i]@ != self.pending@[j]@
    }

    /// A lookup with nothing pending.
    pub fn new() -> (l: TlsKeyLookup)
        ensures
            l.wf(),
            l@ == Set::<Seq<char>>::empty(),
    {
        let l = TlsKeyLookup { pending: Vec::new() };
        proof {
            assert(l@ =~= Set::<Seq<char>>::empty());
        }
        l
    }

    /// Whether a request for this hostname was yielded by `poll` and not yet
    /// answered. The driving loop tests this before answering: answering an
    /// unknown hostname is a broken loop, and the loop aborts rather than
    /// masking the bug.
    pub fn is_pending(&self, sni: &String) -> (r: bool)
        ensures
            r == self@.contains(sni@),
    {
        let mut i: usize = 0;
        while i < self.pending.len()
            invariant
                i <= self.pending.len(),
                forall|j: int| 0 <= j < i ==> self.pending@[j]@ != sni@,
            decreases self.pending.len() - i,
        {
            if self.pending[i] == *sni {
                proof {
                    assert(self.pending@[i as int]@ == sni@);
                }
                return true;
            }
            i += 1;
        }
        false
    }

    /// Records the next request taken off the channel, or the channel's end.
    ///
    /// `incoming` is what the channel yielded: the hostname of a new request,
    /// or nothing once the resolver side is gone. The hostname becomes
    /// pending and is yielded to the driving loop. A hostname already pending
    /// is never handed in, because the resolver dispatches at most one
    /// request per hostname.
    pub fn poll(&mut self, incoming: Option<String>) -> (out: Option<String>)
        requires
            old(self).wf(),
            incoming matches Some(s) ==> !old(self)@.contains(s@),
        ensures
            final(self).wf(),
            incoming is None ==> final(self)@ == old(self)@ && out is None,
            incoming matches Some(s) ==> final(self)@ == old(self)@.insert(s@) && out == Some(s),
    {
        match incoming {
            None => None,
            Some(s) => {
                let ghost pre = self.pending@;
                self.pending.push(s.clone());
                proof {
                    assert forall|h: Seq<char>| old(self)@.insert(s@).contains(h) implies self@.contains(
                        h,
                    ) by {
                        if h == s@ {
                            assert(self.pending@[pre.len() as int]@ == h);
                        } else {
                            let i = choose|i: int| 0 <= i < pre.len() && pre[i]@ == h;
                            assert(self.pending@[i]@ == h);
                        }
                    }
                    assert forall|h: Seq<char>| self@.contains(h) implies old(self)@.insert(
                        s@,
                    ).contains(h) by {
                        let i = choose|i: int|
                            0 <= i < self.pending@.len() && self.pending@[i]@ == h;
                        if i < pre.len() {
                            assert(pre[i]@ == h);
                        }
                    }
                    assert(self@ =~= old(self)@.insert(s@));
                }
                Some(s)
            },
        }
    }

    /// Answers the pending request for `sni` and returns the payload that the
    /// driving loop broadcasts to every subscriber of that hostname.
    ///
    /// Whatever error the application's resolution logic reports is not
    /// retained: a failed resolution is normalized to the failure marker that
    /// is cached and replayed. Answering a hostname that was never yielded by
    /// `poll`, or answering one twice, is a broken driving loop, not a
    /// runtime condition; the contract excludes it.
    #[verifier::loop_isolation(false)]
    pub fn resolve<E>(&mut self, sni: &String, res: Result<TlsKey, E>) -> (payload: Resolution)
        requires
            old(self).wf(),
            old(self)@.contains(sni@),
        ensures
            final(self).wf(),
            final(self)@ == old(self)@.remove(sni@),
            res matches Ok(k) ==> payload@ == ResolutionView::Key(k@),
            res is Err ==> payload is Failure,
    {
        let ghost pre = self.pending@;
        let n = self.pending.len();
        let mut i: usize = 0;
        while i < n
            invariant
                n == self.pending.len(),
                i <= n,
                forall|j: int| 0 <= j < i ==> self.pending@[j]@ != sni@,
                self.pending@ == pre,
                exists|k: int| 0 <= k < pre.len() && pre[k]@ == sni@,
            decreases n - i,
        {
            if self.pending[i] == *sni {
                self.pending.remove(i);
                proof {
                    assert(pre == old(self).pending@);
                    assert(self.pending@ == pre.remove(i as int));
                    assert(pre[i as int]@ == sni@);
                    assert forall|a: int, b: int|
                        0 <= a < b < self.pending@.len() implies self.pending@[a]@
                        != self.pending@[b]@ by {
                        let a0: int = if a < i { a } else { a + 1 };
                        let b0: int = if b < i { b } else { b + 1 };
                        lemma_remove_index(pre, i as int, a);
                        lemma_remove_index(pre, i as int, b);
                        assert(self.pending@[a] == pre[a0]);
                        assert(self.pending@[b] == pre[b0]);
                        assert(old(self).pending@[a0]@ != old(self).pending@[b0]@);
                    }
                    assert forall|h: Seq<char>| old(self)@.remove(sni@).contains(h) implies self@.contains(
                        h,
                    ) by {
                        assert(old(self)@.contains(h));
                        let k = choose|k: int|
                            0 <= k < old(self).pending@.len() && old(self).pending@[k]@ == h;
                        if k < i {
                            lemma_remove_index(pre, i as int, k);
                            assert(self.pending@[k]@ == h);
                        } else {
                            assert(pre[k]@ != sni@);
                            lemma_remove_index(pre, i as int, k - 1);
                            assert(self.pending@[k - 1]@ == h);
                        }
                    }
                    assert forall|h: Seq<char>| self@.contains(h) implies old(self)@.remove(
                        sni@,
                    ).contains(h) by {
                        let k = choose|k: int|
                            0 <= k < self.pending@.len() && self.pending@[k]@ == h;
                        lemma_remove_index(pre, i as int, k);
                        if k < i {
                            assert(pre[k]@ == h);
                            assert(h != sni@);
                        } else {
                            assert(pre[k + 1]@ == h);
                            assert(h != sni@);
                        }
                    }
                    assert(self@ =~= old(self)@.remove(sni@));
                }
                return match res {
                    Ok(k) => Resolution::Key(k),
                    Err(_) => Resolution::Failure,
                };
            }
            i += 1;
        }
        proof {
            let k = choose|k: int| 0 <= k < pre.len() && pre[k]@ == sni@;
            assert(false);
        }
        Resolution::Failure
    }
}

/// Indexing a sequence after one element was removed.
proof fn lemma_remove_index(s: Seq<String>, i: int, a: int)
    requires
        0 <= i < s.len(),
        0 <= a < s.len() - 1,
    ensures
        s.remove(i)[a] == (if a < i {
            s[a]
        } else {
            s[a + 1]
        }),
{
    s.remove_ensures(i);
}

} // verus!
