//! Key material: a certificate chain paired with its private key, and the
//! normalized outcome of one upstream resolution.

use vstd::prelude::*;

verus! {

/// Mathematical value of a [`TlsKey`]: the DER bytes of each certificate in
/// the chain, and the DER bytes of the private key.
pub struct TlsKeyView {
    pub cert_chain: Seq<Seq<u8>>,
    pub private_key: Seq<u8>,
}

/// A TLS certificate chain together with the matching private key, both as
/// DER bytes. Immutable once constructed; cloning copies the pair.
#[derive(Debug)]
pub struct TlsKey {
    pub cert_chain: Vec<Vec<u8>>,
    pub private_key: Vec<u8>,
}

impl View for TlsKey {
    type V = TlsKeyView;

    open spec fn view(&self) -> TlsKeyView {
        TlsKeyView { cert_chain: self.cert_chain.deep_view(), private_key: self.private_key@ }
    }
}

/// Copies a byte vector.
pub fn clone_bytes(v: &Vec<u8>) -> (r: Vec<u8>)
    ensures
        r@ == v@,
{
    let mut r: Vec<u8> = Vec::new();
    let mut i: usize = 0;
    while i < v.len()
        invariant
            i <= v.len(),
            r@ == v@.subrange(0, i as int),
        decreases v.len() - i,
    {
        r.push(v[i]);
        proof {
            assert(v@.subrange(0, i as int).push(v@[i as int]) =~= v@.subrange(0, i + 1 as int));
        }
        i += 1;
    }
    proof {
        assert(v@.subrange(0, v.len() as int) =~= v@);
    }
    r
}

/// Byte-for-byte equality of two byte vectors.
pub fn bytes_eq(a: &Vec<u8>, b: &Vec<u8>) -> (r: bool)
    ensures
        r == (a@ == b@),
{
    if a.len() != b.len() {
        return false;
    }
    let mut i: usize = 0;
    while i < a.len()
        invariant
            i <= a.len(),
            a.len() == b.len(),
            forall|j: int| 0 <= j < i ==> a@[j] == b@[j],
        decreases a.len() - i,
    {
        if a[i] != b[i] {
            return false;
        }
        i += 1;
    }
    proof {
        assert(a@ =~= b@);
    }
    true
}

proof fn lemma_bytes_deep_view(v: Vec<u8>)
    ensures
        v.deep_view() == v@,
{
    assert(v.deep_view() =~= v@);
}

impl Clone for TlsKey {
    /// Cloning yields a key with the same certificate chain and private key bytes.
    fn clone(&self) -> (r: Self)
        ensures
            r@ == self@,
    {
        let mut chain: Vec<Vec<u8>> = Vec::new();
        let mut i: usize = 0;
        while i < self.cert_chain.len()
            invariant
                i <= self.cert_chain.len(),
                chain@.len() == i,
                forall|j: int| 0 <= j < i ==> chain@[j]@ == self.cert_chain@[j]@,
            decreases self.cert_chain.len() - i,
        {
            chain.push(clone_bytes(&self.cert_chain[i]));
            i += 1;
        }
        let r = TlsKey { cert_chain: chain, private_key: clone_bytes(&self.private_key) };
        proof {
            assert forall|j: int| 0 <= j < r.cert_chain@.len() implies r.cert_chain.deep_view()[j]
                == self.cert_chain.deep_view()[j] by {
                lemma_bytes_deep_view(r.cert_chain@[j]);
                lemma_bytes_deep_view(self.cert_chain@[j]);
            }
            assert(r.cert_chain.deep_view() =~= self.cert_chain.deep_view());
        }
        r
    }
}

impl vstd::std_specs::cmp::PartialEqSpecImpl for TlsKey {
    open spec fn obeys_eq_spec() -> bool {
        true
    }

    open spec fn eq_spec(&self, other: &TlsKey) -> bool {
        self@ == other@
    }
}

impl PartialEq for TlsKey {
    /// Two keys are equal when their chains and private keys hold the same bytes.
    fn eq(&self, other: &TlsKey) -> (r: bool) {
        if self.cert_chain.len() != other.cert_chain.len() {
            proof {
                assert(self.cert_chain.deep_view().len() != other.cert_chain.deep_view().len());
            }
            return false;
        }
        let mut i: usize = 0;
        while i < self.cert_chain.len()
            invariant
                i <= self.cert_chain.len(),
                self.cert_chain.len() == other.cert_chain.len(),
                forall|j: int| 0 <= j < i ==> self.cert_chain@[j]@ == other.cert_chain@[j]@,
            decreases self.cert_chain.len() - i,
        {
            if !bytes_eq(&self.cert_chain[i], &other.cert_chain[i]) {
                proof {
                    lemma_bytes_deep_view(self.cert_chain@[i as int]);
                    lemma_bytes_deep_view(other.cert_chain@[i as int]);
                    assert(self.cert_chain.deep_view()[i as int]
                        != other.cert_chain.deep_view()[i as int]);
                }
                return false;
            }
            i += 1;
        }
        let keys_match = bytes_eq(&self.private_key, &other.private_key);
        proof {
            if keys_match {
                assert forall|j: int| 0 <= j < self.cert_chain@.len() implies self.cert_chain.deep_view()[j]
                    == other.cert_chain.deep_view()[j] by {
                    lemma_bytes_deep_view(self.cert_chain@[j]);
                    lemma_bytes_deep_view(other.cert_chain@[j]);
                }
                assert(self.cert_chain.deep_view() =~= other.cert_chain.deep_view());
            }
        }
        keys_match
    }
}

impl Eq for TlsKey {

}

/// Mathematical value of a [`Resolution`].
pub enum ResolutionView {
    Key(TlsKeyView),
    Failure,
}

/// The normalized outcome of one upstream resolution for a hostname: either
/// the key material, or a failure marker. A failure is cached and replayed as
/// a generic resolution error; the upstream error itself is not retained.
#[derive(Debug)]
pub enum Resolution {
    Key(TlsKey),
    Failure,
}

impl View for Resolution {
    type V = ResolutionView;

    open spec fn view(&self) -> ResolutionView {
        match self {
            Resolution::Key(k) => ResolutionView::Key(k@),
            Resolution::Failure => ResolutionView::Failure,
        }
    }
}

impl Clone for Resolution {
    /// Cloning preserves the outcome, key bytes included.
    fn clone(&self) -> (r: Self)
        ensures
            r@ == self@,
    {
        match self {
            Resolution::Key(k) => Resolution::Key(k.clone()),
            Resolution::Failure => Resolution::Failure,
        }
    }
}

} // verus!
