//! The key selector backing one listener configuration, and the one-shot
//! holder that hands it to the listener setup step exactly once.

use vstd::prelude::*;

use crate::key::TlsKey;
use crate::resolver::TlsKeyResolver;

verus! {

/// How a listener selects its server key: no key configured, one statically
/// known key, or a dynamic resolver consulted per connection.
#[derive(Debug)]
pub enum TlsKeys {
    Null,
    Static(TlsKey),
    Resolver(TlsKeyResolver),
}

impl Default for TlsKeys {
    /// By default no key is configured.
    fn default() -> (r: Self)
        ensures
            r is Null,
    {
        TlsKeys::Null
    }
}

impl TlsKeys {
    /// Downgrades the selector to an optional static key. A `Resolver`
    /// selector cannot be downgraded: it is handed back unchanged, and the
    /// caller must branch on whether dynamic resolution is in play before
    /// assuming a static key is available.
    pub fn try_into_static(self) -> (r: Result<Option<TlsKey>, TlsKeys>)
        ensures
            self is Null ==> (r matches Ok(o) && o is None),
            self matches TlsKeys::Static(k) ==> (r matches Ok(o) && o == Some(k)),
            self is Resolver ==> (r matches Err(v) && v == self),
    {
        match self {
            TlsKeys::Null => Ok(None),
            TlsKeys::Static(key) => Ok(Some(key)),
            keys => Err(keys),
        }
    }
}

impl vstd::std_specs::convert::FromSpecImpl<Option<TlsKey>> for TlsKeys {
    open spec fn obeys_from_spec() -> bool {
        true
    }

    open spec fn from_spec(value: Option<TlsKey>) -> TlsKeys {
        match value {
            None => TlsKeys::Null,
            Some(key) => TlsKeys::Static(key),
        }
    }
}

impl From<Option<TlsKey>> for TlsKeys {
    /// An absent key means no key configured; a present one, a static key.
    fn from(value: Option<TlsKey>) -> (r: TlsKeys) {
        match value {
            None => TlsKeys::Null,
            Some(key) => TlsKeys::Static(key),
        }
    }
}

/// Wraps a selector so that ownership can be transferred to the listener
/// setup step exactly once. `take` swaps the held selector out and leaves the
/// default `Null` behind; a second `take` observes that default rather than
/// an error — the "taken at most once" discipline belongs to the caller's
/// setup code, not to this holder.
#[derive(Debug)]
pub struct TlsKeysHolder {
    keys: TlsKeys,
}

impl TlsKeysHolder {
    /// The selector currently held.
    pub closed spec fn held(&self) -> TlsKeys {
        self.keys
    }

    /// Swaps the held selector out, leaving `Null` behind.
    pub fn take(&mut self) -> (r: TlsKeys)
        ensures
            r == old(self).held(),
            final(self).held() is Null,
    {
        let mut out = TlsKeys::Null;
        core::mem::swap(&mut out, &mut self.keys);
        out
    }
}

impl vstd::std_specs::convert::FromSpecImpl<TlsKeys> for TlsKeysHolder {
    open spec fn obeys_from_spec() -> bool {
        true
    }

    closed spec fn from_spec(value: TlsKeys) -> TlsKeysHolder {
        TlsKeysHolder { keys: value }
    }
}

impl From<TlsKeys> for TlsKeysHolder {
    /// Holds the given selector, ready to be taken once.
    fn from(value: TlsKeys) -> (r: TlsKeysHolder)
        ensures
            r.held() == value,
    {
        TlsKeysHolder { keys: value }
    }
}

} // verus!
