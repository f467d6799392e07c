//! Bridging the resolver to the TLS engine's per-connection callback.
//!
//! The engine invokes a synchronous provider callback with the ClientHello;
//! the callback hands the SNI hostname to a worker task that owns the
//! resolver, and the worker answers with the engine's server configuration.
//! The channel plumbing is the embedding application's; here stand the
//! decisions: which hostname a connection asks for, and how a resolution
//! outcome becomes a server configuration or a flattened error.

use vstd::prelude::*;

use crate::key::TlsKey;
use crate::resolver::ResolveError;

verus! {

#[verifier::external_type_specification]
#[verifier::external_body]
pub struct ExServerConfig(rustls::ServerConfig);

#[verifier::external_type_specification]
#[verifier::external_body]
pub struct ExRustlsError(rustls::Error);

/// Whether rustls can parse and use a private key given as these DER bytes.
/// The check is a function of the key bytes alone.
pub uninterp spec fn key_der_supported(key: Seq<u8>) -> bool;

/// Relies on rustls's `ServerConfig` builder: `with_single_cert` succeeds
/// exactly when `sign::any_supported_type` parses the private-key DER — a
/// deterministic function of the key bytes alone, the chain is not examined —
/// and the ALPN protocol list is stored as given.
#[verifier::external_body]
fn build_single_cert_config(key: TlsKey, alpn: Vec<Vec<u8>>) -> (r: Result<
    rustls::ServerConfig,
    rustls::Error,
>)
    ensures
        r is Ok <==> key_der_supported(key@.private_key),
{
    let chain = key.cert_chain.into_iter().map(rustls::Certificate).collect();
    let mut config = rustls::ServerConfig::builder()
        .with_safe_defaults()
        .with_no_client_auth()
        .with_single_cert(chain, rustls::PrivateKey(key.private_key))?;
    config.alpn_protocols = alpn;
    Ok(config)
}

/// Why the provider could not hand the engine a configuration. At the
/// handshake boundary the embedding application flattens both variants to the
/// engine's single generic invalid-data error.
#[derive(Clone, Copy, Debug, PartialEq, Eq, Structural)]
pub enum ProviderError {
    /// The hostname's resolution failed or its broadcast was abandoned.
    ResolutionFailed,
    /// The resolved key material was rejected by the TLS engine.
    InvalidKeyMaterial,
}

/// The worker's reply for one connection: from the outcome that `resolve`
/// produced for the connection's hostname, build the engine's server
/// configuration carrying the resolved certificate chain, private key and
/// the fixed ALPN protocol list, or say exactly why not.
pub fn server_config_for(res: Result<TlsKey, ResolveError>, alpn: Vec<Vec<u8>>) -> (r: Result<
    rustls::ServerConfig,
    ProviderError,
>)
    ensures
        res matches Ok(k) ==> (r is Ok <==> key_der_supported(k@.private_key)),
        res matches Ok(k) && !key_der_supported(k@.private_key) ==> r == Err::<
            rustls::ServerConfig,
            ProviderError,
        >(ProviderError::InvalidKeyMaterial),
        res is Err ==> r == Err::<rustls::ServerConfig, ProviderError>(
            ProviderError::ResolutionFailed,
        ),
{
    match res {
        Ok(key) => match build_single_cert_config(key, alpn) {
            Ok(config) => Ok(config),
            Err(_) => Err(ProviderError::InvalidKeyMaterial),
        },
        Err(_) => Err(ProviderError::ResolutionFailed),
    }
}

/// The hostname a connection resolves for: the SNI the ClientHello offered,
/// or the empty string when the client offered none.
pub fn sni_hostname(server_name: Option<String>) -> (s: String)
    ensures
        server_name matches Some(n) ==> s@ == n@,
        server_name is None ==> s@ == Seq::<char>::empty(),
{
    match server_name {
        Some(n) => n,
        None => String::new(),
    }
}

} // verus!
