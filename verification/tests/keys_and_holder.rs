//! The key selector, its conversions, and the one-shot holder.

use tls_key_resolver::key::TlsKey;
use tls_key_resolver::keys::TlsKeys;
use tls_key_resolver::keys::TlsKeysHolder;
use tls_key_resolver::resolver::new_resolver;

fn tls_key_for_test(sni: &str) -> TlsKey {
    TlsKey {
        cert_chain: vec![format!("{sni}-cert").into_bytes()],
        private_key: format!("{sni}-key").into_bytes(),
    }
}

#[test]
fn test_default_is_null() {
    assert!(matches!(TlsKeys::default(), TlsKeys::Null));
}

#[test]
fn test_try_into_static() {
    assert!(matches!(TlsKeys::Null.try_into_static(), Ok(None)));

    let key = tls_key_for_test("example.com");
    match TlsKeys::Static(key.clone()).try_into_static() {
        Ok(Some(got)) => assert_eq!(key, got),
        _ => panic!("a static selector downgrades to its key"),
    }

    let (resolver, _lookup) = new_resolver();
    match TlsKeys::Resolver(resolver).try_into_static() {
        Err(TlsKeys::Resolver(_)) => {},
        _ => panic!("a resolver selector cannot be downgraded and comes back unchanged"),
    }
}

#[test]
fn test_from_option() {
    assert!(matches!(TlsKeys::from(None), TlsKeys::Null));
    let key = tls_key_for_test("example.com");
    match TlsKeys::from(Some(key.clone())) {
        TlsKeys::Static(got) => assert_eq!(key, got),
        _ => panic!("a present key becomes a static selector"),
    }
}

#[test]
fn test_holder_take_once() {
    let key = tls_key_for_test("example.com");
    let mut holder = TlsKeysHolder::from(TlsKeys::Static(key.clone()));

    // The first take transfers the selector.
    match holder.take() {
        TlsKeys::Static(got) => assert_eq!(key, got),
        _ => panic!("the first take hands the held selector out"),
    }

    // A second take observes the default, not an error.
    assert!(matches!(holder.take(), TlsKeys::Null));
}

#[test]
fn test_key_equality() {
    let a = tls_key_for_test("example.com");
    let b = tls_key_for_test("example.com");
    let c = tls_key_for_test("other.example");
    assert_eq!(a, b);
    assert_ne!(a, c);
    assert_eq!(a.clone(), b);
}
