//! The provider boundary decisions and the overlay's path dispatch.

use tls_key_resolver::key::TlsKey;
use tls_key_resolver::provider::server_config_for;
use tls_key_resolver::provider::sni_hostname;
use tls_key_resolver::provider::ProviderError;
use tls_key_resolver::resolver::ResolveError;
use tls_key_resolver::vfs::str_starts_with;
use tls_key_resolver::vfs::vfs_specifier_prefix;
use tls_key_resolver::vfs::EszipFileSystem;
use tls_key_resolver::vfs::EszipFileSystemResources;
use tls_key_resolver::vfs::VfsOpError;
use tls_key_resolver::vfs::VfsPath;

fn tls_key_for_test(sni: &str) -> TlsKey {
    TlsKey {
        cert_chain: vec![format!("{sni}-cert").into_bytes()],
        private_key: format!("{sni}-key").into_bytes(),
    }
}

fn path(segments: &[&str]) -> VfsPath {
    VfsPath { segments: segments.iter().map(|s| s.to_string()).collect() }
}

#[test]
fn test_sni_hostname() {
    assert_eq!(sni_hostname(Some("example.com".to_string())), "example.com".to_string());
    assert_eq!(sni_hostname(None), String::new());
}

#[test]
fn test_provider_reply_resolution_failed() {
    let reply = server_config_for(Err(ResolveError), vec![b"h2".to_vec()]);
    match reply {
        Err(err) => assert_eq!(err, ProviderError::ResolutionFailed),
        Ok(_) => panic!("a failed resolution cannot yield a configuration"),
    }
}

#[test]
fn test_provider_reply_rejects_bad_key() {
    // The key bytes are no DER private key: rustls must reject them, so the
    // reply is the flattened key-material error, not a configuration.
    let reply = server_config_for(Ok(tls_key_for_test("example.com")), vec![b"h2".to_vec()]);
    match reply {
        Err(err) => assert_eq!(err, ProviderError::InvalidKeyMaterial),
        Ok(_) => panic!("garbage key bytes cannot yield a configuration"),
    }
}

#[test]
fn test_str_starts_with() {
    assert!(str_starts_with("internal://npm_vfs/a.js", vfs_specifier_prefix()));
    assert!(str_starts_with("abc", "ab"));
    assert!(str_starts_with("abc", ""));
    assert!(str_starts_with("abc", "abc"));
    assert!(!str_starts_with("ab", "abc"));
    assert!(!str_starts_with("file:///x", vfs_specifier_prefix()));
}

#[test]
fn test_load_selects_vfs_specifiers() {
    let loaded = EszipFileSystemResources::load(vec![
        "internal://npm_vfs/a.js".to_string(),
        "file:///main.ts".to_string(),
        "internal://npm_vfs/b/c.js".to_string(),
        "https://example.com/mod.ts".to_string(),
    ]);
    // Only the two overlay specifiers are kept, in bundle order.
    assert_eq!(
        loaded.specifiers(),
        &vec!["internal://npm_vfs/a.js".to_string(), "internal://npm_vfs/b/c.js".to_string()]
    );

    let empty = EszipFileSystemResources::load(vec![]);
    assert!(empty.specifiers().is_empty());
}

#[test]
fn test_path_dispatch() {
    let fs = EszipFileSystem::new(
        EszipFileSystemResources::load(vec!["internal://npm_vfs/a.js".to_string()]),
        path(&["opt", "vfs"]),
    );

    assert!(fs.is_path_within(&path(&["opt", "vfs"])));
    assert!(fs.is_path_within(&path(&["opt", "vfs", "pkg", "index.js"])));
    assert!(!fs.is_path_within(&path(&["opt", "vfsx", "pkg"])));
    assert!(!fs.is_path_within(&path(&["opt"])));
    assert!(!fs.is_path_within(&path(&["usr", "lib"])));

    assert_eq!(fs.error_if_in_vfs(&path(&["opt", "vfs", "pkg"])), Err(VfsOpError::NotSupported));
    assert_eq!(fs.error_if_in_vfs(&path(&["usr", "lib"])), Ok(()));
}

// A private key rustls accepts: an RSA key in PKCS1 DER form.
fn rsa_test_key_der() -> Vec<u8> {
    vec![
        48, 130, 4, 162, 2, 1, 0, 2, 130, 1, 1, 0, 192, 249, 215, 208,
        129, 78, 212, 90, 99, 41, 47, 160, 216, 21, 233, 239, 28, 41, 118, 242,
        251, 191, 79, 212, 28, 226, 39, 134, 170, 135, 8, 17, 233, 232, 237, 104,
        88, 57, 22, 139, 165, 80, 192, 122, 116, 54, 232, 138, 119, 124, 179, 30,
        120, 171, 128, 161, 147, 6, 235, 186, 33, 53, 183, 75, 87, 209, 239, 12,
        110, 246, 66, 140, 56, 189, 90, 203, 17, 231, 200, 251, 165, 155, 246, 42,
        44, 183, 96, 52, 145, 122, 126, 113, 201, 65, 165, 180, 209, 45, 131, 173,
        113, 195, 71, 196, 16, 199, 193, 0, 15, 44, 60, 24, 225, 123, 228, 203,
        29, 193, 7, 115, 220, 141, 81, 93, 69, 64, 176, 64, 26, 57, 138, 66,
        85, 135, 38, 158, 86, 33, 77, 90, 28, 92, 62, 39, 123, 6, 2, 177,
        108, 193, 9, 152, 217, 222, 107, 4, 174, 176, 26, 198, 82, 146, 241, 104,
        158, 243, 69, 54, 232, 250, 146, 202, 136, 139, 159, 93, 82, 120, 216, 189,
        8, 28, 224, 151, 138, 243, 106, 37, 234, 41, 185, 233, 47, 140, 47, 94,
        231, 173, 71, 219, 198, 123, 116, 189, 140, 34, 55, 83, 35, 1, 63, 64,
        59, 156, 57, 161, 108, 58, 253, 133, 12, 165, 15, 56, 111, 54, 113, 252,
        33, 75, 161, 138, 135, 205, 41, 226, 169, 215, 152, 129, 251, 100, 174, 157,
        234, 63, 161, 90, 32, 21, 217, 13, 35, 14, 248, 243, 2, 3, 1, 0,
        1, 2, 130, 1, 0, 10, 243, 98, 154, 211, 107, 172, 195, 64, 83, 74,
        255, 158, 163, 135, 181, 232, 236, 53, 114, 206, 116, 105, 204, 72, 163, 80,
        200, 228, 142, 107, 23, 209, 37, 69, 171, 161, 46, 4, 40, 130, 134, 21,
        150, 29, 88, 44, 84, 7, 57, 205, 84, 82, 86, 177, 34, 250, 27, 239,
        110, 141, 137, 229, 207, 225, 184, 233, 14, 212, 145, 38, 239, 156, 28, 170,
        181, 81, 91, 204, 220, 242, 229, 233, 207, 52, 224, 103, 22, 52, 151, 53,
        235, 177, 23, 7, 151, 62, 51, 142, 0, 94, 175, 77, 56, 68, 23, 129,
        205, 70, 15, 37, 141, 231, 229, 198, 242, 251, 202, 67, 105, 0, 192, 8,
        56, 249, 192, 21, 0, 68, 244, 131, 42, 222, 185, 85, 172, 94, 120, 242,
        179, 151, 85, 158, 86, 209, 45, 73, 253, 170, 253, 58, 135, 112, 62, 135,
        57, 101, 74, 221, 100, 251, 99, 178, 252, 83, 63, 68, 62, 70, 217, 88,
        200, 163, 76, 180, 51, 254, 146, 231, 171, 112, 81, 70, 113, 82, 15, 53,
        180, 77, 219, 160, 250, 223, 70, 118, 169, 170, 0, 159, 183, 126, 93, 79,
        225, 70, 158, 120, 166, 28, 182, 255, 62, 94, 155, 11, 149, 152, 32, 82,
        102, 196, 194, 47, 137, 146, 251, 179, 40, 3, 84, 236, 181, 118, 209, 21,
        69, 53, 51, 112, 203, 134, 71, 81, 154, 194, 249, 5, 122, 18, 104, 24,
        78, 95, 52, 46, 57, 2, 129, 129, 0, 237, 149, 63, 6, 165, 183, 147,
        176, 220, 224, 111, 115, 131, 162, 3, 228, 5, 218, 229, 140, 0, 13, 93,
        121, 179, 254, 224, 137, 249, 67, 143, 181, 117, 108, 0, 74, 136, 204, 162,
        183, 85, 219, 101, 118, 19, 59, 1, 158, 148, 132, 104, 105, 88, 218, 143,
        37, 18, 115, 128, 249, 250, 160, 37, 14, 155, 175, 60, 168, 43, 189, 223,
        210, 8, 236, 239, 79, 9, 59, 159, 200, 111, 187, 223, 235, 156, 208, 233,
        21, 29, 92, 23, 169, 69, 68, 70, 27, 98, 22, 221, 25, 194, 225, 224,
        16, 67, 163, 207, 73, 180, 73, 244, 97, 35, 54, 132, 49, 113, 27, 8,
        156, 134, 242, 150, 99, 236, 27, 1, 15, 2, 129, 129, 0, 207, 239, 98,
        156, 104, 141, 65, 255, 74, 196, 119, 252, 159, 29, 95, 156, 126, 221, 239,
        254, 48, 139, 235, 33, 23, 72, 70, 209, 174, 116, 34, 255, 48, 30, 255,
        251, 255, 48, 25, 175, 51, 225, 11, 48, 62, 180, 100, 179, 119, 227, 19,
        78, 98, 152, 132, 88, 53, 177, 72, 68, 103, 10, 115, 252, 21, 64, 72,
        68, 143, 8, 211, 123, 133, 49, 147, 128, 166, 76, 185, 200, 37, 65, 97,
        253, 106, 115, 84, 91, 222, 31, 162, 206, 105, 230, 254, 175, 39, 84, 182,
        144, 142, 242, 82, 177, 182, 47, 68, 140, 207, 201, 100, 11, 110, 117, 160,
        14, 244, 95, 178, 16, 212, 30, 82, 241, 99, 98, 1, 221, 2, 129, 128,
        24, 150, 236, 218, 4, 70, 214, 203, 100, 96, 250, 72, 11, 100, 182, 96,
        96, 86, 194, 145, 85, 228, 12, 59, 175, 108, 126, 210, 232, 240, 156, 44,
        28, 198, 27, 213, 155, 9, 11, 2, 76, 169, 147, 123, 192, 11, 200, 100,
        32, 92, 255, 237, 127, 91, 199, 154, 255, 168, 226, 189, 124, 186, 28, 123,
        193, 147, 70, 132, 229, 90, 22, 147, 71, 135, 54, 81, 136, 212, 25, 250,
        133, 205, 253, 36, 6, 171, 252, 163, 201, 209, 33, 69, 204, 188, 127, 65,
        16, 74, 235, 129, 98, 17, 60, 190, 146, 49, 159, 31, 178, 192, 64, 193,
        217, 2, 40, 118, 113, 141, 105, 187, 193, 159, 211, 254, 237, 141, 241, 243,
        2, 129, 128, 20, 66, 237, 70, 244, 97, 31, 87, 50, 255, 229, 249, 53,
        191, 244, 251, 24, 217, 163, 115, 15, 99, 242, 235, 108, 139, 92, 107, 62,
        38, 142, 234, 114, 211, 242, 121, 169, 170, 20, 54, 160, 69, 131, 131, 149,
        248, 153, 255, 106, 229, 51, 146, 101, 197, 26, 208, 69, 155, 26, 193, 159,
        144, 195, 48, 131, 25, 154, 113, 35, 198, 230, 100, 152, 219, 245, 213, 137,
        94, 220, 147, 134, 29, 210, 224, 144, 168, 224, 69, 123, 101, 117, 197, 203,
        71, 248, 245, 52, 77, 234, 228, 55, 41, 161, 169, 51, 105, 115, 178, 140,
        228, 192, 220, 228, 76, 141, 230, 39, 37, 212, 2, 19, 201, 72, 167, 192,
        217, 97, 249, 2, 129, 128, 94, 75, 29, 128, 36, 144, 111, 164, 193, 159,
        30, 151, 222, 253, 42, 2, 40, 147, 252, 71, 107, 176, 31, 184, 169, 56,
        89, 178, 111, 178, 146, 231, 101, 51, 228, 121, 79, 182, 30, 230, 188, 231,
        207, 44, 22, 125, 228, 174, 143, 144, 2, 88, 239, 221, 154, 0, 33, 55,
        22, 24, 69, 26, 170, 37, 20, 25, 230, 140, 1, 238, 72, 31, 9, 29,
        119, 180, 121, 6, 217, 99, 82, 195, 84, 171, 20, 171, 129, 210, 57, 118,
        60, 218, 100, 106, 156, 110, 170, 11, 104, 158, 192, 20, 135, 7, 50, 25,
        167, 79, 222, 224, 207, 82, 201, 119, 50, 194, 226, 115, 137, 2, 122, 97,
        221, 34, 28, 26, 103, 251,
    ]
}

#[test]
fn test_provider_builds_config_for_valid_key() {
    // The chain is not examined when the configuration is built; the key DER
    // must parse. A configuration comes back, not an error.
    let key = TlsKey {
        cert_chain: vec![b"placeholder-cert".to_vec()],
        private_key: rsa_test_key_der(),
    };
    let reply = server_config_for(Ok(key), vec![b"h2".to_vec()]);
    assert!(reply.is_ok());
}
