use certified_assets::store::{CertifiedAssets, Headers, StoreError};

use base64::Engine;
use ic_certified_map::AsHashTree;
use sha2::Digest;

fn paths(ps: &[&str]) -> Vec<Vec<u8>> {
    ps.iter().map(|p| p.as_bytes().to_vec()).collect()
}

fn sha(bytes: &[u8]) -> Vec<u8> {
    sha2::Sha256::digest(bytes).to_vec()
}

/// Extracts and decodes the witness bytes out of a certificate header
/// value of the form `certificate=:..:, tree=:..:`.
fn witness_bytes(header_value: &str) -> Vec<u8> {
    let marker = "tree=:";
    let start = header_value.find(marker).expect("no tree field") + marker.len();
    let rest = &header_value[start..];
    let end = rest.find(':').expect("unterminated tree field");
    base64::engine::general_purpose::STANDARD
        .decode(&rest[..end])
        .expect("invalid base64")
}

/// Reconstructs the root digest from serialized witness bytes with an
/// independent implementation.
fn independent_root(witness: &[u8]) -> [u8; 32] {
    // strip the self-describing tag
    assert_eq!(&witness[..3], &[0xd9, 0xd9, 0xf7]);
    let tree: ic_certified_map::HashTree = serde_cbor::from_slice(&witness[3..]).expect("bad cbor");
    tree.reconstruct()
}

#[test]
fn empty_store_has_no_assets() {
    let s = CertifiedAssets::new();
    assert!(s.asset("/a").is_none());
}

#[test]
fn add_and_read_back_aliases() {
    let mut s = CertifiedAssets::new();
    s.add_asset(&paths(&["/a", "/b"]), Vec::new(), b"x".to_vec());
    let digest = s.certify();
    assert_eq!(digest.len(), 32);
    let (ha, ba) = s.asset("/a").expect("missing /a");
    let (hb, bb) = s.asset("/b").expect("missing /b");
    assert_eq!(ba, b"x".to_vec());
    assert_eq!(bb, b"x".to_vec());
    assert!(ha.is_empty());
    assert!(hb.is_empty());
    // both aliases committed under the same hash
    assert_eq!(s.tree.get(&b"/a".to_vec()), Some(&sha(b"x")));
    assert_eq!(s.tree.get(&b"/b".to_vec()), Some(&sha(b"x")));
}

#[test]
fn committed_hash_matches_content() {
    let mut s = CertifiedAssets::new();
    s.add_asset(&paths(&["/doc"]), Vec::new(), b"abc".to_vec());
    let expected: [u8; 32] = [
        0xba, 0x78, 0x16, 0xbf, 0x8f, 0x01, 0xcf, 0xea, 0x41, 0x41, 0x40, 0xde, 0x5d, 0xae, 0x22,
        0x23, 0xb0, 0x03, 0x61, 0xa3, 0x96, 0x17, 0x7a, 0x9c, 0xb4, 0x10, 0xff, 0x61, 0xf2, 0x00,
        0x15, 0xad,
    ];
    assert_eq!(s.tree.get(&b"/doc".to_vec()).expect("not committed").as_slice(), &expected);
    let (_, bytes) = s.asset("/doc").unwrap();
    assert_eq!(sha(&bytes), expected.to_vec());
}

#[test]
fn root_hash_is_insertion_order_independent() {
    let mut a = CertifiedAssets::new();
    let mut b = CertifiedAssets::new();
    for p in ["/one", "/two", "/three", "/four"] {
        a.add_asset(&paths(&[p]), Vec::new(), p.as_bytes().to_vec());
    }
    for p in ["/three", "/one", "/four", "/two"] {
        b.add_asset(&paths(&[p]), Vec::new(), p.as_bytes().to_vec());
    }
    assert_eq!(a.root_hash(), b.root_hash());
}

#[test]
fn root_hash_matches_reference_tree_for_single_entry() {
    let mut s = CertifiedAssets::new();
    s.add_asset(&paths(&["/a"]), Vec::new(), b"x".to_vec());
    let mut rb: ic_certified_map::RbTree<Vec<u8>, ic_certified_map::Hash> =
        ic_certified_map::RbTree::new();
    let mut h: [u8; 32] = [0; 32];
    h.copy_from_slice(&sha(b"x"));
    rb.insert(b"/a".to_vec(), h);
    let expected = ic_certified_map::labeled_hash(b"http_assets", &rb.root_hash());
    assert_eq!(s.root_hash(), expected.to_vec());
}

#[test]
fn overwrite_same_bytes_keeps_state_overwrite_new_bytes_changes_root() {
    let mut s = CertifiedAssets::new();
    s.add_asset(&paths(&["/a"]), Vec::new(), b"x".to_vec());
    let r1 = s.root_hash();
    s.add_asset(&paths(&["/a"]), Vec::new(), b"x".to_vec());
    assert_eq!(s.root_hash(), r1);
    assert_eq!(s.asset("/a").unwrap().1, b"x".to_vec());
    s.add_asset(&paths(&["/a"]), Vec::new(), b"y".to_vec());
    assert_ne!(s.root_hash(), r1);
    assert_eq!(s.asset("/a").unwrap().1, b"y".to_vec());
}

#[test]
fn certificate_header_fails_before_any_certificate() {
    let mut s = CertifiedAssets::new();
    s.add_asset(&paths(&["/a"]), Vec::new(), b"x".to_vec());
    s.certify();
    assert_eq!(s.certificate_header("/a"), Err(StoreError::NoCertificate));
    assert_eq!(s.certificate_header("/missing"), Err(StoreError::NoCertificate));
    assert_eq!(s.asset_certified("/a"), Err(StoreError::NoCertificate));
    // an unregistered path is a normal empty result, not an error
    assert_eq!(s.asset_certified("/missing"), Ok(None));
}

#[test]
fn witnesses_verify_against_root_hash() {
    let mut s = CertifiedAssets::new();
    s.add_asset(&paths(&["/a", "/b"]), Vec::new(), b"x".to_vec());
    let other = b"content-that-must-stay-private".to_vec();
    s.add_asset(&paths(&["/c"]), Vec::new(), other.clone());
    let root = s.certify();
    s.set_certificate(b"opaque-platform-certificate".to_vec());
    for p in ["/a", "/b", "/c"] {
        let (name, value) = s.certificate_header(p).expect("no header");
        assert_eq!(name, "IC-Certificate");
        let w = witness_bytes(&value);
        assert_eq!(independent_root(&w).to_vec(), root);
        if p != "/c" {
            // another path's content is pruned away, never serialized
            assert!(!w.windows(other.len()).any(|win| win == other.as_slice()));
        }
    }
}

#[test]
fn certificate_header_carries_the_certificate() {
    let mut s = CertifiedAssets::new();
    s.add_asset(&paths(&["/a"]), Vec::new(), b"x".to_vec());
    s.set_certificate(b"hello".to_vec());
    let (_, value) = s.certificate_header("/a").unwrap();
    assert!(value.starts_with("certificate=:aGVsbG8=:, tree=:"));
    assert!(value.ends_with(':'));
}

#[test]
fn certified_asset_appends_header() {
    let mut s = CertifiedAssets::new();
    let mut headers: Headers = Vec::new();
    headers.push(("X-Test".to_string(), "1".to_string()));
    s.add_asset(&paths(&["/a"]), headers, b"x".to_vec());
    s.set_certificate(b"cert".to_vec());
    let (hs, bytes) = s.asset_certified("/a").unwrap().unwrap();
    assert_eq!(bytes, b"x".to_vec());
    assert_eq!(hs.len(), 2);
    assert_eq!(hs[0], ("X-Test".to_string(), "1".to_string()));
    assert_eq!(hs[1].0, "IC-Certificate");
    let (_, value) = s.certificate_header("/a").unwrap();
    assert_eq!(hs[1].1, value);
}

#[test]
fn load_requires_an_unowned_domain() {
    let mut s = CertifiedAssets::new();
    let resources = vec![("index.html".to_string(), b"<html></html>".to_vec())];
    let owned = vec![("a.com".to_string(), true), ("b.org".to_string(), true)];
    assert_eq!(
        s.load(&resources, &owned, "rrkah-fqaaa-aaaaa-aaaaq-cai"),
        Err(StoreError::NoUnownedDomain)
    );
    assert!(s.asset("/").is_none());

    let mixed = vec![("a.com".to_string(), true), ("b.org".to_string(), false)];
    let digest = s.load(&resources, &mixed, "rrkah-fqaaa-aaaaa-aaaaq-cai").expect("load failed");
    assert_eq!(digest, s.root_hash());
    assert_eq!(s.asset("/").unwrap().1, b"<html></html>".to_vec());
    assert_eq!(s.asset("/index.html").unwrap().1, b"<html></html>".to_vec());
    assert_eq!(
        s.asset("/.well-known/ic-domains").unwrap().1,
        b"a.com\nb.org".to_vec()
    );
    let expected_json = "{\"alternativeOrigins\": [ \"https://rrkah-fqaaa-aaaaa-aaaaq-cai.ic0.app\",\"https://rrkah-fqaaa-aaaaa-aaaaq-cai.icp0.io\" ]}";
    assert_eq!(
        s.asset("/.well-known/ii-alternative-origins").unwrap().1,
        expected_json.as_bytes().to_vec()
    );
}

#[test]
fn load_classifies_resources() {
    let mut s = CertifiedAssets::new();
    let resources = vec![
        ("index.html".to_string(), b"<html></html>".to_vec()),
        ("main.js".to_string(), b"js".to_vec()),
        ("style.css".to_string(), b"css".to_vec()),
    ];
    let domains = vec![("a.com".to_string(), false)];
    s.load(&resources, &domains, "id").unwrap();
    let (h, _) = s.asset("/").unwrap();
    assert_eq!(h, vec![("Content-Type".to_string(), "text/html; charset=UTF-8".to_string())]);
    let (h, _) = s.asset("/main.js").unwrap();
    assert_eq!(h, vec![("Content-Type".to_string(), "application/javascript".to_string())]);
    let (h, _) = s.asset("/style.css").unwrap();
    assert_eq!(h, vec![("Content-Type".to_string(), "text/css".to_string())]);
}

#[test]
fn export_token_supply_scales_by_base_unit() {
    let mut s = CertifiedAssets::new();
    let digest = s.export_token_supply(1_000_000, 100_000_000, 100);
    assert_eq!(digest, s.root_hash());
    assert_eq!(s.asset("/api/v1/total_supply").unwrap().1, b"10000".to_vec());
    assert_eq!(s.asset("/api/v1/maximum_supply").unwrap().1, b"1000000".to_vec());
    let (h, _) = s.asset("/api/v1/total_supply").unwrap();
    assert_eq!(h, vec![("Content-Type".to_string(), "application/json".to_string())]);
}

#[test]
fn export_token_supply_renders_fractions() {
    let mut s = CertifiedAssets::new();
    s.export_token_supply(1_000_050, 0, 100);
    assert_eq!(s.asset("/api/v1/total_supply").unwrap().1, b"10000.5".to_vec());
    assert_eq!(s.asset("/api/v1/maximum_supply").unwrap().1, b"0".to_vec());
}

#[test]
fn add_value_to_certify_commits_bare_values() {
    let mut s = CertifiedAssets::new();
    let h = sha(b"some value");
    s.add_value_to_certify("events", &h);
    assert_eq!(s.tree.get(&b"events".to_vec()), Some(&h));
    assert!(s.asset("events").is_none());
}
