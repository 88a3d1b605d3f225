use bombon::hash::{Algorithm, HashError, SriHash};

const EMPTY_SHA256: &str = "sha256-47DEQpj8HBSa+/TImW+5JCeuQeRkm5NMpJWZG3hSuFU=";
const EMPTY_SHA256_HEX: &str = "e3b0c44298fc1c149afbf4c8996fb92427ae41e4649b934ca495991b7852b855";

#[test]
fn algorithm_names() {
    assert_eq!(Algorithm::from_str("md5"), Ok(Algorithm::Md5));
    assert_eq!(Algorithm::from_str("sha1"), Ok(Algorithm::Sha1));
    assert_eq!(Algorithm::from_str("sha256"), Ok(Algorithm::Sha256));
    assert_eq!(Algorithm::from_str("sha512"), Ok(Algorithm::Sha512));
    assert_eq!(Algorithm::from_str("SHA256"), Err(HashError::Algorithm));
    assert_eq!(Algorithm::from_str("sha3"), Err(HashError::Algorithm));
    assert_eq!(Algorithm::from_str(""), Err(HashError::Algorithm));
}

#[test]
fn sri_hash_of_empty_input() {
    let h = match SriHash::from_str(EMPTY_SHA256) {
        Ok(h) => h,
        Err(e) => panic!("not parsed: {e:?}"),
    };
    assert_eq!(h.algorithm, Algorithm::Sha256);
    assert_eq!(h.digest.len(), 32);
    assert_eq!(h.digest[0], 0xe3);
    assert_eq!(h.hex_digest(), EMPTY_SHA256_HEX);
}

#[test]
fn sri_hash_md5() {
    let h = match SriHash::from_str("md5-1B2M2Y8AsgTpgAmY7PhCfg==") {
        Ok(h) => h,
        Err(e) => panic!("not parsed: {e:?}"),
    };
    assert_eq!(h.algorithm, Algorithm::Md5);
    assert_eq!(h.hex_digest(), "d41d8cd98f00b204e9800998ecf8427e");
}

#[test]
fn sri_hash_is_trimmed() {
    let text = format!("  {EMPTY_SHA256}\n");
    let h = match SriHash::from_str(&text) {
        Ok(h) => h,
        Err(e) => panic!("not parsed: {e:?}"),
    };
    assert_eq!(h.hex_digest(), EMPTY_SHA256_HEX);
}

#[test]
fn sri_hash_ignores_further_fields() {
    let text = format!("{EMPTY_SHA256}-extra");
    let h = match SriHash::from_str(&text) {
        Ok(h) => h,
        Err(e) => panic!("not parsed: {e:?}"),
    };
    assert_eq!(h.algorithm, Algorithm::Sha256);
    assert_eq!(h.hex_digest(), EMPTY_SHA256_HEX);
}

#[test]
fn sri_hash_errors() {
    assert!(matches!(SriHash::from_str("sha3-abcd"), Err(HashError::Algorithm)));
    assert!(matches!(SriHash::from_str(""), Err(HashError::Algorithm)));
    assert!(matches!(SriHash::from_str("sha256"), Err(HashError::Digest)));
    assert!(matches!(SriHash::from_str("sha256-!!!"), Err(HashError::Digest)));
    assert!(matches!(
        SriHash::from_str("0ky4q7q8w8ay5wfjc6d7d0w0n3iyhz8phqwyzv3kr7ka7dc4ggj4"),
        Err(HashError::Algorithm)
    ));
}

#[test]
fn hex_digest_of_bytes() {
    let h = SriHash { algorithm: Algorithm::Sha1, digest: vec![0x00, 0x0f, 0xa0, 0xff] };
    assert_eq!(h.hex_digest(), "000fa0ff");
    let empty = SriHash { algorithm: Algorithm::Sha1, digest: vec![] };
    assert_eq!(empty.hex_digest(), "");
}
