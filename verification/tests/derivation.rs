use bombon::derivation::{Derivation, License, LicenseField, LicenseList};

fn check_derivation_from_store(store_path: &str, name: Option<&str>, version: Option<&str>) {
    let derivation = Derivation::from_store_path(store_path);
    assert_eq!(derivation.name, name.map(std::string::ToString::to_string));
    assert_eq!(
        derivation.version,
        version.map(std::string::ToString::to_string)
    );
}

#[test]
fn derivation_from_store() {
    check_derivation_from_store(
        "/nix/store/bqwmxjkrkmn1kqivq4pr053j68biq4k4-mailcap-2.1.54",
        Some("mailcap"),
        Some("2.1.54"),
    );
    check_derivation_from_store(
        "/nix/store/bqwmxjkrkmn1kqivq4pr053j68biq4k4-mailcap-extra-2.1.54",
        Some("mailcap-extra"),
        Some("2.1.54"),
    );
    check_derivation_from_store(
        "/nix/store/lcxn67gbjdcr6bjf1rcs03ywa7gcslr2-system-units",
        Some("system-units"),
        None,
    );
    check_derivation_from_store(
        "/nix/store/13cll4sxzxxi2lxbpsg5nvfjyv7qsznr-groupdel.pam",
        Some("groupdel.pam"),
        None,
    );
}

#[test]
fn store_path_outside_the_store_tells_nothing() {
    let d = Derivation::from_store_path("/tmp/foo-1.0");
    assert_eq!(d.path, "/tmp/foo-1.0");
    assert_eq!(d.name, None);
    assert_eq!(d.version, None);
    assert!(d.patches.is_empty());
}

#[test]
fn store_path_without_dash() {
    let d = Derivation::from_store_path("/nix/store/abc");
    assert_eq!(d.name.as_deref(), Some("abc"));
    assert_eq!(d.version, None);
    let d = Derivation::from_store_path("/nix/store/123");
    assert_eq!(d.name.as_deref(), Some(""));
    assert_eq!(d.version.as_deref(), Some("123"));
}

#[test]
fn store_path_with_hash_and_version_only() {
    let d = Derivation::from_store_path("/nix/store/hash-1.0");
    assert_eq!(d.name.as_deref(), Some(""));
    assert_eq!(d.version.as_deref(), Some("1.0"));
    let d = Derivation::from_store_path("/nix/store/hash-foo");
    assert_eq!(d.name.as_deref(), Some("foo"));
    assert_eq!(d.version, None);
}

#[test]
fn store_path_version_needs_a_digit_first() {
    let d = Derivation::from_store_path("/nix/store/hash-foo-v1.2");
    assert_eq!(d.name.as_deref(), Some("foo-v1.2"));
    assert_eq!(d.version, None);
    let d = Derivation::from_store_path("/nix/store/hash-foo-");
    assert_eq!(d.name.as_deref(), Some("foo-"));
    assert_eq!(d.version, None);
}

fn license(full: &str, id: Option<&str>) -> License {
    License { full_name: full.to_string(), spdx_id: id.map(|s| s.to_string()) }
}

#[test]
fn license_field_into_vec() {
    let list = LicenseField::LicenseList(LicenseList(vec![license("MIT License", Some("MIT")), license("Other", None)]));
    let v = list.into_vec();
    assert_eq!(v.len(), 2);
    assert_eq!(v[0].spdx_id.as_deref(), Some("MIT"));
    assert_eq!(v[1].full_name, "Other");

    let single = LicenseField::License(license("GPL", Some("GPL-3.0-only")));
    let v = single.into_vec();
    assert_eq!(v.len(), 1);
    assert_eq!(v[0].full_name, "GPL");

    let text = LicenseField::String("unfree".to_string());
    assert!(text.into_vec().is_empty());
}

#[test]
fn duplicate_keeps_every_field() {
    let mut d = Derivation::from_store_path("/nix/store/hash-foo-1.0");
    d.patches = vec!["a.patch".to_string()];
    d.build_references = vec!["/nix/store/x".to_string()];
    let e = d.duplicate();
    assert_eq!(e.path, d.path);
    assert_eq!(e.name, d.name);
    assert_eq!(e.version, d.version);
    assert_eq!(e.patches, d.patches);
    assert_eq!(e.build_references, d.build_references);
}
