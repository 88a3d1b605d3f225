use bombon::component::{
    convert_hash, convert_homepage, convert_license, convert_licenses, convert_src, cpes_to_evidence,
    sources_are_valid,
};
use bombon::cyclonedx::{
    ComponentBody, CycloneDXComponent, CycloneDXComponents, ExternalReferenceType, HashAlgorithm, LicenseChoice,
    Scope,
};
use bombon::derivation::{Cpe, Derivation, Identifiers, License, LicenseField, LicenseList, Meta, Src};

const EMPTY_SHA256: &str = "sha256-47DEQpj8HBSa+/TImW+5JCeuQeRkm5NMpJWZG3hSuFU=";
const EMPTY_SHA256_HEX: &str = "e3b0c44298fc1c149afbf4c8996fb92427ae41e4649b934ca495991b7852b855";

fn drv(path: &str, name: Option<&str>, pname: Option<&str>, version: Option<&str>) -> Derivation {
    Derivation {
        path: path.to_string(),
        name: name.map(|s| s.to_string()),
        pname: pname.map(|s| s.to_string()),
        version: version.map(|s| s.to_string()),
        meta: None,
        output_name: None,
        output_hash: None,
        src: None,
        vendored_sbom: None,
        patches: vec![],
        build_references: vec![],
    }
}

fn license(full_name: &str, spdx_id: Option<&str>) -> License {
    License { full_name: full_name.to_string(), spdx_id: spdx_id.map(|s| s.to_string()) }
}

fn meta(license: Option<LicenseField>) -> Meta {
    Meta { license, homepage: None, description: None, identifiers: None }
}

fn nix(c: &CycloneDXComponent) -> &bombon::cyclonedx::NixComponent {
    match &c.body {
        ComponentBody::Nix(n) => n,
        ComponentBody::Vendored(_) => panic!("not a Nix component"),
    }
}

#[test]
fn hash_conversion() {
    let hs = match convert_hash(EMPTY_SHA256) {
        Some(hs) => hs,
        None => panic!("not converted"),
    };
    assert_eq!(hs.len(), 1);
    assert_eq!(hs[0].alg, HashAlgorithm::Sha256);
    assert_eq!(hs[0].content, EMPTY_SHA256_HEX);
    assert!(convert_hash("0ky4q7q8w8ay5wfjc6d7d0w0n3iyhz8phqwyzv3kr7ka7dc4ggj4").is_none());
    assert!(convert_hash("sha256-!!").is_none());
}

#[test]
fn license_conversion() {
    assert!(matches!(convert_license(&license("MIT License", Some("MIT"))), LicenseChoice::SpdxId(s) if s == "MIT"));
    assert!(matches!(convert_license(&license("Custom", None)), LicenseChoice::Named(s) if s == "Custom"));

    let list = meta(Some(LicenseField::LicenseList(LicenseList(vec![
        license("GPL", Some("GPL-3.0-only")),
        license("Other", None),
    ]))));
    let v = match convert_licenses(&list) {
        Some(v) => v,
        None => panic!("no licenses"),
    };
    assert_eq!(v.len(), 2);
    assert!(matches!(&v[0], LicenseChoice::SpdxId(s) if s == "GPL-3.0-only"));
    assert!(matches!(&v[1], LicenseChoice::Named(s) if s == "Other"));

    let single = meta(Some(LicenseField::License(license("BSD", Some("BSD-3-Clause")))));
    let v = match convert_licenses(&single) {
        Some(v) => v,
        None => panic!("no licenses"),
    };
    assert_eq!(v.len(), 1);
    assert!(matches!(&v[0], LicenseChoice::Expression(s) if s == "BSD-3-Clause"));

    let compound = meta(Some(LicenseField::License(license("MIT OR Apache-2.0", None))));
    let v = match convert_licenses(&compound) {
        Some(v) => v,
        None => panic!("no licenses"),
    };
    assert!(matches!(v.as_slice(), [LicenseChoice::Expression(s)] if s == "MIT OR Apache-2.0"));

    assert!(convert_licenses(&meta(Some(LicenseField::String("unfree".to_string())))).is_none());
    assert!(convert_licenses(&meta(None)).is_none());
    let empty = convert_licenses(&meta(Some(LicenseField::LicenseList(LicenseList(vec![])))));
    assert!(matches!(empty, Some(v) if v.is_empty()));
}

#[test]
fn evidence_from_possible_cpes() {
    assert!(cpes_to_evidence(&vec![]).is_none());
    let e = match cpes_to_evidence(&vec![Cpe { cpe: Some("cpe:a".to_string()) }, Cpe { cpe: None }]) {
        Some(e) => e,
        None => panic!("no evidence"),
    };
    let methods: Vec<(&str, Option<&str>)> = e.iter().map(|m| (m.technique.as_str(), m.value.as_deref())).collect();
    assert_eq!(methods, vec![("manifest-analysis", Some("cpe:a")), ("manifest-analysis", None)]);
}

#[test]
fn source_and_homepage_references() {
    let src = Src { urls: vec!["https://a".to_string(), "https://b".to_string()], hash: Some(EMPTY_SHA256.to_string()) };
    let refs = convert_src(&src);
    assert_eq!(refs.len(), 2);
    assert_eq!(refs[0].reference_type, ExternalReferenceType::Vcs);
    assert_eq!(refs[1].url, "https://b");
    let hs = refs[1].hashes.as_ref().map(|v| v[0].content.clone());
    assert_eq!(hs.as_deref(), Some(EMPTY_SHA256_HEX));
    let no_hash = convert_src(&Src { urls: vec!["u".to_string()], hash: None });
    assert!(no_hash[0].hashes.is_none());

    let h = convert_homepage("https://example.org");
    assert_eq!(h.reference_type, ExternalReferenceType::Website);
    assert_eq!(h.url, "https://example.org");
    assert!(h.hashes.is_none());
}

#[test]
fn component_from_full_derivation() {
    let mut d = drv("/nix/store/abc-hello-2.12", Some("hello-2.12"), Some("hello"), Some("2.12"));
    d.output_hash = Some(EMPTY_SHA256.to_string());
    d.src = Some(Src { urls: vec!["https://ftp.gnu.org/hello.tar.gz".to_string()], hash: None });
    d.meta = Some(Meta {
        license: Some(LicenseField::LicenseList(LicenseList(vec![license("GPL", Some("GPL-3.0-or-later"))]))),
        homepage: Some("https://www.gnu.org/software/hello".to_string()),
        description: Some("A program that produces a familiar, friendly greeting".to_string()),
        identifiers: Some(Identifiers { cpe: None, possible_cpes: Some(vec![Cpe { cpe: Some("cpe:x".to_string()) }]) }),
    });
    d.patches = vec!["/nix/store/p-fix.patch".to_string()];
    assert!(sources_are_valid(&d));
    let c = CycloneDXComponent::from_derivation(d);
    assert_eq!(c.bom_ref.as_deref(), Some("abc-hello-2.12"));
    assert_eq!(c.name, "hello");
    assert_eq!(c.purl.as_deref(), Some("pkg:nix/hello@2.12"));
    let n = nix(&c);
    assert_eq!(n.version, "2.12");
    assert_eq!(n.scope, Some(Scope::Required));
    let hashes = n.hashes.as_ref().map(|v| (v[0].alg, v[0].content.clone()));
    assert_eq!(hashes, Some((HashAlgorithm::Sha256, EMPTY_SHA256_HEX.to_string())));
    assert!(matches!(n.licenses.as_deref(), Some([LicenseChoice::SpdxId(s)]) if s == "GPL-3.0-or-later"));
    assert_eq!(n.description.as_deref(), Some("A program that produces a familiar, friendly greeting"));
    assert_eq!(n.cpe, None);
    let evidence: Option<Vec<Option<String>>> = n.evidence.as_ref().map(|v| v.iter().map(|m| m.value.clone()).collect());
    assert_eq!(evidence, Some(vec![Some("cpe:x".to_string())]));
    let refs = match &n.external_references {
        Some(r) => r,
        None => panic!("no references"),
    };
    assert_eq!(refs.len(), 2);
    assert_eq!(refs[0].reference_type, ExternalReferenceType::Vcs);
    assert_eq!(refs[0].url, "https://ftp.gnu.org/hello.tar.gz");
    assert_eq!(refs[1].reference_type, ExternalReferenceType::Website);
    assert_eq!(n.patches, Some(vec!["/nix/store/p-fix.patch".to_string()]));
}

#[test]
fn component_from_bare_derivation() {
    let c = CycloneDXComponent::from_derivation(drv("/nix/store/xyz-foo", Some("foo"), None, None));
    assert_eq!(c.bom_ref.as_deref(), Some("xyz-foo"));
    assert_eq!(c.name, "foo");
    assert_eq!(c.purl.as_deref(), Some("pkg:nix/foo"));
    let n = nix(&c);
    assert_eq!(n.version, "");
    assert!(n.hashes.is_none());
    assert!(n.licenses.is_none());
    assert!(n.external_references.is_none());
    assert!(n.patches.is_none());
}

#[test]
fn component_cpe_wins_over_possible_cpes() {
    let mut d = drv("/nix/store/q-x-1", None, Some("x"), Some("1"));
    d.meta = Some(Meta {
        license: None,
        homepage: None,
        description: None,
        identifiers: Some(Identifiers {
            cpe: Some("cpe:2.3:a:x:x:1".to_string()),
            possible_cpes: Some(vec![Cpe { cpe: Some("cpe:other".to_string()) }]),
        }),
    });
    let c = CycloneDXComponent::from_derivation(d);
    let n = nix(&c);
    assert_eq!(n.cpe.as_deref(), Some("cpe:2.3:a:x:x:1"));
    assert!(n.evidence.is_none());
}

#[test]
fn component_without_name_has_no_purl() {
    let c = CycloneDXComponent::from_derivation(drv("/nix/store/q", None, None, Some("1")));
    assert_eq!(c.name, "");
    assert!(c.purl.is_none());
}

#[test]
fn empty_source_urls_give_no_reference() {
    let mut d = drv("/nix/store/q-x-1", None, Some("x"), Some("1"));
    d.src = Some(Src { urls: vec![], hash: Some(EMPTY_SHA256.to_string()) });
    assert!(sources_are_valid(&d));
    let c = CycloneDXComponent::from_derivation(d);
    assert!(nix(&c).external_references.is_none());
    let mut bad = drv("/nix/store/q-x-1", None, Some("x"), Some("1"));
    bad.src = Some(Src { urls: vec!["".to_string()], hash: None });
    assert!(!sources_are_valid(&bad));
}

#[test]
fn components_from_derivations_in_order() {
    let cs = CycloneDXComponents::from_derivations(vec![
        drv("/nix/store/b-b-1", None, Some("b"), Some("1")),
        drv("/nix/store/a-a-1", None, Some("a"), Some("1")),
    ]);
    let names: Vec<&str> = cs.0.iter().map(|c| c.name.as_str()).collect();
    assert_eq!(names, vec!["b", "a"]);
}
